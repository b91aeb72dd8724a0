use prover::config::{ConfigErrorKind, EnvVars};
use prover::price_source::{source_kind, PriceSourceKind, TokenPriceSource};

fn env(pairs: &[(&str, &str)]) -> EnvVars {
    let mut e = EnvVars::new();
    for (k, v) in pairs {
        e.set(k.to_string(), v.to_string());
    }
    e
}

#[test]
fn source_kind_by_lowercase_name() {
    assert_eq!(source_kind("coingecko"), Some(PriceSourceKind::CoinGecko));
    assert_eq!(source_kind("coinmarketcap"), Some(PriceSourceKind::CoinMarketCap));
    assert_eq!(source_kind("CoinGecko"), None);
    assert_eq!(source_kind("binance"), None);
}

#[test]
fn price_source_name_is_case_insensitive() {
    let e = env(&[("TOKEN_PRICE_SOURCE", "CoinGecko"), ("COINGECKO_BASE_URL", "https://api.coingecko.com")]);
    match TokenPriceSource::from_env(&e).unwrap() {
        TokenPriceSource::CoinGecko { base_url } => assert_eq!(base_url.as_str(), "https://api.coingecko.com/"),
        other => panic!("unexpected source {:?}", other),
    }
}

#[test]
fn price_source_errors() {
    let e = env(&[("TOKEN_PRICE_SOURCE", "binance")]);
    let err = TokenPriceSource::from_env(&e).unwrap_err();
    assert_eq!((err.kind, err.name.as_str()), (ConfigErrorKind::Invalid, "TOKEN_PRICE_SOURCE"));
    let e = env(&[("TOKEN_PRICE_SOURCE", "coinmarketcap")]);
    let err = TokenPriceSource::from_env(&e).unwrap_err();
    assert_eq!((err.kind, err.name.as_str()), (ConfigErrorKind::Missing, "COINMARKETCAP_BASE_URL"));
    let e = env(&[("TOKEN_PRICE_SOURCE", "COINMARKETCAP"), ("COINMARKETCAP_BASE_URL", "not a url")]);
    let err = TokenPriceSource::from_env(&e).unwrap_err();
    assert_eq!((err.kind, err.name.as_str()), (ConfigErrorKind::Invalid, "COINMARKETCAP_BASE_URL"));
    let e = env(&[]);
    assert_eq!(TokenPriceSource::from_env(&e).unwrap_err().kind, ConfigErrorKind::Missing);
}
