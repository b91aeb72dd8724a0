//! Where token prices come from, chosen by name from the environment, with
//! the base URL of the chosen service.
use vstd::prelude::*;

use crate::config::{env_lookup, fails_with, get_env, ConfigError, ConfigErrorKind, EnvVars};

verus! {

#[verifier::external_type_specification]
#[verifier::external_body]
pub struct ExUrl(url::Url);

#[verifier::external_type_specification]
#[verifier::external_body]
pub struct ExUrlParseError(url::ParseError);

/// Whether `url::Url::parse` accepts `s` as an absolute URL.
pub uninterp spec fn url_parses(s: Seq<char>) -> bool;

/// What `str::to_lowercase` makes of `s`.
pub uninterp spec fn lower_of(s: Seq<char>) -> Seq<char>;

/// Relies on `url::Url::parse`: it succeeds or fails on the text alone (no
/// base URL, no violation callback).
#[verifier::external_body]
fn parse_url(s: &str) -> (r: Result<url::Url, url::ParseError>)
    ensures
        r is Ok == url_parses(s@),
{
    url::Url::parse(s)
}

/// Relies on `str::to_lowercase`: the result depends on the characters alone.
#[verifier::external_body]
fn lowercase(s: &str) -> (r: String)
    ensures
        r@ == lower_of(s@),
{
    s.to_lowercase()
}

/// The services that quote token prices.
#[derive(PartialEq, Eq, Structural, Clone, Copy, Debug)]
pub enum PriceSourceKind {
    CoinMarketCap,
    CoinGecko,
}

pub open spec fn source_kind_of(lowered: Seq<char>) -> Option<PriceSourceKind> {
    if lowered == "coinmarketcap"@ {
        Some(PriceSourceKind::CoinMarketCap)
    } else if lowered == "coingecko"@ {
        Some(PriceSourceKind::CoinGecko)
    } else {
        None
    }
}

/// The variable that holds the base URL of `kind`.
pub open spec fn base_url_var(kind: PriceSourceKind) -> Seq<char> {
    match kind {
        PriceSourceKind::CoinMarketCap => "COINMARKETCAP_BASE_URL"@,
        PriceSourceKind::CoinGecko => "COINGECKO_BASE_URL"@,
    }
}

/// The service named by an already lower-cased source name.
pub fn source_kind(lowered: &str) -> (r: Option<PriceSourceKind>)
    ensures
        r == source_kind_of(lowered@),
{
    if crate::config::same_text(lowered, "coinmarketcap") {
        Some(PriceSourceKind::CoinMarketCap)
    } else if crate::config::same_text(lowered, "coingecko") {
        Some(PriceSourceKind::CoinGecko)
    } else {
        None
    }
}

#[derive(Debug)]
pub enum TokenPriceSource {
    CoinMarketCap { base_url: url::Url },
    CoinGecko { base_url: url::Url },
}

impl TokenPriceSource {
    pub open spec fn kind_spec(&self) -> PriceSourceKind {
        match self {
            TokenPriceSource::CoinMarketCap { .. } => PriceSourceKind::CoinMarketCap,
            TokenPriceSource::CoinGecko { .. } => PriceSourceKind::CoinGecko,
        }
    }

    pub fn kind(&self) -> (r: PriceSourceKind)
        ensures
            r == self.kind_spec(),
    {
        match self {
            TokenPriceSource::CoinMarketCap { .. } => PriceSourceKind::CoinMarketCap,
            TokenPriceSource::CoinGecko { .. } => PriceSourceKind::CoinGecko,
        }
    }

    /// Reads `TOKEN_PRICE_SOURCE` (case does not matter) and the base URL of
    /// the service it names.
    pub fn from_env(env: &EnvVars) -> (r: Result<Self, ConfigError>)
        ensures
            match env_lookup(env.entries(), "TOKEN_PRICE_SOURCE"@) {
                None => fails_with(r, ConfigErrorKind::Missing, "TOKEN_PRICE_SOURCE"@),
                Some(v) => match source_kind_of(lower_of(v)) {
                    None => fails_with(r, ConfigErrorKind::Invalid, "TOKEN_PRICE_SOURCE"@),
                    Some(k) => match env_lookup(env.entries(), base_url_var(k)) {
                        None => fails_with(r, ConfigErrorKind::Missing, base_url_var(k)),
                        Some(u) => if url_parses(u) {
                            r matches Ok(s) && s.kind_spec() == k
                        } else {
                            fails_with(r, ConfigErrorKind::Invalid, base_url_var(k))
                        },
                    },
                },
            },
    {
        let name = match get_env(env, "TOKEN_PRICE_SOURCE") {
            Ok(n) => n,
            Err(e) => return Err(e),
        };
        let lowered = lowercase(name.as_str());
        match source_kind(lowered.as_str()) {
            None => Err(ConfigError { kind: ConfigErrorKind::Invalid, name: "TOKEN_PRICE_SOURCE".to_owned() }),
            Some(PriceSourceKind::CoinMarketCap) => {
                let var = "COINMARKETCAP_BASE_URL";
                let text = match get_env(env, var) {
                    Ok(t) => t,
                    Err(e) => return Err(e),
                };
                match parse_url(text.as_str()) {
                    Ok(base_url) => Ok(TokenPriceSource::CoinMarketCap { base_url }),
                    Err(_) => Err(ConfigError { kind: ConfigErrorKind::Invalid, name: var.to_owned() }),
                }
            },
            Some(PriceSourceKind::CoinGecko) => {
                let var = "COINGECKO_BASE_URL";
                let text = match get_env(env, var) {
                    Ok(t) => t,
                    Err(e) => return Err(e),
                };
                match parse_url(text.as_str()) {
                    Ok(base_url) => Ok(TokenPriceSource::CoinGecko { base_url }),
                    Err(_) => Err(ConfigError { kind: ConfigErrorKind::Invalid, name: var.to_owned() }),
                }
            },
        }
    }
}

} // verus!
