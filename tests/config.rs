use prover::config::{
    get_env, parse_bool, parse_env, parse_env_with, parse_list, parse_u64, AvailableBlockSizesConfig,
    ConfigErrorKind, EnvVars, EthSenderOptions, MiniblockTimings, ProverOptions,
};

fn env(pairs: &[(&str, &str)]) -> EnvVars {
    let mut e = EnvVars::new();
    for (k, v) in pairs {
        e.set(k.to_string(), v.to_string());
    }
    e
}

#[test]
fn decimal_parsing() {
    assert_eq!(parse_u64("0"), Some(0));
    assert_eq!(parse_u64("+42"), Some(42));
    assert_eq!(parse_u64("18446744073709551615"), Some(u64::MAX));
    assert_eq!(parse_u64("18446744073709551616"), None);
    assert_eq!(parse_u64(""), None);
    assert_eq!(parse_u64("+"), None);
    assert_eq!(parse_u64("-1"), None);
    assert_eq!(parse_u64("12a"), None);
    assert_eq!(parse_u64(" 1"), None);
}

#[test]
fn bool_parsing() {
    assert_eq!(parse_bool("true"), Some(true));
    assert_eq!(parse_bool("false"), Some(false));
    assert_eq!(parse_bool("True"), None);
    assert_eq!(parse_bool(""), None);
}

#[test]
fn list_parsing() {
    assert_eq!(parse_list("6,30,74", u64::MAX), Some(vec![6, 30, 74]));
    assert_eq!(parse_list("5", 10), Some(vec![5]));
    assert_eq!(parse_list("5,11", 10), None);
    assert_eq!(parse_list("1,,2", 10), None);
    assert_eq!(parse_list("", 10), None);
    assert_eq!(parse_list("1,", 10), None);
}

#[test]
fn lookup_takes_latest_value() {
    let e = env(&[("A", "1"), ("B", "x"), ("A", "2")]);
    assert_eq!(get_env(&e, "A").unwrap(), "2");
    assert_eq!(parse_env(&e, "A").unwrap(), 2);
    let err = parse_env(&e, "B").unwrap_err();
    assert_eq!(err.kind, ConfigErrorKind::Invalid);
    assert_eq!(err.name, "B");
    let err = get_env(&e, "C").unwrap_err();
    assert_eq!(err.kind, ConfigErrorKind::Missing);
    assert_eq!(err.name, "C");
}

#[test]
fn prefixed_value() {
    let e = env(&[("H", "0x1234"), ("S", "0")]);
    assert_eq!(parse_env_with(&e, "H", 2).unwrap(), 1234);
    assert_eq!(parse_env_with(&e, "S", 2).unwrap_err().kind, ConfigErrorKind::Invalid);
    assert_eq!(parse_env_with(&e, "Z", 2).unwrap_err().kind, ConfigErrorKind::Missing);
}

#[test]
fn eth_sender_options() {
    let mut e = env(&[
        ("ETH_TX_POLL_PERIOD", "3"),
        ("ETH_EXPECTED_WAIT_TIME_BLOCK", "30"),
        ("ETH_WAIT_CONFIRMATIONS", "1"),
        ("ETH_MAX_TXS_IN_FLIGHT", "3"),
        ("ETH_IS_ENABLED", "true"),
    ]);
    let o = EthSenderOptions::from_env(&e).unwrap();
    assert_eq!(
        o,
        EthSenderOptions {
            expected_wait_time_block: 30,
            tx_poll_period: 3,
            wait_confirmations: 1,
            max_txs_in_flight: 3,
            is_enabled: true,
        }
    );
    e.set("ETH_IS_ENABLED".to_string(), "yes".to_string());
    let err = EthSenderOptions::from_env(&e).unwrap_err();
    assert_eq!((err.kind, err.name.as_str()), (ConfigErrorKind::Invalid, "ETH_IS_ENABLED"));
}

#[test]
fn prover_options_report_first_missing() {
    let e = env(&[("PROVER_PREPARE_DATA_INTERVAL", "500"), ("PROVER_CYCLE_WAIT", "x")]);
    let err = ProverOptions::from_env(&e).unwrap_err();
    assert_eq!((err.kind, err.name.as_str()), (ConfigErrorKind::Missing, "PROVER_HEARTBEAT_INTERVAL"));
    let e = env(&[
        ("PROVER_PREPARE_DATA_INTERVAL", "500"),
        ("PROVER_HEARTBEAT_INTERVAL", "1000"),
        ("PROVER_CYCLE_WAIT", "500"),
        ("PROVER_GONE_TIMEOUT", "60000"),
    ]);
    let o = ProverOptions::from_env(&e).unwrap();
    assert_eq!(
        o,
        ProverOptions { prepare_data_interval: 500, heartbeat_interval: 1000, cycle_wait: 500, gone_timeout: 60000 }
    );
}

#[test]
fn miniblock_timings_fast_fallback() {
    let mut e = env(&[("MINIBLOCKS_ITERATIONS", "10"), ("MINIBLOCK_ITERATION_INTERVAL", "200")]);
    let t = MiniblockTimings::from_env(&e).unwrap();
    assert_eq!(
        t,
        MiniblockTimings { miniblock_iteration_interval: 200, max_miniblock_iterations: 10, fast_miniblock_iterations: 10 }
    );
    e.set("FAST_BLOCK_MINIBLOCKS_ITERATIONS".to_string(), "5".to_string());
    assert_eq!(MiniblockTimings::from_env(&e).unwrap().fast_miniblock_iterations, 5);
}

#[test]
fn block_sizes_config() {
    let e = env(&[
        ("SUPPORTED_BLOCK_CHUNKS_SIZES", "6,30,74"),
        ("SUPPORTED_BLOCK_CHUNKS_SIZES_SETUP_POWERS", "21,22,23"),
    ]);
    let c = AvailableBlockSizesConfig::from_env(&e).unwrap();
    assert_eq!(c.blocks_chunks, vec![6usize, 30, 74]);
    assert_eq!(c.blocks_setup_power2, vec![21u32, 22, 23]);
    let e = env(&[
        ("SUPPORTED_BLOCK_CHUNKS_SIZES", "6,30"),
        ("SUPPORTED_BLOCK_CHUNKS_SIZES_SETUP_POWERS", "21,22,23"),
    ]);
    assert_eq!(AvailableBlockSizesConfig::from_env(&e).unwrap_err().kind, ConfigErrorKind::LengthMismatch);
    let e = env(&[
        ("SUPPORTED_BLOCK_CHUNKS_SIZES", "6"),
        ("SUPPORTED_BLOCK_CHUNKS_SIZES_SETUP_POWERS", "4294967296"),
    ]);
    assert_eq!(AvailableBlockSizesConfig::from_env(&e).unwrap_err().kind, ConfigErrorKind::Invalid);
}
