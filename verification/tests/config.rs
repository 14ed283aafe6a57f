use criptomeria_marketdata::config::{
    default_nng_port, parse_data_kind, AppConfig, ConfigError, DataKind, InstrumentConfig,
    NngConfig, SourceConfig, DEFAULT_NNG_PORT,
};

/// Helper: build a `SourceConfig` with a single instrument keyed by `alias`.
fn source_with_instrument(alias: &str, instrument: &str) -> SourceConfig {
    SourceConfig {
        region: "global".into(),
        data_kind: "both".into(),
        instruments: vec![(
            alias.to_string(),
            InstrumentConfig {
                instrument: instrument.to_string(),
                ..Default::default()
            },
        )],
        ..Default::default()
    }
}

fn source(data_kind: &str, instruments: &[(&str, &str)]) -> SourceConfig {
    SourceConfig {
        region: "global".into(),
        data_kind: data_kind.into(),
        instruments: instruments
            .iter()
            .map(|(alias, instrument)| {
                (
                    alias.to_string(),
                    InstrumentConfig {
                        instrument: instrument.to_string(),
                        ..Default::default()
                    },
                )
            })
            .collect(),
        ..Default::default()
    }
}

/// The configuration of two exchanges, OKX (order books) and Kraken (trades),
/// one `btcusd` instrument each.
fn multi_exchange() -> AppConfig {
    AppConfig {
        source: vec![
            ("okx".to_string(), source("lob", &[("btcusd", "BTC-USDT")])),
            ("kraken".to_string(), source("trade", &[("btcusd", "XBT/USD")])),
        ],
        nng: NngConfig { port: 14242 },
    }
}

#[test]
fn parses_lob_kind() {
    assert_eq!(parse_data_kind("lob").unwrap(), DataKind::lob());
}

#[test]
fn parses_trade_kind() {
    assert_eq!(parse_data_kind("trade").unwrap(), DataKind::trade());
}

#[test]
fn parses_both_kinds() {
    assert_eq!(parse_data_kind("both").unwrap(), DataKind::both());
    assert_eq!(parse_data_kind("lob|trade").unwrap(), DataKind::both());
    assert_eq!(parse_data_kind("LOB|TRADE").unwrap(), DataKind::both());
}

#[test]
fn rejects_unknown_kind() {
    let err = parse_data_kind("bogus").unwrap_err();
    assert!(matches!(err, ConfigError::InvalidDataKind(_)));
}

#[test]
fn data_kind_ignores_white_space_and_case() {
    assert_eq!(parse_data_kind("  Trade \t").unwrap(), DataKind::trade());
    assert_eq!(parse_data_kind("\u{3000}lob,TRADE\n").unwrap(), DataKind::both());
    assert_eq!(
        parse_data_kind(" Lob | Trade "),
        Err(ConfigError::InvalidDataKind("lob | trade".to_string()))
    );
    assert_eq!(
        parse_data_kind(""),
        Err(ConfigError::InvalidDataKind(String::new()))
    );
}

#[test]
fn config_errors_describe_themselves() {
    assert_eq!(
        ConfigError::InvalidToml("bad".into()).message(),
        "invalid config toml: bad"
    );
    assert_eq!(
        ConfigError::InvalidDataKind("x".into()).message(),
        "invalid data_kind: x (use lob, trade, both, or lob|trade)"
    );
    assert_eq!(
        ConfigError::InvalidSource("y".into()).message(),
        "invalid source config: y"
    );
}

#[test]
fn nng_port_defaults_to_14242() {
    assert_eq!(default_nng_port(), 14242);
    assert_eq!(DEFAULT_NNG_PORT, 14242);
}

#[test]
fn resolve_credentials_returns_config_value_when_present() {
    let source = SourceConfig {
        region: "global".into(),
        data_kind: "both".into(),
        api_key: Some("config-key".into()),
        api_secret: Some("config-secret".into()),
        ..Default::default()
    };
    let (key, secret) = source.resolve_credentials("bitvavo", None, None);
    assert_eq!(key, Some("config-key".into()));
    assert_eq!(secret, Some("config-secret".into()));
}

#[test]
fn resolve_credentials_falls_back_to_env_for_bitvavo() {
    let source = SourceConfig {
        region: "global".into(),
        data_kind: "both".into(),
        ..Default::default()
    };
    let (key, secret) = source.resolve_credentials(
        "bitvavo",
        Some("env-key".into()),
        Some("env-secret".into()),
    );
    assert_eq!(key, Some("env-key".into()));
    assert_eq!(secret, Some("env-secret".into()));
}

#[test]
fn resolve_credentials_returns_none_when_no_config_or_env() {
    let source = SourceConfig {
        region: "global".into(),
        data_kind: "both".into(),
        ..Default::default()
    };
    let (key, secret) = source.resolve_credentials("bitvavo", None, None);
    assert_eq!(key, None);
    assert_eq!(secret, None);
}

#[test]
fn resolve_credentials_ignores_env_for_non_bitvavo() {
    let source = SourceConfig {
        region: "global".into(),
        data_kind: "both".into(),
        ..Default::default()
    };
    let (key, secret) = source.resolve_credentials(
        "okx",
        Some("should-not-apply".into()),
        Some("should-not-apply".into()),
    );
    assert_eq!(key, None);
    assert_eq!(secret, None);
}

#[test]
fn resolve_credentials_config_takes_precedence_over_env() {
    let source = SourceConfig {
        region: "global".into(),
        data_kind: "both".into(),
        api_key: Some("config-key".into()),
        api_secret: Some("config-secret".into()),
        ..Default::default()
    };
    let (key, secret) = source.resolve_credentials(
        "bitvavo",
        Some("env-key".into()),
        Some("env-secret".into()),
    );
    assert_eq!(key, Some("config-key".into()));
    assert_eq!(secret, Some("config-secret".into()));
}

#[test]
fn resolve_credentials_treats_empty_env_value_as_absent() {
    let source = SourceConfig::default();
    let (key, secret) =
        source.resolve_credentials("bitvavo", Some(String::new()), Some("s".into()));
    assert_eq!(key, None);
    assert_eq!(secret, Some("s".into()));
}

#[test]
fn to_data_source_uses_empty_alias_as_none() {
    let source = source_with_instrument("", "BTC-USDT");
    let inst = &source.instruments[0].1;
    let data_source = source.to_data_source("okx", "", inst, None, None).unwrap();
    assert_eq!(data_source.alias, None);
}

#[test]
fn to_data_source_forwards_api_credentials() {
    let mut source = source_with_instrument("btcusd", "BTC-EUR");
    source.api_key = Some("my-key".into());
    source.api_secret = Some("my-secret".into());
    let inst = &source.instruments[0].1;
    let data_source = source
        .to_data_source("bitvavo", "btcusd", inst, None, None)
        .unwrap();
    assert_eq!(data_source.api_key, Some("my-key".into()));
    assert_eq!(data_source.api_secret, Some("my-secret".into()));
}

#[test]
fn to_data_source_sets_credentials_none_for_okx() {
    let source = source_with_instrument("btcusd", "BTC-USDT");
    let source = SourceConfig {
        region: "global".into(),
        data_kind: "lob".into(),
        ..source
    };
    let inst = &source.instruments[0].1;
    let data_source = source
        .to_data_source("okx", "btcusd", inst, Some("k".into()), Some("s".into()))
        .unwrap();
    assert_eq!(data_source.api_key, None);
    assert_eq!(data_source.api_secret, None);
}

#[test]
fn to_data_source_forwards_fields_and_alias() {
    let mut source = source_with_instrument("btcusd", "BTC-USDT");
    source.checksum_log = true;
    source.silence_timeout_secs = Some(30);
    source.instruments[0].1.max_level = Some(5);
    let inst = &source.instruments[0].1;
    let plan = source.to_data_source("okx", "btcusd", inst, None, None).unwrap();
    assert_eq!(plan.exchange, "okx");
    assert_eq!(plan.region, "global");
    assert_eq!(plan.instrument, "BTC-USDT");
    assert_eq!(plan.alias.as_deref(), Some("btcusd"));
    assert_eq!(plan.data_kind, DataKind::both());
    assert_eq!(plan.max_level, Some(5));
    assert!(plan.checksum_log);
    assert!(!plan.crossguard_log);
    assert_eq!(plan.silence_timeout_secs, Some(30));
}

#[test]
fn to_data_source_rejects_invalid_data_kind() {
    let mut source = source_with_instrument("btcusd", "BTC-USDT");
    source.data_kind = "Bids".into();
    let inst = &source.instruments[0].1;
    let err = source
        .to_data_source("okx", "btcusd", inst, None, None)
        .unwrap_err();
    assert_eq!(err, ConfigError::InvalidDataKind("bids".into()));
}

#[test]
fn exchange_sources_returns_all_exchanges_sorted_alphabetically() {
    let config = multi_exchange();
    let sources = config.exchange_sources().unwrap();
    let exchanges: Vec<&str> = sources.iter().map(|(e, _)| e.as_str()).collect();
    assert_eq!(exchanges, vec!["kraken", "okx"]);
    assert_eq!(sources.len(), 2);
}

#[test]
fn exchange_sources_errors_when_no_exchanges() {
    let mut config = multi_exchange();
    config.source.clear();
    let result = config.exchange_sources();
    assert!(result.is_err());
    assert_eq!(
        result.unwrap_err(),
        ConfigError::InvalidSource("no [source.<exchange>] section found in config".into())
    );
}

#[test]
fn validated_sources_builds_one_source_per_instrument() {
    let config = multi_exchange();
    let sources = config.planned_sources(None, None).unwrap();
    assert_eq!(sources.len(), 2);
    let exchanges: Vec<&str> = sources.iter().map(|s| s.exchange.as_str()).collect();
    assert_eq!(exchanges, vec!["kraken", "okx"]);
    let kraken = sources
        .iter()
        .find(|s| s.exchange == "kraken")
        .expect("kraken should be present");
    assert_eq!(kraken.instrument, "XBT/USD");
    let okx = sources
        .iter()
        .find(|s| s.exchange == "okx")
        .expect("okx should be present");
    assert_eq!(okx.instrument, "BTC-USDT");
}

#[test]
fn validated_sources_builds_multiple_instruments_per_exchange() {
    let config = AppConfig {
        source: vec![(
            "okx".to_string(),
            source("both", &[("ethusd", "ETH-USDT"), ("btcusd", "BTC-USDT")]),
        )],
        nng: NngConfig { port: 14242 },
    };
    let sources = config.planned_sources(None, None).unwrap();
    assert_eq!(sources.len(), 2);
    // Sorted by alias: "btcusd" < "ethusd"
    let instruments: Vec<&str> = sources.iter().map(|s| s.instrument.as_str()).collect();
    assert_eq!(instruments, vec!["BTC-USDT", "ETH-USDT"]);
}

#[test]
fn validated_sources_includes_suffix_topic() {
    let mut okx = source("both", &[("btcusd", "BTC-USDT")]);
    okx.instruments[0].1.suffix_topic = Some("btcusdt".into());
    let config = AppConfig {
        source: vec![("okx".to_string(), okx)],
        nng: NngConfig { port: 14242 },
    };
    let sources = config.planned_sources(None, None).unwrap();
    let okx = sources
        .iter()
        .find(|s| s.exchange == "okx")
        .expect("okx should be present");
    assert_eq!(okx.suffix_topic, Some("btcusdt".to_string()));
}

#[test]
fn planned_sources_keep_each_instruments_own_result() {
    let config = AppConfig {
        source: vec![
            ("okx".to_string(), source("bogus", &[("b", "B"), ("a", "A")])),
            ("bitvavo".to_string(), source("trade", &[("x", "X")])),
        ],
        nng: NngConfig { port: 1 },
    };
    let sources = config
        .planned_sources(Some("env-key".into()), Some("env-secret".into()))
        .unwrap();
    let keys: Vec<(&str, &str)> = sources
        .iter()
        .map(|s| (s.exchange.as_str(), s.alias.as_str()))
        .collect();
    assert_eq!(keys, vec![("bitvavo", "x"), ("okx", "a"), ("okx", "b")]);
    let bitvavo = sources[0].plan.as_ref().unwrap();
    assert_eq!(bitvavo.api_key.as_deref(), Some("env-key"));
    assert_eq!(bitvavo.api_secret.as_deref(), Some("env-secret"));
    assert_eq!(
        sources[1].plan.as_ref().unwrap_err(),
        &ConfigError::InvalidDataKind("bogus".into())
    );
    let mut empty = config.clone();
    empty.source.clear();
    assert!(empty.planned_sources(None, None).is_err());
}

#[test]
fn override_silence_timeout_secs_sets_value_on_all_sources() {
    let mut config = multi_exchange();
    config.override_silence_timeout_secs(Some(45));
    for (_, source) in config.source.iter() {
        assert_eq!(source.silence_timeout_secs, Some(45));
    }
}

#[test]
fn override_silence_timeout_secs_none_leaves_existing_values() {
    let mut config = multi_exchange();
    config.source[0].1.silence_timeout_secs = Some(30);
    let before = config.source[0].1.silence_timeout_secs;
    config.override_silence_timeout_secs(None);
    assert_eq!(config.source[0].1.silence_timeout_secs, before);
    assert_eq!(config.source[1].1.silence_timeout_secs, None);
}

#[test]
fn checksum_and_crossguard_log_are_forwarded() {
    let mut kraken = source("both", &[("btcusd", "btcusd")]);
    kraken.checksum_log = true;
    kraken.crossguard_log = true;
    let config = AppConfig {
        source: vec![
            ("kraken".to_string(), kraken),
            ("okx".to_string(), source("both", &[("btcusd", "BTC-USDT")])),
        ],
        nng: NngConfig { port: 14242 },
    };
    let sources = config.planned_sources(None, None).unwrap();
    let kraken = sources[0].plan.as_ref().unwrap();
    assert!(kraken.checksum_log);
    assert!(kraken.crossguard_log);
    let okx = sources[1].plan.as_ref().unwrap();
    assert!(!okx.checksum_log);
    assert!(!okx.crossguard_log);
}

fn planned_two() -> Vec<criptomeria_marketdata::config::PlannedSource> {
    let config = AppConfig {
        source: vec![
            ("okx".to_string(), source("lob", &[("btcusd", "BTC-USDT")])),
            ("kraken".to_string(), source("bogus", &[("btcusd", "XBT/USD")])),
        ],
        nng: NngConfig { port: 14242 },
    };
    config.planned_sources(None, None).unwrap()
}

#[test]
fn validated_sources_keeps_every_accepted_instrument_in_order() {
    let config = multi_exchange();
    let planned = config.planned_sources(None, None).unwrap();
    let checked: Vec<Result<u32, ConfigError>> = vec![Ok(1), Ok(2)];
    let sources = AppConfig::validated_sources(planned, checked).unwrap();
    assert_eq!(
        sources,
        vec![
            ("kraken".to_string(), "XBT/USD".to_string(), 1, None),
            ("okx".to_string(), "BTC-USDT".to_string(), 2, None),
        ]
    );
}

#[test]
fn validated_sources_fails_with_the_first_failure() {
    // kraken (first) has an invalid data kind; okx is rejected by its check.
    let checked: Vec<Result<u32, ConfigError>> = vec![
        Ok(1),
        Err(ConfigError::InvalidSource("rejected".into())),
    ];
    let err = AppConfig::validated_sources(planned_two(), checked).unwrap_err();
    assert_eq!(err, ConfigError::InvalidDataKind("bogus".into()));

    let mut config = multi_exchange();
    config.source[0].1.data_kind = "lob".into();
    let planned = config.planned_sources(None, None).unwrap();
    let checked: Vec<Result<u32, ConfigError>> = vec![
        Err(ConfigError::InvalidSource("unknown exchange".into())),
        Err(ConfigError::InvalidSource("second".into())),
    ];
    let err = AppConfig::validated_sources(planned, checked).unwrap_err();
    assert_eq!(err, ConfigError::InvalidSource("unknown exchange".into()));
}
