use exex_examples::oracle_cli::{
    parse_port, split_commas, ArgError, OracleExt, DEFAULT_BINANCE_SYMBOLS, DEFAULT_DISCOVERY_PORT,
    DEFAULT_RLPX_PORT,
};

#[test]
fn test_oracle_ext() {
    let cli = OracleExt::parse_from(&[
        "test",
        "--disc.tcp-port",
        "30304",
        "--disc.udp-port",
        "30303",
        "--data.symbols",
        "btcusdt,ethusdt",
    ])
    .unwrap();
    assert_eq!(cli.tcp_port, 30304);
    assert_eq!(cli.udp_port, 30303);
    assert_eq!(cli.binance_symbols, vec!["btcusdt", "ethusdt"]);
}

#[test]
fn defaults_apply_when_nothing_is_given() {
    let cli = OracleExt::parse_from(&["oracle"]).unwrap();
    assert_eq!(cli.tcp_port, DEFAULT_RLPX_PORT);
    assert_eq!(cli.udp_port, DEFAULT_DISCOVERY_PORT);
    assert_eq!(cli.tcp_port, 30303);
    assert_eq!(cli.udp_port, 30304);
    assert_eq!(cli.binance_symbols, vec!["btcusdt", "ethusdt"]);
    assert_eq!(DEFAULT_BINANCE_SYMBOLS, "btcusdt,ethusdt");
}

#[test]
fn equals_form_and_repeated_symbols() {
    let cli = OracleExt::parse_from(&[
        "oracle",
        "--disc.udp-port=1",
        "--data.symbols=solusdt",
        "--data.symbols",
        "dogeusdt,bnbusdt",
    ])
    .unwrap();
    assert_eq!(cli.tcp_port, 30303);
    assert_eq!(cli.udp_port, 1);
    assert_eq!(cli.binance_symbols, vec!["solusdt", "dogeusdt", "bnbusdt"]);
}

#[test]
fn refused_command_lines() {
    assert_eq!(
        OracleExt::parse_from(&["oracle", "--disc.tcp-port"]).unwrap_err(),
        ArgError::MissingValue("disc.tcp-port".to_string())
    );
    assert_eq!(
        OracleExt::parse_from(&["oracle", "--disc.tcp-port", "--disc.udp-port", "1"]).unwrap_err(),
        ArgError::MissingValue("disc.tcp-port".to_string())
    );
    assert_eq!(
        OracleExt::parse_from(&["oracle", "--disc.tcp-port", "70000"]).unwrap_err(),
        ArgError::InvalidPort("70000".to_string())
    );
    assert_eq!(
        OracleExt::parse_from(&["oracle", "--disc.tcp-port=1", "--disc.tcp-port=2"]).unwrap_err(),
        ArgError::Repeated("disc.tcp-port".to_string())
    );
    assert_eq!(
        OracleExt::parse_from(&["oracle", "--verbose"]).unwrap_err(),
        ArgError::UnknownArgument("--verbose".to_string())
    );
    assert_eq!(
        OracleExt::parse_from(&["oracle", "30303"]).unwrap_err(),
        ArgError::UnknownArgument("30303".to_string())
    );
}

#[test]
fn ports_are_signed_numbers_in_range() {
    assert_eq!(parse_port("0"), Some(0));
    assert_eq!(parse_port("65535"), Some(65535));
    assert_eq!(parse_port("+80"), Some(80));
    assert_eq!(parse_port("-0"), Some(0));
    assert_eq!(parse_port("007"), Some(7));
    assert_eq!(parse_port("65536"), None);
    assert_eq!(parse_port("-1"), None);
    assert_eq!(parse_port(""), None);
    assert_eq!(parse_port("+"), None);
    assert_eq!(parse_port("8a"), None);
    assert_eq!(parse_port("99999999999999999999999"), None);
}

#[test]
fn commas_split_into_pieces() {
    assert_eq!(split_commas("a,b,,c"), vec!["a", "b", "", "c"]);
    assert_eq!(split_commas(""), vec![""]);
    assert_eq!(split_commas("btcusdt"), vec!["btcusdt"]);
}
