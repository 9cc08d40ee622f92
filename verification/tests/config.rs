//! The command-line parser: defaults, each flag, overrides, and every
//! rejection, with the port reader held against `str::parse::<u16>`.

use script_relay::config::{ConfigError, ServerConfig};
use script_relay::decimal::parse_u16;

fn args(list: &[&str]) -> Vec<String> {
    list.iter().map(|s| s.to_string()).collect()
}

#[test]
fn defaults_with_no_arguments() {
    let c = ServerConfig::from_args(&args(&["prog"])).unwrap();
    assert_eq!(c.http_host, "localhost");
    assert_eq!(c.http_port, 13377);
    assert_eq!(c.ws_host, "localhost");
    assert_eq!(c.ws_port, 13378);
}

#[test]
fn http_port_flag_sets_only_the_http_port() {
    let c = ServerConfig::from_args(&args(&["prog", "--http-port", "8080"])).unwrap();
    assert_eq!(c.http_port, 8080);
    assert_eq!(c.ws_port, 13378);
    assert_eq!(c.http_host, "localhost");
}

#[test]
fn ws_port_flag_sets_only_the_ws_port() {
    let c = ServerConfig::from_args(&args(&["prog", "--ws-port", "9090"])).unwrap();
    assert_eq!(c.http_port, 13377);
    assert_eq!(c.ws_port, 9090);
}

#[test]
fn host_flag_sets_both_hosts() {
    let c = ServerConfig::from_args(&args(&["prog", "--host", "0.0.0.0"])).unwrap();
    assert_eq!(c.http_host, "0.0.0.0");
    assert_eq!(c.ws_host, "0.0.0.0");
}

#[test]
fn later_flags_override_earlier_ones() {
    let c = ServerConfig::from_args(&args(&[
        "prog", "--http-port", "1000", "--host", "example", "--http-port", "2000",
    ]))
    .unwrap();
    assert_eq!(c.http_port, 2000);
    assert_eq!(c.http_host, "example");
    assert_eq!(c.ws_host, "example");
}

#[test]
fn unknown_argument_is_rejected() {
    let r = ServerConfig::from_args(&args(&["prog", "--verbose"]));
    assert_eq!(r.unwrap_err(), ConfigError::UnknownArgument);
}

#[test]
fn flags_without_values_are_rejected() {
    assert_eq!(
        ServerConfig::from_args(&args(&["prog", "--http-port"])).unwrap_err(),
        ConfigError::MissingHttpPortValue
    );
    assert_eq!(
        ServerConfig::from_args(&args(&["prog", "--ws-port"])).unwrap_err(),
        ConfigError::MissingWsPortValue
    );
    assert_eq!(
        ServerConfig::from_args(&args(&["prog", "--host"])).unwrap_err(),
        ConfigError::MissingHostValue
    );
}

#[test]
fn unparsable_ports_are_rejected() {
    assert_eq!(
        ServerConfig::from_args(&args(&["prog", "--http-port", "abc"])).unwrap_err(),
        ConfigError::InvalidHttpPort
    );
    assert_eq!(
        ServerConfig::from_args(&args(&["prog", "--http-port", "70000"])).unwrap_err(),
        ConfigError::InvalidHttpPort
    );
    assert_eq!(
        ServerConfig::from_args(&args(&["prog", "--ws-port", "-1"])).unwrap_err(),
        ConfigError::InvalidWsPort
    );
    assert_eq!(
        ServerConfig::from_args(&args(&["prog", "--ws-port", ""])).unwrap_err(),
        ConfigError::InvalidWsPort
    );
}

#[test]
fn port_reader_matches_std_parse() {
    let cases = [
        "0", "1", "13377", "65535", "65536", "99999999999999999999", "+42", "+", "-1", "-0", "",
        " 42", "42 ", "4 2", "0013", "abc", "1e3", "0x10",
    ];
    for s in cases {
        let owned = s.to_string();
        assert_eq!(
            parse_u16(&owned),
            s.parse::<u16>().ok(),
            "difference on {:?}",
            s
        );
    }
}
