use reverse_tcp::error::ServerError;
use reverse_tcp::server::{
    parse_port, IpAddress, Server, DEFAULT_LISTEN_ADDR, DEFAULT_LISTEN_PORT,
};

#[test]
fn parse_port_accepts_decimal() {
    assert_eq!(parse_port("4444"), Some(4444));
    assert_eq!(parse_port("0"), Some(0));
    assert_eq!(parse_port("65535"), Some(65535));
    assert_eq!(parse_port("+80"), Some(80));
    assert_eq!(parse_port("0080"), Some(80));
}

#[test]
fn parse_port_rejects_other_text() {
    assert_eq!(parse_port(""), None);
    assert_eq!(parse_port("+"), None);
    assert_eq!(parse_port("65536"), None);
    assert_eq!(parse_port("99999999999"), None);
    assert_eq!(parse_port("-1"), None);
    assert_eq!(parse_port("12a"), None);
    assert_eq!(parse_port(" 80"), None);
    assert_eq!(parse_port("fvgfdv3v"), None);
}

#[test]
fn defaults_are_valid() {
    assert_eq!(DEFAULT_LISTEN_ADDR, "0.0.0.0");
    assert_eq!(parse_port(DEFAULT_LISTEN_PORT), Some(4444));
    let s = Server::new(DEFAULT_LISTEN_ADDR, Some(IpAddress::V4([0, 0, 0, 0])), DEFAULT_LISTEN_PORT)
        .unwrap();
    assert_eq!(s.port(), 4444);
    assert_eq!(s.ip(), IpAddress::V4([0, 0, 0, 0]));
}

#[test]
fn invalid_address_is_reported_first() {
    match Server::new("not-an-ip", None, "nope") {
        Err(ServerError::InvalidIpAddress(s)) => assert_eq!(s, "not-an-ip"),
        other => panic!("unexpected {:?}", other),
    }
}

#[test]
fn invalid_port_is_reported() {
    match Server::new("::1", Some(IpAddress::V6([0; 16])), "fvgfdv3v") {
        Err(ServerError::InvalidPort(s)) => assert_eq!(s, "fvgfdv3v"),
        other => panic!("unexpected {:?}", other),
    }
}

#[test]
fn listen_error_carries_io_error() {
    let e = ServerError::ListenError(std::io::Error::new(std::io::ErrorKind::AddrInUse, "busy"));
    assert!(matches!(e, ServerError::ListenError(ref inner) if inner.kind() == std::io::ErrorKind::AddrInUse));
}
