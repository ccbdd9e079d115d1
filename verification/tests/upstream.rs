use dns_supercache::upstream::IpAddress;
use dns_supercache::upstream::ParseError;
use dns_supercache::upstream::UpstreamSpec;
use dns_supercache::upstream::parse_upstream_spec;
use dns_supercache::Protocol;

#[test]
fn test_upstream_spec() {
    let parsed: UpstreamSpec = "127.0.0.1".parse().unwrap();
    assert_eq!(parsed.host, IpAddress::V4(127, 0, 0, 1));
    assert_eq!(parsed.port, 53);
    assert_eq!(parsed.protocol, Protocol::Udp);

    let parsed: UpstreamSpec = "127.0.0.1:80".parse().unwrap();
    assert_eq!(parsed.host, IpAddress::V4(127, 0, 0, 1));
    assert_eq!(parsed.port, 80);
    assert_eq!(parsed.protocol, Protocol::Udp);

    let parsed: UpstreamSpec = "127.0.0.1:80/udp".parse().unwrap();
    assert_eq!(parsed.host, IpAddress::V4(127, 0, 0, 1));
    assert_eq!(parsed.port, 80);
    assert_eq!(parsed.protocol, Protocol::Udp);

    let parsed: UpstreamSpec = "127.0.0.1/tcp".parse().unwrap();
    assert_eq!(parsed.host, IpAddress::V4(127, 0, 0, 1));
    assert_eq!(parsed.port, 53);
    assert_eq!(parsed.protocol, Protocol::Tcp);

    let parsed: UpstreamSpec = "127.0.0.1:80/tcp".parse().unwrap();
    assert_eq!(parsed.host, IpAddress::V4(127, 0, 0, 1));
    assert_eq!(parsed.port, 80);
    assert_eq!(parsed.protocol, Protocol::Tcp);
}

#[test]
fn test_upstream_spec_bad() {
    assert!("".parse::<UpstreamSpec>().is_err());
    assert!("127.0.0.1/tcp:80".parse::<UpstreamSpec>().is_err());
    assert!("127.0.0.1/wtf".parse::<UpstreamSpec>().is_err());
    assert!("127.0.0.1:80/wtf".parse::<UpstreamSpec>().is_err());
    assert!("127.0.0.1:80/udp:80".parse::<UpstreamSpec>().is_err());
    assert!("127.0.0.1:80/udp/udp".parse::<UpstreamSpec>().is_err());
    assert!("example.com".parse::<UpstreamSpec>().is_err());
}

#[test]
fn error_kinds() {
    assert_eq!(parse_upstream_spec(""), Err(ParseError::EmptyHost));
    assert_eq!(parse_upstream_spec(":80"), Err(ParseError::EmptyHost));
    assert_eq!(parse_upstream_spec("/udp"), Err(ParseError::EmptyHost));
    assert_eq!(parse_upstream_spec("example.com"), Err(ParseError::InvalidIp));
    assert_eq!(parse_upstream_spec("1.2.3"), Err(ParseError::InvalidIp));
    assert_eq!(parse_upstream_spec("1.2.3.4.5"), Err(ParseError::InvalidIp));
    assert_eq!(parse_upstream_spec("256.0.0.1"), Err(ParseError::InvalidIp));
    assert_eq!(parse_upstream_spec("01.2.3.4"), Err(ParseError::InvalidIp));
    assert_eq!(parse_upstream_spec("127.0.0.1:"), Err(ParseError::InvalidPort));
    assert_eq!(parse_upstream_spec("127.0.0.1:0"), Err(ParseError::InvalidPort));
    assert_eq!(parse_upstream_spec("127.0.0.1:65536"), Err(ParseError::InvalidPort));
    assert_eq!(parse_upstream_spec("127.0.0.1:abc"), Err(ParseError::InvalidPort));
    assert_eq!(parse_upstream_spec("127.0.0.1/"), Err(ParseError::UnknownProtocol));
    assert_eq!(parse_upstream_spec("127.0.0.1/TCP"), Err(ParseError::UnknownProtocol));
    assert_eq!(parse_upstream_spec("127.0.0.1/dot"), Err(ParseError::UnknownProtocol));
}

#[test]
fn boundary_values() {
    let parsed = parse_upstream_spec("0.0.0.0:1").unwrap();
    assert_eq!(parsed.host, IpAddress::V4(0, 0, 0, 0));
    assert_eq!(parsed.port, 1);

    let parsed = parse_upstream_spec("255.255.255.255:65535/tcp").unwrap();
    assert_eq!(parsed.host, IpAddress::V4(255, 255, 255, 255));
    assert_eq!(parsed.port, 65535);
    assert_eq!(parsed.protocol, Protocol::Tcp);

    let parsed = parse_upstream_spec("8.8.8.8:0053").unwrap();
    assert_eq!(parsed.port, 53);
}

#[test]
fn error_messages_are_descriptive() {
    assert_eq!(ParseError::EmptyHost.message(), "no host specified");
    assert_eq!(ParseError::InvalidIp.message(), "failed to parse IP");
    assert_eq!(ParseError::InvalidPort.message(), "failed to parse port");
    assert_eq!(ParseError::UnknownProtocol.message(), "unknown protocol");
}
