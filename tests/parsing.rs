use netmon::address::{encode_ipv4_hex, parse_ipv4_hex, parse_ipv6_hex, Ipv4Address};
use netmon::error::NetworkMonitorError;
use netmon::parsing::{
    normalize_address, parse_decimal, parse_hex_u16, parse_hex_u64, parse_hex_u8, parse_inode,
    parse_port, parse_tcp_state, split_socket_addr, validate_pid,
};

#[test]
fn test_parse_hex() {
    assert_eq!(parse_hex_u16("1234", "test").unwrap(), 0x1234);
    assert_eq!(parse_hex_u8("FF", "test").unwrap(), 255);
    assert!(parse_hex_u16("ZZ", "test").is_err());
}

#[test]
fn test_parse_decimal() {
    assert_eq!(parse_decimal("1234", "test").unwrap(), 1234);
    assert!(parse_decimal("abc", "test").is_err());
}

#[test]
fn test_parse_port() {
    assert_eq!(parse_port("1234").unwrap(), 0x1234);
    assert!(parse_port("ZZZZ").is_err());
}

#[test]
fn test_parse_ipv4_hex() {
    let ip = parse_ipv4_hex("0100007F").unwrap();
    assert_eq!(ip.to_string(), "127.0.0.1");
    assert!(parse_ipv4_hex("123").is_err());
}

#[test]
fn test_parse_ipv6_hex() {
    let ip = parse_ipv6_hex("00000000000000000000000001000000").unwrap();
    assert_eq!(ip.to_string(), "::100:0");
    assert!(parse_ipv6_hex("123").is_err());
}

#[test]
fn parsing_test_parse_tcp_state() {
    assert_eq!(parse_tcp_state("01"), "ESTABLISHED");
    assert_eq!(parse_tcp_state("0A"), "LISTEN");
    assert_eq!(parse_tcp_state("FF"), "UNKNOWN(255)");
    assert_eq!(parse_tcp_state("ZZ"), "UNKNOWN");
}

#[test]
fn test_validate_pid() {
    assert!(validate_pid("1234").is_ok());
    assert!(validate_pid("0").is_ok());
    assert!(validate_pid("abc").is_err());
    assert!(validate_pid("12a4").is_err());
}

#[test]
fn test_split_socket_addr() {
    let (ip, port) = split_socket_addr("0100007F:1234").unwrap();
    assert_eq!(ip, "0100007F");
    assert_eq!(port, "1234");
    assert!(split_socket_addr("invalid").is_err());
}

#[test]
fn test_normalize_address() {
    assert_eq!(normalize_address("0.0.0.0:*"), "ANY");
    assert_eq!(normalize_address("127.0.0.1:*"), "LOCALHOST");
    assert_eq!(normalize_address("192.168.1.1:8080"), "192.168.1.1:8080");
}

#[test]
fn decodes_loopback_and_port() {
    let ip = parse_ipv4_hex("0100007F").unwrap();
    assert_eq!(ip.octets, [127, 0, 0, 1]);
    assert_eq!(parse_port("1234").unwrap(), 4660);
}

#[test]
fn every_state_byte_has_its_name() {
    let names = [
        ("02", "SYN_SENT"),
        ("03", "SYN_RECV"),
        ("04", "FIN_WAIT1"),
        ("05", "FIN_WAIT2"),
        ("06", "TIME_WAIT"),
        ("07", "CLOSE"),
        ("08", "CLOSE_WAIT"),
        ("09", "LAST_ACK"),
        ("0B", "CLOSING"),
        ("0C", "NEW_SYN_RECV"),
        ("0a", "LISTEN"),
        ("00", "UNKNOWN(0)"),
        ("0D", "UNKNOWN(13)"),
        ("", "UNKNOWN"),
        ("100", "UNKNOWN"),
    ];
    for (hex, name) in names {
        assert_eq!(parse_tcp_state(hex), name);
    }
}

#[test]
fn hex_parse_follows_from_str_radix() {
    assert_eq!(parse_hex_u8("+F", "t").unwrap(), 15);
    assert!(parse_hex_u8("+", "t").is_err());
    assert!(parse_hex_u8("-1", "t").is_err());
    assert_eq!(parse_hex_u64("FFFFFFFFFFFFFFFF", "t").unwrap(), u64::MAX);
    assert!(parse_hex_u64("10000000000000000", "t").is_err());
    assert_eq!(parse_inode("+42").unwrap(), 42);
}

#[test]
fn hex_parse_errors_name_context_and_reason() {
    match parse_hex_u8("", "ctx") {
        Err(NetworkMonitorError::HexParseError(m)) => {
            assert_eq!(m, "ctx: Failed to parse hex '': cannot parse integer from empty string")
        }
        _ => panic!("Expected HexParseError"),
    }
    match parse_hex_u8("1G", "ctx") {
        Err(NetworkMonitorError::HexParseError(m)) => {
            assert_eq!(m, "ctx: Failed to parse hex '1G': invalid digit found in string")
        }
        _ => panic!("Expected HexParseError"),
    }
    match parse_hex_u8("100", "ctx") {
        Err(NetworkMonitorError::HexParseError(m)) => {
            assert_eq!(m, "ctx: Failed to parse hex '100': number too large to fit in target type")
        }
        _ => panic!("Expected HexParseError"),
    }
    match parse_decimal("x", "inode") {
        Err(NetworkMonitorError::ParseError(m)) => {
            assert_eq!(m, "inode: Failed to parse 'x': invalid digit found in string")
        }
        _ => panic!("Expected ParseError"),
    }
}

#[test]
fn address_errors_name_the_problem() {
    match parse_ipv4_hex("123") {
        Err(NetworkMonitorError::InvalidAddress(m)) => assert_eq!(m, "Invalid IPv4 hex length: 3 (expected 8)"),
        _ => panic!("Expected InvalidAddress"),
    }
    match parse_ipv6_hex("123") {
        Err(NetworkMonitorError::InvalidAddress(m)) => assert_eq!(m, "Invalid IPv6 hex length: 3 (expected 32)"),
        _ => panic!("Expected InvalidAddress"),
    }
    match parse_ipv4_hex("0100ZZ7F") {
        Err(NetworkMonitorError::HexParseError(m)) => {
            assert_eq!(m, "IPv4 byte: Failed to parse hex 'ZZ': invalid digit found in string")
        }
        _ => panic!("Expected HexParseError"),
    }
    match split_socket_addr("a:b:c") {
        Err(NetworkMonitorError::InvalidAddress(m)) => assert_eq!(m, "Invalid socket address format: a:b:c"),
        _ => panic!("Expected InvalidAddress"),
    }
    match validate_pid("1x") {
        Err(NetworkMonitorError::InvalidPid(m)) => assert_eq!(m, "PID contains non-digit characters: 1x"),
        _ => panic!("Expected InvalidPid"),
    }
}

#[test]
fn ipv4_hex_round_trips() {
    for text in ["0100007F", "00000000", "FFFFFFFF", "0A01A8C0"] {
        let ip = parse_ipv4_hex(text).unwrap();
        assert_eq!(encode_ipv4_hex(&ip), text);
    }
    let lower = parse_ipv4_hex("0a01a8c0").unwrap();
    assert_eq!(encode_ipv4_hex(&lower), "0A01A8C0");
    let ip = Ipv4Address { octets: [192, 168, 1, 10] };
    assert_eq!(encode_ipv4_hex(&ip), "0A01A8C0");
    assert_eq!(parse_ipv4_hex("0A01A8C0").unwrap().to_string(), "192.168.1.10");
}

#[test]
fn ipv6_text_forms() {
    let cases = [
        ("00000000000000000000000000000000", "::"),
        ("00000000000000000000000000000001", "::1"),
        ("20010DB8000000000000000000000001", "2001:db8::1"),
        ("FE800000000000000000000000000001", "fe80::1"),
        ("00000000000000000000FFFF7F000001", "::ffff:127.0.0.1"),
        ("00010002000300040005000600070008", "1:2:3:4:5:6:7:8"),
        ("00010000000200000000000300000000", "1:0:2::3:0:0"),
        ("00010000000000020000000000030004", "1::2:0:0:3:4"),
    ];
    for (hex, text) in cases {
        assert_eq!(parse_ipv6_hex(hex).unwrap().to_string(), text);
    }
}

#[test]
fn split_edge_cases() {
    let (ip, port) = split_socket_addr(":").unwrap();
    assert_eq!(ip, "");
    assert_eq!(port, "");
    assert!(split_socket_addr("").is_err());
    assert!(split_socket_addr("::").is_err());
}

#[test]
fn normalize_names_other_wildcards() {
    assert_eq!(normalize_address("*:*"), "ANY");
    assert_eq!(normalize_address("[::1]:*"), "LOCALHOST");
    assert_eq!(normalize_address("127.0.0.1:80"), "127.0.0.1:80");
}
