use echo_server::address::{validate_hostname, validate_port, BindAddress};
use echo_server::ip::{read_host, HostAddress};

#[test]
fn test_validate_hostname() {
    assert!(validate_hostname("127.0.0.1").is_ok());
    assert!(validate_hostname("0.0.0.0").is_ok());
    assert!(validate_hostname("192.168.1.1").is_ok());
    assert!(validate_hostname("::1").is_ok());
    assert!(validate_hostname("invalid-hostname").is_err());
    assert!(validate_hostname("999.999.999.999").is_err());
}

#[test]
fn test_validate_port() {
    assert_eq!(validate_port("3000").unwrap(), 3000);
    assert_eq!(validate_port("8080").unwrap(), 8080);
    assert_eq!(validate_port("65535").unwrap(), 65535);
    assert!(validate_port("0").is_err());
    assert!(validate_port("65536").is_err());
    assert!(validate_port("invalid").is_err());
    assert!(validate_port("-1").is_err());
}

#[test]
fn port_messages_name_the_fault() {
    assert_eq!(
        validate_port("0").unwrap_err(),
        "Port cannot be 0. Must be between 1 and 65535."
    );
    assert_eq!(
        validate_port("65536").unwrap_err(),
        "Invalid port '65536'. Must be a number between 1 and 65535."
    );
    assert_eq!(
        validate_port("invalid").unwrap_err(),
        "Invalid port 'invalid'. Must be a number between 1 and 65535."
    );
    assert_eq!(
        validate_port("").unwrap_err(),
        "Invalid port ''. Must be a number between 1 and 65535."
    );
}

#[test]
fn port_edges() {
    assert_eq!(validate_port("1").unwrap(), 1);
    assert_eq!(validate_port("+80").unwrap(), 80);
    assert_eq!(validate_port("00080").unwrap(), 80);
    assert_eq!(validate_port("065535").unwrap(), 65535);
    assert!(validate_port("+").is_err());
    assert!(validate_port("++80").is_err());
    assert!(validate_port(" 80").is_err());
    assert!(validate_port("80 ").is_err());
    assert!(validate_port("8_0").is_err());
    assert!(validate_port("0x50").is_err());
    assert!(validate_port("٨٠").is_err());
    assert!(validate_port("99999999999999999999").is_err());
    assert_eq!(
        validate_port("+0").unwrap_err(),
        "Port cannot be 0. Must be between 1 and 65535."
    );
}

#[test]
fn port_agrees_with_the_standard_parser() {
    let samples = [
        "0", "1", "9", "10", "80", "443", "3000", "8080", "65534", "65535", "65536", "70000",
        "+1", "+65535", "+65536", "-0", "-1", "", "+", "-", "1a", "a1", "1.0", "1e3", " 1",
        "0000000000001", "4294967296",
    ];
    for text in samples {
        let expected = match text.parse::<u16>() {
            Ok(0) => None,
            Ok(port) => Some(port),
            Err(_) => None,
        };
        assert_eq!(validate_port(text).ok(), expected, "port {:?}", text);
    }
}

#[test]
fn host_message_carries_the_input() {
    assert_eq!(
        validate_hostname("invalid-hostname").unwrap_err(),
        "Invalid hostname 'invalid-hostname'. Must be a valid IP address."
    );
    assert_eq!(
        validate_hostname("").unwrap_err(),
        "Invalid hostname ''. Must be a valid IP address."
    );
}

#[test]
fn dotted_quads() {
    assert_eq!(validate_hostname("127.0.0.1").unwrap(), HostAddress::V4([127, 0, 0, 1]));
    assert_eq!(validate_hostname("0.0.0.0").unwrap(), HostAddress::V4([0, 0, 0, 0]));
    assert_eq!(validate_hostname("192.168.1.1").unwrap(), HostAddress::V4([192, 168, 1, 1]));
    assert_eq!(
        validate_hostname("255.255.255.255").unwrap(),
        HostAddress::V4([255, 255, 255, 255])
    );
    assert_eq!(read_host("256.0.0.1"), None);
    assert_eq!(read_host("1.2.3"), None);
    assert_eq!(read_host("1.2.3.4.5"), None);
    assert_eq!(read_host("1.2.3.4."), None);
    assert_eq!(read_host(".1.2.3.4"), None);
    assert_eq!(read_host("1..2.3"), None);
    assert_eq!(read_host("01.2.3.4"), None);
    assert_eq!(read_host("1.2.3.004"), None);
    assert_eq!(read_host("1.2.3.4 "), None);
    assert_eq!(read_host("1.2.3.+4"), None);
    assert_eq!(read_host("1.2.3.0x4"), None);
    assert_eq!(read_host("localhost"), None);
    assert_eq!(read_host(""), None);
}

#[test]
fn colon_separated_addresses() {
    assert_eq!(validate_hostname("::1").unwrap(), HostAddress::V6([0, 0, 0, 0, 0, 0, 0, 1]));
    assert_eq!(read_host("::"), Some(HostAddress::V6([0; 8])));
    assert_eq!(read_host("1::"), Some(HostAddress::V6([1, 0, 0, 0, 0, 0, 0, 0])));
    assert_eq!(
        read_host("2001:db8::ff00:42:8329"),
        Some(HostAddress::V6([0x2001, 0xdb8, 0, 0, 0, 0xff00, 0x42, 0x8329]))
    );
    assert_eq!(
        read_host("2001:0DB8:0000:0000:0000:FF00:0042:8329"),
        Some(HostAddress::V6([0x2001, 0xdb8, 0, 0, 0, 0xff00, 0x42, 0x8329]))
    );
    assert_eq!(read_host("1:2:3:4:5:6:7:8"), Some(HostAddress::V6([1, 2, 3, 4, 5, 6, 7, 8])));
    assert_eq!(read_host("1:2:3:4:5:6:7::"), Some(HostAddress::V6([1, 2, 3, 4, 5, 6, 7, 0])));
    assert_eq!(read_host("::2:3:4:5:6:7:8"), Some(HostAddress::V6([0, 2, 3, 4, 5, 6, 7, 8])));
    assert_eq!(
        read_host("::ffff:192.168.1.1"),
        Some(HostAddress::V6([0, 0, 0, 0, 0, 0xffff, 0xc0a8, 0x0101]))
    );
    assert_eq!(
        read_host("1:2:3:4:5:6:1.2.3.4"),
        Some(HostAddress::V6([1, 2, 3, 4, 5, 6, 0x0102, 0x0304]))
    );
    assert_eq!(
        read_host("1:2:3:4:5::1.2.3.4"),
        Some(HostAddress::V6([1, 2, 3, 4, 5, 0, 0x0102, 0x0304]))
    );
    assert_eq!(read_host("1:2:3:4:5:6:7"), None);
    assert_eq!(read_host("1:2:3:4:5:6:7:8:9"), None);
    assert_eq!(read_host("1:2:3:4:5:6:7:8::"), None);
    assert_eq!(read_host("::1:2:3:4:5:6:7:8"), None);
    assert_eq!(read_host("1::2::3"), None);
    assert_eq!(read_host(":::"), None);
    assert_eq!(read_host(":1"), None);
    assert_eq!(read_host("1:"), None);
    assert_eq!(read_host("12345::"), None);
    assert_eq!(read_host("g::"), None);
    assert_eq!(read_host("1.2.3.4::"), None);
    assert_eq!(read_host("1.2.3.4:1:2:3:4:5:6"), None);
    assert_eq!(read_host("1:2:3:4:5:6::1.2.3.4"), None);
    assert_eq!(read_host("1:2:3:4:5:6:7:1.2.3.4"), None);
    assert_eq!(read_host("::1.2.3"), None);
    assert_eq!(read_host("::01.2.3.4"), None);
    assert_eq!(read_host("::1%eth0"), None);
    assert_eq!(read_host("[::1]"), None);
    assert_eq!(read_host(" ::1"), None);
}

#[test]
fn bind_address_checks_host_then_port() {
    let address = BindAddress::new("127.0.0.1", "3000").unwrap();
    assert_eq!(address.host(), HostAddress::V4([127, 0, 0, 1]));
    assert_eq!(address.port(), 3000);
    assert_eq!(
        BindAddress::new("nowhere", "0").unwrap_err(),
        "Invalid hostname 'nowhere'. Must be a valid IP address."
    );
    assert_eq!(
        BindAddress::new("::1", "0").unwrap_err(),
        "Port cannot be 0. Must be between 1 and 65535."
    );
    assert_eq!(
        BindAddress::new("::1", "http").unwrap_err(),
        "Invalid port 'http'. Must be a number between 1 and 65535."
    );
}
