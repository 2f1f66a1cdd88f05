use scpi::address::{parse_address, IpAddress, SocketAddress};
use scpi::error::ScpiError;

#[test]
fn parses_dotted_quad() {
    assert_eq!(IpAddress::new("192.168.1.70"), Ok(IpAddress::V4(192, 168, 1, 70)));
    assert_eq!(IpAddress::new("0.0.0.0"), Ok(IpAddress::V4(0, 0, 0, 0)));
    assert_eq!(IpAddress::new("255.255.255.255"), Ok(IpAddress::V4(255, 255, 255, 255)));
    assert_eq!(IpAddress::new("10.0.200.9"), Ok(IpAddress::V4(10, 0, 200, 9)));
}

#[test]
fn invalid_ip_address_is_a_parse_error() {
    assert_eq!(IpAddress::new("999.1.1.1"), Err(ScpiError::AddressParse));
}

#[test]
fn refuses_malformed_ipv4() {
    let bad = [
        "", " ", "1.2.3", "1.2.3.4.5", "1..2.3", ".1.2.3", "1.2.3.", "256.0.0.1", "1.2.3.256",
        "01.2.3.4", "1.2.3.04", "00.0.0.0", "1.2.3.4 ", " 1.2.3.4", "1.2.3.a", "1,2,3,4",
        "1.2.3.-4", "+1.2.3.4", "1.2.3.1000", "1.2.3.4\n", "localhost", "１.2.3.4", "1.2.3.４",
    ];
    for text in bad {
        assert_eq!(IpAddress::new(text), Err(ScpiError::AddressParse), "{:?}", text);
    }
}

#[test]
fn parses_full_ipv6() {
    assert_eq!(IpAddress::new("1:2:3:4:5:6:7:8"), Ok(IpAddress::V6(1, 2, 3, 4, 5, 6, 7, 8)));
    assert_eq!(
        IpAddress::new("2001:0db8:85a3:0000:0000:8A2E:0370:7334"),
        Ok(IpAddress::V6(0x2001, 0x0db8, 0x85a3, 0, 0, 0x8a2e, 0x0370, 0x7334))
    );
    assert_eq!(
        IpAddress::new("ffff:FFFF:0:00:000:0000:a:F"),
        Ok(IpAddress::V6(0xffff, 0xffff, 0, 0, 0, 0, 0xa, 0xf))
    );
}

#[test]
fn parses_compressed_ipv6() {
    assert_eq!(IpAddress::new("::"), Ok(IpAddress::V6(0, 0, 0, 0, 0, 0, 0, 0)));
    assert_eq!(IpAddress::new("::1"), Ok(IpAddress::V6(0, 0, 0, 0, 0, 0, 0, 1)));
    assert_eq!(IpAddress::new("1::"), Ok(IpAddress::V6(1, 0, 0, 0, 0, 0, 0, 0)));
    assert_eq!(IpAddress::new("fe80::1:2"), Ok(IpAddress::V6(0xfe80, 0, 0, 0, 0, 0, 1, 2)));
    assert_eq!(
        IpAddress::new("2001:db8::ff00:42:8329"),
        Ok(IpAddress::V6(0x2001, 0xdb8, 0, 0, 0, 0xff00, 0x42, 0x8329))
    );
    assert_eq!(IpAddress::new("1:2:3:4:5:6:7::"), Ok(IpAddress::V6(1, 2, 3, 4, 5, 6, 7, 0)));
    assert_eq!(IpAddress::new("::2:3:4:5:6:7:8"), Ok(IpAddress::V6(0, 2, 3, 4, 5, 6, 7, 8)));
    assert_eq!(IpAddress::new("1:2:3::6:7:8"), Ok(IpAddress::V6(1, 2, 3, 0, 0, 6, 7, 8)));
}

#[test]
fn parses_ipv6_with_embedded_ipv4() {
    assert_eq!(
        IpAddress::new("::ffff:192.168.1.70"),
        Ok(IpAddress::V6(0, 0, 0, 0, 0, 0xffff, 0xc0a8, 0x0146))
    );
    assert_eq!(IpAddress::new("::1.2.3.4"), Ok(IpAddress::V6(0, 0, 0, 0, 0, 0, 0x0102, 0x0304)));
    assert_eq!(
        IpAddress::new("1:2:3:4:5:6:1.2.3.4"),
        Ok(IpAddress::V6(1, 2, 3, 4, 5, 6, 0x0102, 0x0304))
    );
    assert_eq!(
        IpAddress::new("64:ff9b::255.255.255.255"),
        Ok(IpAddress::V6(0x64, 0xff9b, 0, 0, 0, 0, 0xffff, 0xffff))
    );
    assert_eq!(
        IpAddress::new("1:2:3:4:5::1.2.3.4"),
        Ok(IpAddress::V6(1, 2, 3, 4, 5, 0, 0x0102, 0x0304))
    );
}

#[test]
fn refuses_malformed_ipv6() {
    let bad = [
        ":", ":::", "::::", "1:2:3:4:5:6:7", "1:2:3:4:5:6:7:8:9", "1:2:3:4:5:6:7::8",
        "1:2:3:4:5:6:7:8::", "::1:2:3:4:5:6:7:8", "1::2::3", "1:::2", "12345::", "::12345",
        "g::", "::g", "1:2:3:4:5:6:7:", ":1:2:3:4:5:6:7", ":1:2:3:4:5:6:7:8", "1:2:3:4:5:6:7:8:",
        "1.2.3.4::", "::1.2.3.4:5", "1:2:3:4:5:6:7:1.2.3.4", "1:2:3:4:5:1.2.3.4",
        "1:2:3:4:5:6::1.2.3.4", "::1.2.3", "::1.2.3.256", "::01.2.3.4", "fe80::1%eth0",
        "[::1]", "::1 ", " ::1", "1::2:", "::-1", "0x1::", "1:2:3:4:5:6:1.2.3.4.5",
    ];
    for text in bad {
        assert_eq!(IpAddress::new(text), Err(ScpiError::AddressParse), "{:?}", text);
    }
}

#[test]
fn parse_address_reads_bytes() {
    assert_eq!(parse_address(b"127.0.0.1"), Some(IpAddress::V4(127, 0, 0, 1)));
    assert_eq!(parse_address(b"::1"), Some(IpAddress::V6(0, 0, 0, 0, 0, 0, 0, 1)));
    assert_eq!(parse_address(b"127.0.0.1\0"), None);
    assert_eq!(parse_address(&[0xff, 0x2e, 0x31]), None);
}

#[test]
fn address_family_is_told() {
    assert!(IpAddress::V4(1, 2, 3, 4).is_ipv4());
    assert!(!IpAddress::V6(0, 0, 0, 0, 0, 0, 0, 1).is_ipv4());
}

#[test]
fn socket_address_pairs_ip_and_port() {
    let address = SocketAddress::new(IpAddress::V4(192, 168, 1, 70), 5025);
    assert_eq!(address.ip, IpAddress::V4(192, 168, 1, 70));
    assert_eq!(address.port, 5025);
}
