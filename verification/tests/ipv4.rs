use rub_login::ipv4::Ipv4Address;
use rub_login::ipv4::format_ipv4;
use rub_login::ipv4::parse_ipv4;

fn addr(a: u8, b: u8, c: u8, d: u8) -> Ipv4Address {
    Ipv4Address { a, b, c, d }
}

#[test]
fn parse_accepts_canonical_literals() {
    assert_eq!(parse_ipv4("192.168.1.42"), Some(addr(192, 168, 1, 42)));
    assert_eq!(parse_ipv4("0.0.0.0"), Some(addr(0, 0, 0, 0)));
    assert_eq!(parse_ipv4("255.255.255.255"), Some(addr(255, 255, 255, 255)));
    assert_eq!(parse_ipv4("1.2.3.4"), Some(addr(1, 2, 3, 4)));
    assert_eq!(parse_ipv4("10.0.7.107"), Some(addr(10, 0, 7, 107)));
    assert_eq!(parse_ipv4("100.200.30.9"), Some(addr(100, 200, 30, 9)));
}

#[test]
fn parse_rejects_empty_and_truncated() {
    assert_eq!(parse_ipv4(""), None);
    assert_eq!(parse_ipv4("1"), None);
    assert_eq!(parse_ipv4("1.2"), None);
    assert_eq!(parse_ipv4("1.2.3"), None);
    assert_eq!(parse_ipv4("1.2.3."), None);
    assert_eq!(parse_ipv4(".1.2.3.4"), None);
}

#[test]
fn parse_rejects_trailing_text() {
    assert_eq!(parse_ipv4("1.2.3.4.5"), None);
    assert_eq!(parse_ipv4("1.2.3.4x"), None);
    assert_eq!(parse_ipv4("1.2.3.4 "), None);
    assert_eq!(parse_ipv4(" 1.2.3.4"), None);
}

#[test]
fn parse_rejects_leading_zeros() {
    assert_eq!(parse_ipv4("01.2.3.4"), None);
    assert_eq!(parse_ipv4("1.02.3.4"), None);
    assert_eq!(parse_ipv4("1.2.3.007"), None);
    assert_eq!(parse_ipv4("00.0.0.0"), None);
}

#[test]
fn parse_rejects_out_of_range_octets() {
    assert_eq!(parse_ipv4("256.1.1.1"), None);
    assert_eq!(parse_ipv4("1.1.1.999"), None);
    assert_eq!(parse_ipv4("300.300.300.300"), None);
    assert_eq!(parse_ipv4("1911.2.3.4"), None);
}

#[test]
fn parse_rejects_non_digits() {
    assert_eq!(parse_ipv4("a.b.c.d"), None);
    assert_eq!(parse_ipv4("1..2.3"), None);
    assert_eq!(parse_ipv4("1,2,3,4"), None);
    assert_eq!(parse_ipv4("-1.2.3.4"), None);
}

#[test]
fn format_gives_dotted_decimal() {
    assert_eq!(format_ipv4(addr(192, 168, 1, 42)), "192.168.1.42");
    assert_eq!(format_ipv4(addr(0, 0, 0, 0)), "0.0.0.0");
    assert_eq!(format_ipv4(addr(255, 255, 255, 255)), "255.255.255.255");
    assert_eq!(format_ipv4(addr(10, 0, 7, 9)), "10.0.7.9");
}

#[test]
fn format_then_parse_is_identity() {
    let samples = [
        addr(0, 0, 0, 0),
        addr(1, 10, 100, 255),
        addr(9, 99, 199, 200),
        addr(134, 147, 64, 7),
        addr(255, 0, 255, 0),
    ];
    for ip in samples {
        assert_eq!(parse_ipv4(&format_ipv4(ip)), Some(ip));
    }
}
