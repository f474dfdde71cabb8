use port_scanner::address::{parse_address, parse_ipv4, parse_ipv6, IpAddress};

#[test]
fn ipv4_addresses() {
    assert_eq!(parse_address("127.0.0.1"), Some(IpAddress::V4(127, 0, 0, 1)));
    assert_eq!(parse_address("0.0.0.0"), Some(IpAddress::V4(0, 0, 0, 0)));
    assert_eq!(parse_address("255.255.255.255"), Some(IpAddress::V4(255, 255, 255, 255)));
    assert_eq!(parse_address("192.168.10.9"), Some(IpAddress::V4(192, 168, 10, 9)));
    assert_eq!(parse_address("1.20.100.249"), Some(IpAddress::V4(1, 20, 100, 249)));
}

#[test]
fn ipv4_numbers_stay_below_256() {
    assert_eq!(parse_address("256.0.0.1"), None);
    assert_eq!(parse_address("1.2.3.300"), None);
    assert_eq!(parse_address("1.2.3.999"), None);
    assert_eq!(parse_address("1.2.3.1000"), None);
}

#[test]
fn ipv4_numbers_have_no_leading_zero() {
    assert_eq!(parse_address("01.2.3.4"), None);
    assert_eq!(parse_address("1.2.3.04"), None);
    assert_eq!(parse_address("1.2.3.00"), None);
    assert_eq!(parse_address("1.2.3.0"), Some(IpAddress::V4(1, 2, 3, 0)));
}

#[test]
fn ipv4_has_four_numbers() {
    assert_eq!(parse_address("1.2.3"), None);
    assert_eq!(parse_address("1.2.3.4.5"), None);
    assert_eq!(parse_address("1.2.3."), None);
    assert_eq!(parse_address(".1.2.3"), None);
    assert_eq!(parse_address("1..2.3"), None);
    assert_eq!(parse_address("1"), None);
    assert_eq!(parse_address("16909060"), None);
}

#[test]
fn what_is_no_address() {
    assert_eq!(parse_address(""), None);
    assert_eq!(parse_address(" "), None);
    assert_eq!(parse_address("localhost"), None);
    assert_eq!(parse_address("example.com"), None);
    assert_eq!(parse_address(" 127.0.0.1"), None);
    assert_eq!(parse_address("127.0.0.1 "), None);
    assert_eq!(parse_address("127.0.0.1:80"), None);
    assert_eq!(parse_address("127.0.0.1/8"), None);
    assert_eq!(parse_address("127.0.0.x"), None);
    assert_eq!(parse_address("-1.0.0.1"), None);
    assert_eq!(parse_address("+1.0.0.1"), None);
    assert_eq!(parse_address("0x7f.0.0.1"), None);
    assert_eq!(parse_address("１.2.3.4"), None);
    assert_eq!(parse_address("[::1]"), None);
    assert_eq!(parse_address("fe80::1%eth0"), None);
}

#[test]
fn ipv6_addresses_in_full() {
    assert_eq!(
        parse_address("1:2:3:4:5:6:7:8"),
        Some(IpAddress::V6(1, 2, 3, 4, 5, 6, 7, 8))
    );
    assert_eq!(
        parse_address("2001:0db8:0000:0000:0000:ff00:0042:8329"),
        Some(IpAddress::V6(0x2001, 0x0db8, 0, 0, 0, 0xff00, 0x42, 0x8329))
    );
    assert_eq!(
        parse_address("FFFF:ffff:AbCd:0:00:000:0000:f"),
        Some(IpAddress::V6(0xffff, 0xffff, 0xabcd, 0, 0, 0, 0, 0xf))
    );
}

#[test]
fn ipv6_addresses_with_a_gap() {
    assert_eq!(parse_address("::"), Some(IpAddress::V6(0, 0, 0, 0, 0, 0, 0, 0)));
    assert_eq!(parse_address("::1"), Some(IpAddress::V6(0, 0, 0, 0, 0, 0, 0, 1)));
    assert_eq!(parse_address("1::"), Some(IpAddress::V6(1, 0, 0, 0, 0, 0, 0, 0)));
    assert_eq!(
        parse_address("2001:db8::ff00:42:8329"),
        Some(IpAddress::V6(0x2001, 0xdb8, 0, 0, 0, 0xff00, 0x42, 0x8329))
    );
    assert_eq!(parse_address("fe80::1"), Some(IpAddress::V6(0xfe80, 0, 0, 0, 0, 0, 0, 1)));
    assert_eq!(
        parse_address("1:2:3:4:5:6:7::"),
        Some(IpAddress::V6(1, 2, 3, 4, 5, 6, 7, 0))
    );
    assert_eq!(
        parse_address("::2:3:4:5:6:7:8"),
        Some(IpAddress::V6(0, 2, 3, 4, 5, 6, 7, 8))
    );
    assert_eq!(
        parse_address("1:2:3::6:7:8"),
        Some(IpAddress::V6(1, 2, 3, 0, 0, 6, 7, 8))
    );
    assert_eq!(
        parse_address("1::3:4:5:6:7:8"),
        Some(IpAddress::V6(1, 0, 3, 4, 5, 6, 7, 8))
    );
}

#[test]
fn ipv6_addresses_that_end_in_ipv4() {
    assert_eq!(
        parse_address("::ffff:192.168.1.2"),
        Some(IpAddress::V6(0, 0, 0, 0, 0, 0xffff, 0xc0a8, 0x0102))
    );
    assert_eq!(
        parse_address("::1.2.3.4"),
        Some(IpAddress::V6(0, 0, 0, 0, 0, 0, 0x0102, 0x0304))
    );
    assert_eq!(
        parse_address("1:2:3:4:5:6:255.254.253.252"),
        Some(IpAddress::V6(1, 2, 3, 4, 5, 6, 0xfffe, 0xfdfc))
    );
    assert_eq!(
        parse_address("64:ff9b::10.0.0.1"),
        Some(IpAddress::V6(0x64, 0xff9b, 0, 0, 0, 0, 0x0a00, 0x0001))
    );
    assert_eq!(
        parse_address("1:2:3:4:5::1.2.3.4"),
        Some(IpAddress::V6(1, 2, 3, 4, 5, 0, 0x0102, 0x0304))
    );
}

#[test]
fn ipv6_has_eight_groups() {
    assert_eq!(parse_address("1:2:3:4:5:6:7"), None);
    assert_eq!(parse_address("1:2:3:4:5:6:7:8:9"), None);
    assert_eq!(parse_address("1:2:3:4:5:6:7:8::"), None);
    assert_eq!(parse_address("::1:2:3:4:5:6:7:8"), None);
    assert_eq!(parse_address("1:2:3:4::5:6:7:8"), None);
    assert_eq!(parse_address("1:2:3:4:5:6:7:1.2.3.4"), None);
    assert_eq!(parse_address("1:2:3:4:5:6::1.2.3.4"), None);
    assert_eq!(parse_address("1:2:3:4:5:1.2.3.4"), None);
}

#[test]
fn ipv6_has_one_gap_at_most() {
    assert_eq!(parse_address("1::2::3"), None);
    assert_eq!(parse_address(":::"), None);
    assert_eq!(parse_address("::::"), None);
    assert_eq!(parse_address("1:::2"), None);
    assert_eq!(parse_address("::1::"), None);
}

#[test]
fn ipv6_colons_stand_between_groups() {
    assert_eq!(parse_address(":"), None);
    assert_eq!(parse_address(":1"), None);
    assert_eq!(parse_address("1:"), None);
    assert_eq!(parse_address(":1:2:3:4:5:6:7:8"), None);
    assert_eq!(parse_address("1:2:3:4:5:6:7:8:"), None);
    assert_eq!(parse_address(":1::2"), None);
    assert_eq!(parse_address("1::2:"), None);
}

#[test]
fn ipv6_groups_have_four_digits_at_most() {
    assert_eq!(parse_address("12345::"), None);
    assert_eq!(parse_address("::00001"), None);
    assert_eq!(parse_address("1:2:3:4:5:6:7:10000"), None);
    assert_eq!(parse_address("g::"), None);
    assert_eq!(parse_address("::-1"), None);
}

#[test]
fn ipv4_stands_only_at_the_end_of_ipv6() {
    assert_eq!(parse_address("1.2.3.4::"), None);
    assert_eq!(parse_address("1.2.3.4:5:6:7:8:9:10"), None);
    assert_eq!(parse_address("::1.2.3.4:5"), None);
    assert_eq!(parse_address("::1.2.3"), None);
    assert_eq!(parse_address("::1.2.3.256"), None);
    assert_eq!(parse_address("::01.2.3.4"), None);
}

#[test]
fn the_two_families_on_their_own() {
    assert_eq!(parse_ipv4(b"10.0.0.1"), Some((10, 0, 0, 1)));
    assert_eq!(parse_ipv4(b"::1"), None);
    assert_eq!(parse_ipv6(b"::1"), Some(IpAddress::V6(0, 0, 0, 0, 0, 0, 0, 1)));
    assert_eq!(parse_ipv6(b"10.0.0.1"), None);
    assert_eq!(parse_ipv6(b""), None);
    assert_eq!(parse_ipv4(b""), None);
}
