use backend::ipv4::Ipv4;

#[test]
fn parse_dotted_decimal() {
    assert_eq!(Ipv4::parse("192.168.0.1"), Some(Ipv4::new(192, 168, 0, 1)));
    assert_eq!(Ipv4::parse("0.0.0.0"), Some(Ipv4::new(0, 0, 0, 0)));
    assert_eq!(Ipv4::parse("255.255.255.255"), Some(Ipv4::new(255, 255, 255, 255)));
}

#[test]
fn parse_rejects_leading_zeros() {
    assert_eq!(Ipv4::parse("01.2.3.4"), None);
    assert_eq!(Ipv4::parse("1.2.3.00"), None);
}

#[test]
fn parse_rejects_large_octets() {
    assert_eq!(Ipv4::parse("256.1.1.1"), None);
    assert_eq!(Ipv4::parse("1.2.3.1000"), None);
}

#[test]
fn parse_rejects_wrong_shapes() {
    assert_eq!(Ipv4::parse(""), None);
    assert_eq!(Ipv4::parse("1.2.3"), None);
    assert_eq!(Ipv4::parse("1.2.3.4.5"), None);
    assert_eq!(Ipv4::parse("1..3.4"), None);
    assert_eq!(Ipv4::parse(" 1.2.3.4"), None);
    assert_eq!(Ipv4::parse("1.2.3.4/24"), None);
    assert_eq!(Ipv4::parse("+1.2.3.4"), None);
    assert_eq!(Ipv4::parse("a.b.c.d"), None);
}

#[test]
fn parse_more_cases() {
    assert_eq!(Ipv4::parse("10.0.0.1"), Some(Ipv4::new(10, 0, 0, 1)));
    assert_eq!(Ipv4::parse("127.0.0.1"), Some(Ipv4::new(127, 0, 0, 1)));
    assert_eq!(Ipv4::parse("010.0.0.1"), None);
    assert_eq!(Ipv4::parse("999.1.1.1"), None);
    assert_eq!(Ipv4::parse("1.2.3."), None);
    assert_eq!(Ipv4::parse(".1.2.3"), None);
    assert_eq!(Ipv4::parse("1.2.3.4 "), None);
}

#[test]
fn text_of_address() {
    assert_eq!(Ipv4::new(192, 168, 99, 105).to_string(), "192.168.99.105");
    assert_eq!(Ipv4::new(0, 10, 100, 255).to_string(), "0.10.100.255");
}

#[test]
fn text_reads_back() {
    for (a, b, c, d) in [(0, 0, 0, 0), (9, 10, 99, 100), (255, 254, 1, 200)] {
        let ip = Ipv4::new(a, b, c, d);
        assert_eq!(Ipv4::parse(&ip.to_string()), Some(ip));
    }
}
