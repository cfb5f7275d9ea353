use cfdpip::ip::Ipv4Address;

#[test]
fn ip_to_string_is_dotted_decimal() {
    assert_eq!(Ipv4Address::new(127, 0, 0, 1).to_string(), "127.0.0.1");
    assert_eq!(Ipv4Address::new(255, 255, 255, 255).to_string(), "255.255.255.255");
    assert_eq!(Ipv4Address::new(0, 0, 0, 0).to_string(), "0.0.0.0");
    assert_eq!(Ipv4Address::new(10, 99, 100, 9).to_string(), "10.99.100.9");
}

#[test]
fn ip_parse_accepts_canonical_text() {
    assert_eq!(Ipv4Address::parse("192.168.1.20"), Ok(Ipv4Address::new(192, 168, 1, 20)));
    assert_eq!(Ipv4Address::parse("0.0.0.0"), Ok(Ipv4Address::new(0, 0, 0, 0)));
    assert_eq!(Ipv4Address::parse("255.255.255.255"), Ok(Ipv4Address::new(255, 255, 255, 255)));
}

#[test]
fn ip_parse_rejects_malformed_text() {
    for s in [
        "", "1.2.3", "1.2.3.4.5", "256.1.1.1", "01.2.3.4", "1.2.3.04", "1..2.3", " 1.2.3.4",
        "1.2.3.4 ", "+1.2.3.4", "1.2.3.-4", "1.2.3.4.", "a.b.c.d", "1000.1.1.1", "1.2.3.4\n",
        "٣.1.1.1",
    ] {
        assert!(Ipv4Address::parse(s).is_err(), "{s:?}");
    }
}

#[test]
fn ip_parse_reads_each_octet() {
    assert_eq!(Ipv4Address::parse("9.99.199.255"), Ok(Ipv4Address::new(9, 99, 199, 255)));
    assert_eq!(Ipv4Address::parse("100.0.10.1"), Ok(Ipv4Address::new(100, 0, 10, 1)));
    assert!(Ipv4Address::parse("00.0.0.0").is_err());
    assert!(Ipv4Address::parse("1.2.3.256").is_err());
}

#[test]
fn ip_text_roundtrip() {
    for ip in [
        Ipv4Address::new(1, 2, 3, 4),
        Ipv4Address::new(100, 20, 3, 0),
        Ipv4Address::new(255, 0, 99, 10),
    ] {
        assert_eq!(Ipv4Address::parse(&ip.to_string()), Ok(ip));
    }
}

#[test]
fn ip_octets_in_order() {
    assert_eq!(Ipv4Address::new(1, 2, 3, 4).octets(), [1, 2, 3, 4]);
}
