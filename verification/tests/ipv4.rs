use cfddns::ipv4::{ipv4_string, parse_ipv4, Ipv4Addr};

#[test]
fn parses_canonical_addresses() {
    assert_eq!(
        parse_ipv4("203.0.113.7"),
        Some(Ipv4Addr { o0: 203, o1: 0, o2: 113, o3: 7 })
    );
    assert_eq!(
        parse_ipv4("0.0.0.0"),
        Some(Ipv4Addr { o0: 0, o1: 0, o2: 0, o3: 0 })
    );
    assert_eq!(
        parse_ipv4("255.255.255.255"),
        Some(Ipv4Addr {
            o0: 255,
            o1: 255,
            o2: 255,
            o3: 255
        })
    );
    assert_eq!(
        parse_ipv4("198.51.100.9"),
        Some(Ipv4Addr { o0: 198, o1: 51, o2: 100, o3: 9 })
    );
}

#[test]
fn rejects_invalid_addresses() {
    let bad = [
        "",
        "not-an-ip",
        "1.2.3",
        "1.2.3.4.5",
        "256.1.1.1",
        "999.0.0.0",
        "01.2.3.4",
        "1.2.3.04",
        "1.2.3.004",
        " 1.2.3.4",
        "1.2.3.4 ",
        "1..2.3",
        ".1.2.3.4",
        "1.2.3.4.",
        "+1.2.3.4",
        "1.2.3.-4",
        "1.2.3.4a",
        "a1.2.3.4",
        "1,2,3,4",
        "1.2.3.1234",
    ];
    for s in bad {
        assert_eq!(parse_ipv4(s), None, "accepted {:?}", s);
    }
}

#[test]
fn formats_canonically() {
    assert_eq!(
        ipv4_string(&Ipv4Addr { o0: 198, o1: 51, o2: 100, o3: 9 }),
        "198.51.100.9"
    );
    assert_eq!(ipv4_string(&Ipv4Addr { o0: 0, o1: 0, o2: 0, o3: 0 }), "0.0.0.0");
    assert_eq!(
        ipv4_string(&Ipv4Addr {
            o0: 255,
            o1: 255,
            o2: 255,
            o3: 255
        }),
        "255.255.255.255"
    );
    assert_eq!(ipv4_string(&Ipv4Addr { o0: 10, o1: 0, o2: 0, o3: 1 }), "10.0.0.1");
}

#[test]
fn round_trips_parse_then_format() {
    for s in ["203.0.113.7", "0.0.0.0", "255.255.255.255", "9.10.99.100"] {
        let a = parse_ipv4(s).expect("should parse");
        assert_eq!(ipv4_string(&a), s);
    }
}

#[test]
fn round_trips_format_then_parse() {
    let a = Ipv4Addr { o0: 172, o1: 16, o2: 254, o3: 3 };
    let s = ipv4_string(&a);
    assert_eq!(parse_ipv4(&s), Some(a));
}
