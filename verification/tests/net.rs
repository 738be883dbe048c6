use cloudone::net::{is_private_ip, parse_ipv4, real_ip, IpAddr};

#[test]
fn private_addresses() {
    for a in [[10, 0, 0, 1], [172, 16, 0, 1], [172, 31, 255, 255], [192, 168, 1, 1], [127, 0, 0, 1], [169, 254, 1, 1], [0, 0, 0, 0]] {
        assert!(is_private_ip(IpAddr::V4(a)), "{a:?}");
    }
    for a in [[8, 8, 8, 8], [172, 15, 0, 1], [172, 32, 0, 1], [192, 169, 0, 1], [0, 0, 0, 1], [169, 253, 0, 1]] {
        assert!(!is_private_ip(IpAddr::V4(a)), "{a:?}");
    }
    for a in [[0, 0, 0, 0, 0, 0, 0, 0], [0, 0, 0, 0, 0, 0, 0, 1], [0xfc00, 1, 0, 0, 0, 0, 0, 0], [0xfdff, 0, 0, 0, 0, 0, 0, 0], [0xfe80, 0, 0, 0, 0, 0, 0, 1], [0xfebf, 0, 0, 0, 0, 0, 0, 1]] {
        assert!(is_private_ip(IpAddr::V6(a)), "{a:?}");
    }
    for a in [[0x2001, 0xdb8, 0, 0, 0, 0, 0, 1], [0, 0, 0, 0, 0, 0, 0, 2], [0xfec0, 0, 0, 0, 0, 0, 0, 0], [0xfe00, 0, 0, 0, 0, 0, 0, 0]] {
        assert!(!is_private_ip(IpAddr::V6(a)), "{a:?}");
    }
}

#[test]
fn dotted_addresses() {
    assert_eq!(parse_ipv4("1.2.3.4"), Some([1, 2, 3, 4]));
    assert_eq!(parse_ipv4("0.0.0.0"), Some([0, 0, 0, 0]));
    assert_eq!(parse_ipv4("255.255.255.255"), Some([255, 255, 255, 255]));
    assert_eq!(parse_ipv4("100.20.3.0"), Some([100, 20, 3, 0]));
    for s in ["256.1.1.1", "01.2.3.4", "1.2.3", "1.2.3.4.5", "", "a.b.c.d", "1..2.3", "1.2.3.4 ", "+1.2.3.4", "999.1.1.1", "1.2.3.0004", "::1", "[::1]"] {
        assert_eq!(parse_ipv4(s), None, "{s:?}");
    }
}

#[test]
fn clients_behind_a_proxy() {
    let some = |s: &str| Some(s.to_string());
    let public = IpAddr::V4([8, 8, 8, 8]);
    let proxy = IpAddr::V4([127, 0, 0, 1]);
    let ask = |ip, text: &str, f: Option<String>, r: Option<String>| real_ip(ip, text.to_string(), f, r);
    assert_eq!(ask(public, "8.8.8.8", some("1.1.1.1"), some("2.2.2.2")), "8.8.8.8");
    assert_eq!(ask(proxy, "127.0.0.1", some(" 1.1.1.1 , 3.3.3.3"), some("2.2.2.2")), "1.1.1.1");
    assert_eq!(ask(proxy, "127.0.0.1", some(" , 3.3.3.3"), some("2.2.2.2")), "2.2.2.2");
    assert_eq!(ask(proxy, "127.0.0.1", None, some("2.2.2.2")), "2.2.2.2");
    assert_eq!(ask(proxy, "127.0.0.1", None, None), "127.0.0.1");
    assert_eq!(ask(proxy, "127.0.0.1", some(""), None), "127.0.0.1");
}
