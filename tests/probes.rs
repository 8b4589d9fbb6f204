use cxn::dns::{detailed_from_lookup, dns_result_from_lookup};
use cxn::ip::{parse_ip, parse_ipv4, IpAddr};
use cxn::ipv6::parse_ipv6;
use cxn::ping::{detailed_from_echoes, ping_result_from_echoes};

#[test]
fn dotted_quads_parse() {
    assert_eq!(parse_ip("8.8.8.8"), Some(IpAddr::V4(8, 8, 8, 8)));
    assert_eq!(parse_ipv4("93.184.216.34"), Some(IpAddr::V4(93, 184, 216, 34)));
    assert_eq!(parse_ipv4("0.0.0.0"), Some(IpAddr::V4(0, 0, 0, 0)));
    assert_eq!(parse_ipv4("255.255.255.255"), Some(IpAddr::V4(255, 255, 255, 255)));
}

#[test]
fn malformed_dotted_quads_are_refused() {
    for s in [
        "", "google.com", "1.2.3", "1.2.3.4.5", "256.1.1.1", "01.2.3.4", "1..2.3", "1.2.3.4.", ".1.2.3",
        "1.2.3.a", "1234.1.1.1", " 1.2.3.4", "1.2.3.-4",
    ] {
        assert_eq!(parse_ipv4(s), None, "{}", s);
    }
}

#[test]
fn dns_keeps_ipv4_unless_ipv6_asked() {
    let v6 = IpAddr::V6(0x2001, 0xdb8, 0, 0, 0, 0, 0, 1);
    let v4 = IpAddr::V4(93, 184, 216, 34);
    let r = dns_result_from_lookup("Test", "example.com", Ok(vec![v6, v4]), false);
    assert!(r.success);
    assert_eq!(r.addresses, vec![v4]);
    assert_eq!(r.name, "Test");
    assert_eq!(r.hostname, "example.com");
    let r = dns_result_from_lookup("Test", "example.com", Ok(vec![v6, v4]), true);
    assert_eq!(r.addresses, vec![v6, v4]);
}

#[test]
fn dns_without_kept_addresses_fails() {
    let v6 = IpAddr::V6(0x2001, 0xdb8, 0, 0, 0, 0, 0, 1);
    let r = dns_result_from_lookup("T", "six.example", Ok(vec![v6]), false);
    assert!(!r.success);
    assert!(r.addresses.is_empty());
    assert_eq!(r.error.as_deref(), Some("no addresses found"));
}

#[test]
fn dns_error_is_carried() {
    let r = dns_result_from_lookup("T", "bad.invalid", Err("no such host".to_string()), true);
    assert!(!r.success);
    assert_eq!(r.error.as_deref(), Some("no such host"));
}

#[test]
fn detailed_dns_splits_families() {
    let v6 = IpAddr::V6(0x2001, 0xdb8, 0, 0, 0, 0, 0, 1);
    let v4 = IpAddr::V4(93, 184, 216, 34);
    let r = detailed_from_lookup("example.com", Ok(vec![v6, v4]), true);
    assert_eq!(r.hostname, "example.com");
    assert_eq!(r.ipv4_addresses, vec![v4]);
    assert_eq!(r.ipv6_addresses, vec![v6]);
    assert!(r.error.is_none());
    let r = detailed_from_lookup("example.com", Ok(vec![v6, v4]), false);
    assert!(r.ipv6_addresses.is_empty());
    let r = detailed_from_lookup("bad.invalid", Err("no such host".to_string()), false);
    assert_eq!(r.error.as_deref(), Some("no such host"));
    assert!(r.ipv4_addresses.is_empty());
}

#[test]
fn ping_mean_of_answered_echoes() {
    let echoes = vec![Ok(10_000_000), Err("timeout".to_string()), Ok(13_000_000)];
    let r = ping_result_from_echoes("Test", IpAddr::V4(8, 8, 8, 8), &echoes);
    assert!(r.success);
    assert_eq!(r.rtt, Some(11_500_000));
    assert!(r.error.is_none());
    assert_eq!(r.name, "Test");
    let r = ping_result_from_echoes("Test", IpAddr::V4(8, 8, 8, 8), &vec![Ok(1), Ok(2)]);
    assert_eq!(r.rtt, Some(1));
}

#[test]
fn ping_all_failed_keeps_last_error() {
    let echoes = vec![Err("timeout".to_string()), Err("no route to host".to_string())];
    let r = ping_result_from_echoes("Test", IpAddr::V4(8, 8, 8, 8), &echoes);
    assert!(!r.success);
    assert!(r.rtt.is_none());
    assert_eq!(r.error.as_deref(), Some("no route to host"));
    let r = ping_result_from_echoes("Test", IpAddr::V4(8, 8, 8, 8), &vec![]);
    assert_eq!(r.error.as_deref(), Some("all pings failed"));
}

#[test]
fn ping_large_times_do_not_overflow() {
    let echoes = vec![Ok(u64::MAX), Ok(u64::MAX)];
    let r = ping_result_from_echoes("T", IpAddr::V4(1, 1, 1, 1), &echoes);
    assert_eq!(r.rtt, Some(u64::MAX));
}

#[test]
fn detailed_ping_counts() {
    let echoes = vec![Ok(10_000_000), Ok(12_000_000), Err("timeout".to_string()), Ok(11_000_000)];
    let r = detailed_from_echoes(IpAddr::V4(8, 8, 8, 8), &echoes);
    assert_eq!(r.packets_sent, 4);
    assert_eq!(r.packets_received, 3);
    assert_eq!(r.results.len(), 4);
    assert_eq!(r.results[2].0, 2);
    assert_eq!(r.results[2].1, Err("timeout".to_string()));
    assert_eq!(r.results[3], (3, Ok(11_000_000)));
}

#[test]
fn ipv6_literals_parse() {
    assert_eq!(parse_ip("::1"), Some(IpAddr::V6(0, 0, 0, 0, 0, 0, 0, 1)));
    assert_eq!(parse_ip("::"), Some(IpAddr::V6(0, 0, 0, 0, 0, 0, 0, 0)));
    assert_eq!(parse_ip("2001:db8::1"), Some(IpAddr::V6(0x2001, 0xdb8, 0, 0, 0, 0, 0, 1)));
    assert_eq!(parse_ip("fe80::"), Some(IpAddr::V6(0xfe80, 0, 0, 0, 0, 0, 0, 0)));
    assert_eq!(parse_ip("1:2:3:4:5:6:7:8"), Some(IpAddr::V6(1, 2, 3, 4, 5, 6, 7, 8)));
    assert_eq!(parse_ip("1:2:3:4:5:6:7::"), Some(IpAddr::V6(1, 2, 3, 4, 5, 6, 7, 0)));
    assert_eq!(parse_ip("::ffff:192.0.2.1"), Some(IpAddr::V6(0, 0, 0, 0, 0, 0xffff, 0xc000, 0x0201)));
    assert_eq!(parse_ip("1:2:3:4:5:6:1.2.3.4"), Some(IpAddr::V6(1, 2, 3, 4, 5, 6, 0x0102, 0x0304)));
    assert_eq!(parse_ip("ABCD:ef01::0"), Some(IpAddr::V6(0xabcd, 0xef01, 0, 0, 0, 0, 0, 0)));
    assert_eq!(parse_ipv6("8.8.8.8"), None);
}

#[test]
fn ipv6_malformed_are_refused() {
    for s in [
        ":", ":::", "1:::2", ":1::", "::1:", "1::2::3", "1:2:3:4:5:6:7", "1:2:3:4:5:6:7:8:9",
        "1:2:3:4:5:6:7:8::", "::1:2:3:4:5:6:7:8", "12345::", "g::", "1.2.3.4::", "::1.2.3.4:1",
        "1:2:3:4:5:6:7:1.2.3.4", "::01.2.3.4", "[::1]",
    ] {
        assert_eq!(parse_ip(s), None, "{}", s);
    }
}

#[test]
fn ipv6_edge_forms() {
    assert_eq!(parse_ip("::1.2.3.4"), Some(IpAddr::V6(0, 0, 0, 0, 0, 0, 0x0102, 0x0304)));
    assert_eq!(parse_ip("1::1.2.3.4"), Some(IpAddr::V6(1, 0, 0, 0, 0, 0, 0x0102, 0x0304)));
    assert_eq!(parse_ip("::2:3:4:5:6:7:8"), Some(IpAddr::V6(0, 2, 3, 4, 5, 6, 7, 8)));
    assert_eq!(parse_ip("1::2:3:4:5:6:7"), Some(IpAddr::V6(1, 0, 2, 3, 4, 5, 6, 7)));
    assert_eq!(parse_ip("0:0:0:0:0:0:0:0"), Some(IpAddr::V6(0, 0, 0, 0, 0, 0, 0, 0)));
    assert_eq!(parse_ip("::0.0.0.0"), Some(IpAddr::V6(0, 0, 0, 0, 0, 0, 0, 0)));
    assert_eq!(parse_ip("1:2:3:4:5:6:7:8::"), None);
    assert_eq!(parse_ip("01.2.3.4"), None);
}
