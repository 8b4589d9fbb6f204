use cxn::check::{faulted_check, finish_check, lookup_request, ping_request, tally, CheckResult};
use cxn::config::{Config, HostConfig};
use cxn::dns::{dns_result_from_lookup, DnsResult};
use cxn::ip::IpAddr;
use cxn::ping::PingResult;

fn host(name: &str, address: &str, ping: bool, dns: bool) -> HostConfig {
    HostConfig { name: name.to_string(), address: address.to_string(), ping, dns }
}

#[test]
fn test_check_result_success() {
    let result = CheckResult {
        name: "Test".to_string(),
        address: "8.8.8.8".to_string(),
        dns: None,
        ping: Some(PingResult::success("Test".to_string(), IpAddr::V4(8, 8, 8, 8), 10_000_000)),
    };
    assert!(result.is_success());
}

#[test]
fn test_check_result_ping_failure() {
    let result = CheckResult {
        name: "Test".to_string(),
        address: "8.8.8.8".to_string(),
        dns: None,
        ping: Some(PingResult::failure("Test".to_string(), IpAddr::V4(8, 8, 8, 8), "timeout".to_string())),
    };
    assert!(!result.is_success());
}

#[test]
fn test_check_result_dns_failure() {
    let result = CheckResult {
        name: "Test".to_string(),
        address: "bad.invalid".to_string(),
        dns: Some(DnsResult::failure(
            "Test".to_string(),
            "bad.invalid".to_string(),
            "no such host".to_string(),
        )),
        ping: None,
    };
    assert!(!result.is_success());
}

#[test]
fn test_check_result_no_checks() {
    let result = CheckResult {
        name: "Test".to_string(),
        address: "8.8.8.8".to_string(),
        dns: None,
        ping: None,
    };
    assert!(result.is_success());
}

#[test]
fn success_needs_every_present_result() {
    let ok_dns = DnsResult::success("A".to_string(), "a.example".to_string(), vec![IpAddr::V4(1, 2, 3, 4)]);
    let ok_ping = PingResult::success("A".to_string(), IpAddr::V4(1, 2, 3, 4), 5);
    let bad_ping = PingResult::failure("A".to_string(), IpAddr::V4(1, 2, 3, 4), "timeout".to_string());
    let both_ok = CheckResult {
        name: "A".to_string(),
        address: "a.example".to_string(),
        dns: Some(ok_dns.clone()),
        ping: Some(ok_ping),
    };
    assert!(both_ok.is_success());
    let one_bad = CheckResult {
        name: "A".to_string(),
        address: "a.example".to_string(),
        dns: Some(ok_dns),
        ping: Some(bad_ping),
    };
    assert!(!one_bad.is_success());
}

#[test]
fn test_config_default() {
    let config = Config::default();
    assert_eq!(config.timeout_ms, 1000);
    assert_eq!(config.retry_count, 3);
    assert!(config.hosts.is_empty());
}

#[test]
fn test_host_config_is_ip_address() {
    let ip_host = host("Test", "8.8.8.8", true, false);
    assert!(ip_host.is_ip_address());

    let hostname_host = host("Test", "google.com", true, true);
    assert!(!hostname_host.is_ip_address());
}

#[test]
fn test_host_config_should_resolve_dns() {
    let ip_host = host("Test", "8.8.8.8", true, true);
    assert!(!ip_host.should_resolve_dns());

    let hostname_host = host("Test", "google.com", true, true);
    assert!(hostname_host.should_resolve_dns());

    let hostname_no_dns = host("Test", "google.com", true, false);
    assert!(!hostname_no_dns.should_resolve_dns());
}

#[test]
fn has_checks_needs_ping_or_dns() {
    assert!(host("A", "a", true, false).has_checks());
    assert!(host("A", "a", false, true).has_checks());
    assert!(!host("A", "a", false, false).has_checks());
}

#[test]
fn literal_ip_never_asks_the_resolver() {
    assert_eq!(lookup_request(&host("A", "8.8.8.8", true, true)), None);
    assert_eq!(lookup_request(&host("A", "8.8.8.8", false, true)), None);
    assert_eq!(lookup_request(&host("A", "example.com", true, true)), Some(true));
    assert_eq!(lookup_request(&host("A", "example.com", true, false)), Some(false));
    assert_eq!(lookup_request(&host("A", "example.com", false, false)), None);
}

#[test]
fn literal_ip_is_pinged_directly() {
    let h = host("A", "8.8.8.8", true, true);
    assert_eq!(ping_request(&h, &None), Some(IpAddr::V4(8, 8, 8, 8)));
    let r = finish_check(&h, None, Some(PingResult::success("A".to_string(), IpAddr::V4(8, 8, 8, 8), 7)));
    assert!(r.dns.is_none());
    assert_eq!(r.ping.unwrap().rtt, Some(7));
}

#[test]
fn ping_target_is_first_resolved_address() {
    let h = host("B", "b.example", true, true);
    let lookup = Some(DnsResult::success(
        "B".to_string(),
        "b.example".to_string(),
        vec![IpAddr::V4(10, 0, 0, 2), IpAddr::V4(10, 0, 0, 3)],
    ));
    assert_eq!(ping_request(&h, &lookup), Some(IpAddr::V4(10, 0, 0, 2)));
    let no_ping = host("B", "b.example", false, true);
    assert_eq!(ping_request(&no_ping, &lookup), None);
}

#[test]
fn unresolved_ping_only_host_fails_without_dns_result() {
    let h = host("C", "nowhere.invalid", true, false);
    assert_eq!(lookup_request(&h), Some(false));
    let lookup = Some(dns_result_from_lookup("C", "nowhere.invalid", Err("no such host".to_string()), false));
    assert_eq!(ping_request(&h, &lookup), None);
    let r = finish_check(&h, lookup, None);
    assert!(r.dns.is_none());
    let p = r.ping.unwrap();
    assert!(!p.success);
    assert_eq!(p.error.as_deref(), Some("could not resolve hostname"));
    assert_eq!(p.address, IpAddr::V4(0, 0, 0, 0));
    assert_eq!(p.name, "C");
}

#[test]
fn host_without_checks_has_no_results() {
    let h = host("D", "d.example", false, false);
    assert_eq!(lookup_request(&h), None);
    assert_eq!(ping_request(&h, &None), None);
    let r = finish_check(&h, None, None);
    assert!(r.dns.is_none() && r.ping.is_none());
    assert!(r.is_success());
}

#[test]
fn two_host_scenario() {
    let hosts = vec![host("A", "8.8.8.8", true, false), host("B", "bad.invalid", true, true)];

    let a = &hosts[0];
    assert_eq!(lookup_request(a), None);
    assert_eq!(ping_request(a, &None), Some(IpAddr::V4(8, 8, 8, 8)));
    let ra = finish_check(a, None, Some(PingResult::success("A".to_string(), IpAddr::V4(8, 8, 8, 8), 10_000_000)));

    let b = &hosts[1];
    assert_eq!(lookup_request(b), Some(true));
    let lookup = Some(dns_result_from_lookup("B", "bad.invalid", Err("no such host".to_string()), true));
    assert_eq!(ping_request(b, &lookup), None);
    let rb = finish_check(b, lookup, None);

    assert!(ra.dns.is_none());
    let pa = ra.ping.clone().unwrap();
    assert!(pa.success);
    assert_eq!(pa.rtt, Some(10_000_000));
    let db = rb.dns.clone().unwrap();
    assert!(!db.success);
    let pb = rb.ping.clone().unwrap();
    assert!(!pb.success);
    assert_eq!(pb.error.as_deref(), Some("could not resolve hostname"));

    let results = vec![ra, rb];
    let t = tally(&hosts, &results);
    assert_eq!((t.ok, t.checked), (1, 2));
    assert!(!t.all_ok());
}

#[test]
fn tally_leaves_out_hosts_without_checks() {
    let hosts = vec![host("A", "8.8.8.8", true, false), host("N", "n.example", false, false)];
    let results = vec![
        finish_check(&hosts[0], None, Some(PingResult::success("A".to_string(), IpAddr::V4(8, 8, 8, 8), 1))),
        finish_check(&hosts[1], None, None),
    ];
    let t = tally(&hosts, &results);
    assert_eq!((t.ok, t.checked), (1, 1));
    assert!(t.all_ok());
    let empty = tally(&vec![], &vec![]);
    assert_eq!((empty.ok, empty.checked), (0, 0));
}

#[test]
fn faulted_check_counts_as_failed() {
    let hosts = vec![host("A", "a.example", true, true)];
    let r = faulted_check(&hosts[0]);
    assert_eq!(r.name, "A");
    assert_eq!(r.address, "a.example");
    assert!(r.dns.is_none());
    assert!(!r.is_success());
    assert_eq!(r.ping.as_ref().unwrap().error.as_deref(), Some("check did not complete"));
    let t = tally(&hosts, &vec![r]);
    assert_eq!((t.ok, t.checked), (0, 1));
}
