use cxn::failure::{decimal_string, lookup_failure_message, ping_failure_message, LookupFailure, PingFailure};

#[test]
fn decimal_rendering() {
    assert_eq!(decimal_string(0), "0");
    assert_eq!(decimal_string(7), "7");
    assert_eq!(decimal_string(1000), "1000");
    assert_eq!(decimal_string(u64::MAX), "18446744073709551615");
}

#[test]
fn ping_failure_messages() {
    assert_eq!(ping_failure_message(&PingFailure::Timeout, 1000), "timeout after 1000ms");
    let denied = PingFailure::Io { permission_denied: true, os_code: Some(1), text: "x".to_string() };
    assert_eq!(ping_failure_message(&denied, 5), "permission denied (need cap_net_raw)");
    let unreachable = PingFailure::Io { permission_denied: false, os_code: Some(101), text: "x".to_string() };
    assert_eq!(ping_failure_message(&unreachable, 5), "network unreachable");
    let no_route = PingFailure::Io { permission_denied: false, os_code: Some(113), text: "x".to_string() };
    assert_eq!(ping_failure_message(&no_route, 5), "no route to host");
    let other_io = PingFailure::Io { permission_denied: false, os_code: None, text: "broken pipe".to_string() };
    assert_eq!(ping_failure_message(&other_io, 5), "io error: broken pipe");
    assert_eq!(ping_failure_message(&PingFailure::Other("Network error.".to_string()), 5), "Network error.");
}

#[test]
fn lookup_failure_messages() {
    assert_eq!(lookup_failure_message(&LookupFailure::NoRecords), "no such host");
    assert_eq!(lookup_failure_message(&LookupFailure::Timeout), "timeout");
    assert_eq!(lookup_failure_message(&LookupFailure::Io("reset".to_string())), "io error: reset");
    assert_eq!(lookup_failure_message(&LookupFailure::Other("proto".to_string())), "proto");
}
