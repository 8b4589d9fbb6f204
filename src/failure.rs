use vstd::prelude::*;

verus! {

/// What went wrong with one echo request.
#[derive(Debug, Clone)]
pub enum PingFailure {
    /// No reply came within the timeout.
    Timeout,
    /// The transport failed: whether for want of permission, the operating
    /// system's error code if there is one, and the error's own text.
    Io { permission_denied: bool, os_code: Option<i32>, text: String },
    /// Anything else, with its own text.
    Other(String),
}

/// What went wrong with a lookup.
#[derive(Debug, Clone)]
pub enum LookupFailure {
    /// The name has no records.
    NoRecords,
    /// No answer came within the timeout.
    Timeout,
    /// The transport failed, with the error's own text.
    Io(String),
    /// Anything else, with its own text.
    Other(String),
}

pub open spec fn digit_char(d: nat) -> char {
    if d == 0 {
        '0'
    } else if d == 1 {
        '1'
    } else if d == 2 {
        '2'
    } else if d == 3 {
        '3'
    } else if d == 4 {
        '4'
    } else if d == 5 {
        '5'
    } else if d == 6 {
        '6'
    } else if d == 7 {
        '7'
    } else if d == 8 {
        '8'
    } else {
        '9'
    }
}

/// `n` written in decimal, without leading zeros.
pub open spec fn decimal_text(n: nat) -> Seq<char>
    decreases n,
{
    if n < 10 {
        seq![digit_char(n)]
    } else {
        decimal_text(n / 10).push(digit_char(n % 10))
    }
}

fn digit_string(d: u64) -> (r: String)
    requires
        d < 10,
    ensures
        r@ == seq![digit_char(d as nat)],
{
    let s = if d == 0 {
        "0"
    } else if d == 1 {
        "1"
    } else if d == 2 {
        "2"
    } else if d == 3 {
        "3"
    } else if d == 4 {
        "4"
    } else if d == 5 {
        "5"
    } else if d == 6 {
        "6"
    } else if d == 7 {
        "7"
    } else if d == 8 {
        "8"
    } else {
        "9"
    };
    proof {
        reveal_strlit("0");
        reveal_strlit("1");
        reveal_strlit("2");
        reveal_strlit("3");
        reveal_strlit("4");
        reveal_strlit("5");
        reveal_strlit("6");
        reveal_strlit("7");
        reveal_strlit("8");
        reveal_strlit("9");
    }
    let r = s.to_owned();
    assert(r@ =~= seq![digit_char(d as nat)]);
    r
}

/// Writes `n` in decimal.
pub fn decimal_string(n: u64) -> (r: String)
    ensures
        r@ == decimal_text(n as nat),
    decreases n,
{
    if n < 10 {
        digit_string(n)
    } else {
        let mut s = decimal_string(n / 10);
        let last = digit_string(n % 10);
        s.append(last.as_str());
        assert(s@ =~= decimal_text(n as nat));
        s
    }
}

pub open spec fn ping_failure_text(e: PingFailure, timeout_ms: u64) -> Seq<char> {
    match e {
        PingFailure::Timeout => "timeout after "@ + decimal_text(timeout_ms as nat) + "ms"@,
        PingFailure::Io { permission_denied, os_code, text } => {
            if permission_denied {
                "permission denied (need cap_net_raw)"@
            } else if os_code == Some(101i32) {
                "network unreachable"@
            } else if os_code == Some(113i32) {
                "no route to host"@
            } else {
                "io error: "@ + text@
            }
        },
        PingFailure::Other(text) => text@,
    }
}

/// The message shown for a failed echo request: the timeout in
/// milliseconds, a plain word for a missing permission and the common
/// routing failures (operating system codes 101 and 113), else the error's
/// own text.
pub fn ping_failure_message(e: &PingFailure, timeout_ms: u64) -> (r: String)
    ensures
        r@ == ping_failure_text(*e, timeout_ms),
{
    match e {
        PingFailure::Timeout => {
            let mut s = "timeout after ".to_owned();
            let n = decimal_string(timeout_ms);
            s.append(n.as_str());
            s.append("ms");
            s
        },
        PingFailure::Io { permission_denied, os_code, text } => {
            if *permission_denied {
                "permission denied (need cap_net_raw)".to_owned()
            } else {
                match os_code {
                    Some(101i32) => "network unreachable".to_owned(),
                    Some(113i32) => "no route to host".to_owned(),
                    _ => {
                        let mut s = "io error: ".to_owned();
                        s.append(text.as_str());
                        s
                    },
                }
            }
        },
        PingFailure::Other(text) => text.clone(),
    }
}

pub open spec fn lookup_failure_text(e: LookupFailure) -> Seq<char> {
    match e {
        LookupFailure::NoRecords => "no such host"@,
        LookupFailure::Timeout => "timeout"@,
        LookupFailure::Io(text) => "io error: "@ + text@,
        LookupFailure::Other(text) => text@,
    }
}

/// The message shown for a failed lookup.
pub fn lookup_failure_message(e: &LookupFailure) -> (r: String)
    ensures
        r@ == lookup_failure_text(*e),
{
    match e {
        LookupFailure::NoRecords => "no such host".to_owned(),
        LookupFailure::Timeout => "timeout".to_owned(),
        LookupFailure::Io(text) => {
            let mut s = "io error: ".to_owned();
            s.append(text.as_str());
            s
        },
        LookupFailure::Other(text) => text.clone(),
    }
}

} // verus!
