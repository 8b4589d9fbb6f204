use vstd::prelude::*;
use crate::ip::IpAddr;

verus! {

/// Result of a ping check. Times are in nanoseconds.
#[derive(Debug, Clone)]
pub struct PingResult {
    /// Display name from the configuration.
    pub name: String,
    /// The IP address that was pinged.
    pub address: IpAddr,
    /// Whether the ping was successful.
    pub success: bool,
    /// Round-trip time if successful.
    pub rtt: Option<u64>,
    /// Error message if failed.
    pub error: Option<String>,
}

/// Detailed ping output for the `ping` command: each echo by its sequence
/// number, with its round-trip time in nanoseconds or its error.
#[derive(Debug, Clone)]
pub struct DetailedPingResult {
    pub address: IpAddr,
    pub results: Vec<(u16, Result<u64, String>)>,
    pub packets_sent: u32,
    pub packets_received: u32,
}

/// How many echoes were answered.
pub open spec fn answered_count(e: Seq<Result<u64, String>>) -> nat
    decreases e.len(),
{
    if e.len() == 0 {
        0
    } else {
        answered_count(e.drop_last()) + (if e.last() is Ok {
            1nat
        } else {
            0nat
        })
    }
}

/// The sum of the round-trip times of the answered echoes.
pub open spec fn rtt_total(e: Seq<Result<u64, String>>) -> nat
    decreases e.len(),
{
    if e.len() == 0 {
        0
    } else {
        rtt_total(e.drop_last()) + match e.last() {
            Ok(t) => t as nat,
            Err(_) => 0nat,
        }
    }
}

/// The error of the last echo that failed, if one did.
pub open spec fn last_error(e: Seq<Result<u64, String>>) -> Option<String>
    decreases e.len(),
{
    if e.len() == 0 {
        None
    } else {
        match e.last() {
            Err(m) => Some(m),
            Ok(_) => last_error(e.drop_last()),
        }
    }
}

pub open spec fn all_failed_message() -> Seq<char> {
    "all pings failed"@
}

impl PingResult {
    /// Creates a successful ping result.
    pub fn success(name: String, address: IpAddr, rtt: u64) -> (r: Self)
        ensures
            r.name == name,
            r.address == address,
            r.success,
            r.rtt == Some(rtt),
            r.error is None,
    {
        PingResult { name, address, success: true, rtt: Some(rtt), error: None }
    }

    /// Creates a failed ping result.
    pub fn failure(name: String, address: IpAddr, error: String) -> (r: Self)
        ensures
            r.name == name,
            r.address == address,
            !r.success,
            r.rtt is None,
            r.error == Some(error),
    {
        PingResult { name, address, success: false, rtt: None, error: Some(error) }
    }
}

proof fn lemma_total_step(total: int, count: int, t: int)
    requires
        0 <= total <= count * (u64::MAX as int),
        0 <= t <= u64::MAX,
        0 <= count,
    ensures
        total + t <= (count + 1) * (u64::MAX as int),
{
    assert(total + t <= (count + 1) * (u64::MAX as int)) by (nonlinear_arith)
        requires
            total <= count * (u64::MAX as int),
            t <= u64::MAX,
    ;
}

proof fn lemma_mean_bound(total: int, count: int)
    requires
        0 <= total <= count * (u64::MAX as int),
        0 < count,
    ensures
        total / count <= u64::MAX,
{
    assert(total / count <= u64::MAX) by (nonlinear_arith)
        requires
            0 <= total <= count * (u64::MAX as int),
            0 < count,
    ;
}

/// The outcome of a ping check from its echoes: success with the mean
/// round-trip time of the answered ones (rounded down) when any was
/// answered, else failure with the last error seen, or "all pings failed"
/// when there was none.
pub fn ping_result_from_echoes(name: &str, address: IpAddr, echoes: &Vec<Result<u64, String>>) -> (r:
    PingResult)
    requires
        echoes@.len() <= u32::MAX,
    ensures
        r.name@ == name@,
        r.address == address,
        answered_count(echoes@) == 0 ==> {
            &&& !r.success
            &&& r.rtt is None
            &&& r.error is Some
            &&& r.error.unwrap()@ == match last_error(echoes@) {
                Some(m) => m@,
                None => all_failed_message(),
            }
        },
        answered_count(echoes@) > 0 ==> {
            &&& r.success
            &&& r.rtt == Some((rtt_total(echoes@) / answered_count(echoes@)) as u64)
            &&& r.error is None
        },
{
    let mut total: u128 = 0;
    let mut count: u32 = 0;
    let mut last: Option<String> = None;
    let mut i: usize = 0;
    proof {
        assert(echoes@.subrange(0, 0) =~= Seq::<Result<u64, String>>::empty());
    }
    while i < echoes.len()
        invariant
            i <= echoes@.len() <= u32::MAX,
            count <= i,
            count as nat == answered_count(echoes@.subrange(0, i as int)),
            total as nat == rtt_total(echoes@.subrange(0, i as int)),
            total as int <= (count as int) * (u64::MAX as int),
            last == last_error(echoes@.subrange(0, i as int)),
        decreases echoes@.len() - i,
    {
        proof {
            let pre = echoes@.subrange(0, i as int);
            assert(echoes@.subrange(0, i + 1).drop_last() =~= pre);
            assert(echoes@.subrange(0, i + 1).last() == echoes@[i as int]);
        }
        match &echoes[i] {
            Ok(t) => {
                proof {
                    lemma_total_step(total as int, count as int, *t as int);
                    assert((count as int + 1) * (u64::MAX as int) <= (u32::MAX as int) * (
                    u64::MAX as int)) by (nonlinear_arith)
                        requires
                            count as int + 1 <= u32::MAX,
                    ;
                }
                total = total + *t as u128;
                count = count + 1;
            },
            Err(m) => {
                last = Some(m.clone());
            },
        }
        i = i + 1;
    }
    proof {
        assert(echoes@.subrange(0, echoes@.len() as int) =~= echoes@);
    }
    if count == 0 {
        let error = match last {
            Some(m) => m,
            None => "all pings failed".to_owned(),
        };
        PingResult::failure(name.to_owned(), address, error)
    } else {
        proof {
            lemma_mean_bound(total as int, count as int);
        }
        let mean = (total / (count as u128)) as u64;
        PingResult::success(name.to_owned(), address, mean)
    }
}

/// The detailed result of the `ping` command from its echoes: each echo
/// under its sequence number, with the counts of echoes sent and answered.
pub fn detailed_from_echoes(address: IpAddr, echoes: &Vec<Result<u64, String>>) -> (r:
    DetailedPingResult)
    requires
        echoes@.len() <= u32::MAX,
    ensures
        r.address == address,
        r.packets_sent == echoes@.len(),
        r.packets_received == answered_count(echoes@),
        r.results@.len() == echoes@.len(),
        forall|k: int|
            0 <= k < echoes@.len() ==> (#[trigger] r.results@[k]).0 == k as u16 && r.results@[k].1
                == echoes@[k],
{
    let mut results: Vec<(u16, Result<u64, String>)> = Vec::new();
    let mut received: u32 = 0;
    let mut i: usize = 0;
    proof {
        assert(echoes@.subrange(0, 0) =~= Seq::<Result<u64, String>>::empty());
    }
    while i < echoes.len()
        invariant
            i <= echoes@.len() <= u32::MAX,
            received <= i,
            received as nat == answered_count(echoes@.subrange(0, i as int)),
            results@.len() == i,
            forall|k: int|
                0 <= k < i ==> (#[trigger] results@[k]).0 == k as u16 && results@[k].1
                    == echoes@[k],
        decreases echoes@.len() - i,
    {
        proof {
            let pre = echoes@.subrange(0, i as int);
            assert(echoes@.subrange(0, i + 1).drop_last() =~= pre);
            assert(echoes@.subrange(0, i + 1).last() == echoes@[i as int]);
        }
        let echo = match &echoes[i] {
            Ok(t) => {
                received = received + 1;
                Ok(*t)
            },
            Err(m) => Err(m.clone()),
        };
        results.push((i as u16, echo));
        i = i + 1;
    }
    proof {
        assert(echoes@.subrange(0, echoes@.len() as int) =~= echoes@);
    }
    DetailedPingResult {
        address,
        results,
        packets_sent: echoes.len() as u32,
        packets_received: received,
    }
}

} // verus!
