use vstd::prelude::*;
use crate::config::HostConfig;
use crate::dns::DnsResult;
use crate::ip::{ip_literal_of, parse_ip, unspecified_v4, IpAddr};
use crate::ping::PingResult;

verus! {

/// Result of checking a single host.
#[derive(Debug, Clone)]
pub struct CheckResult {
    /// Display name from the configuration.
    pub name: String,
    /// Address from the configuration.
    pub address: String,
    /// DNS resolution result, if that check was made.
    pub dns: Option<DnsResult>,
    /// Ping result, if that check was made.
    pub ping: Option<PingResult>,
}

impl CheckResult {
    /// Every check that was made succeeded; one that was not made counts
    /// as no failure.
    pub open spec fn spec_is_success(&self) -> bool {
        &&& (self.dns is None || self.dns.unwrap().success)
        &&& (self.ping is None || self.ping.unwrap().success)
    }

    /// Checks if all performed checks were successful.
    pub fn is_success(&self) -> (r: bool)
        ensures
            r == self.spec_is_success(),
    {
        let dns_ok = match &self.dns {
            Some(d) => d.success,
            None => true,
        };
        let ping_ok = match &self.ping {
            Some(p) => p.success,
            None => true,
        };
        dns_ok && ping_ok
    }
}

/// A result with no sub-result is a success.
pub proof fn lemma_no_checks_is_success(r: CheckResult)
    requires
        r.dns is None,
        r.ping is None,
    ensures
        r.spec_is_success(),
{
}

/// The lookup that the check of `h` asks of the resolver: `Some(include_ipv6)`,
/// or `None` when it needs none. A literal IP needs none; a DNS check asks
/// for both families; a ping alone asks for the primary family, only to find
/// a target.
pub open spec fn lookup_plan(h: HostConfig) -> Option<bool> {
    if ip_literal_of(h.address@) is Some {
        None
    } else if h.dns {
        Some(true)
    } else if h.ping {
        Some(false)
    } else {
        None
    }
}

/// The address to ping: the literal IP, else the first address of a lookup
/// that succeeded.
pub open spec fn ping_target(h: HostConfig, lookup: Option<DnsResult>) -> Option<IpAddr> {
    match ip_literal_of(h.address@) {
        Some(ip) => Some(ip),
        None => match lookup {
            Some(d) => if d.success && d.addresses@.len() > 0 {
                Some(d.addresses@[0])
            } else {
                None
            },
            None => None,
        },
    }
}

/// The address that the pinger is handed for `h`, if it is called at all.
pub open spec fn ping_plan(h: HostConfig, lookup: Option<DnsResult>) -> Option<IpAddr> {
    if h.ping {
        ping_target(h, lookup)
    } else {
        None
    }
}

pub open spec fn unresolvable_message() -> Seq<char> {
    "could not resolve hostname"@
}

/// The ping outcome that stands where no target could be found.
pub open spec fn is_unresolvable_ping(p: PingResult, h: HostConfig) -> bool {
    &&& p.name@ == h.name@
    &&& p.address == unspecified_v4()
    &&& !p.success
    &&& p.rtt is None
    &&& p.error is Some
    &&& p.error.unwrap()@ == unresolvable_message()
}

/// What the check of `h` gives, from what the resolver answered (`lookup`,
/// when it was asked) and what the pinger answered (`ping`, when it was
/// called): the lookup is reported only when it was a DNS check; a ping
/// with no target is a failure of its own.
pub open spec fn is_check_of(
    h: HostConfig,
    lookup: Option<DnsResult>,
    ping: Option<PingResult>,
    r: CheckResult,
) -> bool {
    &&& r.name@ == h.name@
    &&& r.address@ == h.address@
    &&& r.dns == (if lookup_plan(h) == Some(true) {
        lookup
    } else {
        None
    })
    &&& !h.ping ==> r.ping is None
    &&& h.ping && ping_target(h, lookup) is Some ==> r.ping == ping
    &&& h.ping && ping_target(h, lookup) is None ==> r.ping is Some && is_unresolvable_ping(
        r.ping.unwrap(),
        h,
    )
}

/// The lookup that checking `host` needs, if any: `Some(include_ipv6)`.
pub fn lookup_request(host: &HostConfig) -> (r: Option<bool>)
    ensures
        r == lookup_plan(*host),
{
    if host.is_ip_address() {
        None
    } else if host.dns {
        Some(true)
    } else if host.ping {
        Some(false)
    } else {
        None
    }
}

/// The address to hand the pinger after the lookup (if one was made), or
/// `None` when the pinger is not to be called.
pub fn ping_request(host: &HostConfig, lookup: &Option<DnsResult>) -> (r: Option<IpAddr>)
    ensures
        r == ping_plan(*host, *lookup),
{
    if !host.ping {
        return None;
    }
    match parse_ip(host.address.as_str()) {
        Some(ip) => Some(ip),
        None => match lookup {
            Some(d) => {
                if d.success && d.addresses.len() > 0 {
                    Some(d.addresses[0])
                } else {
                    None
                }
            },
            None => None,
        },
    }
}

/// Puts together the result of checking `host` from what the resolver and
/// the pinger answered.
pub fn finish_check(host: &HostConfig, lookup: Option<DnsResult>, ping: Option<PingResult>) -> (r:
    CheckResult)
    ensures
        is_check_of(*host, lookup, ping, r),
{
    let target = ping_request(host, &lookup);
    let ping_result = if !host.ping {
        None
    } else if target.is_some() {
        ping
    } else {
        Some(
            PingResult::failure(
                host.name.clone(),
                IpAddr::unspecified(),
                "could not resolve hostname".to_owned(),
            ),
        )
    };
    let dns_result = match lookup_request(host) {
        Some(true) => lookup,
        _ => None,
    };
    CheckResult {
        name: host.name.clone(),
        address: host.address.clone(),
        dns: dns_result,
        ping: ping_result,
    }
}

pub open spec fn fault_message() -> Seq<char> {
    "check did not complete"@
}

/// The result that stands for a check of `host` that stopped on a fault
/// before it could finish: a failed ping, so that the host counts as failed
/// and the rest of the batch goes on.
pub fn faulted_check(host: &HostConfig) -> (r: CheckResult)
    ensures
        r.name@ == host.name@,
        r.address@ == host.address@,
        r.dns is None,
        r.ping is Some,
        r.ping.unwrap().name@ == host.name@,
        r.ping.unwrap().address == unspecified_v4(),
        !r.ping.unwrap().success,
        r.ping.unwrap().error is Some,
        r.ping.unwrap().error.unwrap()@ == fault_message(),
        !r.spec_is_success(),
{
    CheckResult {
        name: host.name.clone(),
        address: host.address.clone(),
        dns: None,
        ping: Some(
            PingResult::failure(
                host.name.clone(),
                IpAddr::unspecified(),
                "check did not complete".to_owned(),
            ),
        ),
    }
}

/// The check of a host whose address is an IP literal never asks the
/// resolver, whatever checks it asks for.
pub proof fn lemma_literal_needs_no_lookup(h: HostConfig)
    requires
        ip_literal_of(h.address@) is Some,
    ensures
        lookup_plan(h) is None,
{
}

/// A host that asks for a ping but not for DNS, whose hostname the resolver
/// could not turn into an address, gets a failed ping with the message
/// "could not resolve hostname", and no DNS result.
pub proof fn lemma_unresolved_ping_fails(
    h: HostConfig,
    lookup: Option<DnsResult>,
    ping: Option<PingResult>,
    r: CheckResult,
)
    requires
        h.ping,
        !h.dns,
        ip_literal_of(h.address@) is None,
        lookup is Some,
        !lookup.unwrap().success,
        is_check_of(h, lookup, ping, r),
    ensures
        r.dns is None,
        r.ping is Some,
        !r.ping.unwrap().success,
        r.ping.unwrap().error.unwrap()@ == unresolvable_message(),
{
}

/// How many of `hosts` have at least one check enabled.
pub open spec fn checked_count(hosts: Seq<HostConfig>) -> nat
    decreases hosts.len(),
{
    if hosts.len() == 0 {
        0
    } else {
        checked_count(hosts.drop_last()) + (if hosts.last().spec_has_checks() {
            1nat
        } else {
            0nat
        })
    }
}

/// How many of `hosts` have a check enabled and a successful result at the
/// same place of `results`.
pub open spec fn ok_count(hosts: Seq<HostConfig>, results: Seq<CheckResult>) -> nat
    decreases hosts.len(),
{
    if hosts.len() == 0 || results.len() == 0 {
        0
    } else {
        ok_count(hosts.drop_last(), results.drop_last()) + (if hosts.last().spec_has_checks()
            && results.last().spec_is_success() {
            1nat
        } else {
            0nat
        })
    }
}

/// The aggregate of a run: hosts that passed, of the hosts checked.
#[derive(Debug, Clone, Copy, PartialEq, Eq, Structural)]
pub struct Tally {
    pub ok: usize,
    pub checked: usize,
}

impl Tally {
    /// Whether every host checked passed.
    pub fn all_ok(&self) -> (r: bool)
        ensures
            r == (self.ok == self.checked),
    {
        self.ok == self.checked
    }
}

proof fn lemma_ok_le_checked(hosts: Seq<HostConfig>, results: Seq<CheckResult>)
    requires
        hosts.len() == results.len(),
    ensures
        ok_count(hosts, results) <= checked_count(hosts),
    decreases hosts.len(),
{
    if hosts.len() > 0 {
        lemma_ok_le_checked(hosts.drop_last(), results.drop_last());
    }
}

/// Counts the hosts checked (those with a check enabled) and, among them,
/// those whose result is a success. A host with no check enabled counts in
/// neither number.
pub fn tally(hosts: &Vec<HostConfig>, results: &Vec<CheckResult>) -> (r: Tally)
    requires
        hosts@.len() == results@.len(),
    ensures
        r.checked == checked_count(hosts@),
        r.ok == ok_count(hosts@, results@),
        r.ok <= r.checked,
{
    let mut ok: usize = 0;
    let mut checked: usize = 0;
    let mut i: usize = 0;
    proof {
        assert(hosts@.subrange(0, 0) =~= Seq::<HostConfig>::empty());
    }
    while i < hosts.len()
        invariant
            i <= hosts@.len() == results@.len(),
            checked <= i,
            ok <= i,
            checked == checked_count(hosts@.subrange(0, i as int)),
            ok == ok_count(hosts@.subrange(0, i as int), results@.subrange(0, i as int)),
        decreases hosts@.len() - i,
    {
        proof {
            assert(hosts@.subrange(0, i + 1).drop_last() =~= hosts@.subrange(0, i as int));
            assert(results@.subrange(0, i + 1).drop_last() =~= results@.subrange(0, i as int));
        }
        if hosts[i].has_checks() {
            checked = checked + 1;
            if results[i].is_success() {
                ok = ok + 1;
            }
        }
        i = i + 1;
    }
    proof {
        assert(hosts@.subrange(0, i as int) =~= hosts@);
        assert(results@.subrange(0, i as int) =~= results@);
        lemma_ok_le_checked(hosts@, results@);
    }
    Tally { ok, checked }
}

/// A host with no check enabled changes neither count, whatever its
/// result.
pub proof fn lemma_unchecked_host_not_counted(
    hosts: Seq<HostConfig>,
    results: Seq<CheckResult>,
    h: HostConfig,
    r: CheckResult,
)
    requires
        hosts.len() == results.len(),
        !h.ping,
        !h.dns,
    ensures
        checked_count(hosts.push(h)) == checked_count(hosts),
        ok_count(hosts.push(h), results.push(r)) == ok_count(hosts, results),
{
    assert(hosts.push(h).drop_last() =~= hosts);
    assert(results.push(r).drop_last() =~= results);
}

/// A host with a check enabled adds one to the hosts checked, and one to
/// those that passed exactly when its result is a success.
pub proof fn lemma_checked_host_counted(
    hosts: Seq<HostConfig>,
    results: Seq<CheckResult>,
    h: HostConfig,
    r: CheckResult,
)
    requires
        hosts.len() == results.len(),
        h.ping || h.dns,
    ensures
        checked_count(hosts.push(h)) == checked_count(hosts) + 1,
        ok_count(hosts.push(h), results.push(r)) == ok_count(hosts, results) + (if r.spec_is_success() {
            1nat
        } else {
            0nat
        }),
{
    assert(hosts.push(h).drop_last() =~= hosts);
    assert(results.push(r).drop_last() =~= results);
}

} // verus!
