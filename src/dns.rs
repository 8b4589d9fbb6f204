use vstd::prelude::*;
use crate::ip::IpAddr;

verus! {

/// Result of a DNS resolution operation.
#[derive(Debug, Clone)]
pub struct DnsResult {
    /// Display name from the configuration.
    pub name: String,
    /// The hostname that was resolved.
    pub hostname: String,
    /// Whether the resolution was successful.
    pub success: bool,
    /// Resolved IP addresses.
    pub addresses: Vec<IpAddr>,
    /// Error message if failed.
    pub error: Option<String>,
}

/// Detailed DNS result, with the two address families apart.
#[derive(Debug, Clone)]
pub struct DetailedDnsResult {
    pub hostname: String,
    pub ipv4_addresses: Vec<IpAddr>,
    pub ipv6_addresses: Vec<IpAddr>,
    pub error: Option<String>,
}

/// The addresses of `a` of one family (IPv4 when `v4`), in their order.
pub open spec fn of_family(a: Seq<IpAddr>, v4: bool) -> Seq<IpAddr>
    decreases a.len(),
{
    if a.len() == 0 {
        Seq::empty()
    } else {
        let rest = of_family(a.drop_last(), v4);
        if (a.last() is V4) == v4 {
            rest.push(a.last())
        } else {
            rest
        }
    }
}

/// The addresses that a check keeps: all of them, or the IPv4 ones only.
pub open spec fn kept_addresses(a: Seq<IpAddr>, include_ipv6: bool) -> Seq<IpAddr> {
    if include_ipv6 {
        a
    } else {
        of_family(a, true)
    }
}

pub open spec fn no_addresses_message() -> Seq<char> {
    "no addresses found"@
}

impl DnsResult {
    /// Creates a successful DNS result.
    pub fn success(name: String, hostname: String, addresses: Vec<IpAddr>) -> (r: Self)
        ensures
            r.name == name,
            r.hostname == hostname,
            r.success,
            r.addresses == addresses,
            r.error is None,
    {
        DnsResult { name, hostname, success: true, addresses, error: None }
    }

    /// Creates a failed DNS result.
    pub fn failure(name: String, hostname: String, error: String) -> (r: Self)
        ensures
            r.name == name,
            r.hostname == hostname,
            !r.success,
            r.addresses@.len() == 0,
            r.error == Some(error),
    {
        DnsResult { name, hostname, success: false, addresses: Vec::new(), error: Some(error) }
    }
}

/// Collects the addresses of `a` of one family, in their order.
fn select_family(a: &Vec<IpAddr>, v4: bool) -> (r: Vec<IpAddr>)
    ensures
        r@ == of_family(a@, v4),
{
    let mut r: Vec<IpAddr> = Vec::new();
    let mut i: usize = 0;
    proof {
        assert(a@.subrange(0, 0) =~= Seq::<IpAddr>::empty());
    }
    while i < a.len()
        invariant
            i <= a@.len(),
            r@ == of_family(a@.subrange(0, i as int), v4),
        decreases a@.len() - i,
    {
        let ip = a[i];
        proof {
            let pre = a@.subrange(0, i as int);
            assert(a@.subrange(0, i + 1).drop_last() =~= pre);
            assert(a@.subrange(0, i + 1).last() == ip);
        }
        if ip.is_ipv4() == v4 {
            r.push(ip);
        }
        i = i + 1;
    }
    proof {
        assert(a@.subrange(0, a@.len() as int) =~= a@);
    }
    r
}

/// Turns what a lookup of `hostname` answered (its addresses, or the
/// message of its error) into the result of a DNS check. Without
/// `include_ipv6` only the IPv4 addresses are kept; a check that keeps none
/// fails with "no addresses found".
pub fn dns_result_from_lookup(
    name: &str,
    hostname: &str,
    lookup: Result<Vec<IpAddr>, String>,
    include_ipv6: bool,
) -> (r: DnsResult)
    ensures
        r.name@ == name@,
        r.hostname@ == hostname@,
        match lookup {
            Err(e) => !r.success && r.error == Some(e) && r.addresses@.len() == 0,
            Ok(a) => {
                let kept = kept_addresses(a@, include_ipv6);
                if kept.len() == 0 {
                    &&& !r.success
                    &&& r.error is Some
                    &&& r.error.unwrap()@ == no_addresses_message()
                    &&& r.addresses@.len() == 0
                } else {
                    r.success && r.addresses@ == kept && r.error is None
                }
            },
        },
{
    match lookup {
        Err(e) => DnsResult::failure(name.to_owned(), hostname.to_owned(), e),
        Ok(a) => {
            let kept = if include_ipv6 {
                a
            } else {
                select_family(&a, true)
            };
            if kept.len() == 0 {
                DnsResult::failure(name.to_owned(), hostname.to_owned(), "no addresses found".to_owned())
            } else {
                DnsResult::success(name.to_owned(), hostname.to_owned(), kept)
            }
        },
    }
}

/// Turns what a lookup of `hostname` answered into the detailed result of
/// the `dns` command: the IPv4 addresses, and the IPv6 ones when asked for.
pub fn detailed_from_lookup(
    hostname: &str,
    lookup: Result<Vec<IpAddr>, String>,
    include_ipv6: bool,
) -> (r: DetailedDnsResult)
    ensures
        r.hostname@ == hostname@,
        match lookup {
            Err(e) => {
                &&& r.error == Some(e)
                &&& r.ipv4_addresses@.len() == 0
                &&& r.ipv6_addresses@.len() == 0
            },
            Ok(a) => {
                &&& r.error is None
                &&& r.ipv4_addresses@ == of_family(a@, true)
                &&& r.ipv6_addresses@ == (if include_ipv6 {
                    of_family(a@, false)
                } else {
                    Seq::empty()
                })
            },
        },
{
    match lookup {
        Err(e) => DetailedDnsResult {
            hostname: hostname.to_owned(),
            ipv4_addresses: Vec::new(),
            ipv6_addresses: Vec::new(),
            error: Some(e),
        },
        Ok(a) => {
            let ipv4_addresses = select_family(&a, true);
            let ipv6_addresses = if include_ipv6 {
                select_family(&a, false)
            } else {
                Vec::new()
            };
            DetailedDnsResult { hostname: hostname.to_owned(), ipv4_addresses, ipv6_addresses, error: None }
        },
    }
}

} // verus!
