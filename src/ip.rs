use vstd::prelude::*;
use crate::ipv6::{ipv6_of, parse_ipv6};

verus! {

/// An IP address, held as the numbers it is made of.
#[derive(Clone, Copy, Debug, PartialEq, Eq, Structural)]
pub enum IpAddr {
    V4(u8, u8, u8, u8),
    V6(u16, u16, u16, u16, u16, u16, u16, u16),
}

/// The address `0.0.0.0`, which stands where no address could be found.
pub open spec fn unspecified_v4() -> IpAddr {
    IpAddr::V4(0, 0, 0, 0)
}

impl IpAddr {
    pub fn is_ipv4(&self) -> (r: bool)
        ensures
            r == (*self is V4),
    {
        match self {
            IpAddr::V4(..) => true,
            IpAddr::V6(..) => false,
        }
    }

    pub fn unspecified() -> (r: IpAddr)
        ensures
            r == unspecified_v4(),
    {
        IpAddr::V4(0, 0, 0, 0)
    }
}

pub open spec fn is_digit(c: char) -> bool {
    '0' <= c && c <= '9'
}

pub open spec fn digit_value(c: char) -> nat {
    ((c as u32) - ('0' as u32)) as nat
}

/// The number that a run of decimal digits writes.
pub open spec fn decimal_value(t: Seq<char>) -> nat
    decreases t.len(),
{
    if t.len() == 0 {
        0
    } else {
        decimal_value(t.drop_last()) * 10 + digit_value(t.last())
    }
}

/// At most three digits, and no leading zero before another digit.
pub open spec fn octet_prefix_ok(t: Seq<char>) -> bool {
    &&& t.len() <= 3
    &&& forall|i: int| 0 <= i < t.len() ==> is_digit(#[trigger] t[i])
    &&& (t.len() <= 1 || t[0] != '0')
}

/// One decimal field of a dotted IPv4 address: `0` to `255`, no leading zeros.
pub open spec fn is_octet_field(t: Seq<char>) -> bool {
    &&& 1 <= t.len()
    &&& octet_prefix_ok(t)
    &&& decimal_value(t) <= 255
}

/// The pieces of `s` between its separators `sep`, in order (one piece more
/// than separators).
pub open spec fn split_on(s: Seq<char>, sep: char) -> Seq<Seq<char>>
    decreases s.len(),
{
    if s.len() == 0 {
        seq![Seq::<char>::empty()]
    } else {
        let f = split_on(s.drop_last(), sep);
        if s.last() == sep {
            f.push(Seq::<char>::empty())
        } else {
            f.update(f.len() - 1, f.last().push(s.last()))
        }
    }
}

/// The IPv4 address that `s` writes in dotted decimal, if it writes one.
pub open spec fn ipv4_of(s: Seq<char>) -> Option<IpAddr> {
    let f = split_on(s, '.');
    if f.len() == 4 && forall|k: int| 0 <= k < 4 ==> is_octet_field(#[trigger] f[k]) {
        Some(
            IpAddr::V4(
                decimal_value(f[0]) as u8,
                decimal_value(f[1]) as u8,
                decimal_value(f[2]) as u8,
                decimal_value(f[3]) as u8,
            ),
        )
    } else {
        None
    }
}

proof fn lemma_decimal_push(t: Seq<char>, c: char)
    ensures
        decimal_value(t.push(c)) == decimal_value(t) * 10 + digit_value(c),
{
    assert(t.push(c).drop_last() =~= t);
}

/// Reads a dotted-decimal IPv4 address such as `8.8.8.8`.
pub fn parse_ipv4(s: &str) -> (r: Option<IpAddr>)
    ensures
        r == ipv4_of(s@),
{
    let n = s.unicode_len();
    let mut vals: Vec<u8> = Vec::new();
    let mut bad = false;
    let mut cur_ok = true;
    let mut cur_len: usize = 0;
    let mut cur_val: u32 = 0;
    let mut lead_zero = false;
    let mut i: usize = 0;
    proof {
        assert(s@.subrange(0, 0) =~= Seq::<char>::empty());
    }
    while i < n
        invariant
            n == s@.len(),
            i <= n,
            cur_len <= i,
            split_on(s@.subrange(0, i as int), '.').len() >= 1,
            ({
                let f = split_on(s@.subrange(0, i as int), '.');
                &&& cur_ok == octet_prefix_ok(f.last())
                &&& cur_len == f.last().len()
                &&& lead_zero == (f.last().len() >= 1 && f.last()[0] == '0')
                &&& cur_ok ==> cur_val as nat == decimal_value(f.last()) && cur_val < 1000
                &&& cur_ok && cur_len <= 2 ==> cur_val < 100
                &&& cur_ok && cur_len <= 1 ==> cur_val < 10
                &&& bad ==> (f.len() > 4 || exists|k: int|
                    0 <= k < f.len() - 1 && !is_octet_field(#[trigger] f[k]))
                &&& !bad ==> {
                    &&& f.len() <= 4
                    &&& vals@.len() == f.len() - 1
                    &&& forall|k: int|
                        0 <= k < f.len() - 1 ==> is_octet_field(#[trigger] f[k])
                            && vals@[k] as nat == decimal_value(f[k])
                }
            }),
        decreases n - i,
    {
        let c = s.get_char(i);
        let ghost pre = s@.subrange(0, i as int);
        let ghost f = split_on(pre, '.');
        assert(s@.subrange(0, i + 1) =~= pre.push(c));
        assert(pre.push(c).drop_last() =~= pre);
        if c == '.' {
            let ghost f2 = f.push(Seq::<char>::empty());
            assert(split_on(s@.subrange(0, i + 1), '.') == f2);
            let valid = cur_ok && cur_len >= 1 && cur_val <= 255;
            if !bad {
                if valid && vals.len() < 3 {
                    vals.push(cur_val as u8);
                    assert forall|k: int| 0 <= k < f2.len() - 1 implies is_octet_field(
                        #[trigger] f2[k],
                    ) && vals@[k] as nat == decimal_value(f2[k]) by {
                        if k < f.len() - 1 {
                            assert(f2[k] == f[k]);
                        } else {
                            assert(f2[k] == f.last());
                        }
                    }
                } else {
                    bad = true;
                    if !valid {
                        assert(f2[f.len() - 1] == f.last());
                        assert(!is_octet_field(f2[f.len() - 1]));
                    }
                }
            } else {
                proof {
                    if f.len() <= 4 {
                        let k = choose|k: int|
                            0 <= k < f.len() - 1 && !is_octet_field(#[trigger] f[k]);
                        assert(f2[k] == f[k]);
                    }
                }
            }
            cur_ok = true;
            cur_len = 0;
            cur_val = 0;
            lead_zero = false;
            assert(f2.last() =~= Seq::<char>::empty());
        } else {
            let ghost t = f.last();
            let ghost f2 = f.update(f.len() - 1, t.push(c));
            assert(split_on(s@.subrange(0, i + 1), '.') == f2);
            assert(f2.last() == t.push(c));
            let is_dig = '0' <= c && c <= '9';
            let next_ok = cur_ok && is_dig && cur_len < 3 && (cur_len == 0 || !lead_zero);
            if next_ok {
                proof {
                    lemma_decimal_push(t, c);
                    assert((c as u32) - ('0' as u32) <= 9);
                }
                cur_val = cur_val * 10 + ((c as u32) - ('0' as u32));
            }
            proof {
                if !next_ok {
                if !is_dig {
                    assert(t.push(c)[t.len() as int] == c);
                } else if cur_ok && cur_len >= 1 && lead_zero {
                    assert(t.push(c)[0] == t[0]);
                } else if !cur_ok {
                    if t.len() > 3 {
                    } else if !(forall|j: int| 0 <= j < t.len() ==> is_digit(#[trigger] t[j])) {
                        let j = choose|j: int| 0 <= j < t.len() && !is_digit(#[trigger] t[j]);
                        assert(t.push(c)[j] == t[j]);
                    } else {
                        assert(t.push(c)[0] == t[0]);
                    }
                }
                }
            }
            if cur_len == 0 {
                lead_zero = c == '0';
            }
            cur_ok = next_ok;
            cur_len = cur_len + 1;
            assert forall|j: int| 0 <= j < t.len() implies t.push(c)[j] == t[j] by {}
            proof {
                if bad && f.len() <= 4 {
                    let k = choose|k: int|
                        0 <= k < f.len() - 1 && !is_octet_field(#[trigger] f[k]);
                    assert(f2[k] == f[k]);
                }
            }
            if !bad {
                assert forall|k: int| 0 <= k < f2.len() - 1 implies is_octet_field(
                    #[trigger] f2[k],
                ) && vals@[k] as nat == decimal_value(f2[k]) by {
                    assert(f2[k] == f[k]);
                }
            }
        }
        i = i + 1;
    }
    assert(s@.subrange(0, n as int) =~= s@);
    let ghost f = split_on(s@, '.');
    if !bad && vals.len() == 3 && cur_ok && cur_len >= 1 && cur_val <= 255 {
        assert(f[3] == f.last());
        Some(IpAddr::V4(vals[0], vals[1], vals[2], cur_val as u8))
    } else {
        proof {
            if !bad && vals.len() == 3 {
                assert(f[3] == f.last());
                assert(!is_octet_field(f[3]));
            } else if bad && f.len() <= 4 {
                let k = choose|k: int|
                    0 <= k < f.len() - 1 && !is_octet_field(#[trigger] f[k]);
                assert(!is_octet_field(f[k]));
            }
        }
        None
    }
}

/// The address that `s` writes as an IP literal, if it writes one.
pub open spec fn ip_literal_of(s: Seq<char>) -> Option<IpAddr> {
    match ipv4_of(s) {
        Some(a) => Some(a),
        None => ipv6_of(s),
    }
}

/// Reads an IP literal: a dotted IPv4 address, else an IPv6 address.
pub fn parse_ip(s: &str) -> (r: Option<IpAddr>)
    ensures
        r == ip_literal_of(s@),
{
    match parse_ipv4(s) {
        Some(a) => Some(a),
        None => parse_ipv6(s),
    }
}

} // verus!
