use vstd::prelude::*;
use crate::ip::{ipv4_of, parse_ipv4, split_on, IpAddr};

verus! {

pub open spec fn is_hex_digit(c: char) -> bool {
    ('0' <= c && c <= '9') || ('a' <= c && c <= 'f') || ('A' <= c && c <= 'F')
}

pub open spec fn hex_digit_value(c: char) -> nat {
    if '0' <= c && c <= '9' {
        ((c as u32) - ('0' as u32)) as nat
    } else if 'a' <= c && c <= 'f' {
        ((c as u32) - ('a' as u32) + 10) as nat
    } else {
        ((c as u32) - ('A' as u32) + 10) as nat
    }
}

/// The number that a run of hexadecimal digits writes.
pub open spec fn hex_value(t: Seq<char>) -> nat
    decreases t.len(),
{
    if t.len() == 0 {
        0
    } else {
        hex_value(t.drop_last()) * 16 + hex_digit_value(t.last())
    }
}

/// One group of an IPv6 address: one to four hexadecimal digits.
pub open spec fn is_hex_group(t: Seq<char>) -> bool {
    &&& 1 <= t.len() <= 4
    &&& forall|i: int| 0 <= i < t.len() ==> is_hex_digit(#[trigger] t[i])
}

/// The 16-bit groups that one field between colons stands for: one for a
/// hexadecimal group, two for an embedded dotted IPv4 address.
pub open spec fn field_groups(t: Seq<char>) -> Seq<u16> {
    if is_hex_group(t) {
        seq![hex_value(t) as u16]
    } else {
        match ipv4_of(t) {
            Some(IpAddr::V4(a, b, c, d)) => seq![
                (a as int * 256 + b as int) as u16,
                (c as int * 256 + d as int) as u16,
            ],
            _ => Seq::empty(),
        }
    }
}

/// The groups of a run of fields, in order.
pub open spec fn concat_groups(fs: Seq<Seq<char>>) -> Seq<u16>
    decreases fs.len(),
{
    if fs.len() == 0 {
        Seq::empty()
    } else {
        concat_groups(fs.drop_last()) + field_groups(fs.last())
    }
}

/// A leading or trailing colon must be half of a `::`.
pub open spec fn ends_ok(f: Seq<Seq<char>>) -> bool {
    let n = f.len();
    &&& n >= 2
    &&& (f[0].len() == 0 ==> f[1].len() == 0)
    &&& (f[n - 1].len() == 0 ==> f[n - 2].len() == 0)
}

/// The fields with a leading or trailing `::` counted as one empty field,
/// so that an empty field marks the one run of zero groups.
pub open spec fn normalized(f: Seq<Seq<char>>) -> Seq<Seq<char>> {
    let n = f.len() as int;
    let lo: int = if f[0].len() == 0 {
        1
    } else {
        0
    };
    let hi: int = if f[n - 1].len() == 0 {
        n - 1
    } else {
        n
    };
    if lo <= hi {
        f.subrange(lo, hi)
    } else {
        Seq::empty()
    }
}

/// Each field is a group, but for one empty field at most; the last field
/// may instead be a dotted IPv4 address.
pub open spec fn fields_ok(g: Seq<Seq<char>>) -> bool {
    &&& g.len() > 0
    &&& forall|k: int|
        0 <= k < g.len() && (#[trigger] g[k]).len() > 0 ==> is_hex_group(g[k]) || (k == g.len()
            - 1 && ipv4_of(g[k]) is Some)
    &&& forall|j: int, k: int|
        0 <= j < k < g.len() && (#[trigger] g[j]).len() == 0 ==> (#[trigger] g[k]).len() > 0
}

/// The eight groups that the fields write: with an empty field, zero groups
/// fill the address up at its place.
pub open spec fn expand(g: Seq<Seq<char>>) -> Option<Seq<u16>> {
    let all = concat_groups(g);
    if exists|k: int| 0 <= k < g.len() && (#[trigger] g[k]).len() == 0 {
        let z = choose|k: int| 0 <= k < g.len() && (#[trigger] g[k]).len() == 0;
        let h = concat_groups(g.subrange(0, z)).len() as int;
        if all.len() <= 7 {
            Some(
                all.subrange(0, h) + Seq::new((8 - all.len()) as nat, |i: int| 0u16) + all.subrange(
                    h,
                    all.len() as int,
                ),
            )
        } else {
            None
        }
    } else if all.len() == 8 {
        Some(all)
    } else {
        None
    }
}

pub open spec fn v6_of(g: Seq<u16>) -> IpAddr {
    IpAddr::V6(g[0], g[1], g[2], g[3], g[4], g[5], g[6], g[7])
}

/// The IPv6 address that `s` writes in colon-hexadecimal form, if it
/// writes one.
pub open spec fn ipv6_of(s: Seq<char>) -> Option<IpAddr> {
    let f = split_on(s, ':');
    if ends_ok(f) && fields_ok(normalized(f)) {
        match expand(normalized(f)) {
            Some(g) => Some(v6_of(g)),
            None => None,
        }
    } else {
        None
    }
}

/// The start and end of each field of `s` between separators `sep`.
fn split_positions(s: &str, sep: char) -> (r: Vec<(usize, usize)>)
    ensures
        r@.len() == split_on(s@, sep).len(),
        forall|k: int|
            0 <= k < r@.len() ==> (#[trigger] r@[k]).0 <= r@[k].1 <= s@.len() && s@.subrange(
                r@[k].0 as int,
                r@[k].1 as int,
            ) == split_on(s@, sep)[k],
{
    let n = s.unicode_len();
    let mut out: Vec<(usize, usize)> = Vec::new();
    let mut cur: usize = 0;
    let mut i: usize = 0;
    proof {
        assert(s@.subrange(0, 0) =~= Seq::<char>::empty());
        assert(s@.subrange(0, 0) =~= split_on(s@.subrange(0, 0), sep).last());
    }
    while i < n
        invariant
            n == s@.len(),
            cur <= i <= n,
            ({
                let f = split_on(s@.subrange(0, i as int), sep);
                &&& f.len() >= 1
                &&& out@.len() == f.len() - 1
                &&& s@.subrange(cur as int, i as int) == f.last()
                &&& forall|k: int|
                    0 <= k < out@.len() ==> (#[trigger] out@[k]).0 <= out@[k].1 <= i
                        && s@.subrange(out@[k].0 as int, out@[k].1 as int) == f[k]
            }),
        decreases n - i,
    {
        let c = s.get_char(i);
        let ghost pre = s@.subrange(0, i as int);
        let ghost f = split_on(pre, sep);
        assert(s@.subrange(0, i + 1) =~= pre.push(c));
        assert(pre.push(c).drop_last() =~= pre);
        if c == sep {
            let ghost f2 = f.push(Seq::<char>::empty());
            assert(split_on(s@.subrange(0, i + 1), sep) == f2);
            out.push((cur, i));
            assert(s@.subrange(i + 1, i + 1) =~= f2.last());
            assert forall|k: int| 0 <= k < out@.len() implies (#[trigger] out@[k]).0 <= out@[k].1
                <= i + 1 && s@.subrange(out@[k].0 as int, out@[k].1 as int) == f2[k] by {
                if k < out@.len() - 1 {
                    assert(f2[k] == f[k]);
                }
            }
            cur = i + 1;
        } else {
            let ghost f2 = f.update(f.len() - 1, f.last().push(c));
            assert(split_on(s@.subrange(0, i + 1), sep) == f2);
            assert(s@.subrange(cur as int, i + 1) =~= s@.subrange(cur as int, i as int).push(c));
            assert forall|k: int| 0 <= k < out@.len() implies (#[trigger] out@[k]).0 <= out@[k].1
                <= i + 1 && s@.subrange(out@[k].0 as int, out@[k].1 as int) == f2[k] by {
                assert(f2[k] == f[k]);
            }
        }
        i = i + 1;
    }
    proof {
        assert(s@.subrange(0, n as int) =~= s@);
    }
    out.push((cur, n));
    out
}

proof fn lemma_hex_push(t: Seq<char>, c: char)
    ensures
        hex_value(t.push(c)) == hex_value(t) * 16 + hex_digit_value(c),
{
    assert(t.push(c).drop_last() =~= t);
}

/// The value of the hexadecimal group `s[a..b]`, if it is one.
fn hex_group_at(s: &str, a: usize, b: usize) -> (r: Option<u16>)
    requires
        a <= b <= s@.len(),
    ensures
        r == (if is_hex_group(s@.subrange(a as int, b as int)) {
            Some(hex_value(s@.subrange(a as int, b as int)) as u16)
        } else {
            None
        }),
{
    let ghost t = s@.subrange(a as int, b as int);
    if b - a == 0 || b - a > 4 {
        return None;
    }
    let mut v: u32 = 0;
    let mut i: usize = a;
    proof {
        assert(s@.subrange(a as int, a as int) =~= Seq::<char>::empty());
    }
    while i < b
        invariant
            a <= i <= b <= s@.len(),
            b - a <= 4,
            t == s@.subrange(a as int, b as int),
            forall|k: int| 0 <= k < i - a ==> is_hex_digit(#[trigger] t[k]),
            v as nat == hex_value(s@.subrange(a as int, i as int)),
            v < 65536,
            i - a <= 1 ==> v < 16,
            i - a <= 2 ==> v < 256,
            i - a <= 3 ==> v < 4096,
        decreases b - i,
    {
        let c = s.get_char(i);
        assert(t[i - a] == c);
        let d: u32 = if '0' <= c && c <= '9' {
            (c as u32) - ('0' as u32)
        } else if 'a' <= c && c <= 'f' {
            (c as u32) - ('a' as u32) + 10
        } else if 'A' <= c && c <= 'F' {
            (c as u32) - ('A' as u32) + 10
        } else {
            assert(!is_hex_digit(t[i - a]));
            return None;
        };
        proof {
            assert(s@.subrange(a as int, i + 1) =~= s@.subrange(a as int, i as int).push(c));
            lemma_hex_push(s@.subrange(a as int, i as int), c);
        }
        v = v * 16 + d;
        i = i + 1;
    }
    Some(v as u16)
}

/// The groups of the non-empty field `s[a..b]`: a hexadecimal group, or,
/// for the last field, a dotted IPv4 address.
fn nonempty_field_groups(s: &str, a: usize, b: usize, is_last: bool) -> (r: Option<Vec<u16>>)
    requires
        a < b <= s@.len(),
    ensures
        r is Some <==> (is_hex_group(s@.subrange(a as int, b as int)) || (is_last && ipv4_of(
            s@.subrange(a as int, b as int),
        ) is Some)),
        r is Some ==> r.unwrap()@ == field_groups(s@.subrange(a as int, b as int)),
{
    let mut out: Vec<u16> = Vec::new();
    match hex_group_at(s, a, b) {
        Some(v) => {
            out.push(v);
            assert(out@ =~= field_groups(s@.subrange(a as int, b as int)));
            Some(out)
        },
        None => {
            if !is_last {
                return None;
            }
            let part = s.substring_char(a, b);
            match parse_ipv4(part) {
                Some(IpAddr::V4(o1, o2, o3, o4)) => {
                    out.push((o1 as u16) * 256 + (o2 as u16));
                    out.push((o3 as u16) * 256 + (o4 as u16));
                    assert(out@ =~= field_groups(s@.subrange(a as int, b as int)));
                    Some(out)
                },
                _ => None,
            }
        },
    }
}

/// The address whose groups are `groups`, with zero groups inserted at `h`
/// to make eight.
fn fill_zeros(groups: &Vec<u16>, h: usize) -> (r: IpAddr)
    requires
        h <= groups@.len() <= 7,
    ensures
        r == v6_of(
            groups@.subrange(0, h as int) + Seq::new((8 - groups@.len()) as nat, |i: int| 0u16)
                + groups@.subrange(h as int, groups@.len() as int),
        ),
{
    let total = groups.len();
    let ghost spec_g = groups@.subrange(0, h as int) + Seq::new(
        (8 - total) as nat,
        |i: int| 0u16,
    ) + groups@.subrange(h as int, total as int);
    let mut out: Vec<u16> = Vec::new();
    let mut m: usize = 0;
    while m < 8
        invariant
            m <= 8,
            h <= total == groups@.len() <= 7,
            spec_g.len() == 8,
            spec_g == groups@.subrange(0, h as int) + Seq::new((8 - total) as nat, |i: int| 0u16)
                + groups@.subrange(h as int, total as int),
            out@.len() == m,
            forall|q: int| 0 <= q < m ==> out@[q] == spec_g[q],
        decreases 8 - m,
    {
        if m < h {
            out.push(groups[m]);
        } else if m < h + (8 - total) {
            out.push(0);
        } else {
            out.push(groups[m - (8 - total)]);
        }
        m = m + 1;
    }
    assert(out@ =~= spec_g);
    IpAddr::V6(out[0], out[1], out[2], out[3], out[4], out[5], out[6], out[7])
}

proof fn lemma_concat_step(g: Seq<Seq<char>>, k: int)
    requires
        0 <= k < g.len(),
    ensures
        concat_groups(g.subrange(0, k + 1)) == concat_groups(g.subrange(0, k)) + field_groups(
            g[k],
        ),
{
    assert(g.subrange(0, k + 1).drop_last() =~= g.subrange(0, k));
}

/// Reads an IPv6 address in colon-hexadecimal form, such as `2001:db8::1`
/// or `::ffff:192.0.2.1`.
#[verifier::rlimit(40)]
pub fn parse_ipv6(s: &str) -> (r: Option<IpAddr>)
    ensures
        r == ipv6_of(s@),
{
    let fields = split_positions(s, ':');
    let ghost f = split_on(s@, ':');
    let n = fields.len();
    if n < 2 {
        return None;
    }
    let first_empty = fields[0].0 == fields[0].1;
    let last_empty = fields[n - 1].0 == fields[n - 1].1;
    if first_empty && fields[1].0 != fields[1].1 {
        return None;
    }
    if last_empty && fields[n - 2].0 != fields[n - 2].1 {
        return None;
    }
    let lo: usize = if first_empty {
        1
    } else {
        0
    };
    let hi: usize = if last_empty {
        n - 1
    } else {
        n
    };
    if lo >= hi {
        return None;
    }
    let ghost g = f.subrange(lo as int, hi as int);
    assert(g == normalized(f));
    let mut groups: Vec<u16> = Vec::new();
    let mut zero: Option<(usize, usize)> = None;
    let mut k: usize = lo;
    proof {
        assert(g.subrange(0, 0) =~= Seq::<Seq<char>>::empty());
    }
    while k < hi
        invariant
            lo <= k <= hi <= n,
            n == fields@.len() == f.len(),
            f == split_on(s@, ':'),
            g == f.subrange(lo as int, hi as int),
            g == normalized(f),
            ends_ok(f),
            forall|m: int|
                0 <= m < fields@.len() ==> (#[trigger] fields@[m]).0 <= fields@[m].1 <= s@.len()
                    && s@.subrange(fields@[m].0 as int, fields@[m].1 as int) == f[m],
            groups@ == concat_groups(g.subrange(0, k - lo)),
            forall|m: int|
                0 <= m < k - lo && (#[trigger] g[m]).len() > 0 ==> is_hex_group(g[m]) || (m
                    == g.len() - 1 && ipv4_of(g[m]) is Some),
            match zero {
                None => forall|m: int| 0 <= m < k - lo ==> (#[trigger] g[m]).len() > 0,
                Some((z, h)) => {
                    &&& z < k - lo
                    &&& g[z as int].len() == 0
                    &&& forall|m: int| 0 <= m < k - lo && m != z ==> (#[trigger] g[m]).len() > 0
                    &&& h == concat_groups(g.subrange(0, z as int)).len()
                },
            },
        decreases hi - k,
    {
        let j: usize = k - lo;
        let (a, b) = fields[k];
        assert(g[j as int] == f[k as int]);
        let ghost t = g[j as int];
        proof {
            lemma_concat_step(g, j as int);
        }
        if a == b {
            assert(t =~= Seq::<char>::empty());
            assert(!is_hex_group(t));
            assert(t.len() == 0);
            match zero {
                Some((z, _)) => {
                    assert(g[z as int].len() == 0 && (z as int) < (j as int));
                    assert(!fields_ok(g));
                    return None;
                },
                None => {
                    assert(split_on(t, '.') =~= seq![Seq::<char>::empty()]);
                    assert(field_groups(t) =~= Seq::<u16>::empty());
                    assert(groups@ =~= concat_groups(g.subrange(0, j + 1)));
                    zero = Some((j, groups.len()));
                },
            }
        } else {
            match nonempty_field_groups(s, a, b, k + 1 == hi) {
                Some(mut v) => {
                    groups.append(&mut v);
                    assert(groups@ =~= concat_groups(g.subrange(0, j + 1)));
                },
                None => {
                    return None;
                },
            }
        }
        k = k + 1;
    }
    assert(g.subrange(0, (hi - lo) as int) =~= g);
    let total = groups.len();
    match zero {
        None => {
            if total != 8 {
                return None;
            }
            return Some(
                IpAddr::V6(
                    groups[0],
                    groups[1],
                    groups[2],
                    groups[3],
                    groups[4],
                    groups[5],
                    groups[6],
                    groups[7],
                ),
            );
        },
        Some((z, h)) => {
            if total > 7 {
                return None;
            }
            proof {
                let zc = choose|m: int| 0 <= m < g.len() && (#[trigger] g[m]).len() == 0;
                assert(g[z as int].len() == 0);
                assert(zc == z);
                lemma_concat_prefix_len(g, z as int);
            }
            Some(fill_zeros(&groups, h))
        },
    }
}

proof fn lemma_concat_prefix_len(g: Seq<Seq<char>>, z: int)
    requires
        0 <= z <= g.len(),
    ensures
        concat_groups(g.subrange(0, z)).len() <= concat_groups(g).len(),
    decreases g.len() - z,
{
    if z < g.len() {
        lemma_concat_prefix_len(g, z + 1);
        lemma_concat_step(g, z);
    } else {
        assert(g.subrange(0, z) =~= g);
    }
}

} // verus!
