//! Textual IP addresses: the grammar that `str::parse::<IpAddr>()` accepts,
//! dotted-quad IPv4 or colon-separated IPv6 with `::` and an embedded IPv4
//! tail, read greedily as the standard parser reads it.
use vstd::prelude::*;
use crate::text::{digits_value, is_digit};

verus! {

pub open spec fn is_hex(c: char) -> bool {
    is_digit(c) || ('a' <= c <= 'f') || ('A' <= c <= 'F')
}

pub open spec fn is_run_char(c: char, hex: bool) -> bool {
    if hex {
        is_hex(c)
    } else {
        is_digit(c)
    }
}

/// End of the longest run of decimal (or hexadecimal) digits starting at `p`.
pub open spec fn run_end(s: Seq<char>, p: int, hex: bool) -> int
    decreases s.len() - p,
{
    if 0 <= p < s.len() && is_run_char(s[p], hex) {
        run_end(s, p + 1, hex)
    } else {
        p
    }
}

/// An IPv4 octet at `p`: one to three decimal digits, no leading zero unless
/// it is the only digit, at most 255. The position after it.
pub open spec fn octet_end(s: Seq<char>, p: int) -> Option<int> {
    let e = run_end(s, p, false);
    if e == p || e - p > 3 || (s[p] == '0' && e - p > 1) || digits_value(s.subrange(p, e)) > 255 {
        None
    } else {
        Some(e)
    }
}

/// An IPv6 group at `p`: one to four hexadecimal digits.
pub open spec fn hex_group_end(s: Seq<char>, p: int) -> Option<int> {
    let e = run_end(s, p, true);
    if e == p || e - p > 4 {
        None
    } else {
        Some(e)
    }
}

/// The separator in front of the `i`-th item: none before the first.
pub open spec fn sep_end(s: Seq<char>, p: int, i: int, c: char) -> Option<int> {
    if i == 0 {
        Some(p)
    } else if 0 <= p < s.len() && s[p] == c {
        Some(p + 1)
    } else {
        None
    }
}

pub open spec fn dot_octet_end(s: Seq<char>, p: int) -> Option<int> {
    match sep_end(s, p, 1, '.') {
        Some(q) => octet_end(s, q),
        None => None,
    }
}

/// A dotted-quad IPv4 address starting at `p`; the position after it.
pub open spec fn ipv4_end(s: Seq<char>, p: int) -> Option<int> {
    match octet_end(s, p) {
        None => None,
        Some(a) => match dot_octet_end(s, a) {
            None => None,
            Some(b) => match dot_octet_end(s, b) {
                None => None,
                Some(c) => dot_octet_end(s, c),
            },
        },
    }
}

/// Reads IPv6 groups `i..limit` from `p`: (groups read, whether the last two
/// came from an embedded IPv4 address, position after them).
pub open spec fn groups_end(s: Seq<char>, p: int, i: int, limit: int) -> (int, bool, int)
    decreases limit - i,
{
    if i >= limit {
        (limit, false, p)
    } else {
        let v4 = if i < limit - 1 {
            match sep_end(s, p, i, ':') {
                Some(q) => ipv4_end(s, q),
                None => None,
            }
        } else {
            None
        };
        match v4 {
            Some(q) => (i + 2, true, q),
            None => match sep_end(s, p, i, ':') {
                Some(q) => match hex_group_end(s, q) {
                    Some(r) => groups_end(s, r, i + 1, limit),
                    None => (i, false, p),
                },
                None => (i, false, p),
            },
        }
    }
}

/// An IPv6 address starting at `p`; the position after it.
pub open spec fn ipv6_end(s: Seq<char>, p: int) -> Option<int> {
    let (hs, h4, p1) = groups_end(s, p, 0, 8);
    if hs == 8 {
        Some(p1)
    } else if h4 {
        None
    } else if 0 <= p1 && p1 + 1 < s.len() && s[p1] == ':' && s[p1 + 1] == ':' {
        let (ts, t4, p2) = groups_end(s, p1 + 2, 0, 7 - hs);
        Some(p2)
    } else {
        None
    }
}

/// Whether `s` is, as a whole, an IPv4 or an IPv6 address. The IPv4 reading
/// is tried first; when it succeeds the IPv6 one is not tried.
pub open spec fn ip_literal(s: Seq<char>) -> bool {
    match ipv4_end(s, 0) {
        Some(e) => e == s.len(),
        None => match ipv6_end(s, 0) {
            Some(e) => e == s.len(),
            None => false,
        },
    }
}

proof fn lemma_run_end_bounds(s: Seq<char>, p: int, hex: bool)
    requires
        0 <= p <= s.len(),
    ensures
        p <= run_end(s, p, hex) <= s.len(),
        forall|k: int| p <= k < run_end(s, p, hex) ==> is_run_char(#[trigger] s[k], hex),
    decreases s.len() - p,
{
    if p < s.len() && is_run_char(s[p], hex) {
        lemma_run_end_bounds(s, p + 1, hex);
    }
}

fn run_char(c: char, hex: bool) -> (r: bool)
    ensures
        r == is_run_char(c, hex),
{
    if hex {
        ('0' <= c && c <= '9') || ('a' <= c && c <= 'f') || ('A' <= c && c <= 'F')
    } else {
        '0' <= c && c <= '9'
    }
}

fn run_end_at(v: &[char], p: usize, hex: bool) -> (e: usize)
    requires
        p <= v.len(),
    ensures
        e == run_end(v@, p as int, hex),
        p <= e <= v.len(),
{
    let mut e = p;
    while e < v.len() && run_char(v[e], hex)
        invariant
            p <= e <= v.len(),
            run_end(v@, e as int, hex) == run_end(v@, p as int, hex),
        decreases v.len() - e,
    {
        e = e + 1;
    }
    e
}

fn octet_at(v: &[char], p: usize) -> (r: Option<usize>)
    requires
        p <= v.len(),
    ensures
        r is Some <==> octet_end(v@, p as int) is Some,
        r matches Some(e) ==> octet_end(v@, p as int) == Some(e as int),
        r matches Some(e) ==> p <= e <= v.len(),
{
    let e = run_end_at(v, p, false);
    proof {
        lemma_run_end_bounds(v@, p as int, false);
    }
    if e == p || e - p > 3 {
        return None;
    }
    if v[p] == '0' && e - p > 1 {
        return None;
    }
    let mut acc: u32 = 0;
    let mut i = p;
    assert(v@.subrange(p as int, p as int) =~= Seq::<char>::empty());
    while i < e
        invariant
            p <= i <= e <= v.len(),
            e - p <= 3,
            forall|k: int| p <= k < e ==> is_digit(#[trigger] v@[k]),
            acc as int == digits_value(v@.subrange(p as int, i as int)),
            acc < 1000,
            i - p == 0 ==> acc == 0,
            i - p == 1 ==> acc < 10,
            i - p == 2 ==> acc < 100,
        decreases e - i,
    {
        let c = v[i];
        assert(is_digit(v@[i as int]));
        let d = c as u32 - '0' as u32;
        assert(v@.subrange(p as int, i + 1).drop_last() =~= v@.subrange(p as int, i as int));
        acc = acc * 10 + d;
        i = i + 1;
    }
    if acc > 255 {
        None
    } else {
        Some(e)
    }
}

fn hex_group_at(v: &[char], p: usize) -> (r: Option<usize>)
    requires
        p <= v.len(),
    ensures
        r is Some <==> hex_group_end(v@, p as int) is Some,
        r matches Some(e) ==> hex_group_end(v@, p as int) == Some(e as int),
        r matches Some(e) ==> p <= e <= v.len(),
{
    let e = run_end_at(v, p, true);
    if e == p || e - p > 4 {
        None
    } else {
        Some(e)
    }
}

fn sep_at(v: &[char], p: usize, i: usize, c: char) -> (r: Option<usize>)
    requires
        p <= v.len(),
    ensures
        r is Some <==> sep_end(v@, p as int, i as int, c) is Some,
        r matches Some(e) ==> sep_end(v@, p as int, i as int, c) == Some(e as int),
        r matches Some(e) ==> p <= e <= v.len(),
{
    if i == 0 {
        Some(p)
    } else if p < v.len() && v[p] == c {
        Some(p + 1)
    } else {
        None
    }
}

fn dot_octet_at(v: &[char], p: usize) -> (r: Option<usize>)
    requires
        p <= v.len(),
    ensures
        r is Some <==> dot_octet_end(v@, p as int) is Some,
        r matches Some(e) ==> dot_octet_end(v@, p as int) == Some(e as int),
        r matches Some(e) ==> p <= e <= v.len(),
{
    match sep_at(v, p, 1, '.') {
        Some(q) => octet_at(v, q),
        None => None,
    }
}

fn ipv4_at(v: &[char], p: usize) -> (r: Option<usize>)
    requires
        p <= v.len(),
    ensures
        r is Some <==> ipv4_end(v@, p as int) is Some,
        r matches Some(e) ==> ipv4_end(v@, p as int) == Some(e as int),
        r matches Some(e) ==> p <= e <= v.len(),
{
    let a = match octet_at(v, p) {
        Some(a) => a,
        None => return None,
    };
    let b = match dot_octet_at(v, a) {
        Some(b) => b,
        None => return None,
    };
    let c = match dot_octet_at(v, b) {
        Some(c) => c,
        None => return None,
    };
    dot_octet_at(v, c)
}

fn groups_at(v: &[char], p: usize, limit: usize) -> (r: (usize, bool, usize))
    requires
        p <= v.len(),
        limit <= 8,
    ensures
        r.0 as int == groups_end(v@, p as int, 0, limit as int).0,
        r.1 == groups_end(v@, p as int, 0, limit as int).1,
        r.2 as int == groups_end(v@, p as int, 0, limit as int).2,
        p <= r.2 <= v.len(),
        r.0 <= limit,
{
    let mut i: usize = 0;
    let mut pos = p;
    while i < limit
        invariant
            i <= limit <= 8,
            p <= pos <= v.len(),
            groups_end(v@, pos as int, i as int, limit as int) == groups_end(v@, p as int, 0, limit as int),
        decreases limit - i,
    {
        if i < limit - 1 {
            let v4 = match sep_at(v, pos, i, ':') {
                Some(q) => ipv4_at(v, q),
                None => None,
            };
            if let Some(q) = v4 {
                return (i + 2, true, q);
            }
        }
        let g = match sep_at(v, pos, i, ':') {
            Some(q) => hex_group_at(v, q),
            None => None,
        };
        match g {
            Some(r) => {
                pos = r;
                i = i + 1;
            },
            None => {
                return (i, false, pos);
            },
        }
    }
    (limit, false, pos)
}

fn ipv6_at(v: &[char], p: usize) -> (r: Option<usize>)
    requires
        p <= v.len(),
    ensures
        r is Some <==> ipv6_end(v@, p as int) is Some,
        r matches Some(e) ==> ipv6_end(v@, p as int) == Some(e as int),
{
    let (hs, h4, p1) = groups_at(v, p, 8);
    if hs == 8 {
        return Some(p1);
    }
    if h4 {
        return None;
    }
    if p1 < v.len() && v[p1] == ':' && p1 + 1 < v.len() && v[p1 + 1] == ':' {
        let (_ts, _t4, p2) = groups_at(v, p1 + 2, 7 - hs);
        Some(p2)
    } else {
        None
    }
}

/// Whether the characters `v` are an IP address in the standard textual form.
pub fn is_ip_literal(v: &[char]) -> (r: bool)
    ensures
        r == ip_literal(v@),
{
    match ipv4_at(v, 0) {
        Some(e) => e == v.len(),
        None => match ipv6_at(v, 0) {
            Some(e) => e == v.len(),
            None => false,
        },
    }
}

} // verus!
