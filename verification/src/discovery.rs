//! How a user's scan target becomes the host name that is scanned.
use vstd::prelude::*;
use crate::text::{chars_of, starts_with, starts_with_lit, string_of, to_lowercase, trim, trim_chars, unicode_lower};

verus! {

/// `str::trim_start_matches` with a non-empty string: every leading copy of
/// `p` removed.
pub open spec fn strip_leading(s: Seq<char>, p: Seq<char>) -> Seq<char>
    decreases s.len(),
{
    if p.len() > 0 && starts_with(s, p) {
        strip_leading(s.skip(p.len() as int), p)
    } else {
        s
    }
}

/// `str::trim_end_matches` with a character: every trailing `c` removed.
pub open spec fn strip_trailing(s: Seq<char>, c: char) -> Seq<char>
    decreases s.len(),
{
    if s.len() > 0 && s.last() == c {
        strip_trailing(s.drop_last(), c)
    } else {
        s
    }
}

/// The host named by a target as typed: trimmed, without leading `http://`
/// and then `https://` prefixes, without trailing slashes, lowercased.
pub open spec fn normalized_target(input: Seq<char>) -> Seq<char> {
    unicode_lower(
        strip_trailing(strip_leading(strip_leading(trim(input), "http://"@), "https://"@), '/'),
    )
}

/// Every leading copy of `lit` removed from `v`.
fn strip_leading_lit(v: Vec<char>, lit: &str) -> (r: Vec<char>)
    requires
        lit@.len() > 0,
    ensures
        r@ == strip_leading(v@, lit@),
{
    let n = chars_of(lit).len();
    let mut cur = v;
    while starts_with_lit(&cur, lit)
        invariant
            n == lit@.len(),
            n > 0,
            strip_leading(cur@, lit@) == strip_leading(v@, lit@),
        decreases cur@.len(),
    {
        let rest = crate::text::slice_vec(&cur, n, cur.len());
        assert(rest@ =~= cur@.skip(n as int));
        cur = rest;
    }
    cur
}

/// A resource without its leading `http://` and then `https://` prefixes.
pub fn base_resource(resource: &str) -> (r: String)
    ensures
        r@ == strip_leading(strip_leading(resource@, "http://"@), "https://"@),
{
    proof {
        reveal_strlit("http://");
        reveal_strlit("https://");
    }
    let v = chars_of(resource);
    let a = strip_leading_lit(v, "http://");
    let b = strip_leading_lit(a, "https://");
    string_of(&b)
}

/// The host named by a target as typed (see `normalized_target`).
pub fn normalize_target(input: &str) -> (r: String)
    ensures
        r@ == normalized_target(input@),
{
    let t = trim_chars(input);
    proof {
        reveal_strlit("http://");
        reveal_strlit("https://");
    }
    let a = strip_leading_lit(t, "http://");
    let b = strip_leading_lit(a, "https://");
    let mut end = b.len();
    assert(b@.take(end as int) =~= b@);
    while end > 0 && b[end - 1] == '/'
        invariant
            end <= b.len(),
            strip_trailing(b@.take(end as int), '/') == strip_trailing(b@, '/'),
        decreases end,
    {
        assert(b@.take(end as int).drop_last() =~= b@.take(end - 1));
        end = end - 1;
    }
    let kept = string_of(&crate::text::slice_vec(&b, 0, end));
    assert(b@.subrange(0, end as int) =~= b@.take(end as int));
    to_lowercase(kept.as_str())
}

} // verus!

verus! {

/// The subdomain labels a scan tries.
pub open spec fn common_labels() -> Seq<Seq<char>> {
    seq![
        "www"@, "api"@, "dev"@, "staging"@, "admin"@, "app"@, "test"@, "portal"@, "auth"@, "beta"@,
    ]
}

/// The host names a scan tries under `domain`: each common label, a dot and
/// the domain, in the order of the labels.
pub fn common_subdomain_candidates(domain: &str) -> (r: Vec<String>)
    ensures
        crate::text::strings_view(r@) == Seq::new(
            common_labels().len(),
            |i: int| common_labels()[i] + "."@ + domain@,
        ),
{
    let labels: [&str; 10] = ["www", "api", "dev", "staging", "admin", "app", "test", "portal", "auth", "beta"];
    let ghost want = Seq::new(common_labels().len(), |i: int| common_labels()[i] + "."@ + domain@);
    proof {
        reveal_strlit("www");
        reveal_strlit("api");
        reveal_strlit("dev");
        reveal_strlit("staging");
        reveal_strlit("admin");
        reveal_strlit("app");
        reveal_strlit("test");
        reveal_strlit("portal");
        reveal_strlit("auth");
        reveal_strlit("beta");
    }
    assert(labels@.len() == 10);
    assert forall|i: int| 0 <= i < 10 implies (#[trigger] labels@[i])@ == common_labels()[i] by {}
    let mut out: Vec<String> = Vec::new();
    let mut i: usize = 0;
    while i < 10
        invariant
            i <= 10,
            labels@.len() == 10,
            forall|k: int| 0 <= k < 10 ==> (#[trigger] labels@[k])@ == common_labels()[k],
            want == Seq::new(common_labels().len(), |i: int| common_labels()[i] + "."@ + domain@),
            crate::text::strings_view(out@) == want.take(i as int),
        decreases 10 - i,
    {
        let mut s = crate::text::owned(labels[i]);
        crate::text::push_str(&mut s, ".");
        crate::text::push_str(&mut s, domain);
        let ghost before = out@;
        out.push(s);
        proof {
            crate::text::lemma_strings_view_push(before, s);
        }
        assert(crate::text::strings_view(out@) =~= want.take(i + 1));
        i = i + 1;
    }
    assert(want.take(10) =~= want);
    out
}

} // verus!
