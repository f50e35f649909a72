//! Orders used by reports: the lexicographic order of strings (the order of
//! `String`'s `Ord`, since UTF-8 keeps the order of code points), sorted sets
//! of strings, and stable sorts by a descending integer key.
use vstd::prelude::*;
use crate::text::{lemma_strings_view_push, strings_view};

verus! {

/// `a < b` in lexicographic order of characters.
pub open spec fn seq_lt(a: Seq<char>, b: Seq<char>) -> bool
    decreases a.len(),
{
    if a.len() == 0 {
        b.len() > 0
    } else if b.len() == 0 {
        false
    } else if a[0] != b[0] {
        a[0] < b[0]
    } else {
        seq_lt(a.drop_first(), b.drop_first())
    }
}

pub proof fn lemma_lt_irreflexive(a: Seq<char>)
    ensures
        !seq_lt(a, a),
    decreases a.len(),
{
    if a.len() > 0 {
        lemma_lt_irreflexive(a.drop_first());
    }
}

pub proof fn lemma_lt_asymmetric(a: Seq<char>, b: Seq<char>)
    ensures
        !(seq_lt(a, b) && seq_lt(b, a)),
    decreases a.len(),
{
    if a.len() > 0 && b.len() > 0 && a[0] == b[0] {
        lemma_lt_asymmetric(a.drop_first(), b.drop_first());
    }
}

pub proof fn lemma_lt_total(a: Seq<char>, b: Seq<char>)
    ensures
        a != b ==> seq_lt(a, b) || seq_lt(b, a),
    decreases a.len(),
{
    if a.len() == 0 && b.len() == 0 {
        assert(a =~= b);
    } else if a.len() == 0 || b.len() == 0 {
    } else if a[0] != b[0] {
    } else {
        lemma_lt_total(a.drop_first(), b.drop_first());
        if a != b {
            assert(a.drop_first() != b.drop_first()) by {
                if a.drop_first() == b.drop_first() {
                    assert(a =~= seq![a[0]] + a.drop_first());
                    assert(b =~= seq![b[0]] + b.drop_first());
                }
            }
        }
    }
}

pub proof fn lemma_lt_transitive(a: Seq<char>, b: Seq<char>, c: Seq<char>)
    requires
        seq_lt(a, b),
        seq_lt(b, c),
    ensures
        seq_lt(a, c),
    decreases a.len(),
{
    if a.len() > 0 && b.len() > 0 && c.len() > 0 && a[0] == b[0] && b[0] == c[0] {
        lemma_lt_transitive(a.drop_first(), b.drop_first(), c.drop_first());
    }
}

/// `a < b` on strings.
pub fn str_less(a: &str, b: &str) -> (r: bool)
    ensures
        r == seq_lt(a@, b@),
{
    let x = crate::text::chars_of(a);
    let y = crate::text::chars_of(b);
    let mut i: usize = 0;
    assert(x@.skip(0) =~= x@);
    assert(y@.skip(0) =~= y@);
    while i < x.len() && i < y.len() && x[i] == y[i]
        invariant
            i <= x.len(),
            i <= y.len(),
            seq_lt(x@, y@) == seq_lt(x@.skip(i as int), y@.skip(i as int)),
        decreases x.len() - i,
    {
        assert(x@.skip(i as int).drop_first() =~= x@.skip(i + 1));
        assert(y@.skip(i as int).drop_first() =~= y@.skip(i + 1));
        i = i + 1;
    }
    if i == x.len() {
        i < y.len()
    } else if i == y.len() {
        false
    } else {
        x[i] < y[i]
    }
}

/// A strictly increasing sequence of strings: sorted, without repeats.
pub open spec fn strictly_sorted(s: Seq<Seq<char>>) -> bool {
    forall|i: int, j: int| 0 <= i < j < s.len() ==> seq_lt(#[trigger] s[i], #[trigger] s[j])
}

/// The sorted list of the distinct strings of `v`, as a `BTreeSet` of them
/// walks it, or `sort` followed by `dedup`.
pub fn sorted_unique(v: &Vec<String>) -> (r: Vec<String>)
    ensures
        strictly_sorted(strings_view(r@)),
        forall|s: Seq<char>| strings_view(r@).contains(s) <==> strings_view(v@).contains(s),
        strings_view(r@) == sorted_distinct(strings_view(v@)),
{
    let mut out: Vec<String> = Vec::new();
    let mut i: usize = 0;
    while i < v.len()
        invariant
            i <= v.len(),
            strictly_sorted(strings_view(out@)),
            forall|s: Seq<char>| strings_view(out@).contains(s) <==> strings_view(v@).take(i as int).contains(s),
        decreases v.len() - i,
    {
        let x = v[i].as_str();
        let ghost xs = x@;
        let ghost before = strings_view(out@);
        let mut k: usize = 0;
        loop
            invariant
                k <= out.len(),
                before == strings_view(out@),
                xs == x@,
                forall|j: int| 0 <= j < k ==> seq_lt(#[trigger] before[j], xs),
            ensures
                k < out.len() ==> !seq_lt(before[k as int], xs),
            decreases out.len() - k,
        {
            if k >= out.len() {
                break;
            }
            let lt = str_less(out[k].as_str(), x);
            assert(before[k as int] == out@[k as int]@);
            if !lt {
                break;
            }
            k = k + 1;
        }
        assert(strings_view(v@).take(i + 1) =~= strings_view(v@).take(i as int).push(xs));
        if k < out.len() && crate::text::str_eq(out[k].as_str(), x) {
            assert(before[k as int] == xs);
            let ghost prev = strings_view(v@).take(i as int);
            let ghost next = strings_view(v@).take(i + 1);
            assert forall|s: Seq<char>| before.contains(s) <==> next.contains(s) by {
                if next.contains(s) {
                    let j = choose|j: int| 0 <= j < next.len() && next[j] == s;
                    if j < i {
                        assert(prev[j] == s);
                        assert(prev.contains(s));
                    } else {
                        assert(s == xs);
                        assert(before[k as int] == s);
                    }
                }
                if before.contains(s) {
                    assert(prev.contains(s));
                    let j = choose|j: int| 0 <= j < prev.len() && prev[j] == s;
                    assert(next[j] == s);
                }
            }
        } else {
            proof {
                if k < out.len() {
                    lemma_lt_total(before[k as int], xs);
                }
            }
            let owned_x = v[i].clone();
            out.insert(k, owned_x);
            let ghost after = strings_view(out@);
            assert(after =~= before.insert(k as int, xs));
            assert forall|a: int, b: int| 0 <= a < b < after.len() implies seq_lt(#[trigger] after[a], #[trigger] after[b]) by {
                if b < k {
                } else if a < k && b == k {
                } else if a < k && b > k {
                    assert(after[b] == before[b - 1]);
                    if k < before.len() {
                        if b - 1 > k {
                            assert(seq_lt(before[k as int], before[b - 1]));
                        }
                        lemma_lt_transitive(before[a], xs, before[k as int]);
                        if b - 1 > k {
                            lemma_lt_transitive(before[a], before[k as int], before[b - 1]);
                        }
                    }
                } else if a == k {
                    assert(after[b] == before[b - 1]);
                    if b - 1 > k {
                        lemma_lt_transitive(xs, before[k as int], before[b - 1]);
                    }
                } else {
                    assert(after[a] == before[a - 1]);
                    assert(after[b] == before[b - 1]);
                }
            }
            let ghost prev = strings_view(v@).take(i as int);
            let ghost next = strings_view(v@).take(i + 1);
            assert forall|s: Seq<char>| after.contains(s) <==> next.contains(s) by {
                if next.contains(s) {
                    let j = choose|j: int| 0 <= j < next.len() && next[j] == s;
                    if j < i {
                        assert(prev[j] == s);
                        assert(prev.contains(s));
                        assert(before.contains(s));
                    } else {
                        assert(s == xs);
                        assert(after[k as int] == s);
                    }
                }
                if before.contains(s) {
                    let j = choose|j: int| 0 <= j < before.len() && before[j] == s;
                    if j < k {
                        assert(after[j] == s);
                    } else {
                        assert(after[j + 1] == s);
                    }
                }
                if after.contains(s) {
                    let j = choose|j: int| 0 <= j < after.len() && after[j] == s;
                    if j < k {
                        assert(before[j] == s);
                    } else if j > k {
                        assert(before[j - 1] == s);
                    }
                }
                if after.contains(s) {
                    if s == xs {
                        assert(next[i as int] == s);
                    } else {
                        assert(before.contains(s));
                        assert(prev.contains(s));
                        let j = choose|j: int| 0 <= j < prev.len() && prev[j] == s;
                        assert(next[j] == s);
                    }
                }
            }
        }
        i = i + 1;
    }
    assert(strings_view(v@).take(v.len() as int) =~= strings_view(v@));
    proof {
        lemma_sorted_distinct(strings_view(out@), strings_view(v@));
    }
    out
}

/// Where a stable sort by descending `key` puts `x` among the already sorted
/// `s`: after every element whose key is not below that of `x`.
pub open spec fn insert_pos<T>(s: Seq<T>, x: T, key: spec_fn(T) -> int) -> int
    decreases s.len(),
{
    if s.len() == 0 {
        0
    } else if key(s[0]) < key(x) {
        0
    } else {
        1 + insert_pos(s.drop_first(), x, key)
    }
}

/// A stable sort by descending `key` (what `sort_by_key` with
/// `Reverse(key)` gives): elements are inserted one by one, each after the
/// elements with a key at least its own.
pub open spec fn sort_desc<T>(s: Seq<T>, key: spec_fn(T) -> int) -> Seq<T>
    decreases s.len(),
{
    if s.len() == 0 {
        s
    } else {
        let rest = sort_desc(s.drop_last(), key);
        rest.insert(insert_pos(rest, s.last(), key), s.last())
    }
}

pub proof fn lemma_insert_pos_bounds<T>(s: Seq<T>, x: T, key: spec_fn(T) -> int)
    ensures
        0 <= insert_pos(s, x, key) <= s.len(),
        forall|j: int| 0 <= j < insert_pos(s, x, key) ==> key(#[trigger] s[j]) >= key(x),
        insert_pos(s, x, key) < s.len() ==> key(s[insert_pos(s, x, key)]) < key(x),
    decreases s.len(),
{
    if s.len() > 0 && key(s[0]) >= key(x) {
        lemma_insert_pos_bounds(s.drop_first(), x, key);
        assert forall|j: int| 0 <= j < insert_pos(s, x, key) implies key(#[trigger] s[j]) >= key(x) by {
            if j > 0 {
                assert(s[j] == s.drop_first()[j - 1]);
            }
        }
    }
}

/// `insert_pos` is the first index whose key is below that of `x`.
pub proof fn lemma_insert_pos_first<T>(s: Seq<T>, x: T, key: spec_fn(T) -> int, k: int)
    requires
        0 <= k <= s.len(),
        forall|j: int| 0 <= j < k ==> key(#[trigger] s[j]) >= key(x),
        k < s.len() ==> key(s[k]) < key(x),
    ensures
        insert_pos(s, x, key) == k,
    decreases s.len(),
{
    if s.len() > 0 && k > 0 {
        assert forall|j: int| 0 <= j < k - 1 implies key(#[trigger] s.drop_first()[j]) >= key(x) by {
            assert(s.drop_first()[j] == s[j + 1]);
        }
        lemma_insert_pos_first(s.drop_first(), x, key, k - 1);
    }
}

pub proof fn lemma_sort_desc_len<T>(s: Seq<T>, key: spec_fn(T) -> int)
    ensures
        sort_desc(s, key).len() == s.len(),
    decreases s.len(),
{
    if s.len() > 0 {
        lemma_sort_desc_len(s.drop_last(), key);
        lemma_insert_pos_bounds(sort_desc(s.drop_last(), key), s.last(), key);
    }
}

pub proof fn lemma_sort_desc_step<T>(s: Seq<T>, i: int, key: spec_fn(T) -> int)
    requires
        0 <= i < s.len(),
    ensures
        sort_desc(s.take(i + 1), key) == sort_desc(s.take(i), key).insert(
            insert_pos(sort_desc(s.take(i), key), s[i], key),
            s[i],
        ),
{
    assert(s.take(i + 1).drop_last() =~= s.take(i));
}

} // verus!

verus! {

/// Two strictly sorted sequences with the same elements are equal.
pub proof fn lemma_sorted_set_unique(a: Seq<Seq<char>>, b: Seq<Seq<char>>)
    requires
        strictly_sorted(a),
        strictly_sorted(b),
        forall|x: Seq<char>| a.contains(x) <==> b.contains(x),
    ensures
        a == b,
    decreases a.len() + b.len(),
{
    if a.len() == 0 {
        if b.len() > 0 {
            assert(b.contains(b[0]));
        }
        assert(a =~= b);
    } else if b.len() == 0 {
        assert(a.contains(a[0]));
    } else {
        assert(a.contains(a[0]));
        assert(b.contains(b[0]));
        let ja = choose|j: int| 0 <= j < b.len() && b[j] == a[0];
        let jb = choose|j: int| 0 <= j < a.len() && a[j] == b[0];
        if a[0] != b[0] {
            assert(ja > 0 && jb > 0);
            assert(seq_lt(b[0], b[ja]));
            assert(seq_lt(a[0], a[jb]));
            lemma_lt_asymmetric(a[0], b[0]);
        }
        let a1 = a.drop_first();
        let b1 = b.drop_first();
        assert forall|x: Seq<char>| a1.contains(x) <==> b1.contains(x) by {
            if a1.contains(x) {
                let i = choose|i: int| 0 <= i < a1.len() && a1[i] == x;
                assert(a[i + 1] == x);
                assert(seq_lt(a[0], x));
                lemma_lt_irreflexive(x);
                assert(a.contains(x));
                let j = choose|j: int| 0 <= j < b.len() && b[j] == x;
                assert(j != 0);
                assert(b1[j - 1] == x);
            }
            if b1.contains(x) {
                let i = choose|i: int| 0 <= i < b1.len() && b1[i] == x;
                assert(b[i + 1] == x);
                assert(seq_lt(b[0], x));
                lemma_lt_irreflexive(x);
                assert(b.contains(x));
                let j = choose|j: int| 0 <= j < a.len() && a[j] == x;
                assert(j != 0);
                assert(a1[j - 1] == x);
            }
        }
        assert forall|i: int, j: int| 0 <= i < j < a1.len() implies seq_lt(#[trigger] a1[i], #[trigger] a1[j]) by {
            assert(a1[i] == a[i + 1] && a1[j] == a[j + 1]);
        }
        assert forall|i: int, j: int| 0 <= i < j < b1.len() implies seq_lt(#[trigger] b1[i], #[trigger] b1[j]) by {
            assert(b1[i] == b[i + 1] && b1[j] == b[j + 1]);
        }
        lemma_sorted_set_unique(a1, b1);
        assert(a =~= seq![a[0]] + a1);
        assert(b =~= seq![b[0]] + b1);
    }
}

/// A strictly sorted sequence whose elements all occur in `s` is no longer
/// than `s`.
pub proof fn lemma_sorted_subset_len(t: Seq<Seq<char>>, s: Seq<Seq<char>>)
    requires
        strictly_sorted(t),
        forall|x: Seq<char>| t.contains(x) ==> s.contains(x),
    ensures
        t.len() <= s.len(),
{
    assert(t.no_duplicates()) by {
        assert forall|i: int, j: int| 0 <= i < t.len() && 0 <= j < t.len() && i != j implies t[i] != t[j] by {
            if i < j {
                assert(seq_lt(t[i], t[j]));
                lemma_lt_irreflexive(t[i]);
            } else {
                assert(seq_lt(t[j], t[i]));
                lemma_lt_irreflexive(t[j]);
            }
        }
    }
    t.unique_seq_to_set();
    s.lemma_cardinality_of_set();
    assert(t.to_set().subset_of(s.to_set())) by {
        assert forall|x: Seq<char>| t.to_set().contains(x) implies s.to_set().contains(x) by {
            assert(t.contains(x));
        }
    }
    vstd::set_lib::lemma_len_subset(t.to_set(), s.to_set());
}

/// The sorted sequence of the distinct elements of `s`.
pub open spec fn sorted_distinct(s: Seq<Seq<char>>) -> Seq<Seq<char>> {
    choose|t: Seq<Seq<char>>| strictly_sorted(t) && forall|x: Seq<char>| t.contains(x) <==> s.contains(x)
}

/// A strictly sorted sequence with the elements of `s` is `sorted_distinct(s)`.
pub proof fn lemma_sorted_distinct(t: Seq<Seq<char>>, s: Seq<Seq<char>>)
    requires
        strictly_sorted(t),
        forall|x: Seq<char>| t.contains(x) <==> s.contains(x),
    ensures
        t == sorted_distinct(s),
{
    let c = sorted_distinct(s);
    assert(strictly_sorted(c) && forall|x: Seq<char>| c.contains(x) <==> s.contains(x));
    lemma_sorted_set_unique(t, c);
}

} // verus!

verus! {

/// Where a stable sort by the strict order `lt` puts `x` among the already
/// sorted `s`: after every element that `x` is not below.
pub open spec fn insert_pos_lt<T>(s: Seq<T>, x: T, lt: spec_fn(T, T) -> bool) -> int
    decreases s.len(),
{
    if s.len() == 0 {
        0
    } else if lt(x, s[0]) {
        0
    } else {
        1 + insert_pos_lt(s.drop_first(), x, lt)
    }
}

/// A stable sort by the strict order `lt` (what `sort_by` gives with the
/// matching comparison): elements are inserted one by one, each after the
/// elements it is not below.
pub open spec fn sort_by_lt<T>(s: Seq<T>, lt: spec_fn(T, T) -> bool) -> Seq<T>
    decreases s.len(),
{
    if s.len() == 0 {
        s
    } else {
        let rest = sort_by_lt(s.drop_last(), lt);
        rest.insert(insert_pos_lt(rest, s.last(), lt), s.last())
    }
}

pub open spec fn strict_order<T>(lt: spec_fn(T, T) -> bool) -> bool {
    &&& forall|a: T| !(#[trigger] lt(a, a))
    &&& forall|a: T, b: T, c: T| #[trigger] lt(a, b) && #[trigger] lt(b, c) ==> lt(a, c)
}

/// No element of `s` is below an earlier one.
pub open spec fn sorted_by<T>(s: Seq<T>, lt: spec_fn(T, T) -> bool) -> bool {
    forall|i: int, j: int| 0 <= i < j < s.len() ==> !lt(#[trigger] s[j], #[trigger] s[i])
}

pub proof fn lemma_insert_pos_lt_first<T>(s: Seq<T>, x: T, lt: spec_fn(T, T) -> bool, k: int)
    requires
        0 <= k <= s.len(),
        forall|j: int| 0 <= j < k ==> !lt(x, #[trigger] s[j]),
        k < s.len() ==> lt(x, s[k]),
    ensures
        insert_pos_lt(s, x, lt) == k,
    decreases s.len(),
{
    if s.len() > 0 && k > 0 {
        assert(!lt(x, s[0]));
        assert forall|j: int| 0 <= j < k - 1 implies !lt(x, #[trigger] s.drop_first()[j]) by {
            assert(s.drop_first()[j] == s[j + 1]);
        }
        lemma_insert_pos_lt_first(s.drop_first(), x, lt, k - 1);
    }
}

pub proof fn lemma_insert_pos_lt_bounds<T>(s: Seq<T>, x: T, lt: spec_fn(T, T) -> bool)
    ensures
        0 <= insert_pos_lt(s, x, lt) <= s.len(),
        forall|j: int| 0 <= j < insert_pos_lt(s, x, lt) ==> !lt(x, #[trigger] s[j]),
        insert_pos_lt(s, x, lt) < s.len() ==> lt(x, s[insert_pos_lt(s, x, lt)]),
    decreases s.len(),
{
    if s.len() > 0 && !lt(x, s[0]) {
        lemma_insert_pos_lt_bounds(s.drop_first(), x, lt);
        assert forall|j: int| 0 <= j < insert_pos_lt(s, x, lt) implies !lt(x, #[trigger] s[j]) by {
            if j > 0 {
                assert(s[j] == s.drop_first()[j - 1]);
            }
        }
    }
}

/// The stable sort keeps exactly the elements it was given, whatever the
/// order.
pub proof fn lemma_sort_by_lt_contains<T>(s: Seq<T>, lt: spec_fn(T, T) -> bool)
    ensures
        forall|x: T| sort_by_lt(s, lt).contains(x) <==> s.contains(x),
    decreases s.len(),
{
    if s.len() > 0 {
        let prefix = s.drop_last();
        lemma_sort_by_lt_contains(prefix, lt);
        let rest = sort_by_lt(prefix, lt);
        let x = s.last();
        let p = insert_pos_lt(rest, x, lt);
        lemma_insert_pos_lt_bounds(rest, x, lt);
        let out = rest.insert(p, x);
        assert(out == sort_by_lt(s, lt));
        assert forall|y: T| out.contains(y) <==> s.contains(y) by {
            if out.contains(y) {
                let i = choose|i: int| 0 <= i < out.len() && out[i] == y;
                if i < p {
                    assert(rest[i] == y);
                    assert(rest.contains(y));
                    assert(prefix.contains(y));
                    let k = choose|k: int| 0 <= k < prefix.len() && prefix[k] == y;
                    assert(s[k] == y);
                } else if i == p {
                    assert(s[s.len() - 1] == y);
                } else {
                    assert(rest[i - 1] == y);
                    assert(rest.contains(y));
                    assert(prefix.contains(y));
                    let k = choose|k: int| 0 <= k < prefix.len() && prefix[k] == y;
                    assert(s[k] == y);
                }
            }
            if s.contains(y) {
                let k = choose|k: int| 0 <= k < s.len() && s[k] == y;
                if k == s.len() - 1 {
                    assert(out[p] == y);
                } else {
                    assert(prefix[k] == y);
                    assert(prefix.contains(y));
                    assert(rest.contains(y));
                    let i = choose|i: int| 0 <= i < rest.len() && rest[i] == y;
                    if i < p {
                        assert(out[i] == y);
                    } else {
                        assert(out[i + 1] == y);
                    }
                }
            }
        }
    }
}

/// The stable sort keeps exactly the elements it was given, and orders them.
pub proof fn lemma_sort_by_lt<T>(s: Seq<T>, lt: spec_fn(T, T) -> bool)
    requires
        strict_order(lt),
    ensures
        sort_by_lt(s, lt).len() == s.len(),
        forall|x: T| sort_by_lt(s, lt).contains(x) <==> s.contains(x),
        sorted_by(sort_by_lt(s, lt), lt),
    decreases s.len(),
{
    lemma_sort_by_lt_contains(s, lt);
    if s.len() > 0 {
        let prefix = s.drop_last();
        lemma_sort_by_lt(prefix, lt);
        let rest = sort_by_lt(prefix, lt);
        let x = s.last();
        let p = insert_pos_lt(rest, x, lt);
        lemma_insert_pos_lt_bounds(rest, x, lt);
        let out = rest.insert(p, x);
        assert(out == sort_by_lt(s, lt));
        assert forall|i: int, j: int| 0 <= i < j < out.len() implies !lt(#[trigger] out[j], #[trigger] out[i]) by {
            if j < p {
                assert(out[i] == rest[i] && out[j] == rest[j]);
            } else if j == p {
                assert(out[i] == rest[i]);
            } else if i < p {
                assert(out[i] == rest[i] && out[j] == rest[j - 1]);
            } else if i == p {
                assert(out[j] == rest[j - 1]);
                if lt(rest[j - 1], x) {
                    assert(lt(x, rest[p]));
                    assert(lt(rest[j - 1], rest[p]));
                    if j - 1 == p {
                        assert(!lt(rest[p], rest[p]));
                    }
                }
            } else {
                assert(out[i] == rest[i - 1] && out[j] == rest[j - 1]);
            }
        }
    }
}

/// The stable sort keeps the length.
pub proof fn lemma_sort_by_lt_len<T>(s: Seq<T>, lt: spec_fn(T, T) -> bool)
    ensures
        sort_by_lt(s, lt).len() == s.len(),
    decreases s.len(),
{
    if s.len() > 0 {
        lemma_sort_by_lt_len(s.drop_last(), lt);
        lemma_insert_pos_lt_bounds(sort_by_lt(s.drop_last(), lt), s.last(), lt);
    }
}

/// Sorting what is already in order changes nothing.
pub proof fn lemma_sort_by_lt_sorted<T>(s: Seq<T>, lt: spec_fn(T, T) -> bool)
    requires
        sorted_by(s, lt),
    ensures
        sort_by_lt(s, lt) == s,
    decreases s.len(),
{
    if s.len() > 0 {
        let prefix = s.drop_last();
        assert(sorted_by(prefix, lt)) by {
            assert forall|i: int, j: int| 0 <= i < j < prefix.len() implies !lt(#[trigger] prefix[j], #[trigger] prefix[i]) by {
                assert(prefix[i] == s[i] && prefix[j] == s[j]);
            }
        }
        lemma_sort_by_lt_sorted(prefix, lt);
        assert forall|j: int| 0 <= j < prefix.len() implies !lt(s.last(), #[trigger] prefix[j]) by {
            assert(prefix[j] == s[j]);
        }
        lemma_insert_pos_lt_first(prefix, s.last(), lt, prefix.len() as int);
        assert(prefix.insert(prefix.len() as int, s.last()) =~= s);
    }
}

pub proof fn lemma_sort_by_lt_step<T>(s: Seq<T>, i: int, lt: spec_fn(T, T) -> bool)
    requires
        0 <= i < s.len(),
    ensures
        sort_by_lt(s.take(i + 1), lt) == sort_by_lt(s.take(i), lt).insert(
            insert_pos_lt(sort_by_lt(s.take(i), lt), s[i], lt),
            s[i],
        ),
{
    assert(s.take(i + 1).drop_last() =~= s.take(i));
}

} // verus!

verus! {

/// `t` with `x` inserted at its place in the order.
pub open spec fn insert_sorted(t: Seq<Seq<char>>, x: Seq<char>) -> Seq<Seq<char>>
    decreases t.len(),
{
    if t.len() == 0 {
        seq![x]
    } else if seq_lt(x, t[0]) {
        seq![x] + t
    } else {
        seq![t[0]] + insert_sorted(t.drop_first(), x)
    }
}

proof fn lemma_insert_sorted(t: Seq<Seq<char>>, x: Seq<char>)
    requires
        strictly_sorted(t),
        !t.contains(x),
    ensures
        strictly_sorted(insert_sorted(t, x)),
        forall|y: Seq<char>| insert_sorted(t, x).contains(y) <==> (t.contains(y) || y == x),
    decreases t.len(),
{
    let r = insert_sorted(t, x);
    if t.len() == 0 {
        assert forall|y: Seq<char>| r.contains(y) <==> (t.contains(y) || y == x) by {
            if r.contains(y) {
                assert(r[0] == y);
            }
            if y == x {
                assert(r[0] == y);
            }
        }
    } else if seq_lt(x, t[0]) {
        assert forall|i: int, j: int| 0 <= i < j < r.len() implies seq_lt(#[trigger] r[i], #[trigger] r[j]) by {
            if i == 0 {
                assert(r[j] == t[j - 1]);
                if j - 1 > 0 {
                    assert(seq_lt(t[0], t[j - 1]));
                    lemma_lt_transitive(x, t[0], t[j - 1]);
                }
            } else {
                assert(r[i] == t[i - 1] && r[j] == t[j - 1]);
            }
        }
        assert forall|y: Seq<char>| r.contains(y) <==> (t.contains(y) || y == x) by {
            if r.contains(y) {
                let i = choose|i: int| 0 <= i < r.len() && r[i] == y;
                if i > 0 {
                    assert(t[i - 1] == y);
                }
            }
            if t.contains(y) {
                let i = choose|i: int| 0 <= i < t.len() && t[i] == y;
                assert(r[i + 1] == y);
            }
            if y == x {
                assert(r[0] == y);
            }
        }
    } else {
        let t1 = t.drop_first();
        assert forall|i: int, j: int| 0 <= i < j < t1.len() implies seq_lt(#[trigger] t1[i], #[trigger] t1[j]) by {
            assert(t1[i] == t[i + 1] && t1[j] == t[j + 1]);
        }
        assert(!t1.contains(x)) by {
            if t1.contains(x) {
                let i = choose|i: int| 0 <= i < t1.len() && t1[i] == x;
                assert(t[i + 1] == x);
            }
        }
        lemma_insert_sorted(t1, x);
        let r1 = insert_sorted(t1, x);
        assert(t.contains(t[0]));
        lemma_lt_total(x, t[0]);
        assert(seq_lt(t[0], x));
        assert forall|i: int, j: int| 0 <= i < j < r.len() implies seq_lt(#[trigger] r[i], #[trigger] r[j]) by {
            if i == 0 {
                assert(r[j] == r1[j - 1]);
                assert(r1.contains(r1[j - 1]));
                if r1[j - 1] != x {
                    assert(t1.contains(r1[j - 1]));
                    let k = choose|k: int| 0 <= k < t1.len() && t1[k] == r1[j - 1];
                    assert(t1[k] == t[k + 1]);
                    assert(t[k + 1] == r1[j - 1]);
                    assert(seq_lt(t[0], t[k + 1]));
                }
            } else {
                assert(r[i] == r1[i - 1] && r[j] == r1[j - 1]);
            }
        }
        assert forall|y: Seq<char>| r.contains(y) <==> (t.contains(y) || y == x) by {
            if r.contains(y) {
                let i = choose|i: int| 0 <= i < r.len() && r[i] == y;
                if i > 0 {
                    assert(r1[i - 1] == y);
                    assert(r1.contains(y));
                    if y != x {
                        assert(t1.contains(y));
                        let k = choose|k: int| 0 <= k < t1.len() && t1[k] == y;
                        assert(t1[k] == t[k + 1]);
                        assert(t[k + 1] == y);
                    }
                } else {
                    assert(t[0] == y);
                }
            }
            if t.contains(y) {
                let i = choose|i: int| 0 <= i < t.len() && t[i] == y;
                if i == 0 {
                    assert(r[0] == y);
                } else {
                    assert(t1[i - 1] == y);
                    assert(t1.contains(y));
                    assert(r1.contains(y));
                    let k = choose|k: int| 0 <= k < r1.len() && r1[k] == y;
                    assert(r[k + 1] == y);
                }
            }
            if y == x {
                assert(r1.contains(x));
                let k = choose|k: int| 0 <= k < r1.len() && r1[k] == x;
                assert(r[k + 1] == x);
            }
        }
    }
}

/// `sorted_distinct(s)` is strictly sorted and holds exactly the elements
/// of `s`.
pub proof fn lemma_sorted_distinct_props(s: Seq<Seq<char>>)
    ensures
        strictly_sorted(sorted_distinct(s)),
        forall|x: Seq<char>| sorted_distinct(s).contains(x) <==> s.contains(x),
    decreases s.len(),
{
    if s.len() == 0 {
        let t = Seq::<Seq<char>>::empty();
        assert(strictly_sorted(t) && forall|x: Seq<char>| t.contains(x) <==> s.contains(x));
    } else {
        let p = s.drop_last();
        lemma_sorted_distinct_props(p);
        let t0 = sorted_distinct(p);
        let x = s.last();
        assert forall|y: Seq<char>| s.contains(y) <==> (p.contains(y) || y == x) by {
            if s.contains(y) {
                let i = choose|i: int| 0 <= i < s.len() && s[i] == y;
                if i < s.len() - 1 {
                    assert(p[i] == y);
                }
            }
            if p.contains(y) {
                let i = choose|i: int| 0 <= i < p.len() && p[i] == y;
                assert(s[i] == y);
            }
            if y == x {
                assert(s[s.len() - 1] == y);
            }
        }
        if t0.contains(x) {
            assert(strictly_sorted(t0) && forall|y: Seq<char>| t0.contains(y) <==> s.contains(y));
        } else {
            lemma_insert_sorted(t0, x);
            let t = insert_sorted(t0, x);
            assert(strictly_sorted(t) && forall|y: Seq<char>| t.contains(y) <==> s.contains(y));
        }
    }
}

} // verus!

verus! {

/// The stable sort keeps the keys of its elements distinct.
pub proof fn lemma_sort_by_lt_distinct<T, K>(s: Seq<T>, lt: spec_fn(T, T) -> bool, key: spec_fn(T) -> K)
    requires
        forall|i: int, j: int| 0 <= i < j < s.len() ==> key(#[trigger] s[i]) != key(#[trigger] s[j]),
    ensures
        forall|i: int, j: int|
            0 <= i < j < sort_by_lt(s, lt).len() ==> key(#[trigger] sort_by_lt(s, lt)[i]) != key(
                #[trigger] sort_by_lt(s, lt)[j],
            ),
    decreases s.len(),
{
    if s.len() > 0 {
        let prefix = s.drop_last();
        assert forall|i: int, j: int| 0 <= i < j < prefix.len() implies key(#[trigger] prefix[i]) != key(#[trigger] prefix[j]) by {
            assert(prefix[i] == s[i] && prefix[j] == s[j]);
        }
        lemma_sort_by_lt_distinct(prefix, lt, key);
        lemma_sort_by_lt_contains(prefix, lt);
        let rest = sort_by_lt(prefix, lt);
        let x = s.last();
        let p = insert_pos_lt(rest, x, lt);
        lemma_insert_pos_lt_bounds(rest, x, lt);
        let out = rest.insert(p, x);
        assert(out == sort_by_lt(s, lt));
        assert forall|m: int| 0 <= m < rest.len() implies key(#[trigger] rest[m]) != key(x) by {
            assert(rest.contains(rest[m]));
            assert(prefix.contains(rest[m]));
            let k = choose|k: int| 0 <= k < prefix.len() && prefix[k] == rest[m];
            assert(s[k] == rest[m]);
            assert(key(s[k]) != key(s[s.len() - 1]));
        }
        assert forall|i: int, j: int| 0 <= i < j < out.len() implies key(#[trigger] out[i]) != key(#[trigger] out[j]) by {
            if j < p {
                assert(out[i] == rest[i] && out[j] == rest[j]);
            } else if j == p {
                assert(out[i] == rest[i]);
            } else if i < p {
                assert(out[i] == rest[i] && out[j] == rest[j - 1]);
            } else if i == p {
                assert(out[j] == rest[j - 1]);
            } else {
                assert(out[i] == rest[i - 1] && out[j] == rest[j - 1]);
            }
        }
    }
}

} // verus!
