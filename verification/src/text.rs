//! Character-level text helpers: ASCII case folding, Unicode whitespace
//! trimming, infix search and string building, each with its specification.
use vstd::prelude::*;

verus! {

/// Unicode `White_Space` property, the set that `char::is_whitespace` uses.
pub open spec fn is_ws(c: char) -> bool {
    let u = c as u32;
    ||| 0x09 <= u <= 0x0D
    ||| u == 0x20
    ||| u == 0x85
    ||| u == 0xA0
    ||| u == 0x1680
    ||| 0x2000 <= u <= 0x200A
    ||| u == 0x2028
    ||| u == 0x2029
    ||| u == 0x202F
    ||| u == 0x205F
    ||| u == 0x3000
}

pub open spec fn is_ascii_upper(c: char) -> bool {
    'A' <= c <= 'Z'
}

/// The character with `A`..`Z` mapped to `a`..`z`, every other unchanged.
pub open spec fn lower_char(c: char) -> char {
    if is_ascii_upper(c) {
        ((c as u32) + 32) as char
    } else {
        c
    }
}

/// `str::to_ascii_lowercase`, character by character.
pub open spec fn lower(s: Seq<char>) -> Seq<char> {
    Seq::new(s.len(), |i: int| lower_char(s[i]))
}

/// Whether two texts are equal once ASCII letters are lowercased.
pub open spec fn ieq(a: Seq<char>, b: Seq<char>) -> bool {
    lower(a) == lower(b)
}

pub open spec fn trim_start(s: Seq<char>) -> Seq<char>
    decreases s.len(),
{
    if s.len() > 0 && is_ws(s[0]) {
        trim_start(s.drop_first())
    } else {
        s
    }
}

pub open spec fn trim_end(s: Seq<char>) -> Seq<char>
    decreases s.len(),
{
    if s.len() > 0 && is_ws(s.last()) {
        trim_end(s.drop_last())
    } else {
        s
    }
}

/// `str::trim`: leading and trailing Unicode whitespace removed.
pub open spec fn trim(s: Seq<char>) -> Seq<char> {
    trim_end(trim_start(s))
}

/// `needle` occurs in `hay` starting at index `i`.
pub open spec fn occurs_at(hay: Seq<char>, needle: Seq<char>, i: int) -> bool {
    0 <= i && i + needle.len() <= hay.len() && hay.subrange(i, i + needle.len()) == needle
}

/// `str::contains` with a string pattern.
pub open spec fn contains(hay: Seq<char>, needle: Seq<char>) -> bool {
    exists|i: int| occurs_at(hay, needle, i)
}

pub open spec fn starts_with(s: Seq<char>, p: Seq<char>) -> bool {
    occurs_at(s, p, 0)
}

pub open spec fn ends_with(s: Seq<char>, p: Seq<char>) -> bool {
    p.len() <= s.len() && occurs_at(s, p, s.len() - p.len())
}

/// Index of the first occurrence of `needle` in `hay` (`str::find`, counted in characters).
#[verifier::opaque]
pub open spec fn find(hay: Seq<char>, needle: Seq<char>) -> Option<int> {
    if contains(hay, needle) {
        Some(choose|i: int| occurs_at(hay, needle, i) && forall|j: int| 0 <= j < i ==> !occurs_at(hay, needle, j))
    } else {
        None
    }
}

/// `String::push`: the text with `c` added at its end.
#[verifier::external_body]
pub(crate) fn push_char(s: &mut String, c: char)
    ensures
        final(s)@ == old(s)@.push(c),
{
    s.push(c);
}

/// The Unicode lowercase mapping of a text, as `str::to_lowercase` computes it.
pub uninterp spec fn unicode_lower(s: Seq<char>) -> Seq<char>;

/// Every character of the text is ASCII.
pub open spec fn all_ascii(s: Seq<char>) -> bool {
    forall|i: int| 0 <= i < s.len() ==> (#[trigger] s[i]) < '\u{80}'
}

/// `str::to_lowercase`: each character mapped to its Unicode lowercase form,
/// which for an all-ASCII text is its ASCII lowercase (the Unicode lowercase
/// of `A`..`Z` is `a`..`z`, and every other ASCII character is its own).
#[verifier::external_body]
pub(crate) fn to_lowercase(s: &str) -> (r: String)
    ensures
        r@ == unicode_lower(s@),
        all_ascii(s@) ==> r@ == lower(s@),
{
    s.to_lowercase()
}

/// The characters of `s`, in order.
pub fn chars_of(s: &str) -> (v: Vec<char>)
    ensures
        v@ == s@,
{
    let mut v: Vec<char> = Vec::new();
    for c in it: s.chars()
        invariant
            v@ == it.seq().take(it.index() as int),
            it.seq() == s@,
    {
        v.push(c);
    }
    v
}

/// A `String` holding exactly the characters of `v`.
pub fn string_of(v: &[char]) -> (s: String)
    ensures
        s@ == v@,
{
    let mut s = String::new();
    let mut i: usize = 0;
    while i < v.len()
        invariant
            i <= v.len(),
            s@ == v@.take(i as int),
        decreases v.len() - i,
    {
        push_char(&mut s, v[i]);
        i = i + 1;
        assert(s@ =~= v@.take(i as int));
    }
    assert(v@.take(v.len() as int) =~= v@);
    s
}

/// A `String` holding the characters of `v` from `start` to `end`.
pub fn string_of_range(v: &[char], start: usize, end: usize) -> (s: String)
    requires
        start <= end <= v.len(),
    ensures
        s@ == v@.subrange(start as int, end as int),
{
    let mut s = String::new();
    let mut i: usize = start;
    while i < end
        invariant
            start <= i <= end <= v.len(),
            s@ == v@.subrange(start as int, i as int),
        decreases end - i,
    {
        push_char(&mut s, v[i]);
        i = i + 1;
        assert(s@ =~= v@.subrange(start as int, i as int));
    }
    s
}

/// The characters of `v` from `start` to `end`.
pub fn slice_vec(v: &[char], start: usize, end: usize) -> (r: Vec<char>)
    requires
        start <= end <= v.len(),
    ensures
        r@ == v@.subrange(start as int, end as int),
{
    let mut r: Vec<char> = Vec::new();
    let mut i: usize = start;
    while i < end
        invariant
            start <= i <= end <= v.len(),
            r@ == v@.subrange(start as int, i as int),
        decreases end - i,
    {
        r.push(v[i]);
        i = i + 1;
        assert(r@ =~= v@.subrange(start as int, i as int));
    }
    r
}

/// `String::from(&str)`.
pub fn owned(s: &str) -> (r: String)
    ensures
        r@ == s@,
{
    s.to_string()
}

/// Appends the characters of `v` to `s`.
pub fn push_all(s: &mut String, v: &[char])
    ensures
        final(s)@ == old(s)@ + v@,
{
    let mut i: usize = 0;
    while i < v.len()
        invariant
            i <= v.len(),
            s@ == old(s)@ + v@.take(i as int),
        decreases v.len() - i,
    {
        push_char(s, v[i]);
        i = i + 1;
        assert(s@ =~= old(s)@ + v@.take(i as int));
    }
    assert(v@.take(v.len() as int) =~= v@);
}

/// Appends the characters of `t` to `s`.
pub fn push_str(s: &mut String, t: &str)
    ensures
        final(s)@ == old(s)@ + t@,
{
    let v = chars_of(t);
    push_all(s, &v);
}

/// Whether a character has the Unicode `White_Space` property.
pub fn is_whitespace(c: char) -> (r: bool)
    ensures
        r == is_ws(c),
{
    let u = c as u32;
    (0x09 <= u && u <= 0x0D) || u == 0x20 || u == 0x85 || u == 0xA0 || u == 0x1680 || (0x2000
        <= u && u <= 0x200A) || u == 0x2028 || u == 0x2029 || u == 0x202F || u == 0x205F || u
        == 0x3000
}

/// The character with `A`..`Z` mapped to `a`..`z`, every other unchanged.
pub fn lower_ch(c: char) -> (r: char)
    ensures
        r == lower_char(c),
{
    if 'A' <= c && c <= 'Z' {
        ((c as u8) + 32) as char
    } else {
        c
    }
}

/// ASCII-lowercased copy of a character sequence.
pub fn lower_vec(v: &[char]) -> (r: Vec<char>)
    ensures
        r@ == lower(v@),
{
    let mut r: Vec<char> = Vec::new();
    let mut i: usize = 0;
    while i < v.len()
        invariant
            i <= v.len(),
            r@ == lower(v@).take(i as int),
        decreases v.len() - i,
    {
        r.push(lower_ch(v[i]));
        i = i + 1;
        assert(r@ =~= lower(v@).take(i as int));
    }
    assert(lower(v@).take(v.len() as int) =~= lower(v@));
    r
}

/// `s.to_ascii_lowercase()` as characters.
pub fn lower_chars(s: &str) -> (r: Vec<char>)
    ensures
        r@ == lower(s@),
{
    let v = chars_of(s);
    lower_vec(&v)
}

/// The text with its ASCII letters lowercased.
pub fn to_ascii_lowercase(s: &str) -> (r: String)
    ensures
        r@ == lower(s@),
{
    let v = lower_chars(s);
    string_of(&v)
}

/// Equality of two character sequences.
pub fn seq_eq(a: &[char], b: &[char]) -> (r: bool)
    ensures
        r == (a@ == b@),
{
    if a.len() != b.len() {
        return false;
    }
    let mut i: usize = 0;
    while i < a.len()
        invariant
            a.len() == b.len(),
            i <= a.len(),
            forall|j: int| 0 <= j < i ==> a@[j] == b@[j],
        decreases a.len() - i,
    {
        if a[i] != b[i] {
            return false;
        }
        i = i + 1;
    }
    assert(a@ =~= b@);
    true
}

/// Whether the characters `v` spell the string `lit`.
pub fn eq_lit(v: &[char], lit: &str) -> (r: bool)
    ensures
        r == (v@ == lit@),
{
    let l = chars_of(lit);
    seq_eq(v, &l)
}

/// `a == b` on string slices.
pub fn str_eq(a: &str, b: &str) -> (r: bool)
    ensures
        r == (a@ == b@),
{
    let x = chars_of(a);
    let y = chars_of(b);
    seq_eq(&x, &y)
}

/// Whether two texts are equal once ASCII letters are lowercased.
pub fn eq_ignore_case(a: &str, b: &str) -> (r: bool)
    ensures
        r == ieq(a@, b@),
{
    let x = lower_chars(a);
    let y = lower_chars(b);
    seq_eq(&x, &y)
}

proof fn lemma_trim_start_step(s: Seq<char>, i: int)
    requires
        0 <= i < s.len(),
        is_ws(s[i]),
    ensures
        trim_start(s.subrange(i, s.len() as int)) == trim_start(s.subrange(i + 1, s.len() as int)),
{
    assert(s.subrange(i, s.len() as int).drop_first() =~= s.subrange(i + 1, s.len() as int));
}

proof fn lemma_trim_end_step(s: Seq<char>, i: int, j: int)
    requires
        0 <= i < j <= s.len(),
        is_ws(s[j - 1]),
    ensures
        trim_end(s.subrange(i, j)) == trim_end(s.subrange(i, j - 1)),
{
    assert(s.subrange(i, j).drop_last() =~= s.subrange(i, j - 1));
}

/// Bounds of the trimmed part of `v`.
pub fn trim_bounds(v: &[char]) -> (r: (usize, usize))
    ensures
        r.0 <= r.1 <= v.len(),
        v@.subrange(r.0 as int, r.1 as int) == trim(v@),
{
    let n = v.len();
    let mut i: usize = 0;
    assert(v@.subrange(0, n as int) =~= v@);
    while i < n && is_whitespace(v[i])
        invariant
            i <= n == v.len(),
            trim_start(v@) == trim_start(v@.subrange(i as int, n as int)),
        decreases n - i,
    {
        proof {
            lemma_trim_start_step(v@, i as int);
        }
        i = i + 1;
    }
    assert(trim_start(v@) == v@.subrange(i as int, n as int));
    let mut j: usize = n;
    while j > i && is_whitespace(v[j - 1])
        invariant
            i <= j <= n == v.len(),
            trim(v@) == trim_end(v@.subrange(i as int, j as int)),
        decreases j - i,
    {
        proof {
            lemma_trim_end_step(v@, i as int, j as int);
        }
        j = j - 1;
    }
    (i, j)
}

/// `s.trim()` as characters.
pub fn trim_vec(v: &[char]) -> (r: Vec<char>)
    ensures
        r@ == trim(v@),
{
    let (i, j) = trim_bounds(v);
    let mut r: Vec<char> = Vec::new();
    let mut k: usize = i;
    while k < j
        invariant
            i <= k <= j <= v.len(),
            r@ == v@.subrange(i as int, k as int),
        decreases j - k,
    {
        r.push(v[k]);
        k = k + 1;
        assert(r@ =~= v@.subrange(i as int, k as int));
    }
    r
}

/// `s.trim()` as characters.
pub fn trim_chars(s: &str) -> (r: Vec<char>)
    ensures
        r@ == trim(s@),
{
    let v = chars_of(s);
    trim_vec(&v)
}

/// The text without whitespace at either end.
pub fn trim_string(s: &str) -> (r: String)
    ensures
        r@ == trim(s@),
{
    let v = trim_chars(s);
    string_of(&v)
}

/// Whether the text holds only whitespace.
pub fn is_blank(s: &str) -> (r: bool)
    ensures
        r == (trim(s@).len() == 0),
{
    let v = trim_chars(s);
    v.len() == 0
}

/// Whether `needle` occurs in `hay` at index `i`.
pub fn matches_at(hay: &[char], needle: &[char], i: usize) -> (r: bool)
    ensures
        r == occurs_at(hay@, needle@, i as int),
{
    if i > hay.len() || needle.len() > hay.len() - i {
        return false;
    }
    let mut k: usize = 0;
    while k < needle.len()
        invariant
            i + needle.len() <= hay.len(),
            k <= needle.len(),
            forall|m: int| 0 <= m < k ==> hay@[i + m] == needle@[m],
        decreases needle.len() - k,
    {
        if hay[i + k] != needle[k] {
            return false;
        }
        k = k + 1;
    }
    assert(hay@.subrange(i as int, i + needle.len()) =~= needle@);
    true
}

/// The first index at which `needle` occurs in `hay`.
pub fn find_vec(hay: &[char], needle: &[char]) -> (r: Option<usize>)
    ensures
        r matches Some(i) ==> find(hay@, needle@) == Some(i as int),
        r is None ==> find(hay@, needle@) is None,
        r matches Some(i) ==> occurs_at(hay@, needle@, i as int),
        r matches Some(i) ==> i + needle@.len() <= hay@.len(),
        r is Some <==> contains(hay@, needle@),
{
    reveal(find);
    if needle.len() > hay.len() {
        assert(!contains(hay@, needle@));
        assert(find(hay@, needle@) is None);
        return None;
    }
    let last = hay.len() - needle.len();
    let mut i: usize = 0;
    loop
        invariant
            i <= last == hay.len() - needle.len(),
            forall|j: int| 0 <= j < i ==> !occurs_at(hay@, needle@, j),
        decreases last - i,
    {
        if matches_at(hay, needle, i) {
            reveal(find);
            assert(contains(hay@, needle@));
            let ghost c = choose|k: int|
                occurs_at(hay@, needle@, k) && forall|j: int| 0 <= j < k ==> !occurs_at(hay@, needle@, j);
            assert(occurs_at(hay@, needle@, c) && forall|j: int| 0 <= j < c ==> !occurs_at(hay@, needle@, j));
            assert(c == i) by {
                if c < i {
                } else if c > i {
                }
            }
            return Some(i);
        }
        if i == last {
            reveal(find);
            assert(!contains(hay@, needle@)) by {
                if contains(hay@, needle@) {
                    let k = choose|k: int| occurs_at(hay@, needle@, k);
                    assert(0 <= k <= i);
                }
            }
            return None;
        }
        i = i + 1;
    }
}

/// `hay.contains(needle)` on character sequences.
pub fn contains_vec(hay: &[char], needle: &[char]) -> (r: bool)
    ensures
        r == contains(hay@, needle@),
{
    let f = find_vec(hay, needle);
    f.is_some()
}

/// Whether `lit` occurs in the characters `hay`.
pub fn contains_lit(hay: &[char], lit: &str) -> (r: bool)
    ensures
        r == contains(hay@, lit@),
{
    let n = chars_of(lit);
    contains_vec(hay, &n)
}

/// Whether the characters `s` start with the string `lit`.
pub fn starts_with_lit(s: &[char], lit: &str) -> (r: bool)
    ensures
        r == starts_with(s@, lit@),
{
    let n = chars_of(lit);
    matches_at(s, &n, 0)
}

/// Whether the characters `s` end with the characters `p`.
pub fn ends_with_vec(s: &[char], p: &[char]) -> (r: bool)
    ensures
        r == ends_with(s@, p@),
{
    if p.len() > s.len() {
        return false;
    }
    matches_at(s, p, s.len() - p.len())
}

/// `v.iter().any(|x| x == s)` over strings.
pub fn contains_string(v: &[String], s: &str) -> (r: bool)
    ensures
        r == (exists|i: int| 0 <= i < v@.len() && v@[i]@ == s@),
{
    let mut i: usize = 0;
    while i < v.len()
        invariant
            i <= v.len(),
            forall|j: int| 0 <= j < i ==> v@[j]@ != s@,
        decreases v.len() - i,
    {
        if str_eq(v[i].as_str(), s) {
            return true;
        }
        i = i + 1;
    }
    false
}

/// Parses a decimal digit.
pub open spec fn digit_value(c: char) -> int {
    (c as u32) - ('0' as u32)
}

pub open spec fn is_digit(c: char) -> bool {
    '0' <= c <= '9'
}

/// Value of a sequence of decimal digits.
pub open spec fn digits_value(s: Seq<char>) -> int
    decreases s.len(),
{
    if s.len() == 0 {
        0
    } else {
        digits_value(s.drop_last()) * 10 + digit_value(s.last())
    }
}

/// The digits part of a decimal literal: the text after an optional leading `+`.
pub open spec fn usize_digits(s: Seq<char>) -> Seq<char> {
    if s.len() > 0 && s[0] == '+' {
        s.drop_first()
    } else {
        s
    }
}

pub open spec fn all_digits(d: Seq<char>) -> bool {
    forall|i: int| 0 <= i < d.len() ==> is_digit(#[trigger] d[i])
}

/// `str::parse::<usize>()`: an optional `+`, then at least one decimal digit,
/// with a value that fits in `usize`.
pub open spec fn parse_usize(s: Seq<char>) -> Option<usize> {
    let d = usize_digits(s);
    if d.len() > 0 && all_digits(d) && digits_value(d) <= usize::MAX {
        Some(digits_value(d) as usize)
    } else {
        None
    }
}

proof fn lemma_digits_nonneg(s: Seq<char>)
    requires
        forall|i: int| 0 <= i < s.len() ==> is_digit(#[trigger] s[i]),
    ensures
        digits_value(s) >= 0,
    decreases s.len(),
{
    if s.len() > 0 {
        lemma_digits_nonneg(s.drop_last());
    }
}

proof fn lemma_digits_mono(s: Seq<char>, k: int)
    requires
        0 <= k <= s.len(),
        forall|i: int| 0 <= i < s.len() ==> is_digit(#[trigger] s[i]),
    ensures
        digits_value(s.take(k)) <= digits_value(s),
    decreases s.len() - k,
{
    if k < s.len() {
        lemma_digits_mono(s, k + 1);
        assert(s.take(k + 1).drop_last() =~= s.take(k));
        assert forall|i: int| 0 <= i < s.take(k).len() implies is_digit(#[trigger] s.take(k)[i]) by {
            assert(s.take(k)[i] == s[i]);
        }
        lemma_digits_nonneg(s.take(k));
        assert(is_digit(s[k]));
        assert(s.take(k + 1).last() == s[k]);
        assert(digits_value(s.take(k + 1)) == digits_value(s.take(k)) * 10 + digit_value(s[k]));
    } else {
        assert(s.take(k) =~= s);
    }
}

/// `s.parse::<usize>().ok()` on characters.
pub fn parse_usize_vec(s: &[char]) -> (r: Option<usize>)
    ensures
        r == parse_usize(s@),
{
    let start: usize = if s.len() > 0 && s[0] == '+' {
        1
    } else {
        0
    };
    let ghost d = usize_digits(s@);
    assert(d =~= s@.subrange(start as int, s@.len() as int));
    if start >= s.len() {
        return None;
    }
    let mut acc: usize = 0;
    let mut i: usize = start;
    while i < s.len()
        invariant
            start <= i <= s.len(),
            d == s@.subrange(start as int, s@.len() as int),
            d == usize_digits(s@),
            forall|k: int| start <= k < i ==> is_digit(#[trigger] s@[k]),
            acc as int == digits_value(d.take(i - start)),
        decreases s.len() - i,
    {
        let c = s[i];
        if !('0' <= c && c <= '9') {
            assert(!is_digit(d[i - start]));
            assert(!all_digits(d));
            return None;
        }
        let dv = (c as u32 - '0' as u32) as usize;
        assert(d.take(i - start + 1).drop_last() =~= d.take(i - start));
        assert(d.take(i - start + 1).last() == c);
        if acc > (usize::MAX - dv) / 10 {
            proof {
                assert(acc * 10 + dv > usize::MAX) by (nonlinear_arith)
                    requires
                        acc > (usize::MAX - dv) / 10,
                        dv <= 9,
                ;
                assert(digits_value(d.take(i - start + 1)) == acc * 10 + dv);
                if all_digits(d) {
                    lemma_digits_mono(d, i - start + 1);
                    assert(digits_value(d) > usize::MAX);
                }
            }
            return None;
        }
        proof {
            assert(acc * 10 + dv <= usize::MAX) by (nonlinear_arith)
                requires
                    acc <= (usize::MAX - dv) / 10,
                    dv <= 9,
            ;
        }
        acc = acc * 10 + dv;
        i = i + 1;
    }
    assert(d.take(d.len() as int) =~= d);
    Some(acc)
}

/// `s.parse::<usize>().ok()`.
pub fn parse_usize_str(s: &str) -> (r: Option<usize>)
    ensures
        r == parse_usize(s@),
{
    let v = chars_of(s);
    parse_usize_vec(&v)
}

/// The character sequences of a list of strings.
pub open spec fn strings_view(v: Seq<String>) -> Seq<Seq<char>> {
    Seq::new(v.len(), |i: int| v[i]@)
}

pub proof fn lemma_strings_view_push(v: Seq<String>, s: String)
    ensures
        strings_view(v.push(s)) == strings_view(v).push(s@),
{
    assert(strings_view(v.push(s)) =~= strings_view(v).push(s@));
}

/// `str::split` on a single character: the pieces between separators, empty
/// pieces included.
pub open spec fn split_on(s: Seq<char>, sep: char) -> Seq<Seq<char>>
    decreases s.len(),
{
    if s.len() == 0 {
        seq![Seq::empty()]
    } else {
        let prev = split_on(s.drop_last(), sep);
        if s.last() == sep {
            prev.push(Seq::empty())
        } else {
            prev.update(prev.len() - 1, prev.last().push(s.last()))
        }
    }
}

proof fn lemma_split_on_nonempty(s: Seq<char>, sep: char)
    ensures
        split_on(s, sep).len() >= 1,
    decreases s.len(),
{
    if s.len() > 0 {
        lemma_split_on_nonempty(s.drop_last(), sep);
    }
}

/// The pieces of `v` between the separators `sep`, in order.
pub fn split_vec(v: &[char], sep: char) -> (r: Vec<Vec<char>>)
    ensures
        r@.len() == split_on(v@, sep).len(),
        forall|i: int| 0 <= i < r@.len() ==> #[trigger] r@[i]@ == split_on(v@, sep)[i],
{
    let mut pieces: Vec<Vec<char>> = Vec::new();
    let mut cur: Vec<char> = Vec::new();
    let mut i: usize = 0;
    assert(v@.take(0) =~= Seq::<char>::empty());
    while i < v.len()
        invariant
            i <= v.len(),
            pieces@.len() + 1 == split_on(v@.take(i as int), sep).len(),
            forall|k: int| 0 <= k < pieces@.len() ==> #[trigger] pieces@[k]@ == split_on(v@.take(i as int), sep)[k],
            cur@ == split_on(v@.take(i as int), sep).last(),
        decreases v.len() - i,
    {
        proof {
            lemma_split_on_nonempty(v@.take(i as int), sep);
            assert(v@.take(i + 1).drop_last() =~= v@.take(i as int));
            assert(v@.take(i + 1).last() == v@[i as int]);
        }
        let c = v[i];
        if c == sep {
            let done = cur;
            pieces.push(done);
            cur = Vec::new();
        } else {
            cur.push(c);
        }
        i = i + 1;
    }
    assert(v@.take(v.len() as int) =~= v@);
    pieces.push(cur);
    pieces
}

} // verus!

verus! {

/// The decimal digits of `n`, most significant first, without leading zeros.
pub open spec fn decimal(n: nat) -> Seq<char>
    decreases n,
{
    if n < 10 {
        seq![(('0' as nat) + n) as char]
    } else {
        decimal(n / 10).push((('0' as nat) + n % 10) as char)
    }
}

/// `n.to_string()`: the decimal text of `n`.
pub fn decimal_text(n: u64) -> (r: String)
    ensures
        r@ == decimal(n as nat),
    decreases n,
{
    let d = ((n % 10) as u8 + 48u8) as char;
    if n < 10 {
        let mut s = String::new();
        push_char(&mut s, d);
        assert(s@ =~= decimal(n as nat));
        s
    } else {
        let mut s = decimal_text(n / 10);
        push_char(&mut s, d);
        s
    }
}

/// Equality of two lists of strings, by their characters.
pub fn strings_eq(a: &Vec<String>, b: &Vec<String>) -> (r: bool)
    ensures
        r == (strings_view(a@) == strings_view(b@)),
{
    if a.len() != b.len() {
        assert(strings_view(a@).len() != strings_view(b@).len());
        return false;
    }
    let mut i: usize = 0;
    while i < a.len()
        invariant
            a.len() == b.len(),
            i <= a.len(),
            forall|j: int| 0 <= j < i ==> a@[j]@ == b@[j]@,
        decreases a.len() - i,
    {
        if !str_eq(a[i].as_str(), b[i].as_str()) {
            assert(strings_view(a@)[i as int] != strings_view(b@)[i as int]);
            return false;
        }
        i = i + 1;
    }
    assert(strings_view(a@) =~= strings_view(b@));
    true
}

/// The characters of an optional string.
pub open spec fn opt_chars(o: Option<String>) -> Option<Seq<char>> {
    match o {
        Some(s) => Some(s@),
        None => None,
    }
}

/// Equality of two optional strings, by their characters.
pub fn opt_str_eq(a: &Option<String>, b: &Option<String>) -> (r: bool)
    ensures
        r == (opt_chars(*a) == opt_chars(*b)),
{
    match (a, b) {
        (Some(x), Some(y)) => str_eq(x.as_str(), y.as_str()),
        (None, None) => true,
        _ => false,
    }
}

/// The `Debug` text of an optional string, as `format!("{:?}", v)` writes it.
pub uninterp spec fn debug_option_str(v: Option<Seq<char>>) -> Seq<char>;

/// The `Debug` text of a list of strings, as `format!("{:?}", v)` writes it.
pub uninterp spec fn debug_str_list(v: Seq<Seq<char>>) -> Seq<char>;

/// `format!("{:?}", v)` on an optional string; only that the text is a
/// function of the value is claimed.
#[verifier::external_body]
pub(crate) fn debug_option_text(v: &Option<String>) -> (r: String)
    ensures
        r@ == debug_option_str(opt_chars(*v)),
{
    format!("{:?}", v)
}

/// `format!("{:?}", v)` on a list of strings; only that the text is a
/// function of the value is claimed.
#[verifier::external_body]
pub(crate) fn debug_list_text(v: &Vec<String>) -> (r: String)
    ensures
        r@ == debug_str_list(strings_view(v@)),
{
    format!("{:?}", v)
}

} // verus!
