//! What an HTTP answer reveals: security headers, technologies, the hosting
//! provider and the page title, and the list of probed services.
use vstd::prelude::*;
use crate::common::{HttpService, SecurityHeaders};
use crate::config::{utf8_len, utf8_width};
use crate::order::{seq_lt, sorted_distinct, sorted_unique, str_less};
use crate::text::{
    chars_of, contains, contains_lit, eq_ignore_case, find, find_vec, ieq, lemma_strings_view_push,
    lower, owned, str_eq, string_of, strings_view, to_lowercase, trim, trim_vec, unicode_lower,
};

verus! {

/// The response headers the analysis reads, as plain values: the text of
/// `x-powered-by` and `via` when present and readable, and which of the
/// other headers are present.
#[derive(Debug, Clone, Default)]
pub struct ResponseHeaders {
    pub x_powered_by: Option<String>,
    pub via: Option<String>,
    pub cf_cache_status: bool,
    pub strict_transport_security: bool,
    pub content_security_policy: bool,
    pub x_frame_options: bool,
    pub x_content_type_options: bool,
    pub referrer_policy: bool,
}

/// Which security headers the answer carries.
pub fn detect_security_headers(headers: &ResponseHeaders) -> (s: SecurityHeaders)
    ensures
        s.strict_transport_security == headers.strict_transport_security,
        s.content_security_policy == headers.content_security_policy,
        s.x_frame_options == headers.x_frame_options,
        s.x_content_type_options == headers.x_content_type_options,
        s.referrer_policy == headers.referrer_policy,
{
    SecurityHeaders {
        strict_transport_security: headers.strict_transport_security,
        content_security_policy: headers.content_security_policy,
        x_frame_options: headers.x_frame_options,
        x_content_type_options: headers.x_content_type_options,
        referrer_policy: headers.referrer_policy,
    }
}

/// `tag` when `cond` holds.
pub open spec fn when(cond: bool, tag: Seq<char>) -> Seq<Seq<char>> {
    if cond {
        seq![tag]
    } else {
        Seq::empty()
    }
}

pub open spec fn server_tags(acc: Seq<Seq<char>>, server: Option<Seq<char>>) -> Seq<Seq<char>> {
    match server {
        Some(s) => {
            let l = unicode_lower(s);
            acc + when(contains(l, "cloudflare"@), "cloudflare"@) + when(contains(l, "nginx"@), "nginx"@)
                + when(contains(l, "apache"@), "apache"@) + when(contains(l, "openresty"@), "openresty"@)
                + when(contains(l, "envoy"@), "envoy"@) + when(contains(l, "iis"@), "iis"@) + when(
                contains(l, "gws"@),
                "google-web-server"@,
            )
        },
        None => acc,
    }
}

pub open spec fn powered_by_tags(acc: Seq<Seq<char>>, x: Option<Seq<char>>) -> Seq<Seq<char>> {
    match x {
        Some(s) => {
            let l = unicode_lower(s);
            acc + when(contains(l, "php"@), "php"@) + when(contains(l, "express"@), "nodejs-express"@)
                + when(contains(l, "asp.net"@), "aspnet"@)
        },
        None => acc,
    }
}

pub open spec fn via_tags(acc: Seq<Seq<char>>, via: Option<Seq<char>>) -> Seq<Seq<char>> {
    match via {
        Some(s) => {
            let l = unicode_lower(s);
            acc + when(contains(l, "varnish"@), "varnish"@) + when(contains(l, "envoy"@), "envoy"@)
        },
        None => acc,
    }
}

pub open spec fn content_type_tags(acc: Seq<Seq<char>>, ct: Option<Seq<char>>) -> Seq<Seq<char>> {
    match ct {
        Some(s) => {
            let l = unicode_lower(s);
            acc + when(contains(l, "application/json"@), "json-api"@) + when(
                contains(l, "text/html"@),
                "html-app"@,
            )
        },
        None => acc,
    }
}

pub open spec fn title_tags(acc: Seq<Seq<char>>, title: Option<Seq<char>>) -> Seq<Seq<char>> {
    match title {
        Some(s) => {
            let l = unicode_lower(s);
            acc + when(contains(l, "admin"@), "admin-ui"@) + when(contains(l, "login"@), "login-portal"@)
                + when(contains(l, "dashboard"@), "dashboard"@)
        },
        None => acc,
    }
}

/// Every technology hint, in the order the rules look for them.
pub open spec fn technology_hints(
    headers: ResponseHeaders,
    server: Option<Seq<char>>,
    content_type: Option<Seq<char>>,
    title: Option<Seq<char>>,
) -> Seq<Seq<char>> {
    let a = server_tags(Seq::empty(), server);
    let b = powered_by_tags(a, crate::text::opt_chars(headers.x_powered_by));
    let c = via_tags(b, crate::text::opt_chars(headers.via));
    let d = c + when(headers.cf_cache_status, "cloudflare-cache"@);
    let e = content_type_tags(d, content_type);
    title_tags(e, title)
}

pub open spec fn opt_str(o: Option<&str>) -> Option<Seq<char>> {
    match o {
        Some(s) => Some(s@),
        None => None,
    }
}

/// Appends `tag` when `cond` holds.
fn push_when(v: &mut Vec<String>, cond: bool, tag: &str)
    ensures
        strings_view(final(v)@) == strings_view(old(v)@) + when(cond, tag@),
{
    if cond {
        let t = owned(tag);
        proof {
            lemma_strings_view_push(v@, t);
        }
        v.push(t);
        assert(strings_view(v@) =~= strings_view(old(v)@) + when(cond, tag@));
    } else {
        assert(strings_view(v@) =~= strings_view(old(v)@) + when(cond, tag@));
    }
}

/// The lowercased characters of a text.
fn lowered(s: &str) -> (r: Vec<char>)
    ensures
        r@ == unicode_lower(s@),
{
    let l = to_lowercase(s);
    chars_of(l.as_str())
}

/// The technologies that the server name, headers, content type and title
/// point to, sorted and without repeats.
pub fn detect_technologies(
    headers: &ResponseHeaders,
    server: Option<&str>,
    content_type: Option<&str>,
    title: Option<&str>,
) -> (r: Vec<String>)
    ensures
        strings_view(r@) == sorted_distinct(
            technology_hints(*headers, opt_str(server), opt_str(content_type), opt_str(title)),
        ),
{
    let mut tech: Vec<String> = Vec::new();
    assert(strings_view(tech@) =~= Seq::<Seq<char>>::empty());
    if let Some(s) = server {
        let l = lowered(s);
        push_when(&mut tech, contains_lit(&l, "cloudflare"), "cloudflare");
        push_when(&mut tech, contains_lit(&l, "nginx"), "nginx");
        push_when(&mut tech, contains_lit(&l, "apache"), "apache");
        push_when(&mut tech, contains_lit(&l, "openresty"), "openresty");
        push_when(&mut tech, contains_lit(&l, "envoy"), "envoy");
        push_when(&mut tech, contains_lit(&l, "iis"), "iis");
        push_when(&mut tech, contains_lit(&l, "gws"), "google-web-server");
    }
    assert(strings_view(tech@) == server_tags(Seq::empty(), opt_str(server)));
    let ghost a = strings_view(tech@);
    if let Some(x) = &headers.x_powered_by {
        let l = lowered(x.as_str());
        push_when(&mut tech, contains_lit(&l, "php"), "php");
        push_when(&mut tech, contains_lit(&l, "express"), "nodejs-express");
        push_when(&mut tech, contains_lit(&l, "asp.net"), "aspnet");
    }
    assert(strings_view(tech@) == powered_by_tags(a, crate::text::opt_chars(headers.x_powered_by)));
    let ghost b = strings_view(tech@);
    if let Some(v) = &headers.via {
        let l = lowered(v.as_str());
        push_when(&mut tech, contains_lit(&l, "varnish"), "varnish");
        push_when(&mut tech, contains_lit(&l, "envoy"), "envoy");
    }
    assert(strings_view(tech@) == via_tags(b, crate::text::opt_chars(headers.via)));
    push_when(&mut tech, headers.cf_cache_status, "cloudflare-cache");
    let ghost d = strings_view(tech@);
    if let Some(c) = content_type {
        let l = lowered(c);
        push_when(&mut tech, contains_lit(&l, "application/json"), "json-api");
        push_when(&mut tech, contains_lit(&l, "text/html"), "html-app");
    }
    assert(strings_view(tech@) == content_type_tags(d, opt_str(content_type)));
    let ghost e = strings_view(tech@);
    if let Some(t) = title {
        let l = lowered(t);
        push_when(&mut tech, contains_lit(&l, "admin"), "admin-ui");
        push_when(&mut tech, contains_lit(&l, "login"), "login-portal");
        push_when(&mut tech, contains_lit(&l, "dashboard"), "dashboard");
    }
    assert(strings_view(tech@) == title_tags(e, opt_str(title)));
    sorted_unique(&tech)
}

/// Spec of `detect_provider`: Cloudflare by its cache header or server name,
/// Google by the `gws` server.
pub open spec fn provider_of(headers: ResponseHeaders, server: Option<Seq<char>>) -> Option<Seq<char>> {
    if headers.cf_cache_status || (server is Some && contains(unicode_lower(server.unwrap()), "cloudflare"@)) {
        Some("Cloudflare"@)
    } else if server is Some && ieq(server.unwrap(), "gws"@) {
        Some("Google"@)
    } else {
        None
    }
}

/// The hosting provider that the headers and server name reveal.
pub fn detect_provider(headers: &ResponseHeaders, server: Option<&str>) -> (r: Option<String>)
    ensures
        crate::text::opt_chars(r) == provider_of(*headers, opt_str(server)),
{
    let cloudflare_server = match server {
        Some(s) => {
            let l = lowered(s);
            contains_lit(&l, "cloudflare")
        },
        None => false,
    };
    if headers.cf_cache_status || cloudflare_server {
        return Some(owned("Cloudflare"));
    }
    let google = match server {
        Some(s) => eq_ignore_case(s, "gws"),
        None => false,
    };
    if google {
        return Some(owned("Google"));
    }
    None
}

/// The character index at which `b` bytes of UTF-8 have been written, when
/// a character starts there.
pub open spec fn char_index_at(s: Seq<char>, b: int) -> Option<int> {
    if exists|i: int| 0 <= i <= s.len() && utf8_len(#[trigger] s.take(i)) == b {
        Some(choose|i: int| 0 <= i <= s.len() && utf8_len(#[trigger] s.take(i)) == b)
    } else {
        None
    }
}

/// Spec of `extract_title`: the trimmed text between the first `<title>` and
/// the first `</title>` of the lowercased body, cut from the body at the same
/// byte offsets; nothing when a tag is missing, the text would be empty, or
/// an offset does not fall between two characters of the body.
pub open spec fn title_of(body: Seq<char>, lowered: Seq<char>) -> Option<Seq<char>> {
    match (find(lowered, "<title>"@), find(lowered, "</title>"@)) {
        (Some(s), Some(e)) => {
            let from = utf8_len(lowered.take(s)) + 7;
            let to = utf8_len(lowered.take(e));
            if to <= from {
                None
            } else {
                match (char_index_at(body, from), char_index_at(body, to)) {
                    (Some(i), Some(j)) => {
                        let t = trim(body.subrange(i, j));
                        if t.len() == 0 {
                            None
                        } else {
                            Some(t)
                        }
                    },
                    _ => None,
                }
            }
        },
        _ => None,
    }
}

proof fn lemma_utf8_len_step(s: Seq<char>, i: int)
    requires
        0 <= i < s.len(),
    ensures
        utf8_len(s.take(i + 1)) == utf8_len(s.take(i)) + utf8_width(s[i]),
        utf8_width(s[i]) >= 1,
{
    assert(s.take(i + 1).drop_last() =~= s.take(i));
}

proof fn lemma_utf8_len_strict(s: Seq<char>, i: int, j: int)
    requires
        0 <= i < j <= s.len(),
    ensures
        utf8_len(s.take(i)) < utf8_len(s.take(j)),
    decreases j - i,
{
    lemma_utf8_len_step(s, j - 1);
    if i < j - 1 {
        lemma_utf8_len_strict(s, i, j - 1);
    }
}

/// The UTF-8 length of the first `k` characters.
fn utf8_prefix(v: &[char], k: usize) -> (r: u128)
    requires
        k <= v.len(),
    ensures
        r == utf8_len(v@.take(k as int)),
        r <= 4 * k,
{
    let mut total: u128 = 0;
    let mut i: usize = 0;
    assert(v@.take(0) =~= Seq::<char>::empty());
    while i < k
        invariant
            i <= k <= v.len(),
            total == utf8_len(v@.take(i as int)),
            total <= 4 * i,
        decreases k - i,
    {
        proof {
            lemma_utf8_len_step(v@, i as int);
        }
        let c = v[i] as u32;
        let w: u128 = if c < 0x80 {
            1
        } else if c < 0x800 {
            2
        } else if c < 0x10000 {
            3
        } else {
            4
        };
        total = total + w;
        i = i + 1;
    }
    total
}

/// The character index where `b` bytes have been written, if a character
/// starts there.
fn char_index_of_byte(v: &[char], b: u128) -> (r: Option<usize>)
    ensures
        r is Some <==> char_index_at(v@, b as int) is Some,
        r matches Some(i) ==> char_index_at(v@, b as int) == Some(i as int) && i <= v.len(),
{
    let mut total: u128 = 0;
    let mut i: usize = 0;
    assert(v@.take(0) =~= Seq::<char>::empty());
    loop
        invariant
            i <= v.len(),
            total == utf8_len(v@.take(i as int)),
            total <= 4 * i,
            forall|k: int| 0 <= k < i ==> utf8_len(#[trigger] v@.take(k)) != b,
        decreases v.len() - i,
    {
        if total == b {
            proof {
                let c = choose|k: int| 0 <= k <= v@.len() && utf8_len(#[trigger] v@.take(k)) == b as int;
                if c != i {
                    if c < i {
                    } else {
                        lemma_utf8_len_strict(v@, i as int, c);
                    }
                }
            }
            return Some(i);
        }
        if i == v.len() || total > b {
            proof {
                assert forall|k: int| 0 <= k <= v@.len() implies utf8_len(#[trigger] v@.take(k)) != b as int by {
                    if k > i {
                        lemma_utf8_len_strict(v@, i as int, k);
                    }
                }
            }
            return None;
        }
        proof {
            lemma_utf8_len_step(v@, i as int);
        }
        let c = v[i] as u32;
        let w: u128 = if c < 0x80 {
            1
        } else if c < 0x800 {
            2
        } else if c < 0x10000 {
            3
        } else {
            4
        };
        total = total + w;
        i = i + 1;
    }
}

/// The title of an HTML page (see `title_of`), given the page and its
/// lowercased text.
pub fn title_from_lowered(body: &str, lowered_body: &str) -> (r: Option<String>)
    ensures
        crate::text::opt_chars(r) == title_of(body@, lowered_body@),
{
    let b = chars_of(body);
    let l = chars_of(lowered_body);
    let open_tag = chars_of("<title>");
    let close_tag = chars_of("</title>");
    let s = match find_vec(&l, &open_tag) {
        Some(s) => s,
        None => {
            return None;
        },
    };
    let e = match find_vec(&l, &close_tag) {
        Some(e) => e,
        None => {
            return None;
        },
    };
    let from = utf8_prefix(&l, s);
    let to = utf8_prefix(&l, e);
    proof {
        reveal_strlit("<title>");
    }
    if to <= from + 7 {
        return None;
    }
    let from = from + 7;
    let i = match char_index_of_byte(&b, from) {
        Some(i) => i,
        None => {
            return None;
        },
    };
    let j = match char_index_of_byte(&b, to) {
        Some(j) => j,
        None => {
            return None;
        },
    };
    if j < i {
        proof {
            lemma_utf8_len_strict(b@, j as int, i as int);
        }
        return None;
    }
    let piece = crate::text::slice_vec(&b, i, j);
    let t = trim_vec(&piece);
    if t.len() == 0 {
        None
    } else {
        Some(string_of(&t))
    }
}

/// The title of an HTML page: the trimmed text of its `<title>` element.
pub fn extract_title(body: Option<&str>) -> (r: Option<String>)
    ensures
        crate::text::opt_chars(r) == match body {
            Some(b) => title_of(b@, unicode_lower(b@)),
            None => None,
        },
{
    match body {
        Some(b) => {
            let l = to_lowercase(b);
            title_from_lowered(b, l.as_str())
        },
        None => None,
    }
}

} // verus!

verus! {

/// The first service of `s` with URL `u`, if any.
pub open spec fn first_with_url(s: Seq<crate::common::ServiceV>, u: Seq<char>) -> Option<crate::common::ServiceV>
    decreases s.len(),
{
    if s.len() == 0 {
        None
    } else {
        match first_with_url(s.drop_last(), u) {
            Some(x) => Some(x),
            None => if s.last().url == u {
                Some(s.last())
            } else {
                None
            },
        }
    }
}

/// The URLs of a list of services, in order.
pub open spec fn service_urls(s: Seq<crate::common::ServiceV>) -> Seq<Seq<char>> {
    Seq::new(s.len(), |i: int| s[i].url)
}

proof fn lemma_first_with_url(s: Seq<crate::common::ServiceV>, u: Seq<char>)
    ensures
        first_with_url(s, u) is Some <==> service_urls(s).contains(u),
        first_with_url(s, u) matches Some(x) ==> x.url == u,
    decreases s.len(),
{
    if s.len() > 0 {
        let p = s.drop_last();
        lemma_first_with_url(p, u);
        if service_urls(s).contains(u) {
            let i = choose|i: int| 0 <= i < s.len() && service_urls(s)[i] == u;
            if i < p.len() {
                assert(service_urls(p)[i] == u);
            }
        }
        if service_urls(p).contains(u) {
            let i = choose|i: int| 0 <= i < p.len() && service_urls(p)[i] == u;
            assert(service_urls(s)[i] == u);
        }
        if s.last().url == u {
            assert(service_urls(s)[s.len() - 1] == u);
        }
    }
}

proof fn lemma_first_with_url_extend(s: Seq<crate::common::ServiceV>, u: Seq<char>, m: int)
    requires
        0 <= m <= s.len(),
        first_with_url(s.take(m), u) is Some,
    ensures
        first_with_url(s, u) == first_with_url(s.take(m), u),
    decreases s.len() - m,
{
    if m == s.len() {
        assert(s.take(m) =~= s);
    } else {
        assert(s.take(m + 1).drop_last() =~= s.take(m));
        lemma_first_with_url_extend(s, u, m + 1);
    }
}

/// The probed services, one per URL and ordered by URL: of services sharing
/// a URL, the first one probed (what a stable sort by URL followed by
/// removing repeats of a URL keeps).
pub fn unique_services_by_url(services: &Vec<HttpService>) -> (r: Vec<HttpService>)
    ensures
        crate::common::services_view(r@) == Seq::new(
            sorted_distinct(service_urls(crate::common::services_view(services@))).len(),
            |i: int|
                first_with_url(
                    crate::common::services_view(services@),
                    sorted_distinct(service_urls(crate::common::services_view(services@)))[i],
                )->Some_0,
        ),
{
    let ghost sv = crate::common::services_view(services@);
    let mut urls: Vec<String> = Vec::new();
    let mut i: usize = 0;
    while i < services.len()
        invariant
            i <= services@.len(),
            sv == crate::common::services_view(services@),
            crate::text::strings_view(urls@) == service_urls(sv).take(i as int),
        decreases services.len() - i,
    {
        let ghost before = urls@;
        let u = services[i].url.clone();
        urls.push(u);
        proof {
            crate::text::lemma_strings_view_push(before, u);
        }
        assert(crate::text::strings_view(urls@) =~= service_urls(sv).take(i + 1));
        i = i + 1;
    }
    assert(service_urls(sv).take(services.len() as int) =~= service_urls(sv));
    let keys = sorted_unique(&urls);
    let ghost ks = crate::text::strings_view(keys@);
    let ghost want = Seq::new(ks.len(), |i: int| first_with_url(sv, ks[i])->Some_0);
    let mut out: Vec<HttpService> = Vec::new();
    let mut k: usize = 0;
    while k < keys.len()
        invariant
            k <= keys@.len(),
            sv == crate::common::services_view(services@),
            ks == crate::text::strings_view(keys@),
            ks == sorted_distinct(service_urls(sv)),
            forall|x: Seq<char>| ks.contains(x) <==> service_urls(sv).contains(x),
            want == Seq::new(ks.len(), |i: int| first_with_url(sv, ks[i])->Some_0),
            crate::common::services_view(out@) == want.take(k as int),
        decreases keys.len() - k,
    {
        assert(ks[k as int] == keys@[k as int]@);
        assert(ks.contains(ks[k as int]));
        proof {
            lemma_first_with_url(sv, ks[k as int]);
        }
        let mut j: usize = 0;
        assert(sv.take(0) =~= Seq::<crate::common::ServiceV>::empty());
        loop
            invariant
                j <= services@.len(),
                sv == crate::common::services_view(services@),
                first_with_url(sv.take(j as int), ks[k as int]) is None,
                first_with_url(sv, ks[k as int]) is Some,
                k < ks.len(),
                ks == crate::text::strings_view(keys@),
            ensures
                j < services@.len(),
                sv[j as int].url == ks[k as int],
                first_with_url(sv.take(j as int), ks[k as int]) is None,
            decreases services.len() - j,
        {
            if j >= services.len() {
                assert(sv.take(j as int) =~= sv);
                break;
            }
            assert(sv.take(j + 1).drop_last() =~= sv.take(j as int));
            assert(sv[j as int] == services@[j as int]@);
            assert(ks[k as int] == keys@[k as int]@);
            if str_eq(services[j].url.as_str(), keys[k].as_str()) {
                break;
            }
            j = j + 1;
        }
        proof {
            assert(sv.take(j + 1).drop_last() =~= sv.take(j as int));
            assert(sv.take(j + 1).last() == sv[j as int]);
            lemma_first_with_url_extend(sv, ks[k as int], j + 1);
        }
        let d = services[j].duplicate();
        let ghost before = out@;
        out.push(d);
        assert(crate::common::services_view(out@) =~= crate::common::services_view(before).push(d@));
        assert(crate::common::services_view(out@) =~= want.take(k + 1));
        k = k + 1;
    }
    assert(want.take(keys.len() as int) =~= want);
    out
}

} // verus!
