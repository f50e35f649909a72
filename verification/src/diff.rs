//! Snapshots of a scan and the difference between two of them. Times are
//! Unix timestamps in seconds.
use vstd::prelude::*;
use crate::common::{HttpService, ScanResult, SecurityHeaders, ServiceV, services_view};
use crate::order::{
    lemma_insert_pos_lt_first, lemma_sorted_subset_len, lemma_sort_by_lt_len, lemma_sort_by_lt_step, seq_lt, sort_by_lt,
    sorted_distinct, sorted_unique, str_less, strictly_sorted,
};
use crate::text::{
    contains_string, lemma_strings_view_push, opt_chars, opt_str_eq, str_eq, strings_eq,
    strings_view,
};

verus! {

/// The version written into new snapshots.
pub const CURRENT_SNAPSHOT_VERSION: u32 = 2;

/// A scan result taken at a point in time.
#[derive(Debug, Clone)]
pub struct Snapshot {
    pub snapshot_version: u32,
    pub timestamp: i64,
    pub target: String,
    pub scan: ScanResult,
}

impl Snapshot {
    /// A snapshot of `scan` taken at `timestamp`, under the current version and
    /// the scan's own target.
    pub fn taken_at(scan: ScanResult, timestamp: i64) -> (s: Snapshot)
        ensures
            s.snapshot_version == CURRENT_SNAPSHOT_VERSION,
            s.timestamp == timestamp,
            s.target@ == scan.target@,
            s.scan == scan,
    {
        let target = scan.target.clone();
        Snapshot { snapshot_version: CURRENT_SNAPSHOT_VERSION, timestamp, target, scan }
    }
}

/// How many snapshot files a migration looked at and rewrote.
#[derive(Debug, Clone, Copy)]
pub struct MigrationReport {
    pub scanned_files: usize,
    pub migrated_files: usize,
}

/// A service present in both snapshots whose answer changed.
#[derive(Debug, Clone)]
pub struct ServiceChange {
    pub host: String,
    pub url: String,
    pub scheme: String,
    pub before_status: u16,
    pub after_status: u16,
    pub before_server: Option<String>,
    pub after_server: Option<String>,
    pub before_provider: Option<String>,
    pub after_provider: Option<String>,
    pub before_technologies: Vec<String>,
    pub after_technologies: Vec<String>,
    pub before_security_headers: SecurityHeaders,
    pub after_security_headers: SecurityHeaders,
}

/// What appeared, disappeared and changed between an older and a newer snapshot.
#[derive(Debug, Clone)]
pub struct DiffReport {
    pub target: String,
    pub older_timestamp: i64,
    pub newer_timestamp: i64,
    pub new_ips: Vec<String>,
    pub removed_ips: Vec<String>,
    pub new_subdomains: Vec<String>,
    pub removed_subdomains: Vec<String>,
    pub new_services: Vec<HttpService>,
    pub removed_services: Vec<HttpService>,
    pub changed_services: Vec<ServiceChange>,
}

impl DiffReport {
    /// Whether any list of the report is non-empty.
    pub fn has_changes(&self) -> (r: bool)
        ensures
            r == !(self.new_ips@.len() == 0 && self.removed_ips@.len() == 0
                && self.new_subdomains@.len() == 0 && self.removed_subdomains@.len() == 0
                && self.new_services@.len() == 0 && self.removed_services@.len() == 0
                && self.changed_services@.len() == 0),
    {
        !(self.new_ips.len() == 0 && self.removed_ips.len() == 0 && self.new_subdomains.len() == 0
            && self.removed_subdomains.len() == 0 && self.new_services.len() == 0
            && self.removed_services.len() == 0 && self.changed_services.len() == 0)
    }
}

/// The abstract value of a service change.
pub struct ChangeV {
    pub host: Seq<char>,
    pub url: Seq<char>,
    pub scheme: Seq<char>,
    pub before_status: u16,
    pub after_status: u16,
    pub before_server: Option<Seq<char>>,
    pub after_server: Option<Seq<char>>,
    pub before_provider: Option<Seq<char>>,
    pub after_provider: Option<Seq<char>>,
    pub before_technologies: Seq<Seq<char>>,
    pub after_technologies: Seq<Seq<char>>,
    pub before_security_headers: SecurityHeaders,
    pub after_security_headers: SecurityHeaders,
}

impl View for ServiceChange {
    type V = ChangeV;

    open spec fn view(&self) -> ChangeV {
        ChangeV {
            host: self.host@,
            url: self.url@,
            scheme: self.scheme@,
            before_status: self.before_status,
            after_status: self.after_status,
            before_server: opt_chars(self.before_server),
            after_server: opt_chars(self.after_server),
            before_provider: opt_chars(self.before_provider),
            after_provider: opt_chars(self.after_provider),
            before_technologies: strings_view(self.before_technologies@),
            after_technologies: strings_view(self.after_technologies@),
            before_security_headers: self.before_security_headers,
            after_security_headers: self.after_security_headers,
        }
    }
}

pub open spec fn changes_view(v: Seq<ServiceChange>) -> Seq<ChangeV> {
    Seq::new(v.len(), |i: int| v[i]@)
}

/// Two services share the key a diff matches them by: host, URL and scheme.
pub open spec fn same_key(a: ServiceV, b: ServiceV) -> bool {
    a.host == b.host && a.url == b.url && a.scheme == b.scheme
}

/// No later service of `s` has the key of `s[i]`: it is the one that a map
/// keyed by services keeps.
pub open spec fn is_last(s: Seq<ServiceV>, i: int) -> bool {
    forall|j: int| i < j < s.len() ==> !same_key(#[trigger] s[j], s[i])
}

/// The last service of `s` with the key of `x`.
pub open spec fn last_with(s: Seq<ServiceV>, x: ServiceV) -> Option<ServiceV>
    decreases s.len(),
{
    if s.len() == 0 {
        None
    } else if same_key(s.last(), x) {
        Some(s.last())
    } else {
        last_with(s.drop_last(), x)
    }
}

/// Whether a service's answer changed: status, server, provider,
/// technologies or any security header.
pub open spec fn services_differ(o: ServiceV, n: ServiceV) -> bool {
    o.status != n.status || o.server != n.server || o.provider != n.provider || o.technologies
        != n.technologies || o.security_headers != n.security_headers
}

/// The change from `o` to `n`, under the key of `n`.
pub open spec fn change_of(o: ServiceV, n: ServiceV) -> ChangeV {
    ChangeV {
        host: n.host,
        url: n.url,
        scheme: n.scheme,
        before_status: o.status,
        after_status: n.status,
        before_server: o.server,
        after_server: n.server,
        before_provider: o.provider,
        after_provider: n.provider,
        before_technologies: o.technologies,
        after_technologies: n.technologies,
        before_security_headers: o.security_headers,
        after_security_headers: n.security_headers,
    }
}

/// Among the first `k` services of `new`, one per key, those whose key
/// `old` lacks.
pub open spec fn added_upto(old: Seq<ServiceV>, new: Seq<ServiceV>, k: int) -> Seq<ServiceV>
    decreases k,
{
    if k <= 0 {
        Seq::empty()
    } else {
        let acc = added_upto(old, new, k - 1);
        if is_last(new, k - 1) && last_with(old, new[k - 1]) is None {
            acc.push(new[k - 1])
        } else {
            acc
        }
    }
}

/// Among the first `k` services of `old`, one per key, those whose key
/// `new` lacks.
pub open spec fn removed_upto(old: Seq<ServiceV>, new: Seq<ServiceV>, k: int) -> Seq<ServiceV>
    decreases k,
{
    if k <= 0 {
        Seq::empty()
    } else {
        let acc = removed_upto(old, new, k - 1);
        if is_last(old, k - 1) && last_with(new, old[k - 1]) is None {
            acc.push(old[k - 1])
        } else {
            acc
        }
    }
}

/// Among the first `k` services of `new`, one per key, the changes from the
/// service of `old` with the same key, where the answer differs.
pub open spec fn changed_upto(old: Seq<ServiceV>, new: Seq<ServiceV>, k: int) -> Seq<ChangeV>
    decreases k,
{
    if k <= 0 {
        Seq::empty()
    } else {
        let acc = changed_upto(old, new, k - 1);
        if is_last(new, k - 1) {
            match last_with(old, new[k - 1]) {
                Some(o) => if services_differ(o, new[k - 1]) {
                    acc.push(change_of(o, new[k - 1]))
                } else {
                    acc
                },
                None => acc,
            }
        } else {
            acc
        }
    }
}

/// Ordered by URL, then host, then scheme.
pub open spec fn key_before(au: Seq<char>, ah: Seq<char>, a_s: Seq<char>, bu: Seq<char>, bh: Seq<char>, b_s: Seq<char>) -> bool {
    seq_lt(au, bu) || (au == bu && (seq_lt(ah, bh) || (ah == bh && seq_lt(a_s, b_s))))
}

pub open spec fn service_order() -> spec_fn(ServiceV, ServiceV) -> bool {
    |a: ServiceV, b: ServiceV| key_before(a.url, a.host, a.scheme, b.url, b.host, b.scheme)
}

pub open spec fn change_order() -> spec_fn(ChangeV, ChangeV) -> bool {
    |a: ChangeV, b: ChangeV| key_before(a.url, a.host, a.scheme, b.url, b.host, b.scheme)
}

/// Among the first `k` texts of `a`, those that `b` lacks.
pub open spec fn absent_upto(a: Seq<Seq<char>>, b: Seq<Seq<char>>, k: int) -> Seq<Seq<char>>
    decreases k,
{
    if k <= 0 {
        Seq::empty()
    } else {
        let acc = absent_upto(a, b, k - 1);
        if b.contains(a[k - 1]) {
            acc
        } else {
            acc.push(a[k - 1])
        }
    }
}

/// The distinct texts of `a` that `b` lacks, sorted: a set difference.
pub open spec fn set_minus(a: Seq<Seq<char>>, b: Seq<Seq<char>>) -> Seq<Seq<char>> {
    sorted_distinct(absent_upto(a, b, a.len() as int))
}

fn absent_from(a: &Vec<String>, b: &Vec<String>) -> (r: Vec<String>)
    ensures
        strings_view(r@) == absent_upto(strings_view(a@), strings_view(b@), a@.len() as int),
{
    let ghost av = strings_view(a@);
    let ghost bv = strings_view(b@);
    let mut r: Vec<String> = Vec::new();
    let mut i: usize = 0;
    while i < a.len()
        invariant
            i <= a@.len(),
            av == strings_view(a@),
            bv == strings_view(b@),
            strings_view(r@) == absent_upto(av, bv, i as int),
        decreases a.len() - i,
    {
        let present = contains_string(b, a[i].as_str());
        assert(av[i as int] == a@[i as int]@);
        if present {
            assert(bv[choose|j: int| 0 <= j < b@.len() && b@[j]@ == a@[i as int]@] == a@[i as int]@);
        } else {
            assert forall|j: int| 0 <= j < bv.len() implies bv[j] != av[i as int] by {
                assert(bv[j] == b@[j]@);
            }
        }
        if !present {
            let ghost before = r@;
            r.push(a[i].clone());
            proof {
                lemma_strings_view_push(before, a@[i as int]);
            }
        }
        i = i + 1;
    }
    r
}

/// The distinct texts of `a` that `b` lacks, sorted.
fn difference(a: &Vec<String>, b: &Vec<String>) -> (r: Vec<String>)
    ensures
        strings_view(r@) == set_minus(strings_view(a@), strings_view(b@)),
        r@.len() <= a@.len(),
{
    let kept = absent_from(a, b);
    let r = sorted_unique(&kept);
    proof {
        lemma_absent_len(strings_view(a@), strings_view(b@), a@.len() as int);
        lemma_sorted_subset_len(strings_view(r@), strings_view(kept@));
    }
    r
}

fn key_equal(a: &HttpService, b: &HttpService) -> (r: bool)
    ensures
        r == same_key(a@, b@),
{
    str_eq(a.host.as_str(), b.host.as_str()) && str_eq(a.url.as_str(), b.url.as_str()) && str_eq(
        a.scheme.as_str(),
        b.scheme.as_str(),
    )
}

/// The position of the last service of `s` with the key of `x`.
fn find_last(s: &Vec<HttpService>, x: &HttpService) -> (r: Option<usize>)
    ensures
        r is Some <==> last_with(services_view(s@), x@) is Some,
        r matches Some(j) ==> j < s@.len() && last_with(services_view(s@), x@) == Some(s@[j as int]@),
{
    let ghost sv = services_view(s@);
    let mut j: usize = s.len();
    assert(sv.take(j as int) =~= sv);
    while j > 0
        invariant
            j <= s@.len(),
            sv == services_view(s@),
            last_with(sv, x@) == last_with(sv.take(j as int), x@),
        decreases j,
    {
        assert(sv.take(j as int).last() == s@[j - 1]@);
        assert(sv.take(j as int).drop_last() =~= sv.take(j - 1));
        if key_equal(&s[j - 1], x) {
            return Some(j - 1);
        }
        j = j - 1;
    }
    None
}

fn is_last_exec(s: &Vec<HttpService>, i: usize) -> (r: bool)
    requires
        i < s@.len(),
    ensures
        r == is_last(services_view(s@), i as int),
{
    let ghost sv = services_view(s@);
    let n = s.len();
    let mut j: usize = i + 1;
    while j < s.len()
        invariant
            i < j <= s@.len(),
            sv == services_view(s@),
            forall|k: int| i < k < j ==> !same_key(#[trigger] sv[k], sv[i as int]),
        decreases s.len() - j,
    {
        assert(sv[j as int] == s@[j as int]@ && sv[i as int] == s@[i as int]@);
        if key_equal(&s[j], &s[i]) {
            return false;
        }
        j = j + 1;
    }
    true
}

fn differs(o: &HttpService, n: &HttpService) -> (r: bool)
    ensures
        r == services_differ(o@, n@),
{
    o.status != n.status || !opt_str_eq(&o.server, &n.server) || !opt_str_eq(&o.provider, &n.provider)
        || !strings_eq(&o.technologies, &n.technologies) || o.security_headers.strict_transport_security
        != n.security_headers.strict_transport_security
        || o.security_headers.content_security_policy != n.security_headers.content_security_policy
        || o.security_headers.x_frame_options != n.security_headers.x_frame_options
        || o.security_headers.x_content_type_options != n.security_headers.x_content_type_options
        || o.security_headers.referrer_policy != n.security_headers.referrer_policy
}

fn change_between(o: &HttpService, n: &HttpService) -> (r: ServiceChange)
    ensures
        r@ == change_of(o@, n@),
{
    let a = o.duplicate();
    let b = n.duplicate();
    ServiceChange {
        host: b.host,
        url: b.url,
        scheme: b.scheme,
        before_status: a.status,
        after_status: b.status,
        before_server: a.server,
        after_server: b.server,
        before_provider: a.provider,
        after_provider: b.provider,
        before_technologies: a.technologies,
        after_technologies: b.technologies,
        before_security_headers: a.security_headers,
        after_security_headers: b.security_headers,
    }
}

fn key_less(au: &str, ah: &str, a_s: &str, bu: &str, bh: &str, b_s: &str) -> (r: bool)
    ensures
        r == key_before(au@, ah@, a_s@, bu@, bh@, b_s@),
{
    str_less(au, bu) || (str_eq(au, bu) && (str_less(ah, bh) || (str_eq(ah, bh) && str_less(a_s, b_s))))
}

/// Services sorted by URL, then host, then scheme.
fn sort_services(v: Vec<HttpService>) -> (r: Vec<HttpService>)
    ensures
        services_view(r@) == sort_by_lt(services_view(v@), service_order()),
{
    let ghost sv = services_view(v@);
    let ghost lt = service_order();
    let mut rest = v;
    let mut out: Vec<HttpService> = Vec::new();
    let mut i: usize = 0;
    let n = rest.len();
    assert(sv.take(0) =~= Seq::<ServiceV>::empty());
    while rest.len() > 0
        invariant
            n == sv.len(),
            lt == service_order(),
            i + rest@.len() == n,
            out@.len() == i,
            services_view(rest@) == sv.skip(i as int),
            services_view(out@) == sort_by_lt(sv.take(i as int), lt),
        decreases rest.len(),
    {
        let ghost old_rest = rest@;
        let x = rest.remove(0);
        assert forall|j: int| 0 <= j < rest@.len() implies #[trigger] services_view(rest@)[j] == sv.skip(i + 1)[j] by {
            assert(rest@[j] == old_rest[j + 1]);
            assert(services_view(old_rest)[j + 1] == sv.skip(i as int)[j + 1]);
        }
        assert(sv[i as int] == x@) by {
            assert(sv.skip(i as int)[0] == sv[i as int]);
        }
        let ghost sorted = services_view(out@);
        let mut k: usize = 0;
        loop
            invariant
                k <= out.len(),
                sorted == services_view(out@),
                lt == service_order(),
                forall|j: int| 0 <= j < k ==> !lt(x@, #[trigger] sorted[j]),
            ensures
                k <= out.len(),
                forall|j: int| 0 <= j < k ==> !lt(x@, #[trigger] sorted[j]),
                k < out.len() ==> lt(x@, sorted[k as int]),
            decreases out.len() - k,
        {
            if k >= out.len() {
                break;
            }
            assert(sorted[k as int] == out@[k as int]@);
            if key_less(x.url.as_str(), x.host.as_str(), x.scheme.as_str(), out[k].url.as_str(), out[k].host.as_str(), out[k].scheme.as_str()) {
                break;
            }
            k = k + 1;
        }
        proof {
            lemma_insert_pos_lt_first(sorted, x@, lt, k as int);
            lemma_sort_by_lt_step(sv, i as int, lt);
        }
        out.insert(k, x);
        assert(services_view(out@) =~= sorted.insert(k as int, x@));
        assert(services_view(rest@) =~= sv.skip(i + 1));
        i = i + 1;
    }
    assert(sv.take(n as int) =~= sv);
    out
}

/// Changes sorted by URL, then host, then scheme.
fn sort_changes(v: Vec<ServiceChange>) -> (r: Vec<ServiceChange>)
    ensures
        changes_view(r@) == sort_by_lt(changes_view(v@), change_order()),
{
    let ghost sv = changes_view(v@);
    let ghost lt = change_order();
    let mut rest = v;
    let mut out: Vec<ServiceChange> = Vec::new();
    let mut i: usize = 0;
    let n = rest.len();
    assert(sv.take(0) =~= Seq::<ChangeV>::empty());
    while rest.len() > 0
        invariant
            n == sv.len(),
            lt == change_order(),
            i + rest@.len() == n,
            out@.len() == i,
            changes_view(rest@) == sv.skip(i as int),
            changes_view(out@) == sort_by_lt(sv.take(i as int), lt),
        decreases rest.len(),
    {
        let ghost old_rest = rest@;
        let x = rest.remove(0);
        assert forall|j: int| 0 <= j < rest@.len() implies #[trigger] changes_view(rest@)[j] == sv.skip(i + 1)[j] by {
            assert(rest@[j] == old_rest[j + 1]);
            assert(changes_view(old_rest)[j + 1] == sv.skip(i as int)[j + 1]);
        }
        assert(sv[i as int] == x@) by {
            assert(sv.skip(i as int)[0] == sv[i as int]);
        }
        let ghost sorted = changes_view(out@);
        let mut k: usize = 0;
        loop
            invariant
                k <= out.len(),
                sorted == changes_view(out@),
                lt == change_order(),
                forall|j: int| 0 <= j < k ==> !lt(x@, #[trigger] sorted[j]),
            ensures
                k <= out.len(),
                forall|j: int| 0 <= j < k ==> !lt(x@, #[trigger] sorted[j]),
                k < out.len() ==> lt(x@, sorted[k as int]),
            decreases out.len() - k,
        {
            if k >= out.len() {
                break;
            }
            assert(sorted[k as int] == out@[k as int]@);
            if key_less(x.url.as_str(), x.host.as_str(), x.scheme.as_str(), out[k].url.as_str(), out[k].host.as_str(), out[k].scheme.as_str()) {
                break;
            }
            k = k + 1;
        }
        proof {
            lemma_insert_pos_lt_first(sorted, x@, lt, k as int);
            lemma_sort_by_lt_step(sv, i as int, lt);
        }
        out.insert(k, x);
        assert(changes_view(out@) =~= sorted.insert(k as int, x@));
        assert(changes_view(rest@) =~= sv.skip(i + 1));
        i = i + 1;
    }
    assert(sv.take(n as int) =~= sv);
    out
}

/// `diff_snapshots`: addresses and subdomains that appeared or disappeared
/// (distinct, sorted), and services matched by host, URL and scheme (the
/// last of each key counting) that appeared, disappeared or changed their
/// answer, each list sorted by URL, then host, then scheme.
pub fn diff_snapshots(older: &Snapshot, newer: &Snapshot) -> (r: DiffReport)
    ensures
        r.target@ == newer.scan.target@,
        r.older_timestamp == older.timestamp,
        r.newer_timestamp == newer.timestamp,
        strings_view(r.new_ips@) == set_minus(strings_view(newer.scan.resolved_ips@), strings_view(older.scan.resolved_ips@)),
        strings_view(r.removed_ips@) == set_minus(strings_view(older.scan.resolved_ips@), strings_view(newer.scan.resolved_ips@)),
        strings_view(r.new_subdomains@) == set_minus(strings_view(newer.scan.subdomains@), strings_view(older.scan.subdomains@)),
        strings_view(r.removed_subdomains@) == set_minus(strings_view(older.scan.subdomains@), strings_view(newer.scan.subdomains@)),
        services_view(r.new_services@) == sort_by_lt(
            added_upto(services_view(older.scan.services@), services_view(newer.scan.services@), newer.scan.services@.len() as int),
            service_order(),
        ),
        services_view(r.removed_services@) == sort_by_lt(
            removed_upto(services_view(older.scan.services@), services_view(newer.scan.services@), older.scan.services@.len() as int),
            service_order(),
        ),
        changes_view(r.changed_services@) == sort_by_lt(
            changed_upto(services_view(older.scan.services@), services_view(newer.scan.services@), newer.scan.services@.len() as int),
            change_order(),
        ),
        r@ == diff_view(*older, *newer),
        r.new_ips@.len() <= newer.scan.resolved_ips@.len(),
        r.removed_ips@.len() <= older.scan.resolved_ips@.len(),
        r.new_subdomains@.len() <= newer.scan.subdomains@.len(),
        r.removed_subdomains@.len() <= older.scan.subdomains@.len(),
        r.new_services@.len() + r.changed_services@.len() <= newer.scan.services@.len(),
        r.removed_services@.len() <= older.scan.services@.len(),
{
    let olds = &older.scan.services;
    let news = &newer.scan.services;
    let ghost ov = services_view(olds@);
    let ghost nv = services_view(news@);
    let mut added: Vec<HttpService> = Vec::new();
    let mut changed: Vec<ServiceChange> = Vec::new();
    let mut i: usize = 0;
    while i < news.len()
        invariant
            i <= news@.len(),
            ov == services_view(olds@),
            nv == services_view(news@),
            services_view(added@) == added_upto(ov, nv, i as int),
            changes_view(changed@) == changed_upto(ov, nv, i as int),
        decreases news.len() - i,
    {
        assert(nv[i as int] == news@[i as int]@);
        if is_last_exec(news, i) {
            match find_last(olds, &news[i]) {
                None => {
                    let ghost before = added@;
                    added.push(news[i].duplicate());
                    assert(services_view(added@) =~= services_view(before).push(nv[i as int]));
                },
                Some(j) => {
                    if differs(&olds[j], &news[i]) {
                        let c = change_between(&olds[j], &news[i]);
                        let ghost before = changed@;
                        changed.push(c);
                        assert(changes_view(changed@) =~= changes_view(before).push(c@));
                    }
                },
            }
        }
        i = i + 1;
    }
    let mut removed: Vec<HttpService> = Vec::new();
    let mut i: usize = 0;
    while i < olds.len()
        invariant
            i <= olds@.len(),
            ov == services_view(olds@),
            nv == services_view(news@),
            services_view(removed@) == removed_upto(ov, nv, i as int),
        decreases olds.len() - i,
    {
        assert(ov[i as int] == olds@[i as int]@);
        if is_last_exec(olds, i) && find_last(news, &olds[i]).is_none() {
            let ghost before = removed@;
            removed.push(olds[i].duplicate());
            assert(services_view(removed@) =~= services_view(before).push(ov[i as int]));
        }
        i = i + 1;
    }
    proof {
        lemma_service_parts_len(ov, nv, nv.len() as int);
        lemma_service_parts_len(ov, nv, ov.len() as int);
        lemma_sort_by_lt_len(services_view(added@), service_order());
        lemma_sort_by_lt_len(services_view(removed@), service_order());
        lemma_sort_by_lt_len(changes_view(changed@), change_order());
    }
    let r = DiffReport {
        target: newer.scan.target.clone(),
        older_timestamp: older.timestamp,
        newer_timestamp: newer.timestamp,
        new_ips: difference(&newer.scan.resolved_ips, &older.scan.resolved_ips),
        removed_ips: difference(&older.scan.resolved_ips, &newer.scan.resolved_ips),
        new_subdomains: difference(&newer.scan.subdomains, &older.scan.subdomains),
        removed_subdomains: difference(&older.scan.subdomains, &newer.scan.subdomains),
        new_services: sort_services(added),
        removed_services: sort_services(removed),
        changed_services: sort_changes(changed),
    };
    assert(r@ =~~= diff_view(*older, *newer));
    r
}

/// The abstract value of a diff report.
pub struct DiffV {
    pub target: Seq<char>,
    pub older_timestamp: i64,
    pub newer_timestamp: i64,
    pub new_ips: Seq<Seq<char>>,
    pub removed_ips: Seq<Seq<char>>,
    pub new_subdomains: Seq<Seq<char>>,
    pub removed_subdomains: Seq<Seq<char>>,
    pub new_services: Seq<ServiceV>,
    pub removed_services: Seq<ServiceV>,
    pub changed_services: Seq<ChangeV>,
}

impl View for DiffReport {
    type V = DiffV;

    open spec fn view(&self) -> DiffV {
        DiffV {
            target: self.target@,
            older_timestamp: self.older_timestamp,
            newer_timestamp: self.newer_timestamp,
            new_ips: strings_view(self.new_ips@),
            removed_ips: strings_view(self.removed_ips@),
            new_subdomains: strings_view(self.new_subdomains@),
            removed_subdomains: strings_view(self.removed_subdomains@),
            new_services: services_view(self.new_services@),
            removed_services: services_view(self.removed_services@),
            changed_services: changes_view(self.changed_services@),
        }
    }
}

/// What `diff_snapshots` gives for two snapshots.
pub open spec fn diff_view(older: Snapshot, newer: Snapshot) -> DiffV {
    let ov = services_view(older.scan.services@);
    let nv = services_view(newer.scan.services@);
    DiffV {
        target: newer.scan.target@,
        older_timestamp: older.timestamp,
        newer_timestamp: newer.timestamp,
        new_ips: set_minus(strings_view(newer.scan.resolved_ips@), strings_view(older.scan.resolved_ips@)),
        removed_ips: set_minus(strings_view(older.scan.resolved_ips@), strings_view(newer.scan.resolved_ips@)),
        new_subdomains: set_minus(strings_view(newer.scan.subdomains@), strings_view(older.scan.subdomains@)),
        removed_subdomains: set_minus(strings_view(older.scan.subdomains@), strings_view(newer.scan.subdomains@)),
        new_services: sort_by_lt(added_upto(ov, nv, nv.len() as int), service_order()),
        removed_services: sort_by_lt(removed_upto(ov, nv, ov.len() as int), service_order()),
        changed_services: sort_by_lt(changed_upto(ov, nv, nv.len() as int), change_order()),
    }
}

/// How many entries a snapshot holds, each service counted three times: a
/// bound on the findings it can take part in.
pub open spec fn snapshot_size(s: Snapshot) -> nat {
    s.scan.resolved_ips@.len() + s.scan.subdomains@.len() + 3 * s.scan.services@.len()
}

proof fn lemma_absent_len(a: Seq<Seq<char>>, b: Seq<Seq<char>>, k: int)
    requires
        0 <= k <= a.len(),
    ensures
        absent_upto(a, b, k).len() <= k,
        forall|x: Seq<char>| absent_upto(a, b, k).contains(x) ==> a.contains(x),
    decreases k,
{
    if k > 0 {
        lemma_absent_len(a, b, k - 1);
        let acc = absent_upto(a, b, k - 1);
        if !b.contains(a[k - 1]) {
            assert forall|x: Seq<char>| acc.push(a[k - 1]).contains(x) implies a.contains(x) by {
                let pushed = acc.push(a[k - 1]);
                if x != a[k - 1] {
                    let j = choose|j: int| 0 <= j < pushed.len() && #[trigger] pushed[j] == x;
                    assert(acc.contains(x)) by {
                        assert(acc[j] == x);
                    }
                } else {
                    assert(a[k - 1] == x);
                }
            }
        }
    }
}

proof fn lemma_service_parts_len(old: Seq<ServiceV>, new: Seq<ServiceV>, k: int)
    requires
        0 <= k,
    ensures
        added_upto(old, new, k).len() + changed_upto(old, new, k).len() <= k,
        removed_upto(old, new, k).len() <= k,
    decreases k,
{
    if k > 0 {
        lemma_service_parts_len(old, new, k - 1);
    }
}

} // verus!

verus! {

proof fn lemma_absent_self(a: Seq<Seq<char>>, k: int)
    requires
        0 <= k <= a.len(),
    ensures
        absent_upto(a, a, k) == Seq::<Seq<char>>::empty(),
    decreases k,
{
    if k > 0 {
        lemma_absent_self(a, k - 1);
        assert(a[k - 1] == a[k - 1]);
        assert(a.contains(a[k - 1]));
    }
}

proof fn lemma_set_minus_self(a: Seq<Seq<char>>)
    ensures
        set_minus(a, a) == Seq::<Seq<char>>::empty(),
{
    lemma_absent_self(a, a.len() as int);
    let e = Seq::<Seq<char>>::empty();
    crate::order::lemma_sorted_distinct(e, e);
}

/// A service with the key of `s[i]` is found in `s`: the last one, which
/// is `s[i]` itself when no later service has its key.
proof fn lemma_last_with_self(s: Seq<ServiceV>, i: int)
    requires
        0 <= i < s.len(),
    ensures
        last_with(s, s[i]) is Some,
        is_last(s, i) ==> last_with(s, s[i]) == Some(s[i]),
    decreases s.len(),
{
    if !same_key(s.last(), s[i]) {
        assert(i < s.len() - 1);
        assert(s.drop_last()[i] == s[i]);
        lemma_last_with_self(s.drop_last(), i);
        if is_last(s, i) {
            assert forall|j: int| i < j < s.drop_last().len() implies !same_key(#[trigger] s.drop_last()[j], s.drop_last()[i]) by {
                assert(s.drop_last()[j] == s[j]);
            }
        }
    } else if is_last(s, i) && i < s.len() - 1 {
        assert(!same_key(s[s.len() - 1], s[i]));
    }
}

proof fn lemma_upto_self(v: Seq<ServiceV>, k: int)
    requires
        0 <= k <= v.len(),
    ensures
        added_upto(v, v, k) == Seq::<ServiceV>::empty(),
        removed_upto(v, v, k) == Seq::<ServiceV>::empty(),
        changed_upto(v, v, k) == Seq::<ChangeV>::empty(),
    decreases k,
{
    if k > 0 {
        lemma_upto_self(v, k - 1);
        lemma_last_with_self(v, k - 1);
    }
}

/// Diffing a snapshot against itself finds nothing: no address, subdomain
/// or service appears, disappears or changes.
pub proof fn law_diff_with_itself_is_empty(s: Snapshot)
    ensures
        diff_view(s, s).new_ips == Seq::<Seq<char>>::empty(),
        diff_view(s, s).removed_ips == Seq::<Seq<char>>::empty(),
        diff_view(s, s).new_subdomains == Seq::<Seq<char>>::empty(),
        diff_view(s, s).removed_subdomains == Seq::<Seq<char>>::empty(),
        diff_view(s, s).new_services == Seq::<ServiceV>::empty(),
        diff_view(s, s).removed_services == Seq::<ServiceV>::empty(),
        diff_view(s, s).changed_services == Seq::<ChangeV>::empty(),
{
    let v = services_view(s.scan.services@);
    lemma_set_minus_self(strings_view(s.scan.resolved_ips@));
    lemma_set_minus_self(strings_view(s.scan.subdomains@));
    lemma_upto_self(v, v.len() as int);
}

} // verus!

verus! {

proof fn lemma_added_is_removed_backwards(a: Seq<ServiceV>, b: Seq<ServiceV>, k: int)
    ensures
        added_upto(a, b, k) == removed_upto(b, a, k),
    decreases k,
{
    if k > 0 {
        lemma_added_is_removed_backwards(a, b, k - 1);
    }
}

/// What appears from one snapshot to another disappears going back: the
/// new addresses, subdomains and services of `older` to `newer` are the
/// removed ones of `newer` to `older`, and the other way round.
pub proof fn law_diff_reversed(older: Snapshot, newer: Snapshot)
    ensures
        diff_view(older, newer).new_ips == diff_view(newer, older).removed_ips,
        diff_view(older, newer).removed_ips == diff_view(newer, older).new_ips,
        diff_view(older, newer).new_subdomains == diff_view(newer, older).removed_subdomains,
        diff_view(older, newer).removed_subdomains == diff_view(newer, older).new_subdomains,
        diff_view(older, newer).new_services == diff_view(newer, older).removed_services,
        diff_view(older, newer).removed_services == diff_view(newer, older).new_services,
{
    let ov = services_view(older.scan.services@);
    let nv = services_view(newer.scan.services@);
    lemma_added_is_removed_backwards(ov, nv, nv.len() as int);
    lemma_added_is_removed_backwards(nv, ov, ov.len() as int);
}

} // verus!

verus! {

/// The name chrono writes for a time with `%Y-%m-%dT%H-%M-%SZ`.
pub uninterp spec fn snapshot_stem(t: i64) -> Seq<char>;

/// `DateTime::<Utc>::from_timestamp(t, 0)` formatted with
/// `%Y-%m-%dT%H-%M-%SZ`; empty when chrono cannot represent the time. Only
/// that the text is a function of the time is claimed.
#[verifier::external_body]
fn snapshot_stem_text(t: i64) -> (r: String)
    ensures
        r@ == snapshot_stem(t),
{
    match chrono::DateTime::from_timestamp(t, 0) {
        Some(d) => d.format("%Y-%m-%dT%H-%M-%SZ").to_string(),
        None => String::new(),
    }
}

impl Snapshot {
    /// A snapshot of `scan` taken now, under the current version and the
    /// scan's own target.
    pub fn new(scan: ScanResult) -> (s: Snapshot)
        ensures
            s.snapshot_version == CURRENT_SNAPSHOT_VERSION,
            s.target@ == scan.target@,
            s.scan == scan,
    {
        let now = crate::jobs::now_timestamp();
        Snapshot::taken_at(scan, now)
    }

    /// The name a snapshot is stored under (without the `.json` suffix):
    /// its time, written by chrono.
    pub fn filename(&self) -> (r: String)
        ensures
            r@ == snapshot_stem(self.timestamp),
    {
        snapshot_stem_text(self.timestamp)
    }

    /// A snapshot read from storage, with a missing version (zero) taken as
    /// the current one.
    pub fn with_current_version(self) -> (r: Snapshot)
        ensures
            r.snapshot_version == if self.snapshot_version == 0 {
                CURRENT_SNAPSHOT_VERSION
            } else {
                self.snapshot_version
            },
            r.timestamp == self.timestamp,
            r.target == self.target,
            r.scan == self.scan,
    {
        let mut s = self;
        if s.snapshot_version == 0 {
            s.snapshot_version = CURRENT_SNAPSHOT_VERSION;
        }
        s
    }
}

/// Earlier snapshots first.
pub open spec fn time_order() -> spec_fn(Snapshot, Snapshot) -> bool {
    |a: Snapshot, b: Snapshot| a.timestamp < b.timestamp
}

/// Snapshots ordered by time, ties keeping their order.
pub fn sort_snapshots_by_time(v: Vec<Snapshot>) -> (r: Vec<Snapshot>)
    ensures
        r@ == sort_by_lt(v@, time_order()),
{
    let ghost sv = v@;
    let ghost lt = time_order();
    let mut rest = v;
    let mut out: Vec<Snapshot> = Vec::new();
    let mut i: usize = 0;
    let n = rest.len();
    assert(sv.take(0) =~= Seq::<Snapshot>::empty());
    while rest.len() > 0
        invariant
            n == sv.len(),
            lt == time_order(),
            i + rest@.len() == n,
            out@.len() == i,
            rest@ == sv.skip(i as int),
            out@ == sort_by_lt(sv.take(i as int), lt),
        decreases rest.len(),
    {
        let ghost old_rest = rest@;
        let x = rest.remove(0);
        assert(sv[i as int] == x) by {
            assert(sv.skip(i as int)[0] == sv[i as int]);
        }
        let ghost sorted = out@;
        let mut k: usize = 0;
        loop
            invariant
                k <= out.len(),
                sorted == out@,
                lt == time_order(),
                forall|j: int| 0 <= j < k ==> !lt(x, #[trigger] sorted[j]),
            ensures
                k <= out.len(),
                forall|j: int| 0 <= j < k ==> !lt(x, #[trigger] sorted[j]),
                k < out.len() ==> lt(x, sorted[k as int]),
            decreases out.len() - k,
        {
            if k >= out.len() {
                break;
            }
            if x.timestamp < out[k].timestamp {
                break;
            }
            k = k + 1;
        }
        proof {
            lemma_insert_pos_lt_first(sorted, x, lt, k as int);
            lemma_sort_by_lt_step(sv, i as int, lt);
        }
        out.insert(k, x);
        assert(rest@ =~= sv.skip(i + 1)) by {
            assert forall|j: int| 0 <= j < rest@.len() implies rest@[j] == sv.skip(i + 1)[j] by {
                assert(rest@[j] == old_rest[j + 1]);
            }
        }
        i = i + 1;
    }
    assert(sv.take(n as int) =~= sv);
    out
}

/// A name with the `json` extension: it ends with `.json` and is not just
/// `.json`.
pub open spec fn is_json_name(name: Seq<char>) -> bool {
    crate::text::ends_with(name, ".json"@) && name.len() > 5
}

/// The names with the `json` extension, in order.
pub open spec fn json_names(names: Seq<Seq<char>>) -> Seq<Seq<char>>
    decreases names.len(),
{
    if names.len() == 0 {
        Seq::empty()
    } else if is_json_name(names.last()) {
        json_names(names.drop_last()).push(names.last())
    } else {
        json_names(names.drop_last())
    }
}

/// The snapshot files among the names of a directory's entries: those with
/// the `json` extension, sorted.
pub fn snapshot_file_names(names: &Vec<String>) -> (r: Vec<String>)
    ensures
        strings_view(r@) == sorted_distinct(json_names(strings_view(names@))),
{
    let ghost nv = strings_view(names@);
    let suffix = crate::text::chars_of(".json");
    let mut kept: Vec<String> = Vec::new();
    let mut i: usize = 0;
    assert(nv.take(0) =~= Seq::<Seq<char>>::empty());
    while i < names.len()
        invariant
            i <= names@.len(),
            nv == strings_view(names@),
            suffix@ == ".json"@,
            strings_view(kept@) == json_names(nv.take(i as int)),
        decreases names.len() - i,
    {
        assert(nv.take(i + 1).drop_last() =~= nv.take(i as int));
        assert(nv[i as int] == names@[i as int]@);
        let cs = crate::text::chars_of(names[i].as_str());
        if crate::text::ends_with_vec(&cs, &suffix) && cs.len() > 5 {
            let ghost before = kept@;
            let s = names[i].clone();
            kept.push(s);
            proof {
                lemma_strings_view_push(before, s);
            }
        }
        i = i + 1;
    }
    assert(nv.take(names.len() as int) =~= nv);
    sorted_unique(&kept)
}

} // verus!

verus! {

/// The service a map keyed by services keeps for a key is the last one with
/// that key.
proof fn lemma_last_with_kept(s: Seq<ServiceV>, j: int, x: ServiceV)
    requires
        0 <= j < s.len(),
        is_last(s, j),
        same_key(s[j], x),
    ensures
        last_with(s, x) == Some(s[j]),
    decreases s.len(),
{
    if j < s.len() - 1 {
        assert(!same_key(s[s.len() - 1], s[j]));
        let p = s.drop_last();
        assert forall|k: int| j < k < p.len() implies !same_key(#[trigger] p[k], p[j]) by {
            assert(p[k] == s[k]);
            assert(!same_key(s[k], s[j]));
        }
        assert(p[j] == s[j]);
        lemma_last_with_kept(p, j, x);
    }
}

proof fn lemma_changed_upto_holds(old: Seq<ServiceV>, new: Seq<ServiceV>, i: int, k: int, o: ServiceV)
    requires
        0 <= i < k <= new.len(),
        is_last(new, i),
        last_with(old, new[i]) == Some(o),
        services_differ(o, new[i]),
    ensures
        changed_upto(old, new, k).contains(change_of(o, new[i])),
    decreases k,
{
    let acc = changed_upto(old, new, k - 1);
    if k - 1 == i {
        assert(changed_upto(old, new, k) == acc.push(change_of(o, new[i])));
        assert(changed_upto(old, new, k)[acc.len() as int] == change_of(o, new[i]));
    } else {
        lemma_changed_upto_holds(old, new, i, k - 1, o);
        let m = choose|m: int| 0 <= m < acc.len() && acc[m] == change_of(o, new[i]);
        let c = changed_upto(old, new, k);
        assert(c == acc || (c.len() == acc.len() + 1 && forall|t: int| 0 <= t < acc.len() ==> c[t] == acc[t]));
        assert(c[m] == acc[m]);
    }
}

/// A service that both snapshots hold under the same key (host, URL and
/// scheme) and that answered differently (status, server, provider,
/// technologies or a security header) is reported as changed, with both
/// answers.
pub proof fn law_changed_service_is_reported(older: Snapshot, newer: Snapshot, j: int, i: int)
    requires
        0 <= j < older.scan.services@.len(),
        0 <= i < newer.scan.services@.len(),
        is_last(services_view(older.scan.services@), j),
        is_last(services_view(newer.scan.services@), i),
        same_key(services_view(older.scan.services@)[j], services_view(newer.scan.services@)[i]),
        ({
            let o = services_view(older.scan.services@)[j];
            let n = services_view(newer.scan.services@)[i];
            o.status != n.status || o.server != n.server || o.provider != n.provider || o.technologies
                != n.technologies || o.security_headers != n.security_headers
        }),
    ensures
        exists|k: int|
            0 <= k < diff_view(older, newer).changed_services.len() && {
                let c = #[trigger] diff_view(older, newer).changed_services[k];
                let o = services_view(older.scan.services@)[j];
                let n = services_view(newer.scan.services@)[i];
                &&& c.host == n.host
                &&& c.url == n.url
                &&& c.scheme == n.scheme
                &&& c.before_status == o.status
                &&& c.after_status == n.status
                &&& c.before_server == o.server
                &&& c.after_server == n.server
                &&& c.before_provider == o.provider
                &&& c.after_provider == n.provider
                &&& c.before_technologies == o.technologies
                &&& c.after_technologies == n.technologies
                &&& c.before_security_headers == o.security_headers
                &&& c.after_security_headers == n.security_headers
            },
{
    let ov = services_view(older.scan.services@);
    let nv = services_view(newer.scan.services@);
    lemma_last_with_kept(ov, j, nv[i]);
    assert(services_differ(ov[j], nv[i]));
    lemma_changed_upto_holds(ov, nv, i, nv.len() as int, ov[j]);
    let ch = changed_upto(ov, nv, nv.len() as int);
    crate::order::lemma_sort_by_lt_contains(ch, change_order());
    let sorted = sort_by_lt(ch, change_order());
    assert(sorted.contains(change_of(ov[j], nv[i])));
    let k = choose|k: int| 0 <= k < sorted.len() && sorted[k] == change_of(ov[j], nv[i]);
    assert(diff_view(older, newer).changed_services == sorted);
    assert(sorted[k] == change_of(ov[j], nv[i]));
}

/// A service that both snapshots hold under the same key and that answered
/// with another status is reported as changed, from the older status to the
/// newer one.
pub proof fn law_status_change_is_reported(older: Snapshot, newer: Snapshot, j: int, i: int)
    requires
        0 <= j < older.scan.services@.len(),
        0 <= i < newer.scan.services@.len(),
        is_last(services_view(older.scan.services@), j),
        is_last(services_view(newer.scan.services@), i),
        same_key(services_view(older.scan.services@)[j], services_view(newer.scan.services@)[i]),
        older.scan.services@[j].status != newer.scan.services@[i].status,
    ensures
        exists|k: int|
            0 <= k < diff_view(older, newer).changed_services.len() && {
                let c = #[trigger] diff_view(older, newer).changed_services[k];
                &&& c.host == newer.scan.services@[i].host@
                &&& c.url == newer.scan.services@[i].url@
                &&& c.scheme == newer.scan.services@[i].scheme@
                &&& c.before_status == older.scan.services@[j].status
                &&& c.after_status == newer.scan.services@[i].status
            },
{
    let ov = services_view(older.scan.services@);
    let nv = services_view(newer.scan.services@);
    assert(ov[j] == older.scan.services@[j]@);
    assert(nv[i] == newer.scan.services@[i]@);
    law_changed_service_is_reported(older, newer, j, i);
}

proof fn lemma_changed_upto_differ(old: Seq<ServiceV>, new: Seq<ServiceV>, k: int)
    ensures
        forall|m: int|
            0 <= m < changed_upto(old, new, k).len() ==> {
                let c = #[trigger] changed_upto(old, new, k)[m];
                c.before_status != c.after_status || c.before_server != c.after_server || c.before_provider
                    != c.after_provider || c.before_technologies != c.after_technologies
                    || c.before_security_headers != c.after_security_headers
            },
    decreases k,
{
    if k > 0 {
        lemma_changed_upto_differ(old, new, k - 1);
        let acc = changed_upto(old, new, k - 1);
        let c = changed_upto(old, new, k);
        assert forall|m: int| 0 <= m < c.len() implies {
            let x = #[trigger] c[m];
            x.before_status != x.after_status || x.before_server != x.after_server || x.before_provider
                != x.after_provider || x.before_technologies != x.after_technologies
                || x.before_security_headers != x.after_security_headers
        } by {
            if m < acc.len() {
                assert(c[m] == acc[m]);
            }
        }
    }
}

/// Only services whose answer differs are reported as changed: every
/// reported change has a status, server, provider, technologies or security
/// headers that differ before and after.
pub proof fn law_reported_changes_differ(older: Snapshot, newer: Snapshot)
    ensures
        forall|k: int|
            0 <= k < diff_view(older, newer).changed_services.len() ==> {
                let c = #[trigger] diff_view(older, newer).changed_services[k];
                c.before_status != c.after_status || c.before_server != c.after_server || c.before_provider
                    != c.after_provider || c.before_technologies != c.after_technologies
                    || c.before_security_headers != c.after_security_headers
            },
{
    let ov = services_view(older.scan.services@);
    let nv = services_view(newer.scan.services@);
    let ch = changed_upto(ov, nv, nv.len() as int);
    lemma_changed_upto_differ(ov, nv, nv.len() as int);
    crate::order::lemma_sort_by_lt_contains(ch, change_order());
    let sorted = sort_by_lt(ch, change_order());
    assert(diff_view(older, newer).changed_services == sorted);
    assert forall|k: int| 0 <= k < sorted.len() implies {
        let c = #[trigger] sorted[k];
        c.before_status != c.after_status || c.before_server != c.after_server || c.before_provider
            != c.after_provider || c.before_technologies != c.after_technologies
            || c.before_security_headers != c.after_security_headers
    } by {
        assert(sorted.contains(sorted[k]));
        assert(ch.contains(sorted[k]));
        let m = choose|m: int| 0 <= m < ch.len() && ch[m] == sorted[k];
        assert(ch[m] == sorted[k]);
    }
}

} // verus!
