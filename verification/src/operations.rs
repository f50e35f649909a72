//! Operations over stored findings and incidents: what each owner has open,
//! and how a fresh incident candidate is reconciled with the stored incident
//! of the same identifier.
use vstd::prelude::*;
use crate::api::OwnerOperationalSummary;
use crate::order::{
    lemma_insert_pos_lt_first, lemma_sort_by_lt_step, seq_lt, sort_by_lt, sorted_distinct,
    sorted_unique, str_less,
};
use crate::text::{
    contains_string, eq_ignore_case, ieq, lemma_strings_view_push, opt_chars, str_eq, strings_view,
};

verus! {

/// A stored current finding, as far as operations read it.
#[derive(Debug, Clone)]
pub struct CurrentFindingRecord {
    pub owner: Option<String>,
    pub operational_state: String,
    pub score: u32,
    pub resource: String,
}

/// A stored owner of assets.
#[derive(Debug, Clone)]
pub struct AssetOwnerRecord {
    pub owner: String,
    pub team: Option<String>,
}

/// A stored incident.
#[derive(Debug, Clone)]
pub struct IncidentRecord {
    pub incident_id: String,
    pub target: String,
    pub source_kind: String,
    pub source_id: String,
    pub title: String,
    pub severity: String,
    pub score: u32,
    pub state: String,
    pub owner: Option<String>,
    pub notes: Option<String>,
    pub resource: String,
    pub context_json: String,
    pub created_at: String,
    pub updated_at: String,
}

/// Open: in any state but `resolved` (ignoring ASCII case).
pub open spec fn is_open(state: Seq<char>) -> bool {
    !ieq(state, "resolved"@)
}

pub open spec fn owned_by(owner: Option<String>, o: Seq<char>) -> bool {
    owner matches Some(x) && x@ == o
}

/// The owners named by findings, in order.
pub open spec fn finding_owners(fs: Seq<CurrentFindingRecord>) -> Seq<Seq<char>>
    decreases fs.len(),
{
    if fs.len() == 0 {
        Seq::empty()
    } else {
        match fs.last().owner {
            Some(o) => finding_owners(fs.drop_last()).push(o@),
            None => finding_owners(fs.drop_last()),
        }
    }
}

/// The owners named by incidents, in order.
pub open spec fn incident_owners(is: Seq<IncidentRecord>) -> Seq<Seq<char>>
    decreases is.len(),
{
    if is.len() == 0 {
        Seq::empty()
    } else {
        match is.last().owner {
            Some(o) => incident_owners(is.drop_last()).push(o@),
            None => incident_owners(is.drop_last()),
        }
    }
}

/// How many open findings `o` owns, and their total score.
pub open spec fn open_findings_of(fs: Seq<CurrentFindingRecord>, o: Seq<char>) -> (nat, nat)
    decreases fs.len(),
{
    if fs.len() == 0 {
        (0, 0)
    } else {
        let r = open_findings_of(fs.drop_last(), o);
        let f = fs.last();
        if owned_by(f.owner, o) && is_open(f.operational_state@) {
            (r.0 + 1, r.1 + f.score as nat)
        } else {
            r
        }
    }
}

/// How many open incidents `o` owns, and their total score.
pub open spec fn open_incidents_of(is: Seq<IncidentRecord>, o: Seq<char>) -> (nat, nat)
    decreases is.len(),
{
    if is.len() == 0 {
        (0, 0)
    } else {
        let r = open_incidents_of(is.drop_last(), o);
        let x = is.last();
        if owned_by(x.owner, o) && is_open(x.state@) {
            (r.0 + 1, r.1 + x.score as nat)
        } else {
            r
        }
    }
}

/// The resources of the findings that `o` owns, in order.
pub open spec fn finding_resources(fs: Seq<CurrentFindingRecord>, o: Seq<char>) -> Seq<Seq<char>>
    decreases fs.len(),
{
    if fs.len() == 0 {
        Seq::empty()
    } else if owned_by(fs.last().owner, o) {
        finding_resources(fs.drop_last(), o).push(fs.last().resource@)
    } else {
        finding_resources(fs.drop_last(), o)
    }
}

/// The resources of the incidents that `o` owns, in order.
pub open spec fn incident_resources(is: Seq<IncidentRecord>, o: Seq<char>) -> Seq<Seq<char>>
    decreases is.len(),
{
    if is.len() == 0 {
        Seq::empty()
    } else if owned_by(is.last().owner, o) {
        incident_resources(is.drop_last(), o).push(is.last().resource@)
    } else {
        incident_resources(is.drop_last(), o)
    }
}

/// The texts of `s` without repeats, each where it first occurs.
pub open spec fn dedup_first(s: Seq<Seq<char>>) -> Seq<Seq<char>>
    decreases s.len(),
{
    if s.len() == 0 {
        Seq::empty()
    } else {
        let d = dedup_first(s.drop_last());
        if d.contains(s.last()) {
            d
        } else {
            d.push(s.last())
        }
    }
}

/// The team of the last owner record of `o`; none without one.
pub open spec fn team_of(os: Seq<AssetOwnerRecord>, o: Seq<char>) -> Option<Seq<char>>
    decreases os.len(),
{
    if os.len() == 0 {
        None
    } else if os.last().owner@ == o {
        opt_chars(os.last().team)
    } else {
        team_of(os.drop_last(), o)
    }
}

pub struct OwnerV {
    pub owner: Seq<char>,
    pub team: Option<Seq<char>>,
    pub open_findings: nat,
    pub open_incidents: nat,
    pub total_risk_score: nat,
    pub resources: Seq<Seq<char>>,
}

impl View for OwnerOperationalSummary {
    type V = OwnerV;

    open spec fn view(&self) -> OwnerV {
        OwnerV {
            owner: self.owner@,
            team: opt_chars(self.team),
            open_findings: self.open_findings as nat,
            open_incidents: self.open_incidents as nat,
            total_risk_score: self.total_risk_score as nat,
            resources: strings_view(self.resources@),
        }
    }
}

pub open spec fn owners_view(v: Seq<OwnerOperationalSummary>) -> Seq<OwnerV> {
    Seq::new(v.len(), |i: int| v[i]@)
}

/// What owner `o` has open: counts, the total score of open findings and
/// incidents (held at `u32::MAX`), and the resources of everything it owns.
pub open spec fn owner_summary(
    fs: Seq<CurrentFindingRecord>,
    is: Seq<IncidentRecord>,
    os: Seq<AssetOwnerRecord>,
    o: Seq<char>,
) -> OwnerV {
    let f = open_findings_of(fs, o);
    let i = open_incidents_of(is, o);
    OwnerV {
        owner: o,
        team: team_of(os, o),
        open_findings: f.0,
        open_incidents: i.0,
        total_risk_score: if f.1 + i.1 > u32::MAX {
            u32::MAX as nat
        } else {
            f.1 + i.1
        },
        resources: dedup_first(finding_resources(fs, o) + incident_resources(is, o)),
    }
}

/// Higher total score first, then more open incidents, then more open
/// findings, then by owner.
pub open spec fn owner_before(a: OwnerV, b: OwnerV) -> bool {
    a.total_risk_score > b.total_risk_score || (a.total_risk_score == b.total_risk_score && (
    a.open_incidents > b.open_incidents || (a.open_incidents == b.open_incidents && (
    a.open_findings > b.open_findings || (a.open_findings == b.open_findings && seq_lt(
        a.owner,
        b.owner,
    ))))))
}

pub open spec fn owner_order() -> spec_fn(OwnerV, OwnerV) -> bool {
    |a: OwnerV, b: OwnerV| owner_before(a, b)
}

/// One summary per owner named by a finding or an incident, sorted.
pub open spec fn owner_summaries(
    fs: Seq<CurrentFindingRecord>,
    is: Seq<IncidentRecord>,
    os: Seq<AssetOwnerRecord>,
) -> Seq<OwnerV> {
    let keys = sorted_distinct(finding_owners(fs) + incident_owners(is));
    sort_by_lt(Seq::new(keys.len(), |i: int| owner_summary(fs, is, os, keys[i])), owner_order())
}

fn owner_names(findings: &Vec<CurrentFindingRecord>, incidents: &Vec<IncidentRecord>) -> (r: Vec<String>)
    ensures
        strings_view(r@) == finding_owners(findings@) + incident_owners(incidents@),
{
    let ghost fs = findings@;
    let ghost is = incidents@;
    let mut names: Vec<String> = Vec::new();
    let mut i: usize = 0;
    assert(fs.take(0) =~= Seq::<CurrentFindingRecord>::empty());
    while i < findings.len()
        invariant
            i <= fs.len(),
            fs == findings@,
            strings_view(names@) == finding_owners(fs.take(i as int)),
        decreases findings.len() - i,
    {
        assert(fs.take(i + 1).drop_last() =~= fs.take(i as int));
        match &findings[i].owner {
            Some(o) => {
                let ghost before = names@;
                let c = o.clone();
                names.push(c);
                proof {
                    lemma_strings_view_push(before, c);
                }
            },
            None => {},
        }
        i = i + 1;
    }
    assert(fs.take(fs.len() as int) =~= fs);
    let ghost start = strings_view(names@);
    let mut j: usize = 0;
    assert(is.take(0) =~= Seq::<IncidentRecord>::empty());
    assert(start + incident_owners(is.take(0)) =~= start);
    while j < incidents.len()
        invariant
            j <= is.len(),
            is == incidents@,
            strings_view(names@) == start + incident_owners(is.take(j as int)),
        decreases incidents.len() - j,
    {
        assert(is.take(j + 1).drop_last() =~= is.take(j as int));
        match &incidents[j].owner {
            Some(o) => {
                let ghost before = names@;
                let c = o.clone();
                names.push(c);
                proof {
                    lemma_strings_view_push(before, c);
                }
                assert(strings_view(names@) =~= start + incident_owners(is.take(j + 1)));
            },
            None => {},
        }
        j = j + 1;
    }
    assert(is.take(is.len() as int) =~= is);
    names
}

fn is_owned_by(owner: &Option<String>, o: &String) -> (r: bool)
    ensures
        r == owned_by(*owner, o@),
{
    match owner {
        Some(x) => str_eq(x.as_str(), o.as_str()),
        None => false,
    }
}

/// Adds `x` unless already present.
fn push_new(v: &mut Vec<String>, x: &String)
    ensures
        strings_view(final(v)@) == if strings_view(old(v)@).contains(x@) {
            strings_view(old(v)@)
        } else {
            strings_view(old(v)@).push(x@)
        },
{
    let present = contains_string(v.as_slice(), x.as_str());
    let ghost sv = strings_view(v@);
    if present {
        proof {
            let i = choose|i: int| 0 <= i < v@.len() && v@[i]@ == x@;
            assert(sv[i] == x@);
        }
    } else {
        assert forall|i: int| 0 <= i < sv.len() implies sv[i] != x@ by {
            assert(sv[i] == v@[i]@);
        }
        let ghost before = v@;
        let c = x.clone();
        v.push(c);
        proof {
            lemma_strings_view_push(before, c);
        }
    }
}

/// The open findings of `o`, their score added (held at `u32::MAX`), and
/// the resources of all of `o`'s findings.
fn findings_part(findings: &Vec<CurrentFindingRecord>, o: &String) -> (r: (usize, u32, Vec<String>))
    ensures
        r.0 as nat == open_findings_of(findings@, o@).0,
        r.1 as nat == if open_findings_of(findings@, o@).1 > u32::MAX {
            u32::MAX as nat
        } else {
            open_findings_of(findings@, o@).1
        },
        strings_view(r.2@) == dedup_first(finding_resources(findings@, o@)),
{
    let ghost fs = findings@;
    let mut count: usize = 0;
    let mut total: u32 = 0;
    let mut res: Vec<String> = Vec::new();
    let mut i: usize = 0;
    assert(fs.take(0) =~= Seq::<CurrentFindingRecord>::empty());
    while i < findings.len()
        invariant
            i <= fs.len(),
            fs == findings@,
            count as nat == open_findings_of(fs.take(i as int), o@).0,
            count <= i,
            total as nat == if open_findings_of(fs.take(i as int), o@).1 > u32::MAX {
                u32::MAX as nat
            } else {
                open_findings_of(fs.take(i as int), o@).1
            },
            strings_view(res@) == dedup_first(finding_resources(fs.take(i as int), o@)),
        decreases findings.len() - i,
    {
        assert(fs.take(i + 1).drop_last() =~= fs.take(i as int));
        let f = &findings[i];
        let mine = is_owned_by(&f.owner, o);
        if mine {
            if !eq_ignore_case(f.operational_state.as_str(), "resolved") {
                count = count + 1;
                total = total.saturating_add(f.score);
            }
            push_new(&mut res, &f.resource);
            assert(finding_resources(fs.take(i + 1), o@).drop_last() =~= finding_resources(
                fs.take(i as int),
                o@,
            ));
        }
        i = i + 1;
    }
    assert(fs.take(fs.len() as int) =~= fs);
    (count, total, res)
}

/// `findings_part` continued over the incidents of `o`.
fn incidents_part(
    incidents: &Vec<IncidentRecord>,
    o: &String,
    total0: u32,
    res0: Vec<String>,
    Ghost(sum0): Ghost<nat>,
    Ghost(prior): Ghost<Seq<Seq<char>>>,
) -> (r: (usize, u32, Vec<String>))
    requires
        total0 as nat == if sum0 > u32::MAX { u32::MAX as nat } else { sum0 },
        strings_view(res0@) == dedup_first(prior),
    ensures
        r.0 as nat == open_incidents_of(incidents@, o@).0,
        r.1 as nat == if sum0 + open_incidents_of(incidents@, o@).1 > u32::MAX {
            u32::MAX as nat
        } else {
            sum0 + open_incidents_of(incidents@, o@).1
        },
        strings_view(r.2@) == dedup_first(prior + incident_resources(incidents@, o@)),
{
    let ghost is = incidents@;
    let mut count: usize = 0;
    let mut total: u32 = total0;
    let mut res = res0;
    let mut j: usize = 0;
    assert(is.take(0) =~= Seq::<IncidentRecord>::empty());
    assert(prior + incident_resources(is.take(0), o@) =~= prior);
    while j < incidents.len()
        invariant
            j <= is.len(),
            is == incidents@,
            count as nat == open_incidents_of(is.take(j as int), o@).0,
            count <= j,
            total as nat == if sum0 + open_incidents_of(is.take(j as int), o@).1 > u32::MAX {
                u32::MAX as nat
            } else {
                sum0 + open_incidents_of(is.take(j as int), o@).1
            },
            strings_view(res@) == dedup_first(prior + incident_resources(is.take(j as int), o@)),
        decreases incidents.len() - j,
    {
        assert(is.take(j + 1).drop_last() =~= is.take(j as int));
        let x = &incidents[j];
        let mine = is_owned_by(&x.owner, o);
        if mine {
            if !eq_ignore_case(x.state.as_str(), "resolved") {
                count = count + 1;
                total = total.saturating_add(x.score);
            }
            push_new(&mut res, &x.resource);
            assert((prior + incident_resources(is.take(j + 1), o@)).drop_last() =~= prior
                + incident_resources(is.take(j as int), o@));
        } else {
            assert(prior + incident_resources(is.take(j + 1), o@) =~= prior + incident_resources(
                is.take(j as int),
                o@,
            ));
        }
        j = j + 1;
    }
    assert(is.take(is.len() as int) =~= is);
    (count, total, res)
}

fn team_lookup(owners: &Vec<AssetOwnerRecord>, o: &String) -> (r: Option<String>)
    ensures
        opt_chars(r) == team_of(owners@, o@),
{
    let ghost os = owners@;
    let mut team: Option<String> = None;
    let mut k: usize = 0;
    assert(os.take(0) =~= Seq::<AssetOwnerRecord>::empty());
    while k < owners.len()
        invariant
            k <= os.len(),
            os == owners@,
            opt_chars(team) == team_of(os.take(k as int), o@),
        decreases owners.len() - k,
    {
        assert(os.take(k + 1).drop_last() =~= os.take(k as int));
        if str_eq(owners[k].owner.as_str(), o.as_str()) {
            team = owners[k].team.clone();
        }
        k = k + 1;
    }
    assert(os.take(os.len() as int) =~= os);
    team
}

fn summary_for(
    findings: &Vec<CurrentFindingRecord>,
    incidents: &Vec<IncidentRecord>,
    owners: &Vec<AssetOwnerRecord>,
    o: &String,
) -> (r: OwnerOperationalSummary)
    ensures
        r@ == owner_summary(findings@, incidents@, owners@, o@),
{
    let (open_findings, total0, res0) = findings_part(findings, o);
    let (open_incidents, total_risk_score, resources) = incidents_part(
        incidents,
        o,
        total0,
        res0,
        Ghost(open_findings_of(findings@, o@).1),
        Ghost(finding_resources(findings@, o@)),
    );
    let team = team_lookup(owners, o);
    OwnerOperationalSummary { owner: o.clone(), team, open_findings, open_incidents, total_risk_score, resources }
}

fn owner_less(a: &OwnerOperationalSummary, b: &OwnerOperationalSummary) -> (r: bool)
    ensures
        r == owner_before(a@, b@),
{
    a.total_risk_score > b.total_risk_score || (a.total_risk_score == b.total_risk_score && (
    a.open_incidents > b.open_incidents || (a.open_incidents == b.open_incidents && (
    a.open_findings > b.open_findings || (a.open_findings == b.open_findings && str_less(
        a.owner.as_str(),
        b.owner.as_str(),
    ))))))
}

fn sort_owner_summaries(v: Vec<OwnerOperationalSummary>) -> (r: Vec<OwnerOperationalSummary>)
    ensures
        owners_view(r@) == sort_by_lt(owners_view(v@), owner_order()),
{
    let ghost fv = owners_view(v@);
    let ghost lt = owner_order();
    let mut rest = v;
    let mut out: Vec<OwnerOperationalSummary> = Vec::new();
    let mut i: usize = 0;
    let n = rest.len();
    assert(fv.take(0) =~= Seq::<OwnerV>::empty());
    while rest.len() > 0
        invariant
            n == fv.len(),
            lt == owner_order(),
            i + rest@.len() == n,
            out@.len() == i,
            owners_view(rest@) == fv.skip(i as int),
            owners_view(out@) == sort_by_lt(fv.take(i as int), lt),
        decreases rest.len(),
    {
        let ghost old_rest = rest@;
        let x = rest.remove(0);
        assert forall|j: int| 0 <= j < rest@.len() implies #[trigger] owners_view(rest@)[j] == fv.skip(i + 1)[j] by {
            assert(rest@[j] == old_rest[j + 1]);
            assert(owners_view(old_rest)[j + 1] == fv.skip(i as int)[j + 1]);
        }
        assert(fv[i as int] == x@) by {
            assert(fv.skip(i as int)[0] == fv[i as int]);
        }
        let ghost sorted = owners_view(out@);
        let mut k: usize = 0;
        loop
            invariant
                k <= out.len(),
                sorted == owners_view(out@),
                lt == owner_order(),
                forall|j: int| 0 <= j < k ==> !lt(x@, #[trigger] sorted[j]),
            ensures
                k <= out.len(),
                forall|j: int| 0 <= j < k ==> !lt(x@, #[trigger] sorted[j]),
                k < out.len() ==> lt(x@, sorted[k as int]),
            decreases out.len() - k,
        {
            if k >= out.len() {
                break;
            }
            assert(sorted[k as int] == out@[k as int]@);
            if owner_less(&x, &out[k]) {
                break;
            }
            k = k + 1;
        }
        proof {
            lemma_insert_pos_lt_first(sorted, x@, lt, k as int);
            lemma_sort_by_lt_step(fv, i as int, lt);
        }
        out.insert(k, x);
        assert(owners_view(out@) =~= sorted.insert(k as int, x@));
        assert(owners_view(rest@) =~= fv.skip(i + 1));
        i = i + 1;
    }
    assert(fv.take(n as int) =~= fv);
    out
}

/// `build_owner_operational_summaries`: for every owner named by a current
/// finding or an incident, its team (from the last owner record naming
/// it), its open findings and incidents and their total score, and the
/// resources of what it owns; sorted by total score, open incidents and
/// open findings (each higher first), then by owner.
pub fn build_owner_operational_summaries(
    findings: &Vec<CurrentFindingRecord>,
    incidents: &Vec<IncidentRecord>,
    owners: &Vec<AssetOwnerRecord>,
) -> (r: Vec<OwnerOperationalSummary>)
    ensures
        owners_view(r@) == owner_summaries(findings@, incidents@, owners@),
{
    let names = owner_names(findings, incidents);
    let keys = sorted_unique(&names);
    let ghost ks = strings_view(keys@);
    let ghost want = Seq::new(ks.len(), |i: int| owner_summary(findings@, incidents@, owners@, ks[i]));
    let mut items: Vec<OwnerOperationalSummary> = Vec::new();
    let mut i: usize = 0;
    while i < keys.len()
        invariant
            i <= keys@.len(),
            ks == strings_view(keys@),
            want == Seq::new(ks.len(), |i: int| owner_summary(findings@, incidents@, owners@, ks[i])),
            owners_view(items@) == want.take(i as int),
        decreases keys.len() - i,
    {
        let s = summary_for(findings, incidents, owners, &keys[i]);
        assert(ks[i as int] == keys@[i as int]@);
        let ghost before = items@;
        items.push(s);
        assert(owners_view(items@) =~= owners_view(before).push(s@));
        assert(owners_view(items@) =~= want.take(i + 1));
        i = i + 1;
    }
    assert(want.take(keys.len() as int) =~= want);
    sort_owner_summaries(items)
}

} // verus!

verus! {

pub struct IncidentV {
    pub incident_id: Seq<char>,
    pub target: Seq<char>,
    pub source_kind: Seq<char>,
    pub source_id: Seq<char>,
    pub title: Seq<char>,
    pub severity: Seq<char>,
    pub score: u32,
    pub state: Seq<char>,
    pub owner: Option<Seq<char>>,
    pub notes: Option<Seq<char>>,
    pub resource: Seq<char>,
    pub context_json: Seq<char>,
    pub created_at: Seq<char>,
    pub updated_at: Seq<char>,
}

impl View for IncidentRecord {
    type V = IncidentV;

    open spec fn view(&self) -> IncidentV {
        IncidentV {
            incident_id: self.incident_id@,
            target: self.target@,
            source_kind: self.source_kind@,
            source_id: self.source_id@,
            title: self.title@,
            severity: self.severity@,
            score: self.score,
            state: self.state@,
            owner: opt_chars(self.owner),
            notes: opt_chars(self.notes),
            resource: self.resource@,
            context_json: self.context_json@,
            created_at: self.created_at@,
            updated_at: self.updated_at@,
        }
    }
}

/// Whether storing `next` over `prev` changes what the incident says:
/// title, severity, score, state, owner, resource or context.
pub open spec fn incident_differs(prev: IncidentV, next: IncidentV) -> bool {
    prev.title != next.title || prev.severity != next.severity || prev.score != next.score
        || prev.state != next.state || prev.owner != next.owner || prev.resource != next.resource
        || prev.context_json != next.context_json
}

/// Whether storing `next` over `prev` changes what the incident says:
/// title, severity, score, state, owner, resource or context.
pub fn incident_changed(prev: &IncidentRecord, next: &IncidentRecord) -> (r: bool)
    ensures
        r == incident_differs(prev@, next@),
{
    !str_eq(prev.title.as_str(), next.title.as_str()) || !str_eq(prev.severity.as_str(), next.severity.as_str())
        || prev.score != next.score || !str_eq(prev.state.as_str(), next.state.as_str())
        || !crate::text::opt_str_eq(&prev.owner, &next.owner) || !str_eq(prev.resource.as_str(), next.resource.as_str())
        || !str_eq(prev.context_json.as_str(), next.context_json.as_str())
}

/// A fresh candidate over the stored incident of its identifier: the
/// stored creation time; reopened when it was resolved, else the stored
/// state; and the stored owner and notes where the candidate has none.
pub open spec fn merged_incident(prev: IncidentV, candidate: IncidentV) -> IncidentV {
    IncidentV {
        created_at: prev.created_at,
        state: if ieq(prev.state, "resolved"@) {
            "reopened"@
        } else {
            prev.state
        },
        owner: if prev.owner is Some && candidate.owner is None {
            prev.owner
        } else {
            candidate.owner
        },
        notes: if prev.notes is Some && candidate.notes is None {
            prev.notes
        } else {
            candidate.notes
        },
        ..candidate
    }
}

/// What reconciling a candidate with the stored incidents leads to.
#[derive(Debug, Clone)]
pub enum IncidentAction {
    /// No incident had the candidate's identifier: store it and alert that
    /// it opened.
    Create(IncidentRecord),
    /// The stored incident changes: store the merged one, alerting that it
    /// reopened when `reopened` holds.
    Update { incident: IncidentRecord, reopened: bool },
    /// Nothing changes.
    Keep,
}

/// The decision of reconciling `candidate` with `existing`, the stored
/// incident of the same identifier if any.
pub open spec fn reconcile_decision(existing: Option<IncidentV>, candidate: IncidentV) -> (int, IncidentV, bool) {
    match existing {
        None => (0, candidate, false),
        Some(prev) => {
            let next = merged_incident(prev, candidate);
            if incident_differs(prev, next) {
                (
                    1,
                    next,
                    ieq(prev.state, "resolved"@) && (ieq(next.state, "reopened"@) || ieq(
                        next.state,
                        "open"@,
                    )),
                )
            } else {
                (2, next, false)
            }
        },
    }
}

pub open spec fn opt_incident(e: Option<&IncidentRecord>) -> Option<IncidentV> {
    match e {
        Some(x) => Some(x@),
        None => None,
    }
}

fn keep_if_missing(stored: &Option<String>, fresh: Option<String>) -> (r: Option<String>)
    ensures
        opt_chars(r) == if stored is Some && fresh is None {
            opt_chars(*stored)
        } else {
            opt_chars(fresh)
        },
{
    match (stored, &fresh) {
        (Some(s), None) => Some(s.clone()),
        _ => fresh,
    }
}

/// Reconciles a fresh incident candidate with the stored incident of its
/// identifier: a new incident is created; a known one is merged (see
/// `merged_incident`) and updated only when that changes it.
pub fn reconcile_incident(existing: Option<&IncidentRecord>, candidate: IncidentRecord) -> (r: IncidentAction)
    ensures
        ({
            let d = reconcile_decision(opt_incident(existing), candidate@);
            match r {
                IncidentAction::Create(x) => d.0 == 0 && x@ == d.1,
                IncidentAction::Update { incident, reopened } => d.0 == 1 && incident@ == d.1 && reopened == d.2,
                IncidentAction::Keep => d.0 == 2,
            }
        }),
{
    match existing {
        None => IncidentAction::Create(candidate),
        Some(prev) => {
            let was_resolved = eq_ignore_case(prev.state.as_str(), "resolved");
            let state = if was_resolved {
                crate::text::owned("reopened")
            } else {
                prev.state.clone()
            };
            let owner = keep_if_missing(&prev.owner, candidate.owner);
            let notes = keep_if_missing(&prev.notes, candidate.notes);
            let next = IncidentRecord {
                incident_id: candidate.incident_id,
                target: candidate.target,
                source_kind: candidate.source_kind,
                source_id: candidate.source_id,
                title: candidate.title,
                severity: candidate.severity,
                score: candidate.score,
                state,
                owner,
                notes,
                resource: candidate.resource,
                context_json: candidate.context_json,
                created_at: prev.created_at.clone(),
                updated_at: candidate.updated_at,
            };
            assert(next@ == merged_incident(prev@, candidate@));
            if incident_changed(prev, &next) {
                let reopened = was_resolved && (eq_ignore_case(next.state.as_str(), "reopened")
                    || eq_ignore_case(next.state.as_str(), "open"));
                IncidentAction::Update { incident: next, reopened }
            } else {
                IncidentAction::Keep
            }
        },
    }
}

/// The identifiers of the stored incidents, in order, that are not resolved
/// and that no current candidate names.
pub open spec fn to_resolve(existing: Seq<IncidentV>, active: Seq<Seq<char>>) -> Seq<Seq<char>>
    decreases existing.len(),
{
    if existing.len() == 0 {
        Seq::empty()
    } else {
        let rest = to_resolve(existing.drop_last(), active);
        let x = existing.last();
        if !ieq(x.state, "resolved"@) && !active.contains(x.incident_id) {
            rest.push(x.incident_id)
        } else {
            rest
        }
    }
}

pub open spec fn incidents_view(v: Seq<IncidentRecord>) -> Seq<IncidentV> {
    Seq::new(v.len(), |i: int| v[i]@)
}

/// The stored incidents to mark resolved after a reconciliation: open ones
/// that no current candidate names.
pub fn incidents_to_resolve(existing: &Vec<IncidentRecord>, active_ids: &Vec<String>) -> (r: Vec<String>)
    ensures
        strings_view(r@) == to_resolve(incidents_view(existing@), strings_view(active_ids@)),
{
    let ghost ev = incidents_view(existing@);
    let ghost av = strings_view(active_ids@);
    let mut out: Vec<String> = Vec::new();
    let mut i: usize = 0;
    assert(ev.take(0) =~= Seq::<IncidentV>::empty());
    while i < existing.len()
        invariant
            i <= existing@.len(),
            ev == incidents_view(existing@),
            av == strings_view(active_ids@),
            strings_view(out@) == to_resolve(ev.take(i as int), av),
        decreases existing.len() - i,
    {
        assert(ev.take(i + 1).drop_last() =~= ev.take(i as int));
        assert(ev[i as int] == existing@[i as int]@);
        let x = &existing[i];
        let named = contains_string(active_ids.as_slice(), x.incident_id.as_str());
        proof {
            if named {
                let k = choose|k: int| 0 <= k < active_ids@.len() && active_ids@[k]@ == x.incident_id@;
                assert(av[k] == x.incident_id@);
            } else {
                assert forall|k: int| 0 <= k < av.len() implies av[k] != x.incident_id@ by {
                    assert(av[k] == active_ids@[k]@);
                }
            }
        }
        if !eq_ignore_case(x.state.as_str(), "resolved") && !named {
            let ghost before = out@;
            let c = x.incident_id.clone();
            out.push(c);
            proof {
                lemma_strings_view_push(before, c);
            }
        }
        i = i + 1;
    }
    assert(ev.take(existing@.len() as int) =~= ev);
    out
}

} // verus!

verus! {

/// Reconciling a stored open incident with an identical candidate changes
/// nothing; a resolved one whose candidate returns is reopened.
pub proof fn law_reconcile_is_stable(prev: IncidentV, candidate: IncidentV)
    ensures
        !ieq(prev.state, "resolved"@) && candidate == prev ==> reconcile_decision(Some(prev), candidate).0 == 2,
        ieq(prev.state, "resolved"@) ==> reconcile_decision(Some(prev), candidate).1.state == "reopened"@,
        reconcile_decision(Some(prev), candidate).1.created_at == prev.created_at,
{
    if !ieq(prev.state, "resolved"@) && candidate == prev {
        assert(merged_incident(prev, candidate) == prev);
    }
}

/// The incidents marked resolved are open ones that no candidate names.
pub proof fn law_resolved_only_when_gone(existing: Seq<IncidentV>, active: Seq<Seq<char>>)
    ensures
        forall|k: int|
            0 <= k < to_resolve(existing, active).len() ==> !active.contains(
                #[trigger] to_resolve(existing, active)[k],
            ),
        forall|k: int|
            #![trigger to_resolve(existing, active)[k]]
            0 <= k < to_resolve(existing, active).len() ==> exists|i: int|
                0 <= i < existing.len() && existing[i].incident_id == to_resolve(existing, active)[k]
                    && !ieq(#[trigger] existing[i].state, "resolved"@),
    decreases existing.len(),
{
    if existing.len() > 0 {
        let p = existing.drop_last();
        law_resolved_only_when_gone(p, active);
        let rest = to_resolve(p, active);
        let r = to_resolve(existing, active);
        assert forall|k: int| #![trigger r[k]] 0 <= k < r.len() implies exists|i: int|
            0 <= i < existing.len() && existing[i].incident_id == r[k] && !ieq(#[trigger] existing[i].state, "resolved"@) by {
            if k < rest.len() {
                assert(r[k] == rest[k]);
                let i = choose|i: int| 0 <= i < p.len() && p[i].incident_id == rest[k] && !ieq(#[trigger] p[i].state, "resolved"@);
                assert(existing[i] == p[i]);
            } else {
                assert(existing[existing.len() - 1].incident_id == r[k]);
            }
        }
        assert forall|k: int| 0 <= k < r.len() implies !active.contains(#[trigger] r[k]) by {
            if k < rest.len() {
                assert(r[k] == rest[k]);
            }
        }
    }
}

} // verus!

verus! {

/// How many cycles a watch runs: `iterations`, or without end (`usize::MAX`)
/// when none is given; refused for a zero interval, and for JSON output
/// without a number of iterations (which would never be written).
pub fn watch_cycles(interval: u64, want_json: bool, iterations: Option<usize>) -> (r: Result<usize, String>)
    ensures
        interval == 0 ==> (r matches Err(e) && e@ == "interval debe ser > 0"@),
        interval > 0 && want_json && iterations is None ==> (r matches Err(e) && e@
            == "watch con --json requiere --iterations para producir una salida finita"@),
        interval > 0 && !(want_json && iterations is None) ==> r == Ok::<usize, String>(
            match iterations {
                Some(n) => n,
                None => usize::MAX,
            },
        ),
{
    if interval == 0 {
        return Err(crate::text::owned("interval debe ser > 0"));
    }
    if want_json && iterations.is_none() {
        return Err(crate::text::owned("watch con --json requiere --iterations para producir una salida finita"));
    }
    match iterations {
        Some(n) => Ok(n),
        None => Ok(usize::MAX),
    }
}

} // verus!

verus! {

/// The severity a stored text names, ignoring ASCII case.
pub open spec fn severity_of_stored(s: Seq<char>) -> Option<crate::drift::Severity> {
    if ieq(s, "INFO"@) {
        Some(crate::drift::Severity::Info)
    } else if ieq(s, "LOW"@) {
        Some(crate::drift::Severity::Low)
    } else if ieq(s, "MEDIUM"@) {
        Some(crate::drift::Severity::Medium)
    } else if ieq(s, "HIGH"@) {
        Some(crate::drift::Severity::High)
    } else {
        None
    }
}

/// The criticality a stored text names, ignoring ASCII case.
pub open spec fn criticality_of_stored(s: Seq<char>) -> Option<crate::drift::Criticality> {
    if ieq(s, "LOW"@) {
        Some(crate::drift::Criticality::Low)
    } else if ieq(s, "MEDIUM"@) {
        Some(crate::drift::Criticality::Medium)
    } else if ieq(s, "HIGH"@) {
        Some(crate::drift::Criticality::High)
    } else if ieq(s, "CRITICAL"@) {
        Some(crate::drift::Criticality::Critical)
    } else {
        None
    }
}

/// The episode state a stored text names, ignoring ASCII case: `new`,
/// `open` and `active` are new; `persistent` and `resolved` name
/// themselves; nothing else is read (not even `recurring`).
pub open spec fn episode_state_of_stored(s: Seq<char>) -> Option<crate::correlation::EpisodeState> {
    if ieq(s, "new"@) || ieq(s, "open"@) || ieq(s, "active"@) {
        Some(crate::correlation::EpisodeState::New)
    } else if ieq(s, "persistent"@) {
        Some(crate::correlation::EpisodeState::Persistent)
    } else if ieq(s, "resolved"@) {
        Some(crate::correlation::EpisodeState::Resolved)
    } else {
        None
    }
}

/// The correlation kind a stored text names exactly.
pub open spec fn kind_of_stored(s: Seq<char>) -> Option<crate::correlation::CorrelationKind> {
    if s == "AdministrativeExposure"@ {
        Some(crate::correlation::CorrelationKind::AdministrativeExposure)
    } else if s == "ServiceExpansion"@ {
        Some(crate::correlation::CorrelationKind::ServiceExpansion)
    } else if s == "InfrastructureShift"@ {
        Some(crate::correlation::CorrelationKind::InfrastructureShift)
    } else if s == "RiskyDeployment"@ {
        Some(crate::correlation::CorrelationKind::RiskyDeployment)
    } else if s == "NonProductionLeak"@ {
        Some(crate::correlation::CorrelationKind::NonProductionLeak)
    } else if s == "RecurringSurfaceChange"@ {
        Some(crate::correlation::CorrelationKind::RecurringSurfaceChange)
    } else if s == "UnknownComposite"@ {
        Some(crate::correlation::CorrelationKind::UnknownComposite)
    } else {
        None
    }
}

impl crate::drift::Severity {
    /// The severity a stored text names (see `severity_of_stored`).
    pub fn from_str(value: &str) -> (r: Result<crate::drift::Severity, ()>)
        ensures
            r matches Ok(s) ==> severity_of_stored(value@) == Some(s),
            r is Err ==> severity_of_stored(value@) is None,
    {
        if eq_ignore_case(value, "INFO") {
            Ok(crate::drift::Severity::Info)
        } else if eq_ignore_case(value, "LOW") {
            Ok(crate::drift::Severity::Low)
        } else if eq_ignore_case(value, "MEDIUM") {
            Ok(crate::drift::Severity::Medium)
        } else if eq_ignore_case(value, "HIGH") {
            Ok(crate::drift::Severity::High)
        } else {
            Err(())
        }
    }
}

impl crate::drift::Criticality {
    /// The criticality a stored text names (see `criticality_of_stored`).
    pub fn from_str(value: &str) -> (r: Result<crate::drift::Criticality, ()>)
        ensures
            r matches Ok(c) ==> criticality_of_stored(value@) == Some(c),
            r is Err ==> criticality_of_stored(value@) is None,
    {
        if eq_ignore_case(value, "LOW") {
            Ok(crate::drift::Criticality::Low)
        } else if eq_ignore_case(value, "MEDIUM") {
            Ok(crate::drift::Criticality::Medium)
        } else if eq_ignore_case(value, "HIGH") {
            Ok(crate::drift::Criticality::High)
        } else if eq_ignore_case(value, "CRITICAL") {
            Ok(crate::drift::Criticality::Critical)
        } else {
            Err(())
        }
    }
}

impl crate::correlation::EpisodeState {
    /// The episode state a stored text names (see `episode_state_of_stored`).
    pub fn from_str(value: &str) -> (r: Result<crate::correlation::EpisodeState, ()>)
        ensures
            r matches Ok(s) ==> episode_state_of_stored(value@) == Some(s),
            r is Err ==> episode_state_of_stored(value@) is None,
    {
        if eq_ignore_case(value, "new") || eq_ignore_case(value, "open") || eq_ignore_case(value, "active") {
            Ok(crate::correlation::EpisodeState::New)
        } else if eq_ignore_case(value, "persistent") {
            Ok(crate::correlation::EpisodeState::Persistent)
        } else if eq_ignore_case(value, "resolved") {
            Ok(crate::correlation::EpisodeState::Resolved)
        } else {
            Err(())
        }
    }
}

impl crate::correlation::CorrelationKind {
    /// The correlation kind a stored text names (see `kind_of_stored`).
    pub fn from_str(value: &str) -> (r: Result<crate::correlation::CorrelationKind, ()>)
        ensures
            r matches Ok(k) ==> kind_of_stored(value@) == Some(k),
            r is Err ==> kind_of_stored(value@) is None,
    {
        if str_eq(value, "AdministrativeExposure") {
            Ok(crate::correlation::CorrelationKind::AdministrativeExposure)
        } else if str_eq(value, "ServiceExpansion") {
            Ok(crate::correlation::CorrelationKind::ServiceExpansion)
        } else if str_eq(value, "InfrastructureShift") {
            Ok(crate::correlation::CorrelationKind::InfrastructureShift)
        } else if str_eq(value, "RiskyDeployment") {
            Ok(crate::correlation::CorrelationKind::RiskyDeployment)
        } else if str_eq(value, "NonProductionLeak") {
            Ok(crate::correlation::CorrelationKind::NonProductionLeak)
        } else if str_eq(value, "RecurringSurfaceChange") {
            Ok(crate::correlation::CorrelationKind::RecurringSurfaceChange)
        } else if str_eq(value, "UnknownComposite") {
            Ok(crate::correlation::CorrelationKind::UnknownComposite)
        } else {
            Err(())
        }
    }
}

} // verus!

verus! {

/// An episode as stored: its lists written as JSON texts and its times as
/// RFC 3339 texts.
#[derive(Debug, Clone)]
pub struct StoredEpisodeRecord {
    pub episode_id: String,
    pub target: String,
    pub title: String,
    pub kind: String,
    pub severity: String,
    pub criticality: String,
    pub score: u32,
    pub state: String,
    pub resource_count: usize,
    pub resources_json: String,
    pub cluster_ids_json: String,
    pub started_at: String,
    pub ended_at: String,
    pub summary: String,
    pub explanation_json: String,
}

/// The list of strings a JSON text holds, when it holds one.
pub uninterp spec fn json_string_list(s: Seq<char>) -> Option<Seq<Seq<char>>>;

/// `serde_json::from_str::<Vec<String>>`: the list of strings a JSON text
/// holds, or nothing when it holds none. Only that the answer is a function
/// of the text is claimed.
#[verifier::external_body]
fn parse_json_strings(s: &str) -> (r: Option<Vec<String>>)
    ensures
        match r {
            Some(v) => json_string_list(s@) == Some(strings_view(v@)),
            None => json_string_list(s@) is None,
        },
{
    serde_json::from_str::<Vec<String>>(s).ok()
}

/// The episode a stored record describes: every list, name and time must
/// read, else there is none. Times keep their whole seconds.
pub open spec fn stored_episode(item: StoredEpisodeRecord) -> Option<crate::correlation::EpisodeV> {
    let resources = json_string_list(item.resources_json@);
    let cluster_ids = json_string_list(item.cluster_ids_json@);
    let explanation = json_string_list(item.explanation_json@);
    let kind = kind_of_stored(item.kind@);
    let severity = severity_of_stored(item.severity@);
    let criticality = criticality_of_stored(item.criticality@);
    let state = episode_state_of_stored(item.state@);
    let started = crate::engine::rfc3339_instant(item.started_at@);
    let ended = crate::engine::rfc3339_instant(item.ended_at@);
    if resources is Some && cluster_ids is Some && explanation is Some && kind is Some && severity is Some
        && criticality is Some && state is Some && started is Some && ended is Some {
        Some(
            crate::correlation::EpisodeV {
                episode_id: item.episode_id@,
                target: item.target@,
                title: item.title@,
                kind: kind->Some_0,
                severity: severity->Some_0,
                criticality: criticality->Some_0,
                score: item.score,
                state: state->Some_0,
                resource_count: item.resource_count,
                resources: resources->Some_0,
                cluster_ids: cluster_ids->Some_0,
                started_at: (started->Some_0).0,
                ended_at: (ended->Some_0).0,
                summary: item.summary@,
                explanation: explanation->Some_0,
            },
        )
    } else {
        None
    }
}

/// `map_stored_episode_to_risk_episode` (see `stored_episode`).
pub fn map_stored_episode_to_risk_episode(item: &StoredEpisodeRecord) -> (r: Option<crate::correlation::RiskEpisode>)
    ensures
        match r {
            Some(e) => stored_episode(*item) == Some(e@),
            None => stored_episode(*item) is None,
        },
{
    let resources = match parse_json_strings(item.resources_json.as_str()) {
        Some(v) => v,
        None => return None,
    };
    let cluster_ids = match parse_json_strings(item.cluster_ids_json.as_str()) {
        Some(v) => v,
        None => return None,
    };
    let explanation = match parse_json_strings(item.explanation_json.as_str()) {
        Some(v) => v,
        None => return None,
    };
    let kind = match crate::correlation::CorrelationKind::from_str(item.kind.as_str()) {
        Ok(k) => k,
        Err(()) => return None,
    };
    let severity = match crate::drift::Severity::from_str(item.severity.as_str()) {
        Ok(s) => s,
        Err(()) => return None,
    };
    let criticality = match crate::drift::Criticality::from_str(item.criticality.as_str()) {
        Ok(c) => c,
        Err(()) => return None,
    };
    let state = match crate::correlation::EpisodeState::from_str(item.state.as_str()) {
        Ok(s) => s,
        Err(()) => return None,
    };
    let started_at = match crate::engine::parse_rfc3339(item.started_at.as_str()) {
        Some(t) => t.0,
        None => return None,
    };
    let ended_at = match crate::engine::parse_rfc3339(item.ended_at.as_str()) {
        Some(t) => t.0,
        None => return None,
    };
    Some(
        crate::correlation::RiskEpisode {
            episode_id: item.episode_id.clone(),
            target: item.target.clone(),
            title: item.title.clone(),
            kind,
            severity,
            criticality,
            score: item.score,
            state,
            resource_count: item.resource_count,
            resources,
            cluster_ids,
            started_at,
            ended_at,
            summary: item.summary.clone(),
            explanation,
        },
    )
}

} // verus!

verus! {

/// The position of the first incident with identifier `id`.
pub open spec fn incident_index(st: Seq<IncidentV>, id: Seq<char>) -> Option<int>
    decreases st.len(),
{
    if st.len() == 0 {
        None
    } else {
        match incident_index(st.drop_last(), id) {
            Some(i) => Some(i),
            None => if st.last().incident_id == id {
                Some(st.len() - 1)
            } else {
                None
            },
        }
    }
}

/// The stored incident with identifier `id`, if any.
pub open spec fn stored_incident(st: Seq<IncidentV>, id: Seq<char>) -> Option<IncidentV> {
    match incident_index(st, id) {
        Some(i) => Some(st[i]),
        None => None,
    }
}

/// The decision on `c` against the incidents stored so far.
pub open spec fn decision_on(st: Seq<IncidentV>, c: IncidentV) -> (int, IncidentV, bool) {
    reconcile_decision(stored_incident(st, c.incident_id), c)
}

/// The stored incidents after reconciling `c`: a created incident is
/// added, an updated one replaced, a kept one left alone.
pub open spec fn stored_after_one(st: Seq<IncidentV>, c: IncidentV) -> Seq<IncidentV> {
    let d = decision_on(st, c);
    if d.0 == 0 {
        st.push(d.1)
    } else if d.0 == 1 {
        st.update(incident_index(st, c.incident_id).unwrap(), d.1)
    } else {
        st
    }
}

/// The stored incidents after reconciling every candidate of `cs` in order.
pub open spec fn stored_after(st: Seq<IncidentV>, cs: Seq<IncidentV>) -> Seq<IncidentV>
    decreases cs.len(),
{
    if cs.len() == 0 {
        st
    } else {
        stored_after_one(stored_after(st, cs.drop_last()), cs.last())
    }
}

/// The decision on candidate `i` of `cs`, once the earlier ones are stored.
pub open spec fn decision_at(st: Seq<IncidentV>, cs: Seq<IncidentV>, i: int) -> (int, IncidentV, bool) {
    decision_on(stored_after(st, cs.take(i)), cs[i])
}

/// How many candidates of `cs` lead to decision `kind` (0 create, 1 update,
/// 2 keep).
pub open spec fn decisions_of_kind(st: Seq<IncidentV>, cs: Seq<IncidentV>, kind: int) -> nat
    decreases cs.len(),
{
    if cs.len() == 0 {
        0
    } else {
        decisions_of_kind(st, cs.drop_last(), kind) + if decision_on(
            stored_after(st, cs.drop_last()),
            cs.last(),
        ).0 == kind {
            1nat
        } else {
            0nat
        }
    }
}

/// How many candidates of `cs` reopen a resolved incident.
pub open spec fn reopenings(st: Seq<IncidentV>, cs: Seq<IncidentV>) -> nat
    decreases cs.len(),
{
    if cs.len() == 0 {
        0
    } else {
        reopenings(st, cs.drop_last()) + if ({
            let d = decision_on(stored_after(st, cs.drop_last()), cs.last());
            d.0 == 1 && d.2
        }) {
            1nat
        } else {
            0nat
        }
    }
}

/// The identifiers of the candidates, in order.
pub open spec fn incident_ids(cs: Seq<IncidentV>) -> Seq<Seq<char>> {
    Seq::new(cs.len(), |i: int| cs[i].incident_id)
}

/// Whether an action carries out a decision.
pub open spec fn action_is(a: IncidentAction, d: (int, IncidentV, bool)) -> bool {
    match a {
        IncidentAction::Create(x) => d.0 == 0 && x@ == d.1,
        IncidentAction::Update { incident, reopened } => d.0 == 1 && incident@ == d.1 && reopened == d.2,
        IncidentAction::Keep => d.0 == 2,
    }
}

/// What reconciling the current candidates with the stored incidents does.
#[derive(Debug, Clone)]
pub struct IncidentReconciliation {
    /// One action per candidate, in order.
    pub actions: Vec<IncidentAction>,
    /// The stored incidents after the creations and updates.
    pub stored: Vec<IncidentRecord>,
    /// The open incidents, from those stored before, that no candidate names.
    pub to_resolve: Vec<String>,
    pub created: usize,
    pub updated: usize,
    /// Updates that reopen a resolved incident, each alerted as reopened.
    pub reopened: usize,
    pub resolved: usize,
}

proof fn lemma_incident_index(st: Seq<IncidentV>, id: Seq<char>)
    ensures
        incident_index(st, id) matches Some(i) ==> 0 <= i < st.len() && st[i].incident_id == id
            && forall|j: int| 0 <= j < i ==> (#[trigger] st[j]).incident_id != id,
        incident_index(st, id) is None ==> forall|j: int| 0 <= j < st.len() ==> (#[trigger] st[j]).incident_id != id,
    decreases st.len(),
{
    if st.len() > 0 {
        lemma_incident_index(st.drop_last(), id);
        assert forall|j: int| 0 <= j < st.len() - 1 implies st.drop_last()[j] == #[trigger] st[j] by {}
    }
}

/// The position of the first incident with identifier `id`.
fn find_incident(st: &Vec<IncidentRecord>, id: &str) -> (r: Option<usize>)
    ensures
        match r {
            Some(i) => incident_index(incidents_view(st@), id@) == Some(i as int),
            None => incident_index(incidents_view(st@), id@) is None,
        },
{
    let ghost sv = incidents_view(st@);
    proof {
        lemma_incident_index(sv, id@);
    }
    let mut i: usize = 0;
    while i < st.len()
        invariant
            i <= st@.len(),
            sv == incidents_view(st@),
            forall|j: int| 0 <= j < i ==> (#[trigger] sv[j]).incident_id != id@,
        decreases st.len() - i,
    {
        assert(sv[i as int] == st@[i as int]@);
        if str_eq(st[i].incident_id.as_str(), id) {
            proof {
                lemma_incident_index(sv, id@);
                if let Some(k) = incident_index(sv, id@) {
                    if k > i {
                        assert(sv[i as int].incident_id == id@);
                    }
                }
            }
            return Some(i);
        }
        i = i + 1;
    }
    None
}

fn clone_opt(o: &Option<String>) -> (r: Option<String>)
    ensures
        opt_chars(r) == opt_chars(*o),
{
    match o {
        Some(s) => Some(s.clone()),
        None => None,
    }
}

/// A copy of an incident.
pub fn clone_incident(x: &IncidentRecord) -> (r: IncidentRecord)
    ensures
        r@ == x@,
{
    IncidentRecord {
        incident_id: x.incident_id.clone(),
        target: x.target.clone(),
        source_kind: x.source_kind.clone(),
        source_id: x.source_id.clone(),
        title: x.title.clone(),
        severity: x.severity.clone(),
        score: x.score,
        state: x.state.clone(),
        owner: clone_opt(&x.owner),
        notes: clone_opt(&x.notes),
        resource: x.resource.clone(),
        context_json: x.context_json.clone(),
        created_at: x.created_at.clone(),
        updated_at: x.updated_at.clone(),
    }
}

/// Reconciles every current candidate, in order, with the stored incidents
/// of a target: each candidate is created, updated or kept (see
/// `reconcile_incident`) against the incidents stored so far, and the open
/// stored incidents that no candidate names are to be resolved; with the
/// number of creations, updates, reopenings and resolutions.
pub fn reconcile_incidents(existing: &Vec<IncidentRecord>, candidates: &Vec<IncidentRecord>) -> (r: IncidentReconciliation)
    ensures
        ({
            let ev = incidents_view(existing@);
            let cv = incidents_view(candidates@);
            &&& r.actions@.len() == cv.len()
            &&& forall|i: int| 0 <= i < cv.len() ==> action_is(#[trigger] r.actions@[i], decision_at(ev, cv, i))
            &&& incidents_view(r.stored@) == stored_after(ev, cv)
            &&& strings_view(r.to_resolve@) == to_resolve(ev, incident_ids(cv))
            &&& r.created == decisions_of_kind(ev, cv, 0)
            &&& r.updated == decisions_of_kind(ev, cv, 1)
            &&& r.reopened == reopenings(ev, cv)
            &&& r.resolved == r.to_resolve@.len()
        }),
{
    let ghost ev = incidents_view(existing@);
    let ghost cv = incidents_view(candidates@);
    let mut stored: Vec<IncidentRecord> = Vec::new();
    let mut k: usize = 0;
    while k < existing.len()
        invariant
            k <= existing@.len(),
            ev == incidents_view(existing@),
            incidents_view(stored@) == ev.take(k as int),
        decreases existing.len() - k,
    {
        let x = clone_incident(&existing[k]);
        assert(ev[k as int] == existing@[k as int]@);
        assert(incidents_view(stored@).len() == stored@.len());
        assert(ev.take(k as int).len() == k);
        assert(stored@.len() == k);
        assert forall|j: int| 0 <= j < k implies #[trigger] stored@.push(x)[j]@ == ev[j] by {
            assert(stored@.push(x)[j] == stored@[j]);
            assert(incidents_view(stored@)[j] == ev.take(k as int)[j]);
        }
        assert(incidents_view(stored@.push(x)) =~= ev.take(k + 1));
        stored.push(x);
        k = k + 1;
    }
    assert(ev.take(existing@.len() as int) =~= ev);
    let mut actions: Vec<IncidentAction> = Vec::new();
    let mut ids: Vec<String> = Vec::new();
    let mut created: usize = 0;
    let mut updated: usize = 0;
    let mut reopened: usize = 0;
    let mut i: usize = 0;
    assert(cv.take(0) =~= Seq::<IncidentV>::empty());
    while i < candidates.len()
        invariant
            i <= candidates@.len(),
            ev == incidents_view(existing@),
            cv == incidents_view(candidates@),
            incidents_view(stored@) == stored_after(ev, cv.take(i as int)),
            actions@.len() == i,
            forall|j: int| 0 <= j < i ==> action_is(#[trigger] actions@[j], decision_at(ev, cv, j)),
            strings_view(ids@) == incident_ids(cv.take(i as int)),
            created == decisions_of_kind(ev, cv.take(i as int), 0),
            updated == decisions_of_kind(ev, cv.take(i as int), 1),
            reopened == reopenings(ev, cv.take(i as int)),
            created <= i,
            updated <= i,
            reopened <= i,
        decreases candidates.len() - i,
    {
        let ghost sv = incidents_view(stored@);
        let ghost prefix = cv.take(i + 1);
        assert(prefix.drop_last() =~= cv.take(i as int));
        assert(prefix.last() == cv[i as int]);
        assert(cv[i as int] == candidates@[i as int]@);
        let cand = clone_incident(&candidates[i]);
        let idx = find_incident(&stored, candidates[i].incident_id.as_str());
        proof {
            lemma_incident_index(sv, cand@.incident_id);
        }
        let action = match idx {
            Some(j) => {
                assert(sv[j as int] == stored@[j as int]@);
                reconcile_incident(Some(&stored[j]), cand)
            },
            None => reconcile_incident(None, cand),
        };
        let ghost d = decision_on(sv, cv[i as int]);
        assert(action_is(action, d));
        match &action {
            IncidentAction::Create(x) => {
                let y = clone_incident(x);
                assert(incidents_view(stored@.push(y)) =~= sv.push(d.1));
                stored.push(y);
                created = created + 1;
            },
            IncidentAction::Update { incident, reopened: again } => {
                let j = idx.unwrap();
                let y = clone_incident(incident);
                stored.set(j, y);
                assert(incidents_view(stored@) =~= sv.update(j as int, d.1));
                updated = updated + 1;
                if *again {
                    reopened = reopened + 1;
                }
            },
            IncidentAction::Keep => {},
        }
        actions.push(action);
        let id = candidates[i].incident_id.clone();
        proof {
            lemma_strings_view_push(ids@, id);
            assert(incident_ids(prefix) =~= incident_ids(cv.take(i as int)).push(id@));
        }
        ids.push(id);
        assert forall|j: int| 0 <= j < i + 1 implies action_is(#[trigger] actions@[j], decision_at(ev, cv, j)) by {
            if j == i {
                assert(decision_at(ev, cv, j) == d);
            }
        }
        i = i + 1;
    }
    assert(cv.take(candidates@.len() as int) =~= cv);
    let to_resolve = incidents_to_resolve(existing, &ids);
    let resolved = to_resolve.len();
    IncidentReconciliation { actions, stored, to_resolve, created, updated, reopened, resolved }
}

/// Every candidate is created, updated or kept, exactly one of the three,
/// and only updates reopen an incident.
pub proof fn law_reconcile_counts(st: Seq<IncidentV>, cs: Seq<IncidentV>)
    ensures
        decisions_of_kind(st, cs, 0) + decisions_of_kind(st, cs, 1) + decisions_of_kind(st, cs, 2) == cs.len(),
        reopenings(st, cs) <= decisions_of_kind(st, cs, 1),
    decreases cs.len(),
{
    if cs.len() > 0 {
        law_reconcile_counts(st, cs.drop_last());
    }
}

} // verus!
