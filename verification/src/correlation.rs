//! Correlation of findings into clusters and of clusters into risk episodes:
//! the kind of a cluster, its wording, and the episodes built from clusters.
use vstd::prelude::*;
use crate::drift::{
    criticality_rank, findings_view, Criticality, DriftFinding, Environment, FindingState,
    FindingV, Severity,
};
use crate::order::{
    lemma_insert_pos_lt_first, lemma_sort_by_lt_step, seq_lt, sort_by_lt, sort_desc, sorted_distinct,
    sorted_unique, str_less, strictly_sorted,
};
use crate::report::DriftReport;
use crate::drift::environment_name;
use crate::ids::{digest_id, stable_hash};
use crate::sources::{join_comma, join_texts};
use crate::report::{score_total, max_criticality, max_severity};
use crate::text::{
    decimal, decimal_text, lemma_strings_view_push, owned, push_str, starts_with,
    starts_with_lit, strings_view, str_eq,
};

verus! {

#[derive(Debug, Clone, Copy, PartialEq, Eq, Structural)]
pub enum CorrelationKind {
    AdministrativeExposure,
    ServiceExpansion,
    InfrastructureShift,
    RiskyDeployment,
    NonProductionLeak,
    RecurringSurfaceChange,
    UnknownComposite,
}

pub open spec fn kind_name(k: CorrelationKind) -> Seq<char> {
    match k {
        CorrelationKind::AdministrativeExposure => "AdministrativeExposure"@,
        CorrelationKind::ServiceExpansion => "ServiceExpansion"@,
        CorrelationKind::InfrastructureShift => "InfrastructureShift"@,
        CorrelationKind::RiskyDeployment => "RiskyDeployment"@,
        CorrelationKind::NonProductionLeak => "NonProductionLeak"@,
        CorrelationKind::RecurringSurfaceChange => "RecurringSurfaceChange"@,
        CorrelationKind::UnknownComposite => "UnknownComposite"@,
    }
}

impl CorrelationKind {
    pub fn as_str(&self) -> (r: &'static str)
        ensures
            r@ == kind_name(*self),
    {
        match self {
            CorrelationKind::AdministrativeExposure => "AdministrativeExposure",
            CorrelationKind::ServiceExpansion => "ServiceExpansion",
            CorrelationKind::InfrastructureShift => "InfrastructureShift",
            CorrelationKind::RiskyDeployment => "RiskyDeployment",
            CorrelationKind::NonProductionLeak => "NonProductionLeak",
            CorrelationKind::RecurringSurfaceChange => "RecurringSurfaceChange",
            CorrelationKind::UnknownComposite => "UnknownComposite",
        }
    }

    pub fn to_string(&self) -> (r: String)
        ensures
            r@ == kind_name(*self),
    {
        owned(self.as_str())
    }
}

/// How findings are correlated.
#[derive(Debug, Clone, Copy)]
pub struct CorrelationConfig {
    pub window_minutes: i64,
}

impl Default for CorrelationConfig {
    /// A window of thirty minutes.
    fn default() -> (c: CorrelationConfig)
        ensures
            c.window_minutes == 30,
    {
        CorrelationConfig { window_minutes: 30 }
    }
}

pub open spec fn any_finding(fs: Seq<FindingV>, pred: spec_fn(FindingV) -> bool) -> bool {
    exists|i: int| 0 <= i < fs.len() && pred(#[trigger] fs[i])
}

pub open spec fn is_admin_env(f: FindingV) -> bool {
    f.environment == Environment::Admin
}

pub open spec fn is_nonprod_env(f: FindingV) -> bool {
    f.environment == Environment::Development || f.environment == Environment::Staging
        || f.environment == Environment::Test
}

pub open spec fn has_category(f: FindingV, c: Seq<char>) -> bool {
    f.category == c
}

pub open spec fn is_repeated(f: FindingV) -> bool {
    f.state == FindingState::Recurring || f.state == FindingState::Persistent
}

/// Spec of `infer_kind`: the first rule that applies, in order of precedence.
pub open spec fn kind_of(fs: Seq<FindingV>) -> CorrelationKind {
    if any_finding(fs, |f: FindingV| is_admin_env(f)) {
        CorrelationKind::AdministrativeExposure
    } else if any_finding(fs, |f: FindingV| is_nonprod_env(f)) {
        CorrelationKind::NonProductionLeak
    } else if any_finding(fs, |f: FindingV| has_category(f, "service_backend_changed"@))
        && any_finding(fs, |f: FindingV| has_category(f, "service_fingerprint_changed"@)) {
        CorrelationKind::InfrastructureShift
    } else if any_finding(fs, |f: FindingV| has_category(f, "service_became_available"@))
        && fs.len() >= 2 {
        CorrelationKind::RiskyDeployment
    } else if any_finding(fs, |f: FindingV| is_repeated(f)) {
        CorrelationKind::RecurringSurfaceChange
    } else if fs.len() >= 2 {
        CorrelationKind::ServiceExpansion
    } else {
        CorrelationKind::UnknownComposite
    }
}

/// Whether some finding is in the given category.
fn any_in_category(findings: &Vec<DriftFinding>, category: &str) -> (r: bool)
    ensures
        r == any_finding(findings_view(findings@), |f: FindingV| has_category(f, category@)),
{
    let ghost fs = findings_view(findings@);
    let mut i: usize = 0;
    while i < findings.len()
        invariant
            i <= findings.len(),
            fs == findings_view(findings@),
            forall|j: int| 0 <= j < i ==> !has_category(#[trigger] fs[j], category@),
        decreases findings.len() - i,
    {
        if str_eq(findings[i].category.as_str(), category) {
            assert(has_category(fs[i as int], category@));
            return true;
        }
        i = i + 1;
    }
    false
}

/// The findings flags that decide a cluster's kind and wording.
struct Signals {
    admin: bool,
    nonprod: bool,
    repeated: bool,
    critical: bool,
}

fn signals(findings: &Vec<DriftFinding>) -> (s: Signals)
    ensures
        s.admin == any_finding(findings_view(findings@), |f: FindingV| is_admin_env(f)),
        s.nonprod == any_finding(findings_view(findings@), |f: FindingV| is_nonprod_env(f)),
        s.repeated == any_finding(findings_view(findings@), |f: FindingV| is_repeated(f)),
        s.critical == any_finding(
            findings_view(findings@),
            |f: FindingV| f.criticality == Criticality::Critical,
        ),
{
    let ghost fs = findings_view(findings@);
    let mut s = Signals { admin: false, nonprod: false, repeated: false, critical: false };
    let mut i: usize = 0;
    while i < findings.len()
        invariant
            i <= findings.len(),
            fs == findings_view(findings@),
            s.admin == exists|j: int| 0 <= j < i && is_admin_env(#[trigger] fs[j]),
            s.nonprod == exists|j: int| 0 <= j < i && is_nonprod_env(#[trigger] fs[j]),
            s.repeated == exists|j: int| 0 <= j < i && is_repeated(#[trigger] fs[j]),
            s.critical == exists|j: int| 0 <= j < i && (#[trigger] fs[j]).criticality
                == Criticality::Critical,
        decreases findings.len() - i,
    {
        let f = &findings[i];
        assert(fs[i as int] == f@);
        match f.environment {
            Environment::Admin => s.admin = true,
            Environment::Development | Environment::Staging | Environment::Test => s.nonprod = true,
            _ => {},
        }
        match f.state {
            FindingState::Recurring | FindingState::Persistent => s.repeated = true,
            _ => {},
        }
        match f.criticality {
            Criticality::Critical => s.critical = true,
            _ => {},
        }
        i = i + 1;
    }
    s
}

/// The kind of a cluster of findings.
pub fn infer_kind(findings: &Vec<DriftFinding>) -> (k: CorrelationKind)
    ensures
        k == kind_of(findings_view(findings@)),
{
    let s = signals(findings);
    let backend = any_in_category(findings, "service_backend_changed");
    let fingerprint = any_in_category(findings, "service_fingerprint_changed");
    let available = any_in_category(findings, "service_became_available");
    if s.admin {
        CorrelationKind::AdministrativeExposure
    } else if s.nonprod {
        CorrelationKind::NonProductionLeak
    } else if backend && fingerprint {
        CorrelationKind::InfrastructureShift
    } else if available && findings.len() >= 2 {
        CorrelationKind::RiskyDeployment
    } else if s.repeated {
        CorrelationKind::RecurringSurfaceChange
    } else if findings.len() >= 2 {
        CorrelationKind::ServiceExpansion
    } else {
        CorrelationKind::UnknownComposite
    }
}

/// The points each kind adds to a cluster's score.
pub open spec fn kind_bonus(k: CorrelationKind) -> int {
    match k {
        CorrelationKind::AdministrativeExposure => 40,
        CorrelationKind::ServiceExpansion => 20,
        CorrelationKind::InfrastructureShift => 25,
        CorrelationKind::RiskyDeployment => 30,
        CorrelationKind::NonProductionLeak => 15,
        CorrelationKind::RecurringSurfaceChange => 35,
        CorrelationKind::UnknownComposite => 5,
    }
}

/// The points a cluster's size adds.
pub open spec fn size_bonus(n: nat) -> int {
    if n >= 4 {
        10
    } else if n >= 2 {
        5
    } else {
        0
    }
}

/// The score of a cluster before the criticality weighting: the findings'
/// scores plus the kind and size bonuses.
pub fn cluster_base_score(findings: &Vec<DriftFinding>, kind: &CorrelationKind) -> (r: u32)
    requires
        score_total(findings_view(findings@)) + 50 <= u32::MAX,
    ensures
        r == score_total(findings_view(findings@)) + kind_bonus(*kind) + size_bonus(findings@.len()),
{
    let ghost fs = findings_view(findings@);
    let mut total: u32 = 0;
    let mut i: usize = 0;
    while i < findings.len()
        invariant
            i <= findings.len(),
            fs == findings_view(findings@),
            score_total(fs) + 50 <= u32::MAX,
            total == score_total(fs.take(i as int)),
        decreases findings.len() - i,
    {
        assert(fs.take(i + 1).drop_last() =~= fs.take(i as int));
        proof {
            crate::report::lemma_score_total_mono(fs, i + 1);
        }
        total = total + findings[i].score;
        i = i + 1;
    }
    assert(fs.take(findings.len() as int) =~= fs);
    let bonus: u32 = match kind {
        CorrelationKind::AdministrativeExposure => 40,
        CorrelationKind::ServiceExpansion => 20,
        CorrelationKind::InfrastructureShift => 25,
        CorrelationKind::RiskyDeployment => 30,
        CorrelationKind::NonProductionLeak => 15,
        CorrelationKind::RecurringSurfaceChange => 35,
        CorrelationKind::UnknownComposite => 5,
    };
    let count_bonus: u32 = if findings.len() >= 4 {
        10
    } else if findings.len() >= 2 {
        5
    } else {
        0
    };
    total + bonus + count_bonus
}

/// The weighting a cluster's criticality calls for.
#[derive(Debug, Clone, Copy, PartialEq, Eq, Structural)]
pub enum CriticalityWeight {
    /// Some finding is on a critical resource.
    Critical,
    /// Some finding is on a highly critical resource, none on a critical one.
    High,
    /// Neither.
    Plain,
}

/// Which weighting applies to a cluster's score.
pub fn criticality_weight(findings: &Vec<DriftFinding>) -> (w: CriticalityWeight)
    ensures
        w == if any_finding(findings_view(findings@), |f: FindingV| f.criticality == Criticality::Critical) {
            CriticalityWeight::Critical
        } else if any_finding(findings_view(findings@), |f: FindingV| f.criticality == Criticality::High) {
            CriticalityWeight::High
        } else {
            CriticalityWeight::Plain
        },
{
    let ghost fs = findings_view(findings@);
    let mut critical = false;
    let mut high = false;
    let mut i: usize = 0;
    while i < findings.len()
        invariant
            i <= findings.len(),
            fs == findings_view(findings@),
            critical == exists|j: int| 0 <= j < i && (#[trigger] fs[j]).criticality == Criticality::Critical,
            high == exists|j: int| 0 <= j < i && (#[trigger] fs[j]).criticality == Criticality::High,
        decreases findings.len() - i,
    {
        assert(fs[i as int] == findings@[i as int]@);
        match findings[i].criticality {
            Criticality::Critical => critical = true,
            Criticality::High => high = true,
            _ => {},
        }
        i = i + 1;
    }
    if critical {
        CriticalityWeight::Critical
    } else if high {
        CriticalityWeight::High
    } else {
        CriticalityWeight::Plain
    }
}

/// The sorted distinct strings of a list (`sort` then `dedup`).
pub fn dedup_strings(values: Vec<String>) -> (r: Vec<String>)
    ensures
        strings_view(r@) == sorted_distinct(strings_view(values@)),
{
    sorted_unique(&values)
}

/// The resources of the findings.
pub open spec fn resources_of(fs: Seq<FindingV>) -> Seq<Seq<char>> {
    Seq::new(fs.len(), |i: int| fs[i].resource)
}

/// Spec of `build_cluster_explanation`: the count and kind, the score, the
/// number of distinct resources, then a line for each signal present.
pub open spec fn explanation_of(fs: Seq<FindingV>, kind: CorrelationKind, score: u32) -> Seq<Seq<char>> {
    let base = seq![
        "Se correlacionaron "@ + decimal(fs.len()) + " hallazgos en un cluster de tipo "@ + kind_name(kind) + "."@,
        "El score compuesto del cluster es "@ + decimal(score as nat) + "."@,
        "El cluster involucra "@ + decimal(sorted_distinct(resources_of(fs)).len()) + " recursos únicos."@,
    ];
    let a = if any_finding(fs, |f: FindingV| f.criticality == Criticality::Critical) {
        base.push("Se aplicó ponderación adicional por activos críticos."@)
    } else {
        base
    };
    let b = if any_finding(fs, |f: FindingV| is_admin_env(f)) {
        a.push("Se detectó contexto administrativo dentro del cluster."@)
    } else {
        a
    };
    if any_finding(fs, |f: FindingV| has_category(f, "service_backend_changed"@)) && any_finding(
        fs,
        |f: FindingV| has_category(f, "service_fingerprint_changed"@),
    ) {
        b.push("Se detectó combinación de cambio de backend y fingerprint tecnológico."@)
    } else {
        b
    }
}

/// Appends `s` to a list of strings.
fn push_string(v: &mut Vec<String>, s: String)
    ensures
        strings_view(final(v)@) == strings_view(old(v)@).push(s@),
{
    proof {
        lemma_strings_view_push(v@, s);
    }
    v.push(s);
}

/// The reasons that explain a cluster.
pub fn build_cluster_explanation(findings: &Vec<DriftFinding>, kind: &CorrelationKind, score: u32) -> (r:
    Vec<String>)
    ensures
        strings_view(r@) == explanation_of(findings_view(findings@), *kind, score),
{
    let ghost fs = findings_view(findings@);
    let mut reasons: Vec<String> = Vec::new();
    let mut first = owned("Se correlacionaron ");
    let n = decimal_text(findings.len() as u64);
    push_str(&mut first, n.as_str());
    push_str(&mut first, " hallazgos en un cluster de tipo ");
    push_str(&mut first, kind.as_str());
    push_str(&mut first, ".");
    push_string(&mut reasons, first);
    let mut second = owned("El score compuesto del cluster es ");
    let sc = decimal_text(score as u64);
    push_str(&mut second, sc.as_str());
    push_str(&mut second, ".");
    push_string(&mut reasons, second);
    let mut resources: Vec<String> = Vec::new();
    let mut i: usize = 0;
    while i < findings.len()
        invariant
            i <= findings.len(),
            fs == findings_view(findings@),
            strings_view(resources@) == resources_of(fs).take(i as int),
        decreases findings.len() - i,
    {
        push_string(&mut resources, findings[i].resource.clone());
        i = i + 1;
        assert(strings_view(resources@) =~= resources_of(fs).take(i as int));
    }
    assert(resources_of(fs).take(findings.len() as int) =~= resources_of(fs));
    let unique = sorted_unique(&resources);
    let mut third = owned("El cluster involucra ");
    let u = decimal_text(unique.len() as u64);
    push_str(&mut third, u.as_str());
    push_str(&mut third, " recursos únicos.");
    push_string(&mut reasons, third);
    let s = signals(findings);
    if s.critical {
        push_string(&mut reasons, owned("Se aplicó ponderación adicional por activos críticos."));
    }
    if s.admin {
        push_string(&mut reasons, owned("Se detectó contexto administrativo dentro del cluster."));
    }
    if any_in_category(findings, "service_backend_changed") && any_in_category(
        findings,
        "service_fingerprint_changed",
    ) {
        push_string(
            &mut reasons,
            owned("Se detectó combinación de cambio de backend y fingerprint tecnológico."),
        );
    }
    reasons
}

/// `resource` without leading `http://` and then `https://` prefixes.
pub open spec fn base_resource_of(resource: Seq<char>) -> Seq<char> {
    crate::discovery::strip_leading(crate::discovery::strip_leading(resource, "http://"@), "https://"@)
}

/// Findings correlated into one cluster over a transition.
#[derive(Debug, Clone)]
pub struct CorrelationCluster {
    pub cluster_id: String,
    pub target: String,
    pub resources: Vec<String>,
    pub categories: Vec<String>,
    pub findings: Vec<DriftFinding>,
    pub kind: CorrelationKind,
    pub score: u32,
    pub dominant_severity: Severity,
    pub dominant_criticality: Criticality,
    pub started_at: i64,
    pub ended_at: i64,
    pub explanation: Vec<String>,
}

#[derive(Debug, Clone, Copy, PartialEq, Eq, Structural)]
pub enum EpisodeState {
    New,
    Recurring,
    Persistent,
    Resolved,
}

pub open spec fn episode_state_name(s: EpisodeState) -> Seq<char> {
    match s {
        EpisodeState::New => "New"@,
        EpisodeState::Recurring => "Recurring"@,
        EpisodeState::Persistent => "Persistent"@,
        EpisodeState::Resolved => "Resolved"@,
    }
}

impl EpisodeState {
    pub fn as_str(&self) -> (r: &'static str)
        ensures
            r@ == episode_state_name(*self),
    {
        match self {
            EpisodeState::New => "New",
            EpisodeState::Recurring => "Recurring",
            EpisodeState::Persistent => "Persistent",
            EpisodeState::Resolved => "Resolved",
        }
    }

    pub fn to_string(&self) -> (r: String)
        ensures
            r@ == episode_state_name(*self),
    {
        owned(self.as_str())
    }
}

/// A risk episode: a cluster told as an event.
#[derive(Debug, Clone)]
pub struct RiskEpisode {
    pub episode_id: String,
    pub target: String,
    pub title: String,
    pub kind: CorrelationKind,
    pub severity: Severity,
    pub criticality: Criticality,
    pub score: u32,
    pub state: EpisodeState,
    pub resource_count: usize,
    pub resources: Vec<String>,
    pub cluster_ids: Vec<String>,
    pub started_at: i64,
    pub ended_at: i64,
    pub summary: String,
    pub explanation: Vec<String>,
}

/// The episodes of a target.
#[derive(Debug, Clone)]
pub struct EpisodeCollection {
    pub target: String,
    pub episode_count: usize,
    pub episodes: Vec<RiskEpisode>,
}

/// Persistent when a finding persists, else recurring when one recurs, else new.
pub open spec fn episode_state_of(fs: Seq<FindingV>) -> EpisodeState {
    if any_finding(fs, |f: FindingV| f.state == FindingState::Persistent) {
        EpisodeState::Persistent
    } else if any_finding(fs, |f: FindingV| f.state == FindingState::Recurring) {
        EpisodeState::Recurring
    } else {
        EpisodeState::New
    }
}

pub fn infer_episode_state(cluster: &CorrelationCluster) -> (s: EpisodeState)
    ensures
        s == episode_state_of(findings_view(cluster.findings@)),
{
    let ghost fs = findings_view(cluster.findings@);
    let mut persistent = false;
    let mut recurring = false;
    let mut i: usize = 0;
    while i < cluster.findings.len()
        invariant
            i <= cluster.findings.len(),
            fs == findings_view(cluster.findings@),
            persistent == exists|j: int| 0 <= j < i && (#[trigger] fs[j]).state == FindingState::Persistent,
            recurring == exists|j: int| 0 <= j < i && (#[trigger] fs[j]).state == FindingState::Recurring,
        decreases cluster.findings.len() - i,
    {
        assert(fs[i as int] == cluster.findings@[i as int]@);
        match cluster.findings[i].state {
            FindingState::Persistent => persistent = true,
            FindingState::Recurring => recurring = true,
            _ => {},
        }
        i = i + 1;
    }
    if persistent {
        EpisodeState::Persistent
    } else if recurring {
        EpisodeState::Recurring
    } else {
        EpisodeState::New
    }
}

pub open spec fn episode_title_of(k: CorrelationKind) -> Seq<char> {
    match k {
        CorrelationKind::AdministrativeExposure => "Episodio de exposición administrativa"@,
        CorrelationKind::ServiceExpansion => "Episodio de expansión de servicios"@,
        CorrelationKind::InfrastructureShift => "Episodio de cambio de infraestructura"@,
        CorrelationKind::RiskyDeployment => "Episodio de despliegue riesgoso"@,
        CorrelationKind::NonProductionLeak => "Episodio de exposición no productiva"@,
        CorrelationKind::RecurringSurfaceChange => "Episodio de cambio recurrente de superficie"@,
        CorrelationKind::UnknownComposite => "Episodio compuesto no clasificado"@,
    }
}

pub fn infer_episode_title(cluster: &CorrelationCluster) -> (t: String)
    ensures
        t@ == episode_title_of(cluster.kind),
{
    let t = match cluster.kind {
        CorrelationKind::AdministrativeExposure => "Episodio de exposición administrativa",
        CorrelationKind::ServiceExpansion => "Episodio de expansión de servicios",
        CorrelationKind::InfrastructureShift => "Episodio de cambio de infraestructura",
        CorrelationKind::RiskyDeployment => "Episodio de despliegue riesgoso",
        CorrelationKind::NonProductionLeak => "Episodio de exposición no productiva",
        CorrelationKind::RecurringSurfaceChange => "Episodio de cambio recurrente de superficie",
        CorrelationKind::UnknownComposite => "Episodio compuesto no clasificado",
    };
    owned(t)
}

/// Spec of `build_summary`.
pub open spec fn episode_summary_of(c: CorrelationCluster, state: EpisodeState) -> Seq<char> {
    "Cluster de tipo "@ + kind_name(c.kind) + " con "@ + decimal(c.findings@.len()) + " hallazgos, "@
        + decimal(sorted_distinct(strings_view(c.resources@)).len()) + " recursos únicos, score "@
        + decimal(c.score as nat) + " y estado "@ + episode_state_name(state) + "."@
}

/// One sentence about the cluster: kind, findings, distinct resources, score, state.
pub fn build_summary(cluster: &CorrelationCluster, state: &EpisodeState) -> (s: String)
    ensures
        s@ == episode_summary_of(*cluster, *state),
{
    let unique = sorted_unique(&cluster.resources);
    let mut s = owned("Cluster de tipo ");
    push_str(&mut s, cluster.kind.as_str());
    push_str(&mut s, " con ");
    let n = decimal_text(cluster.findings.len() as u64);
    push_str(&mut s, n.as_str());
    push_str(&mut s, " hallazgos, ");
    let u = decimal_text(unique.len() as u64);
    push_str(&mut s, u.as_str());
    push_str(&mut s, " recursos únicos, score ");
    let sc = decimal_text(cluster.score as u64);
    push_str(&mut s, sc.as_str());
    push_str(&mut s, " y estado ");
    push_str(&mut s, state.as_str());
    push_str(&mut s, ".");
    s
}

/// The abstract value of an episode: what orders and identifies it.
pub struct EpisodeV {
    pub episode_id: Seq<char>,
    pub target: Seq<char>,
    pub title: Seq<char>,
    pub kind: CorrelationKind,
    pub severity: Severity,
    pub criticality: Criticality,
    pub score: u32,
    pub state: EpisodeState,
    pub resource_count: usize,
    pub resources: Seq<Seq<char>>,
    pub cluster_ids: Seq<Seq<char>>,
    pub started_at: i64,
    pub ended_at: i64,
    pub summary: Seq<char>,
    pub explanation: Seq<Seq<char>>,
}

impl View for RiskEpisode {
    type V = EpisodeV;

    open spec fn view(&self) -> EpisodeV {
        EpisodeV {
            episode_id: self.episode_id@,
            target: self.target@,
            title: self.title@,
            kind: self.kind,
            severity: self.severity,
            criticality: self.criticality,
            score: self.score,
            state: self.state,
            resource_count: self.resource_count,
            resources: strings_view(self.resources@),
            cluster_ids: strings_view(self.cluster_ids@),
            started_at: self.started_at,
            ended_at: self.ended_at,
            summary: self.summary@,
            explanation: strings_view(self.explanation@),
        }
    }
}

pub open spec fn episodes_view(v: Seq<RiskEpisode>) -> Seq<EpisodeV> {
    Seq::new(v.len(), |i: int| v[i]@)
}

/// The episode told by a cluster.
pub open spec fn episode_of(c: CorrelationCluster) -> EpisodeV {
    let state = episode_state_of(findings_view(c.findings@));
    EpisodeV {
        episode_id: c.cluster_id@,
        target: c.target@,
        title: episode_title_of(c.kind),
        kind: c.kind,
        severity: c.dominant_severity,
        criticality: c.dominant_criticality,
        score: c.score,
        state,
        resource_count: c.resources@.len() as usize,
        resources: strings_view(c.resources@),
        cluster_ids: seq![c.cluster_id@],
        started_at: c.started_at,
        ended_at: c.ended_at,
        summary: episode_summary_of(c, state),
        explanation: strings_view(c.explanation@),
    }
}

pub open spec fn by_episode_score() -> spec_fn(EpisodeV) -> int {
    |e: EpisodeV| e.score as int
}

/// The episode of one cluster.
fn episode_from_cluster(cluster: &CorrelationCluster) -> (e: RiskEpisode)
    ensures
        e@ == episode_of(*cluster),
{
    let state = infer_episode_state(cluster);
    let title = infer_episode_title(cluster);
    let summary = build_summary(cluster, &state);
    let mut ids: Vec<String> = Vec::new();
    push_string(&mut ids, cluster.cluster_id.clone());
    assert(strings_view(ids@) =~= seq![cluster.cluster_id@]);
    RiskEpisode {
        episode_id: cluster.cluster_id.clone(),
        target: cluster.target.clone(),
        title,
        kind: cluster.kind,
        severity: cluster.dominant_severity,
        criticality: cluster.dominant_criticality,
        score: cluster.score,
        state,
        resource_count: cluster.resources.len(),
        resources: crate::drift::clone_strings(&cluster.resources),
        cluster_ids: ids,
        started_at: cluster.started_at,
        ended_at: cluster.ended_at,
        summary,
        explanation: crate::drift::clone_strings(&cluster.explanation),
    }
}

/// Episodes sorted by descending score, ties in their order.
fn sort_episodes(v: Vec<RiskEpisode>) -> (r: Vec<RiskEpisode>)
    ensures
        episodes_view(r@) == crate::order::sort_desc(episodes_view(v@), by_episode_score()),
{
    let ghost ev = episodes_view(v@);
    let mut rest = v;
    let mut out: Vec<RiskEpisode> = Vec::new();
    let mut i: usize = 0;
    let n = rest.len();
    assert(ev.take(0) =~= Seq::<EpisodeV>::empty());
    while rest.len() > 0
        invariant
            n == ev.len(),
            i + rest@.len() == n,
            episodes_view(rest@) == ev.skip(i as int),
            episodes_view(out@) == crate::order::sort_desc(ev.take(i as int), by_episode_score()),
        decreases rest.len(),
    {
        let ghost old_rest = rest@;
        let x = rest.remove(0);
        assert forall|j: int| 0 <= j < rest@.len() implies #[trigger] episodes_view(rest@)[j] == ev.skip(i + 1)[j] by {
            assert(rest@[j] == old_rest[j + 1]);
            assert(episodes_view(old_rest)[j + 1] == ev.skip(i as int)[j + 1]);
        }
        assert(ev[i as int] == x@) by {
            assert(ev.skip(i as int)[0] == ev[i as int]);
        }
        let ghost sorted = episodes_view(out@);
        proof {
            crate::order::lemma_sort_desc_len(ev.take(i as int), by_episode_score());
        }
        let mut k: usize = 0;
        loop
            invariant
                k <= out.len(),
                sorted == episodes_view(out@),
                forall|j: int| 0 <= j < k ==> (#[trigger] sorted[j]).score >= x@.score,
            ensures
                k <= out.len(),
                forall|j: int| 0 <= j < k ==> (#[trigger] sorted[j]).score >= x@.score,
                k < out.len() ==> sorted[k as int].score < x@.score,
            decreases out.len() - k,
        {
            if k >= out.len() {
                break;
            }
            assert(sorted[k as int] == out@[k as int]@);
            if out[k].score < x.score {
                break;
            }
            k = k + 1;
        }
        proof {
            crate::order::lemma_insert_pos_first(sorted, x@, by_episode_score(), k as int);
            crate::order::lemma_sort_desc_step(ev, i as int, by_episode_score());
        }
        out.insert(k, x);
        assert(episodes_view(out@) =~= sorted.insert(k as int, x@));
        assert(episodes_view(rest@) =~= ev.skip(i + 1));
        i = i + 1;
    }
    assert(ev.take(n as int) =~= ev);
    out
}

/// One episode per cluster, by descending score (ties keep the clusters' order).
pub fn build_episodes(clusters: &Vec<CorrelationCluster>) -> (r: Vec<RiskEpisode>)
    ensures
        episodes_view(r@) == crate::order::sort_desc(
            Seq::new(clusters@.len(), |i: int| episode_of(clusters@[i])),
            by_episode_score(),
        ),
{
    let ghost want = Seq::new(clusters@.len(), |i: int| episode_of(clusters@[i]));
    let mut episodes: Vec<RiskEpisode> = Vec::new();
    let mut i: usize = 0;
    while i < clusters.len()
        invariant
            i <= clusters.len(),
            want == Seq::new(clusters@.len(), |i: int| episode_of(clusters@[i])),
            episodes_view(episodes@) == want.take(i as int),
        decreases clusters.len() - i,
    {
        let e = episode_from_cluster(&clusters[i]);
        proof {
            assert(episodes_view(episodes@.push(e)) =~= episodes_view(episodes@).push(e@));
            assert(want.take(i + 1) =~= want.take(i as int).push(want[i as int]));
        }
        episodes.push(e);
        i = i + 1;
    }
    assert(want.take(clusters.len() as int) =~= want);
    sort_episodes(episodes)
}

/// The key that groups findings into clusters: the resource without its
/// scheme prefix, a bar, and the environment.
pub open spec fn affinity_key(f: FindingV) -> Seq<char> {
    base_resource_of(f.resource) + "|"@ + environment_name(f.environment)
}

/// The key that groups a finding into a cluster: its resource without the
/// scheme prefix, a bar, and its environment.
pub fn build_affinity_key(finding: &DriftFinding) -> (r: String)
    ensures
        r@ == affinity_key(finding@),
{
    let mut k = crate::discovery::base_resource(finding.resource.as_str());
    push_str(&mut k, "|");
    push_str(&mut k, finding.environment.as_str());
    k
}

/// The findings with affinity key `k`, in order.
pub open spec fn with_key(fs: Seq<FindingV>, k: Seq<char>) -> Seq<FindingV>
    decreases fs.len(),
{
    if fs.len() == 0 {
        Seq::empty()
    } else {
        let m = with_key(fs.drop_last(), k);
        if affinity_key(fs.last()) == k {
            m.push(fs.last())
        } else {
            m
        }
    }
}

/// Findings in a cluster: higher score first, then by resource, then by category.
pub open spec fn finding_before(a: FindingV, b: FindingV) -> bool {
    a.score > b.score || (a.score == b.score && (seq_lt(a.resource, b.resource) || (a.resource
        == b.resource && seq_lt(a.category, b.category))))
}

pub open spec fn finding_order() -> spec_fn(FindingV, FindingV) -> bool {
    |a: FindingV, b: FindingV| finding_before(a, b)
}

/// The distinct affinity keys of the findings, sorted.
pub open spec fn affinity_keys(fs: Seq<FindingV>) -> Seq<Seq<char>> {
    sorted_distinct(Seq::new(fs.len(), |i: int| affinity_key(fs[i])))
}

/// The findings grouped by affinity key, in the order of the keys, each
/// group sorted.
pub open spec fn buckets_of(fs: Seq<FindingV>) -> Seq<Seq<FindingV>> {
    let ks = affinity_keys(fs);
    Seq::new(ks.len(), |i: int| sort_by_lt(with_key(fs, ks[i]), finding_order()))
}

pub open spec fn buckets_view(v: Seq<Vec<DriftFinding>>) -> Seq<Seq<FindingV>> {
    Seq::new(v.len(), |i: int| findings_view(v[i]@))
}

fn finding_less(a: &DriftFinding, b: &DriftFinding) -> (r: bool)
    ensures
        r == finding_before(a@, b@),
{
    a.score > b.score || (a.score == b.score && (str_less(a.resource.as_str(), b.resource.as_str())
        || (str_eq(a.resource.as_str(), b.resource.as_str()) && str_less(
        a.category.as_str(),
        b.category.as_str(),
    ))))
}

/// Findings sorted for a cluster, ties in their order.
fn sort_cluster_findings(v: Vec<DriftFinding>) -> (r: Vec<DriftFinding>)
    ensures
        findings_view(r@) == sort_by_lt(findings_view(v@), finding_order()),
{
    let ghost fv = findings_view(v@);
    let ghost lt = finding_order();
    let mut rest = v;
    let mut out: Vec<DriftFinding> = Vec::new();
    let mut i: usize = 0;
    let n = rest.len();
    assert(fv.take(0) =~= Seq::<FindingV>::empty());
    while rest.len() > 0
        invariant
            n == fv.len(),
            lt == finding_order(),
            i + rest@.len() == n,
            out@.len() == i,
            findings_view(rest@) == fv.skip(i as int),
            findings_view(out@) == sort_by_lt(fv.take(i as int), lt),
        decreases rest.len(),
    {
        let ghost old_rest = rest@;
        let x = rest.remove(0);
        assert forall|j: int| 0 <= j < rest@.len() implies #[trigger] findings_view(rest@)[j] == fv.skip(i + 1)[j] by {
            assert(rest@[j] == old_rest[j + 1]);
            assert(findings_view(old_rest)[j + 1] == fv.skip(i as int)[j + 1]);
        }
        assert(fv[i as int] == x@) by {
            assert(fv.skip(i as int)[0] == fv[i as int]);
        }
        let ghost sorted = findings_view(out@);
        let mut k: usize = 0;
        loop
            invariant
                k <= out.len(),
                sorted == findings_view(out@),
                lt == finding_order(),
                forall|j: int| 0 <= j < k ==> !lt(x@, #[trigger] sorted[j]),
            ensures
                k <= out.len(),
                forall|j: int| 0 <= j < k ==> !lt(x@, #[trigger] sorted[j]),
                k < out.len() ==> lt(x@, sorted[k as int]),
            decreases out.len() - k,
        {
            if k >= out.len() {
                break;
            }
            assert(sorted[k as int] == out@[k as int]@);
            if finding_less(&x, &out[k]) {
                break;
            }
            k = k + 1;
        }
        proof {
            lemma_insert_pos_lt_first(sorted, x@, lt, k as int);
            lemma_sort_by_lt_step(fv, i as int, lt);
        }
        out.insert(k, x);
        assert(findings_view(out@) =~= sorted.insert(k as int, x@));
        assert(findings_view(rest@) =~= fv.skip(i + 1));
        i = i + 1;
    }
    assert(fv.take(n as int) =~= fv);
    out
}

/// The findings of a report grouped by affinity key: the first step of
/// correlating it. Each group is the set of findings of one cluster.
pub fn correlation_buckets(report: &DriftReport) -> (r: Vec<Vec<DriftFinding>>)
    ensures
        buckets_view(r@) == buckets_of(findings_view(report.findings@)),
{
    let fs = &report.findings;
    let ghost fv = findings_view(fs@);
    let ghost kv = Seq::new(fv.len(), |i: int| affinity_key(fv[i]));
    let mut keys: Vec<String> = Vec::new();
    let mut i: usize = 0;
    while i < fs.len()
        invariant
            i <= fs@.len(),
            fv == findings_view(fs@),
            kv == Seq::new(fv.len(), |i: int| affinity_key(fv[i])),
            strings_view(keys@) == kv.take(i as int),
        decreases fs.len() - i,
    {
        let k = build_affinity_key(&fs[i]);
        assert(fv[i as int] == fs@[i as int]@);
        push_string(&mut keys, k);
        assert(strings_view(keys@) =~= kv.take(i + 1));
        i = i + 1;
    }
    assert(kv.take(fs@.len() as int) =~= kv);
    let sorted_keys = sorted_unique(&keys);
    let ghost ks = strings_view(sorted_keys@);
    let ghost want = Seq::new(ks.len(), |i: int| sort_by_lt(with_key(fv, ks[i]), finding_order()));
    let mut out: Vec<Vec<DriftFinding>> = Vec::new();
    let mut b: usize = 0;
    while b < sorted_keys.len()
        invariant
            b <= sorted_keys@.len(),
            fv == findings_view(fs@),
            ks == strings_view(sorted_keys@),
            want == Seq::new(ks.len(), |i: int| sort_by_lt(with_key(fv, ks[i]), finding_order())),
            buckets_view(out@) == want.take(b as int),
        decreases sorted_keys.len() - b,
    {
        let key = &sorted_keys[b];
        assert(ks[b as int] == key@);
        let mut members: Vec<DriftFinding> = Vec::new();
        let mut j: usize = 0;
        assert(fv.take(0) =~= Seq::<FindingV>::empty());
        assert(findings_view(members@) =~= Seq::<FindingV>::empty());
        while j < fs.len()
            invariant
                j <= fs@.len(),
                fv == findings_view(fs@),
                findings_view(members@) == with_key(fv.take(j as int), key@),
            decreases fs.len() - j,
        {
            assert(fv.take(j + 1).drop_last() =~= fv.take(j as int));
            assert(fv.take(j + 1).last() == fs@[j as int]@);
            let k = build_affinity_key(&fs[j]);
            if str_eq(k.as_str(), key.as_str()) {
                let d = fs[j].duplicate();
                let ghost before = members@;
                members.push(d);
                proof {
                    crate::drift::lemma_findings_view_push(before, d);
                }
            }
            j = j + 1;
        }
        assert(fv.take(fs@.len() as int) =~= fv);
        let sorted = sort_cluster_findings(members);
        let ghost before = out@;
        out.push(sorted);
        assert(buckets_view(out@) =~= buckets_view(before).push(findings_view(sorted@)));
        assert(buckets_view(out@) =~= want.take(b + 1));
        b = b + 1;
    }
    assert(want.take(sorted_keys@.len() as int) =~= want);
    out
}

/// The instant a Unix timestamp names, as chrono writes a UTC time.
pub uninterp spec fn utc_display(t: i64) -> Seq<char>;

/// `DateTime::<Utc>::from_timestamp(t, 0)` written with `Display`; empty when
/// chrono cannot represent the time. Only that the text is a function of the
/// time is claimed.
#[verifier::external_body]
pub(crate) fn utc_display_text(t: i64) -> (r: String)
    ensures
        r@ == utc_display(t),
{
    match chrono::DateTime::from_timestamp(t, 0) {
        Some(d) => d.to_string(),
        None => String::new(),
    }
}

/// The identifier of a cluster: the digest of its target, resources,
/// categories, times and kind.
pub open spec fn cluster_id_of(
    target: Seq<char>,
    resources: Seq<Seq<char>>,
    categories: Seq<Seq<char>>,
    started_at: i64,
    ended_at: i64,
    kind: CorrelationKind,
) -> Seq<char> {
    digest_id(
        target + "|"@ + join_comma(resources) + "|"@ + join_comma(categories) + "|"@ + utc_display(
            started_at,
        ) + "|"@ + utc_display(ended_at) + "|"@ + kind_name(kind),
    )
}

/// The identifier of a cluster: the stable hash of its target, resources,
/// categories, start and end times (as UTC text) and kind, joined by bars.
pub fn build_cluster_id(
    target: &str,
    resources: &Vec<String>,
    categories: &Vec<String>,
    started_at: i64,
    ended_at: i64,
    kind: &CorrelationKind,
) -> (r: String)
    ensures
        r@ == cluster_id_of(target@, strings_view(resources@), strings_view(categories@), started_at, ended_at, *kind),
        r@.len() == 24,
{
    let mut raw = owned(target);
    push_str(&mut raw, "|");
    let rs = join_texts(resources);
    push_str(&mut raw, rs.as_str());
    push_str(&mut raw, "|");
    let cs = join_texts(categories);
    push_str(&mut raw, cs.as_str());
    push_str(&mut raw, "|");
    let s = utc_display_text(started_at);
    push_str(&mut raw, s.as_str());
    push_str(&mut raw, "|");
    let e = utc_display_text(ended_at);
    push_str(&mut raw, e.as_str());
    push_str(&mut raw, "|");
    push_str(&mut raw, kind.as_str());
    stable_hash(raw.as_str())
}

/// The abstract value of a cluster.
pub struct ClusterV {
    pub cluster_id: Seq<char>,
    pub target: Seq<char>,
    pub resources: Seq<Seq<char>>,
    pub categories: Seq<Seq<char>>,
    pub findings: Seq<FindingV>,
    pub kind: CorrelationKind,
    pub score: u32,
    pub dominant_severity: Severity,
    pub dominant_criticality: Criticality,
    pub started_at: i64,
    pub ended_at: i64,
    pub explanation: Seq<Seq<char>>,
}

impl View for CorrelationCluster {
    type V = ClusterV;

    open spec fn view(&self) -> ClusterV {
        ClusterV {
            cluster_id: self.cluster_id@,
            target: self.target@,
            resources: strings_view(self.resources@),
            categories: strings_view(self.categories@),
            findings: findings_view(self.findings@),
            kind: self.kind,
            score: self.score,
            dominant_severity: self.dominant_severity,
            dominant_criticality: self.dominant_criticality,
            started_at: self.started_at,
            ended_at: self.ended_at,
            explanation: strings_view(self.explanation@),
        }
    }
}

pub open spec fn clusters_view(v: Seq<CorrelationCluster>) -> Seq<ClusterV> {
    Seq::new(v.len(), |i: int| v[i]@)
}

pub open spec fn categories_of(fs: Seq<FindingV>) -> Seq<Seq<char>> {
    Seq::new(fs.len(), |i: int| fs[i].category)
}

/// The cluster of the findings `fs` of a report, given its score.
pub open spec fn cluster_of(target: Seq<char>, started_at: i64, ended_at: i64, fs: Seq<FindingV>, score: u32) -> ClusterV {
    let kind = kind_of(fs);
    let resources = sorted_distinct(resources_of(fs));
    let categories = sorted_distinct(categories_of(fs));
    ClusterV {
        cluster_id: cluster_id_of(target, resources, categories, started_at, ended_at, kind),
        target,
        resources,
        categories,
        findings: fs,
        kind,
        score,
        dominant_severity: max_severity(fs),
        dominant_criticality: max_criticality(fs),
        started_at,
        ended_at,
        explanation: explanation_of(fs, kind, score),
    }
}

pub open spec fn by_cluster_score() -> spec_fn(ClusterV) -> int {
    |c: ClusterV| c.score as int
}

fn dominant(findings: &Vec<DriftFinding>) -> (r: (Severity, Criticality))
    ensures
        r.0 == max_severity(findings_view(findings@)),
        r.1 == max_criticality(findings_view(findings@)),
{
    let ghost fv = findings_view(findings@);
    let mut sev = Severity::Info;
    let mut crit = Criticality::Low;
    let mut i: usize = 0;
    while i < findings.len()
        invariant
            i <= findings@.len(),
            fv == findings_view(findings@),
            sev == max_severity(fv.take(i as int)),
            crit == max_criticality(fv.take(i as int)),
        decreases findings.len() - i,
    {
        assert(fv.take(i + 1).drop_last() =~= fv.take(i as int));
        assert(fv.take(i + 1).last() == findings@[i as int]@);
        if sev.is_below(&findings[i].severity) {
            sev = findings[i].severity;
        }
        if crit.is_below(&findings[i].criticality) {
            crit = findings[i].criticality;
        }
        i = i + 1;
    }
    assert(fv.take(findings@.len() as int) =~= fv);
    (sev, crit)
}

/// One cluster of a report: its findings (one bucket) and its score.
pub fn assemble_cluster(report: &DriftReport, findings: Vec<DriftFinding>, score: u32) -> (c: CorrelationCluster)
    ensures
        c@ == cluster_of(report.target@, report.older_timestamp, report.newer_timestamp, findings_view(findings@), score),
{
    let ghost fv = findings_view(findings@);
    let kind = infer_kind(&findings);
    let (dominant_severity, dominant_criticality) = dominant(&findings);
    let mut resources: Vec<String> = Vec::new();
    let mut categories: Vec<String> = Vec::new();
    let mut i: usize = 0;
    while i < findings.len()
        invariant
            i <= findings@.len(),
            fv == findings_view(findings@),
            strings_view(resources@) == resources_of(fv).take(i as int),
            strings_view(categories@) == categories_of(fv).take(i as int),
        decreases findings.len() - i,
    {
        push_string(&mut resources, findings[i].resource.clone());
        push_string(&mut categories, findings[i].category.clone());
        i = i + 1;
        assert(strings_view(resources@) =~= resources_of(fv).take(i as int));
        assert(strings_view(categories@) =~= categories_of(fv).take(i as int));
    }
    assert(resources_of(fv).take(findings@.len() as int) =~= resources_of(fv));
    assert(categories_of(fv).take(findings@.len() as int) =~= categories_of(fv));
    let resources = dedup_strings(resources);
    let categories = dedup_strings(categories);
    let explanation = build_cluster_explanation(&findings, &kind, score);
    let cluster_id = build_cluster_id(
        report.target.as_str(),
        &resources,
        &categories,
        report.older_timestamp,
        report.newer_timestamp,
        &kind,
    );
    CorrelationCluster {
        cluster_id,
        target: report.target.clone(),
        resources,
        categories,
        findings,
        kind,
        score,
        dominant_severity,
        dominant_criticality,
        started_at: report.older_timestamp,
        ended_at: report.newer_timestamp,
        explanation,
    }
}

/// Clusters sorted by descending score, ties in their order.
fn sort_clusters(v: Vec<CorrelationCluster>) -> (r: Vec<CorrelationCluster>)
    ensures
        clusters_view(r@) == sort_desc(clusters_view(v@), by_cluster_score()),
{
    let ghost gv = clusters_view(v@);
    let mut rest = v;
    let mut out: Vec<CorrelationCluster> = Vec::new();
    let mut i: usize = 0;
    let n = rest.len();
    assert(gv.take(0) =~= Seq::<ClusterV>::empty());
    while rest.len() > 0
        invariant
            n == gv.len(),
            i + rest@.len() == n,
            clusters_view(rest@) == gv.skip(i as int),
            clusters_view(out@) == sort_desc(gv.take(i as int), by_cluster_score()),
        decreases rest.len(),
    {
        let ghost old_rest = rest@;
        let x = rest.remove(0);
        assert forall|j: int| 0 <= j < rest@.len() implies #[trigger] clusters_view(rest@)[j] == gv.skip(i + 1)[j] by {
            assert(rest@[j] == old_rest[j + 1]);
            assert(clusters_view(old_rest)[j + 1] == gv.skip(i as int)[j + 1]);
        }
        assert(gv[i as int] == x@) by {
            assert(gv.skip(i as int)[0] == gv[i as int]);
        }
        let ghost sorted = clusters_view(out@);
        proof {
            crate::order::lemma_sort_desc_len(gv.take(i as int), by_cluster_score());
        }
        let mut k: usize = 0;
        loop
            invariant
                k <= out.len(),
                sorted == clusters_view(out@),
                forall|j: int| 0 <= j < k ==> (#[trigger] sorted[j]).score >= x@.score,
            ensures
                k <= out.len(),
                forall|j: int| 0 <= j < k ==> (#[trigger] sorted[j]).score >= x@.score,
                k < out.len() ==> sorted[k as int].score < x@.score,
            decreases out.len() - k,
        {
            if k >= out.len() {
                break;
            }
            assert(sorted[k as int] == out@[k as int]@);
            if out[k].score < x.score {
                break;
            }
            k = k + 1;
        }
        proof {
            crate::order::lemma_insert_pos_first(sorted, x@, by_cluster_score(), k as int);
            crate::order::lemma_sort_desc_step(gv, i as int, by_cluster_score());
        }
        out.insert(k, x);
        assert(clusters_view(out@) =~= sorted.insert(k as int, x@));
        assert(clusters_view(rest@) =~= gv.skip(i + 1));
        i = i + 1;
    }
    assert(gv.take(n as int) =~= gv);
    out
}

/// The second step of correlating a report: each bucket of findings with
/// its score made a cluster, the clusters sorted by descending score (ties
/// in bucket order).
pub fn correlate_with_scores(report: &DriftReport, buckets: Vec<Vec<DriftFinding>>, scores: &Vec<u32>) -> (r: Vec<CorrelationCluster>)
    requires
        buckets@.len() == scores@.len(),
    ensures
        clusters_view(r@) == sort_desc(
            Seq::new(
                buckets@.len(),
                |i: int| cluster_of(report.target@, report.older_timestamp, report.newer_timestamp, findings_view(buckets@[i]@), scores@[i]),
            ),
            by_cluster_score(),
        ),
{
    let ghost bv = buckets@;
    let ghost want = Seq::new(
        bv.len(),
        |i: int| cluster_of(report.target@, report.older_timestamp, report.newer_timestamp, findings_view(bv[i]@), scores@[i]),
    );
    let mut rest = buckets;
    let mut clusters: Vec<CorrelationCluster> = Vec::new();
    let mut i: usize = 0;
    let n = rest.len();
    while rest.len() > 0
        invariant
            n == bv.len(),
            n == scores@.len(),
            i + rest@.len() == n,
            rest@ == bv.skip(i as int),
            want == Seq::new(
                bv.len(),
                |i: int| cluster_of(report.target@, report.older_timestamp, report.newer_timestamp, findings_view(bv[i]@), scores@[i]),
            ),
            clusters_view(clusters@) == want.take(i as int),
        decreases rest.len(),
    {
        let ghost old_rest = rest@;
        let b = rest.remove(0);
        assert(b == bv[i as int]) by {
            assert(old_rest[0] == bv.skip(i as int)[0]);
        }
        assert(rest@ =~= bv.skip(i + 1));
        let c = assemble_cluster(report, b, scores[i]);
        let ghost before = clusters@;
        clusters.push(c);
        assert(clusters_view(clusters@) =~= clusters_view(before).push(c@));
        assert(clusters_view(clusters@) =~= want.take(i + 1));
        i = i + 1;
    }
    assert(want.take(n as int) =~= want);
    sort_clusters(clusters)
}

} // verus!

verus! {

/// The number of findings in a list of groups.
pub open spec fn total_size(bs: Seq<Seq<FindingV>>) -> nat
    decreases bs.len(),
{
    if bs.len() == 0 {
        0
    } else {
        total_size(bs.drop_last()) + bs.last().len()
    }
}

spec fn occurrences_of(ks: Seq<Seq<char>>, k: Seq<char>) -> nat
    decreases ks.len(),
{
    if ks.len() == 0 {
        0
    } else {
        occurrences_of(ks.drop_last(), k) + if ks.last() == k {
            1nat
        } else {
            0nat
        }
    }
}

spec fn key_sizes(fs: Seq<FindingV>, ks: Seq<Seq<char>>) -> nat
    decreases ks.len(),
{
    if ks.len() == 0 {
        0
    } else {
        key_sizes(fs, ks.drop_last()) + with_key(fs, ks.last()).len()
    }
}

proof fn lemma_key_sizes_empty(ks: Seq<Seq<char>>)
    ensures
        key_sizes(Seq::empty(), ks) == 0,
    decreases ks.len(),
{
    if ks.len() > 0 {
        lemma_key_sizes_empty(ks.drop_last());
    }
}

proof fn lemma_key_sizes_push(fs: Seq<FindingV>, x: FindingV, ks: Seq<Seq<char>>)
    ensures
        key_sizes(fs.push(x), ks) == key_sizes(fs, ks) + occurrences_of(ks, affinity_key(x)),
    decreases ks.len(),
{
    assert(fs.push(x).drop_last() =~= fs);
    if ks.len() > 0 {
        lemma_key_sizes_push(fs, x, ks.drop_last());
    }
}

proof fn lemma_occurrences_distinct(ks: Seq<Seq<char>>, k: Seq<char>)
    requires
        strictly_sorted(ks),
    ensures
        occurrences_of(ks, k) == if ks.contains(k) {
            1nat
        } else {
            0nat
        },
    decreases ks.len(),
{
    if ks.len() > 0 {
        let p = ks.drop_last();
        assert forall|i: int, j: int| 0 <= i < j < p.len() implies seq_lt(#[trigger] p[i], #[trigger] p[j]) by {
            assert(p[i] == ks[i] && p[j] == ks[j]);
        }
        lemma_occurrences_distinct(p, k);
        if ks.last() == k {
            assert(ks[ks.len() - 1] == k);
            if p.contains(k) {
                let i = choose|i: int| 0 <= i < p.len() && p[i] == k;
                assert(seq_lt(ks[i], ks[ks.len() - 1]));
                crate::order::lemma_lt_irreflexive(k);
            }
        } else {
            if ks.contains(k) {
                let i = choose|i: int| 0 <= i < ks.len() && ks[i] == k;
                assert(p[i] == k);
            }
            if p.contains(k) {
                let i = choose|i: int| 0 <= i < p.len() && p[i] == k;
                assert(ks[i] == k);
            }
        }
    }
}

proof fn lemma_key_sizes_cover(fs: Seq<FindingV>, ks: Seq<Seq<char>>)
    requires
        strictly_sorted(ks),
        forall|i: int| 0 <= i < fs.len() ==> ks.contains(affinity_key(#[trigger] fs[i])),
    ensures
        key_sizes(fs, ks) == fs.len(),
    decreases fs.len(),
{
    if fs.len() == 0 {
        assert(fs =~= Seq::<FindingV>::empty());
        lemma_key_sizes_empty(ks);
    } else {
        let p = fs.drop_last();
        assert forall|i: int| 0 <= i < p.len() implies ks.contains(affinity_key(#[trigger] p[i])) by {
            assert(p[i] == fs[i]);
        }
        lemma_key_sizes_cover(p, ks);
        assert(p.push(fs.last()) =~= fs);
        lemma_key_sizes_push(p, fs.last(), ks);
        assert(ks.contains(affinity_key(fs[fs.len() - 1])));
        lemma_occurrences_distinct(ks, affinity_key(fs.last()));
    }
}

proof fn lemma_bucket_total(fs: Seq<FindingV>, ks: Seq<Seq<char>>)
    ensures
        total_size(Seq::new(ks.len(), |i: int| sort_by_lt(with_key(fs, ks[i]), finding_order())))
            == key_sizes(fs, ks),
    decreases ks.len(),
{
    if ks.len() > 0 {
        let p = ks.drop_last();
        lemma_bucket_total(fs, p);
        let b = Seq::new(ks.len(), |i: int| sort_by_lt(with_key(fs, ks[i]), finding_order()));
        assert(b.drop_last() =~= Seq::new(p.len(), |i: int| sort_by_lt(with_key(fs, p[i]), finding_order())));
        crate::order::lemma_sort_by_lt_len(with_key(fs, ks.last()), finding_order());
    }
}

proof fn lemma_with_key_members(fs: Seq<FindingV>, k: Seq<char>)
    ensures
        forall|j: int| 0 <= j < with_key(fs, k).len() ==> affinity_key(#[trigger] with_key(fs, k)[j]) == k,
        forall|i: int| 0 <= i < fs.len() && affinity_key(#[trigger] fs[i]) == k ==> with_key(fs, k).contains(fs[i]),
    decreases fs.len(),
{
    if fs.len() > 0 {
        let p = fs.drop_last();
        lemma_with_key_members(p, k);
        let m = with_key(p, k);
        assert forall|i: int| 0 <= i < fs.len() && affinity_key(#[trigger] fs[i]) == k implies with_key(fs, k).contains(fs[i]) by {
            if i < fs.len() - 1 {
                assert(p[i] == fs[i]);
                assert(m.contains(fs[i]));
                let j = choose|j: int| 0 <= j < m.len() && m[j] == fs[i];
                if affinity_key(fs.last()) == k {
                    assert(m.push(fs.last())[j] == fs[i]);
                }
            } else {
                assert(m.push(fs.last())[m.len() as int] == fs[i]);
            }
        }
    }
}

/// Grouping a report's findings by affinity key loses and repeats none:
/// there is one group per distinct key, in the order of the keys; each
/// group holds only findings of its key; every finding lies in the group of
/// its key; and the group sizes add up to the number of findings.
pub proof fn law_buckets_partition(fs: Seq<FindingV>)
    ensures
        buckets_of(fs).len() == affinity_keys(fs).len(),
        strictly_sorted(affinity_keys(fs)),
        forall|i: int, j: int|
            0 <= i < buckets_of(fs).len() && 0 <= j < buckets_of(fs)[i].len() ==> affinity_key(
                #[trigger] buckets_of(fs)[i][j],
            ) == affinity_keys(fs)[i],
        forall|k: int|
            #![trigger fs[k]]
            0 <= k < fs.len() ==> exists|i: int|
                0 <= i < buckets_of(fs).len() && affinity_keys(fs)[i] == affinity_key(fs[k])
                    && (#[trigger] buckets_of(fs)[i]).contains(fs[k]),
        total_size(buckets_of(fs)) == fs.len(),
{
    let kv = Seq::new(fs.len(), |i: int| affinity_key(fs[i]));
    let ks = affinity_keys(fs);
    let bs = buckets_of(fs);
    crate::order::lemma_sorted_distinct_props(kv);
    assert forall|i: int| 0 <= i < fs.len() implies ks.contains(affinity_key(#[trigger] fs[i])) by {
        assert(kv[i] == affinity_key(fs[i]));
        assert(kv.contains(kv[i]));
    }
    lemma_key_sizes_cover(fs, ks);
    lemma_bucket_total(fs, ks);
    assert forall|i: int, j: int| 0 <= i < bs.len() && 0 <= j < bs[i].len() implies affinity_key(
        #[trigger] bs[i][j],
    ) == ks[i] by {
        let w = with_key(fs, ks[i]);
        lemma_with_key_members(fs, ks[i]);
        crate::order::lemma_sort_by_lt_contains(w, finding_order());
        assert(bs[i] == sort_by_lt(w, finding_order()));
        assert(bs[i].contains(bs[i][j]));
        assert(w.contains(bs[i][j]));
        let m = choose|m: int| 0 <= m < w.len() && w[m] == bs[i][j];
        assert(affinity_key(w[m]) == ks[i]);
    }
    assert forall|k: int| #![trigger fs[k]] 0 <= k < fs.len() implies exists|i: int|
        0 <= i < bs.len() && ks[i] == affinity_key(fs[k]) && (#[trigger] bs[i]).contains(fs[k]) by {
        assert(ks.contains(affinity_key(fs[k])));
        let i = choose|i: int| 0 <= i < ks.len() && ks[i] == affinity_key(fs[k]);
        let w = with_key(fs, ks[i]);
        lemma_with_key_members(fs, ks[i]);
        crate::order::lemma_sort_by_lt_contains(w, finding_order());
        assert(w.contains(fs[k]));
        assert(bs[i] == sort_by_lt(w, finding_order()));
        assert(bs[i].contains(fs[k]));
    }
}

} // verus!

verus! {

/// The episodes of each transition's clusters, transition after
/// transition, each transition's sorted by descending score.
pub open spec fn transition_episodes(cs: Seq<Vec<CorrelationCluster>>) -> Seq<EpisodeV>
    decreases cs.len(),
{
    if cs.len() == 0 {
        Seq::empty()
    } else {
        transition_episodes(cs.drop_last()) + crate::order::sort_desc(
            Seq::new(cs.last()@.len(), |i: int| episode_of(cs.last()@[i])),
            by_episode_score(),
        )
    }
}

impl RiskEpisode {
    /// A copy of the episode.
    pub fn duplicate(&self) -> (r: RiskEpisode)
        ensures
            r@ == self@,
    {
        RiskEpisode {
            episode_id: self.episode_id.clone(),
            target: self.target.clone(),
            title: self.title.clone(),
            kind: self.kind,
            severity: self.severity,
            criticality: self.criticality,
            score: self.score,
            state: self.state,
            resource_count: self.resource_count,
            resources: crate::drift::clone_strings(&self.resources),
            cluster_ids: crate::drift::clone_strings(&self.cluster_ids),
            started_at: self.started_at,
            ended_at: self.ended_at,
            summary: self.summary.clone(),
            explanation: crate::drift::clone_strings(&self.explanation),
        }
    }
}

/// `build_episodes_for_timeline`: the episodes of every transition's
/// clusters, all sorted by descending score (ties keep their order).
pub fn build_episodes_for_timeline(
    target: &str,
    timeline: &crate::timeline::TimelineReport,
    clusters_by_transition: &Vec<Vec<CorrelationCluster>>,
) -> (r: EpisodeCollection)
    ensures
        r.target@ == target@,
        r.episode_count == r.episodes@.len(),
        episodes_view(r.episodes@) == crate::order::sort_desc(
            transition_episodes(clusters_by_transition@),
            by_episode_score(),
        ),
{
    let ghost cs = clusters_by_transition@;
    let mut all: Vec<RiskEpisode> = Vec::new();
    let mut t: usize = 0;
    assert(cs.take(0) =~= Seq::<Vec<CorrelationCluster>>::empty());
    while t < clusters_by_transition.len()
        invariant
            t <= cs.len(),
            cs == clusters_by_transition@,
            episodes_view(all@) == transition_episodes(cs.take(t as int)),
        decreases clusters_by_transition.len() - t,
    {
        let eps = build_episodes(&clusters_by_transition[t]);
        let ghost start = episodes_view(all@);
        let mut j: usize = 0;
        assert(episodes_view(eps@).take(0) =~= Seq::<EpisodeV>::empty());
        assert(start + episodes_view(eps@).take(0) =~= start);
        while j < eps.len()
            invariant
                j <= eps@.len(),
                episodes_view(all@) == start + episodes_view(eps@).take(j as int),
            decreases eps.len() - j,
        {
            let e = eps[j].duplicate();
            let ghost before = all@;
            all.push(e);
            assert(episodes_view(all@) =~= episodes_view(before).push(e@));
            assert(episodes_view(eps@)[j as int] == e@);
            assert(episodes_view(all@) =~= start + episodes_view(eps@).take(j + 1));
            j = j + 1;
        }
        assert(episodes_view(eps@).take(eps@.len() as int) =~= episodes_view(eps@));
        assert(cs.take(t + 1).drop_last() =~= cs.take(t as int));
        t = t + 1;
    }
    assert(cs.take(cs.len() as int) =~= cs);
    let sorted = sort_episodes(all);
    proof {
        crate::order::lemma_sort_desc_len(transition_episodes(cs), by_episode_score());
    }
    EpisodeCollection { target: owned(target), episode_count: sorted.len(), episodes: sorted }
}

} // verus!

verus! {

/// Findings of which one is in the admin environment form an administrative
/// exposure.
pub proof fn law_admin_findings_are_administrative_exposure(fs: Seq<FindingV>)
    requires
        exists|i: int| 0 <= i < fs.len() && (#[trigger] fs[i]).environment == Environment::Admin,
    ensures
        kind_of(fs) == CorrelationKind::AdministrativeExposure,
{
    let i = choose|i: int| 0 <= i < fs.len() && (#[trigger] fs[i]).environment == Environment::Admin;
    assert((|f: FindingV| is_admin_env(f))(fs[i]));
}

/// Findings none of which is in the admin environment, and some of which is
/// in development, staging or test, form a non-production leak, which adds
/// 15 points to its cluster.
pub proof fn law_nonprod_findings_are_a_leak(fs: Seq<FindingV>)
    requires
        forall|i: int| 0 <= i < fs.len() ==> (#[trigger] fs[i]).environment != Environment::Admin,
        exists|i: int|
            0 <= i < fs.len() && ((#[trigger] fs[i]).environment == Environment::Development
                || fs[i].environment == Environment::Staging || fs[i].environment == Environment::Test),
    ensures
        kind_of(fs) == CorrelationKind::NonProductionLeak,
        kind_bonus(kind_of(fs)) == 15,
{
    let i = choose|i: int|
        0 <= i < fs.len() && ((#[trigger] fs[i]).environment == Environment::Development
            || fs[i].environment == Environment::Staging || fs[i].environment == Environment::Test);
    assert((|f: FindingV| is_nonprod_env(f))(fs[i]));
    assert(!any_finding(fs, |f: FindingV| is_admin_env(f)));
}

/// Findings with neither an admin nor a non-production environment form, in
/// order of precedence: an infrastructure shift when some finding changed
/// its backend and some its fingerprint; a risky deployment when some
/// service became available among two or more findings; a recurring surface
/// change when some finding is recurring or persistent; a service expansion
/// when there are two or more findings; and an unknown composite otherwise.
pub proof fn law_production_findings_kinds(fs: Seq<FindingV>)
    requires
        forall|i: int|
            0 <= i < fs.len() ==> (#[trigger] fs[i]).environment != Environment::Admin
                && fs[i].environment != Environment::Development && fs[i].environment != Environment::Staging
                && fs[i].environment != Environment::Test,
    ensures
        ({
            let backend = exists|i: int| 0 <= i < fs.len() && (#[trigger] fs[i]).category == "service_backend_changed"@;
            let fingerprint = exists|i: int|
                0 <= i < fs.len() && (#[trigger] fs[i]).category == "service_fingerprint_changed"@;
            let available = exists|i: int|
                0 <= i < fs.len() && (#[trigger] fs[i]).category == "service_became_available"@;
            let repeated = exists|i: int|
                0 <= i < fs.len() && ((#[trigger] fs[i]).state == FindingState::Recurring || fs[i].state
                    == FindingState::Persistent);
            &&& backend && fingerprint ==> kind_of(fs) == CorrelationKind::InfrastructureShift
            &&& !(backend && fingerprint) && available && fs.len() >= 2 ==> kind_of(fs)
                == CorrelationKind::RiskyDeployment
            &&& !(backend && fingerprint) && !(available && fs.len() >= 2) && repeated ==> kind_of(fs)
                == CorrelationKind::RecurringSurfaceChange
            &&& !(backend && fingerprint) && !(available && fs.len() >= 2) && !repeated && fs.len() >= 2
                ==> kind_of(fs) == CorrelationKind::ServiceExpansion
            &&& !(backend && fingerprint) && !(available && fs.len() >= 2) && !repeated && fs.len() < 2
                ==> kind_of(fs) == CorrelationKind::UnknownComposite
        }),
{
    assert(!any_finding(fs, |f: FindingV| is_admin_env(f)));
    assert(!any_finding(fs, |f: FindingV| is_nonprod_env(f)));
    assert(any_finding(fs, |f: FindingV| has_category(f, "service_backend_changed"@)) <==> exists|i: int|
        0 <= i < fs.len() && (#[trigger] fs[i]).category == "service_backend_changed"@);
    assert(any_finding(fs, |f: FindingV| has_category(f, "service_fingerprint_changed"@)) <==> exists|i: int|
        0 <= i < fs.len() && (#[trigger] fs[i]).category == "service_fingerprint_changed"@);
    assert(any_finding(fs, |f: FindingV| has_category(f, "service_became_available"@)) <==> exists|i: int|
        0 <= i < fs.len() && (#[trigger] fs[i]).category == "service_became_available"@);
    assert(any_finding(fs, |f: FindingV| is_repeated(f)) <==> exists|i: int|
        0 <= i < fs.len() && ((#[trigger] fs[i]).state == FindingState::Recurring || fs[i].state
            == FindingState::Persistent));
}

} // verus!
