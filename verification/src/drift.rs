//! Drift findings: how each change between two snapshots is classified, what a
//! drift policy suppresses or raises, and the identifiers findings carry.
use vstd::prelude::*;
use crate::ip::{ip_literal, is_ip_literal};
use crate::text::{
    chars_of, contains, contains_lit, contains_string, ends_with, ends_with_vec, is_blank,
    lemma_strings_view_push, owned, push_str, slice_vec, starts_with, starts_with_lit,
    str_eq, string_of, string_of_range, strings_view, to_lowercase, trim, unicode_lower,
    decimal, decimal_text,
};

verus! {

#[derive(Debug, Clone, Copy, PartialEq, Eq, Structural)]
pub enum Severity {
    Info,
    Low,
    Medium,
    High,
}

#[derive(Debug, Clone, Copy, PartialEq, Eq, Structural)]
pub enum Criticality {
    Low,
    Medium,
    High,
    Critical,
}

#[derive(Debug, Clone, Copy, PartialEq, Eq, Structural)]
pub enum Environment {
    Production,
    Admin,
    Development,
    Staging,
    Test,
    Unknown,
}

#[derive(Debug, Clone, Copy, PartialEq, Eq, Structural)]
pub enum AssetType {
    Ip,
    Subdomain,
    Service,
    Unknown,
}

#[derive(Debug, Clone, Copy, PartialEq, Eq, Structural)]
pub enum FindingState {
    New,
    Recurring,
    Persistent,
    Suppressed,
    Resolved,
}

/// Severities are ordered `Info < Low < Medium < High`.
pub open spec fn severity_rank(s: Severity) -> int {
    match s {
        Severity::Info => 0,
        Severity::Low => 1,
        Severity::Medium => 2,
        Severity::High => 3,
    }
}

/// Criticalities are ordered `Low < Medium < High < Critical`.
pub open spec fn criticality_rank(c: Criticality) -> int {
    match c {
        Criticality::Low => 0,
        Criticality::Medium => 1,
        Criticality::High => 2,
        Criticality::Critical => 3,
    }
}

pub open spec fn severity_name(s: Severity) -> Seq<char> {
    match s {
        Severity::Info => "INFO"@,
        Severity::Low => "LOW"@,
        Severity::Medium => "MEDIUM"@,
        Severity::High => "HIGH"@,
    }
}

pub open spec fn criticality_name(c: Criticality) -> Seq<char> {
    match c {
        Criticality::Low => "LOW"@,
        Criticality::Medium => "MEDIUM"@,
        Criticality::High => "HIGH"@,
        Criticality::Critical => "CRITICAL"@,
    }
}

pub open spec fn environment_name(e: Environment) -> Seq<char> {
    match e {
        Environment::Production => "Production"@,
        Environment::Admin => "Admin"@,
        Environment::Development => "Development"@,
        Environment::Staging => "Staging"@,
        Environment::Test => "Test"@,
        Environment::Unknown => "Unknown"@,
    }
}

pub open spec fn asset_type_name(a: AssetType) -> Seq<char> {
    match a {
        AssetType::Ip => "Ip"@,
        AssetType::Subdomain => "Subdomain"@,
        AssetType::Service => "Service"@,
        AssetType::Unknown => "Unknown"@,
    }
}

pub open spec fn finding_state_name(s: FindingState) -> Seq<char> {
    match s {
        FindingState::New => "New"@,
        FindingState::Recurring => "Recurring"@,
        FindingState::Persistent => "Persistent"@,
        FindingState::Suppressed => "Suppressed"@,
        FindingState::Resolved => "Resolved"@,
    }
}

impl Severity {
    pub fn as_str(&self) -> (r: &'static str)
        ensures
            r@ == severity_name(*self),
    {
        match self {
            Severity::Info => "INFO",
            Severity::Low => "LOW",
            Severity::Medium => "MEDIUM",
            Severity::High => "HIGH",
        }
    }

    /// The upper-case name of the severity.
    pub fn to_string(&self) -> (r: String)
        ensures
            r@ == severity_name(*self),
    {
        owned(self.as_str())
    }

    /// Whether `self` ranks below `other`.
    pub fn is_below(&self, other: &Severity) -> (r: bool)
        ensures
            r == (severity_rank(*self) < severity_rank(*other)),
    {
        let a: u8 = match self {
            Severity::Info => 0,
            Severity::Low => 1,
            Severity::Medium => 2,
            Severity::High => 3,
        };
        let b: u8 = match other {
            Severity::Info => 0,
            Severity::Low => 1,
            Severity::Medium => 2,
            Severity::High => 3,
        };
        a < b
    }
}

impl Default for Severity {
    fn default() -> (s: Severity)
        ensures
            s == Severity::Info,
    {
        Severity::Info
    }
}

impl Criticality {
    pub fn as_str(&self) -> (r: &'static str)
        ensures
            r@ == criticality_name(*self),
    {
        match self {
            Criticality::Low => "LOW",
            Criticality::Medium => "MEDIUM",
            Criticality::High => "HIGH",
            Criticality::Critical => "CRITICAL",
        }
    }

    /// The upper-case name of the criticality.
    pub fn to_string(&self) -> (r: String)
        ensures
            r@ == criticality_name(*self),
    {
        owned(self.as_str())
    }

    /// Whether `self` ranks below `other`.
    pub fn is_below(&self, other: &Criticality) -> (r: bool)
        ensures
            r == (criticality_rank(*self) < criticality_rank(*other)),
    {
        let a: u8 = match self {
            Criticality::Low => 0,
            Criticality::Medium => 1,
            Criticality::High => 2,
            Criticality::Critical => 3,
        };
        let b: u8 = match other {
            Criticality::Low => 0,
            Criticality::Medium => 1,
            Criticality::High => 2,
            Criticality::Critical => 3,
        };
        a < b
    }
}

impl Environment {
    pub fn as_str(&self) -> (r: &'static str)
        ensures
            r@ == environment_name(*self),
    {
        match self {
            Environment::Production => "Production",
            Environment::Admin => "Admin",
            Environment::Development => "Development",
            Environment::Staging => "Staging",
            Environment::Test => "Test",
            Environment::Unknown => "Unknown",
        }
    }

    pub fn to_string(&self) -> (r: String)
        ensures
            r@ == environment_name(*self),
    {
        owned(self.as_str())
    }
}

impl AssetType {
    pub fn as_str(&self) -> (r: &'static str)
        ensures
            r@ == asset_type_name(*self),
    {
        match self {
            AssetType::Ip => "Ip",
            AssetType::Subdomain => "Subdomain",
            AssetType::Service => "Service",
            AssetType::Unknown => "Unknown",
        }
    }

    pub fn to_string(&self) -> (r: String)
        ensures
            r@ == asset_type_name(*self),
    {
        owned(self.as_str())
    }
}

impl FindingState {
    pub fn as_str(&self) -> (r: &'static str)
        ensures
            r@ == finding_state_name(*self),
    {
        match self {
            FindingState::New => "New",
            FindingState::Recurring => "Recurring",
            FindingState::Persistent => "Persistent",
            FindingState::Suppressed => "Suppressed",
            FindingState::Resolved => "Resolved",
        }
    }

    pub fn to_string(&self) -> (r: String)
        ensures
            r@ == finding_state_name(*self),
    {
        owned(self.as_str())
    }
}

/// One classified change of the exposed surface.
#[derive(Debug, Clone)]
pub struct DriftFinding {
    pub finding_id: String,
    pub severity: Severity,
    pub score: u32,
    pub category: String,
    pub title: String,
    pub resource: String,
    pub asset_type: AssetType,
    pub environment: Environment,
    pub criticality: Criticality,
    pub state: FindingState,
    pub tags: Vec<String>,
    pub description: String,
}

/// The abstract value of a finding.
pub struct FindingV {
    pub finding_id: Seq<char>,
    pub severity: Severity,
    pub score: u32,
    pub category: Seq<char>,
    pub title: Seq<char>,
    pub resource: Seq<char>,
    pub asset_type: AssetType,
    pub environment: Environment,
    pub criticality: Criticality,
    pub state: FindingState,
    pub tags: Seq<Seq<char>>,
    pub description: Seq<char>,
}

impl View for DriftFinding {
    type V = FindingV;

    open spec fn view(&self) -> FindingV {
        FindingV {
            finding_id: self.finding_id@,
            severity: self.severity,
            score: self.score,
            category: self.category@,
            title: self.title@,
            resource: self.resource@,
            asset_type: self.asset_type,
            environment: self.environment,
            criticality: self.criticality,
            state: self.state,
            tags: strings_view(self.tags@),
            description: self.description@,
        }
    }
}

/// The abstract values of a list of findings.
pub open spec fn findings_view(v: Seq<DriftFinding>) -> Seq<FindingV> {
    Seq::new(v.len(), |i: int| v[i]@)
}

pub proof fn lemma_findings_view_push(v: Seq<DriftFinding>, x: DriftFinding)
    ensures
        findings_view(v.push(x)) == findings_view(v).push(x@),
{
    assert(findings_view(v.push(x)) =~= findings_view(v).push(x@));
}

/// A copy of a list of strings.
pub fn clone_strings(v: &Vec<String>) -> (r: Vec<String>)
    ensures
        strings_view(r@) == strings_view(v@),
{
    let mut r: Vec<String> = Vec::new();
    let mut i: usize = 0;
    while i < v.len()
        invariant
            i <= v.len(),
            strings_view(r@) == strings_view(v@).take(i as int),
        decreases v.len() - i,
    {
        let s = v[i].clone();
        proof {
            lemma_strings_view_push(r@, s);
        }
        r.push(s);
        i = i + 1;
        assert(strings_view(r@) =~= strings_view(v@).take(i as int));
    }
    assert(strings_view(v@).take(v.len() as int) =~= strings_view(v@));
    r
}

impl DriftFinding {
    /// A copy of the finding.
    pub fn duplicate(&self) -> (r: DriftFinding)
        ensures
            r@ == self@,
    {
        DriftFinding {
            finding_id: self.finding_id.clone(),
            severity: self.severity,
            score: self.score,
            category: self.category.clone(),
            title: self.title.clone(),
            resource: self.resource.clone(),
            asset_type: self.asset_type,
            environment: self.environment,
            criticality: self.criticality,
            state: self.state,
            tags: clone_strings(&self.tags),
            description: self.description.clone(),
        }
    }
}

/// Counts of findings by asset type.
#[derive(Debug, Clone, Copy, Default, PartialEq, Eq, Structural)]
pub struct AssetTypeSummary {
    pub ips: usize,
    pub subdomains: usize,
    pub services: usize,
    pub unknown: usize,
}

/// Counts of findings by state.
#[derive(Debug, Clone, Copy, Default, PartialEq, Eq, Structural)]
pub struct StateSummary {
    pub new: usize,
    pub recurring: usize,
    pub persistent: usize,
    pub suppressed: usize,
    pub resolved: usize,
}

/// Totals over the active findings of a report.
#[derive(Debug, Clone, Copy, PartialEq, Eq, Structural)]
pub struct DriftSummary {
    pub high: usize,
    pub medium: usize,
    pub low: usize,
    pub info: usize,
    pub total_score: u32,
    pub overall_severity: Severity,
    pub critical_findings: usize,
    pub asset_types: AssetTypeSummary,
    pub states: StateSummary,
}

/// The findings about one resource.
#[derive(Debug, Clone)]
pub struct DriftGroup {
    pub resource: String,
    pub findings: Vec<DriftFinding>,
    pub highest_severity: Severity,
    pub highest_criticality: Criticality,
    pub total_score: u32,
}

/// A policy rule that fixes the environment of the resources a pattern matches.
#[derive(Debug, Clone)]
pub struct EnvironmentOverride {
    pub pattern: String,
    pub environment: Environment,
}

/// A suppression of one category on one resource until a time.
#[derive(Debug, Clone)]
pub struct TemporaryException {
    pub resource: String,
    pub category: String,
    pub expires_at: i64,
    pub reason: String,
}

/// Which findings to suppress, raise or soften.
#[derive(Debug, Clone)]
pub struct DriftPolicy {
    pub allowlisted_resources: Vec<String>,
    pub allowlisted_categories: Vec<String>,
    pub critical_resources: Vec<String>,
    pub critical_patterns: Vec<String>,
    pub environment_overrides: Vec<EnvironmentOverride>,
    pub temporary_exceptions: Vec<TemporaryException>,
    pub baseline_resources: Vec<String>,
    pub baseline_categories: Vec<String>,
}

pub struct OverrideV {
    pub pattern: Seq<char>,
    pub environment: Environment,
}

pub struct ExceptionV {
    pub resource: Seq<char>,
    pub category: Seq<char>,
    pub expires_at: i64,
    pub reason: Seq<char>,
}

/// The abstract value of a policy.
pub struct PolicyV {
    pub allowlisted_resources: Seq<Seq<char>>,
    pub allowlisted_categories: Seq<Seq<char>>,
    pub critical_resources: Seq<Seq<char>>,
    pub critical_patterns: Seq<Seq<char>>,
    pub environment_overrides: Seq<OverrideV>,
    pub temporary_exceptions: Seq<ExceptionV>,
    pub baseline_resources: Seq<Seq<char>>,
    pub baseline_categories: Seq<Seq<char>>,
}

impl View for EnvironmentOverride {
    type V = OverrideV;

    open spec fn view(&self) -> OverrideV {
        OverrideV { pattern: self.pattern@, environment: self.environment }
    }
}

impl View for TemporaryException {
    type V = ExceptionV;

    open spec fn view(&self) -> ExceptionV {
        ExceptionV {
            resource: self.resource@,
            category: self.category@,
            expires_at: self.expires_at,
            reason: self.reason@,
        }
    }
}

impl View for DriftPolicy {
    type V = PolicyV;

    open spec fn view(&self) -> PolicyV {
        PolicyV {
            allowlisted_resources: strings_view(self.allowlisted_resources@),
            allowlisted_categories: strings_view(self.allowlisted_categories@),
            critical_resources: strings_view(self.critical_resources@),
            critical_patterns: strings_view(self.critical_patterns@),
            environment_overrides: Seq::new(
                self.environment_overrides@.len(),
                |i: int| self.environment_overrides@[i]@,
            ),
            temporary_exceptions: Seq::new(
                self.temporary_exceptions@.len(),
                |i: int| self.temporary_exceptions@[i]@,
            ),
            baseline_resources: strings_view(self.baseline_resources@),
            baseline_categories: strings_view(self.baseline_categories@),
        }
    }
}

/// The abstract value of an optional policy.
pub open spec fn policy_view(p: Option<&DriftPolicy>) -> Option<PolicyV> {
    match p {
        Some(q) => Some(q@),
        None => None,
    }
}

impl Default for DriftPolicy {
    fn default() -> (p: DriftPolicy)
        ensures
            p@.allowlisted_resources.len() == 0,
            p@.allowlisted_categories.len() == 0,
            p@.critical_resources.len() == 0,
            p@.critical_patterns.len() == 0,
            p@.environment_overrides.len() == 0,
            p@.temporary_exceptions.len() == 0,
            p@.baseline_resources.len() == 0,
            p@.baseline_categories.len() == 0,
    {
        DriftPolicy {
            allowlisted_resources: Vec::new(),
            allowlisted_categories: Vec::new(),
            critical_resources: Vec::new(),
            critical_patterns: Vec::new(),
            environment_overrides: Vec::new(),
            temporary_exceptions: Vec::new(),
            baseline_resources: Vec::new(),
            baseline_categories: Vec::new(),
        }
    }
}

/// A resource pattern: `*.suffix` matches every resource ending in `suffix`;
/// any other pattern matches only itself.
pub open spec fn resource_matches(pattern: Seq<char>, resource: Seq<char>) -> bool {
    if starts_with(pattern, "*."@) {
        ends_with(resource, pattern.skip(2))
    } else {
        pattern == resource
    }
}

pub open spec fn any_equal(list: Seq<Seq<char>>, s: Seq<char>) -> bool {
    exists|i: int| 0 <= i < list.len() && list[i] == s
}

pub open spec fn any_pattern_matches(patterns: Seq<Seq<char>>, resource: Seq<char>) -> bool {
    exists|i: int| 0 <= i < patterns.len() && resource_matches(patterns[i], resource)
}

pub open spec fn exception_applies(e: ExceptionV, category: Seq<char>, resource: Seq<char>, now: i64) -> bool {
    e.category == category && e.resource == resource && now <= e.expires_at
}

/// Spec of `DriftPolicy::suppresses`: an allowlisted category, an allowlisted
/// resource pattern, or an unexpired exception for the same category and resource.
pub open spec fn policy_suppresses(p: PolicyV, category: Seq<char>, resource: Seq<char>, now: i64) -> bool {
    any_equal(p.allowlisted_categories, category)
        || any_pattern_matches(p.allowlisted_resources, resource)
        || exists|i: int| 0 <= i < p.temporary_exceptions.len()
            && exception_applies(p.temporary_exceptions[i], category, resource, now)
}

pub open spec fn policy_is_critical(p: PolicyV, resource: Seq<char>) -> bool {
    any_equal(p.critical_resources, resource) || any_pattern_matches(p.critical_patterns, resource)
}

pub open spec fn policy_is_baseline(p: PolicyV, resource: Seq<char>, category: Seq<char>) -> bool {
    any_equal(p.baseline_resources, resource) || any_equal(p.baseline_categories, category)
}

/// The first error `DriftPolicy::validate` reports: the first list, in field
/// order, holding an entry that is empty after trimming.
pub open spec fn blank_entry(list: Seq<Seq<char>>) -> bool {
    exists|i: int| 0 <= i < list.len() && trim(list[i]).len() == 0
}

pub open spec fn policy_error(p: PolicyV) -> Option<Seq<char>> {
    if blank_entry(p.allowlisted_resources) {
        Some("allowlisted_resources contiene un patrón vacío"@)
    } else if blank_entry(p.allowlisted_categories) {
        Some("allowlisted_categories contiene una categoría vacía"@)
    } else if blank_entry(p.critical_resources) {
        Some("critical_resources contiene un recurso vacío"@)
    } else if blank_entry(p.critical_patterns) {
        Some("critical_patterns contiene un patrón vacío"@)
    } else if exists|i: int| 0 <= i < p.environment_overrides.len()
        && trim(p.environment_overrides[i].pattern).len() == 0 {
        Some("environment_overrides contiene un patrón vacío"@)
    } else if exception_error(p.temporary_exceptions) is Some {
        exception_error(p.temporary_exceptions)
    } else if blank_entry(p.baseline_resources) {
        Some("baseline_resources contiene un recurso vacío"@)
    } else if blank_entry(p.baseline_categories) {
        Some("baseline_categories contiene una categoría vacía"@)
    } else {
        None
    }
}

/// The first temporary exception with a blank resource or category decides:
/// its resource is checked before its category.
pub open spec fn exception_error(es: Seq<ExceptionV>) -> Option<Seq<char>>
    decreases es.len(),
{
    if es.len() == 0 {
        None
    } else if trim(es[0].resource).len() == 0 {
        Some("temporary_exceptions contiene un resource vacío"@)
    } else if trim(es[0].category).len() == 0 {
        Some("temporary_exceptions contiene un category vacío"@)
    } else {
        exception_error(es.drop_first())
    }
}

/// Whether `pattern` matches `resource` (see `resource_matches`).
pub fn matches_resource(pattern: &str, resource: &str) -> (r: bool)
    ensures
        r == resource_matches(pattern@, resource@),
{
    let p = chars_of(pattern);
    let res = chars_of(resource);
    if starts_with_lit(&p, "*.") {
        proof {
            reveal_strlit("*.");
        }
        let suffix = slice_vec(&p, 2, p.len());
        assert(suffix@ =~= p@.skip(2));
        ends_with_vec(&res, &suffix)
    } else {
        str_eq(pattern, resource)
    }
}

/// Whether some string of `list` equals `s`.
fn any_string_equal(list: &Vec<String>, s: &str) -> (r: bool)
    ensures
        r == any_equal(strings_view(list@), s@),
{
    let r = contains_string(list.as_slice(), s);
    proof {
        if r {
            let i = choose|i: int| 0 <= i < list@.len() && list@[i]@ == s@;
            assert(strings_view(list@)[i] == s@);
        }
    }
    r
}

/// Whether some pattern of `patterns` matches `resource`.
fn any_match(patterns: &Vec<String>, resource: &str) -> (r: bool)
    ensures
        r == any_pattern_matches(strings_view(patterns@), resource@),
{
    let mut i: usize = 0;
    while i < patterns.len()
        invariant
            i <= patterns.len(),
            forall|j: int| 0 <= j < i ==> !resource_matches(#[trigger] strings_view(patterns@)[j], resource@),
        decreases patterns.len() - i,
    {
        if matches_resource(patterns[i].as_str(), resource) {
            assert(strings_view(patterns@)[i as int] == patterns@[i as int]@);
            return true;
        }
        i = i + 1;
    }
    false
}

/// Whether some string of `list` is blank.
fn any_blank(list: &Vec<String>) -> (r: bool)
    ensures
        r == blank_entry(strings_view(list@)),
{
    let mut i: usize = 0;
    while i < list.len()
        invariant
            i <= list.len(),
            forall|j: int| 0 <= j < i ==> trim(#[trigger] strings_view(list@)[j]).len() != 0,
        decreases list.len() - i,
    {
        if is_blank(list[i].as_str()) {
            assert(strings_view(list@)[i as int] == list@[i as int]@);
            return true;
        }
        i = i + 1;
    }
    false
}

/// Whether some override has a blank pattern.
fn blank_override(v: &Vec<EnvironmentOverride>) -> (r: bool)
    ensures
        r == exists|i: int| 0 <= i < v@.len() && trim(v@[i].pattern@).len() == 0,
{
    let mut i: usize = 0;
    while i < v.len()
        invariant
            i <= v.len(),
            forall|j: int| 0 <= j < i ==> trim(#[trigger] v@[j].pattern@).len() != 0,
        decreases v.len() - i,
    {
        if is_blank(v[i].pattern.as_str()) {
            return true;
        }
        i = i + 1;
    }
    false
}

/// The message for the first exception with a blank resource or category.
fn exception_problem(v: &Vec<TemporaryException>) -> (r: Option<&'static str>)
    ensures
        r is Some <==> exception_error(Seq::new(v@.len(), |i: int| v@[i]@)) is Some,
        r matches Some(m) ==> exception_error(Seq::new(v@.len(), |i: int| v@[i]@)) == Some(m@),
{
    let ghost es = Seq::new(v@.len(), |i: int| v@[i]@);
    let mut k: usize = 0;
    assert(es.skip(0) =~= es);
    while k < v.len()
        invariant
            k <= v.len(),
            es == Seq::new(v@.len(), |i: int| v@[i]@),
            exception_error(es) == exception_error(es.skip(k as int)),
        decreases v.len() - k,
    {
        let ghost rest = es.skip(k as int);
        assert(rest[0] == v@[k as int]@);
        assert(rest.drop_first() =~= es.skip(k + 1));
        if is_blank(v[k].resource.as_str()) {
            return Some("temporary_exceptions contiene un resource vacío");
        }
        if is_blank(v[k].category.as_str()) {
            return Some("temporary_exceptions contiene un category vacío");
        }
        k = k + 1;
    }
    assert(es.skip(k as int).len() == 0);
    None
}

impl DriftPolicy {
    /// Every pattern, category and resource of the policy must hold something
    /// besides whitespace.
    pub fn validate(&self) -> (r: Result<(), String>)
        ensures
            r is Ok <==> policy_error(self@) is None,
            r matches Err(e) ==> policy_error(self@) == Some(e@),
    {
        if any_blank(&self.allowlisted_resources) {
            return Err(owned("allowlisted_resources contiene un patrón vacío"));
        }
        if any_blank(&self.allowlisted_categories) {
            return Err(owned("allowlisted_categories contiene una categoría vacía"));
        }
        if any_blank(&self.critical_resources) {
            return Err(owned("critical_resources contiene un recurso vacío"));
        }
        if any_blank(&self.critical_patterns) {
            return Err(owned("critical_patterns contiene un patrón vacío"));
        }
        if blank_override(&self.environment_overrides) {
            proof {
                let v = self.environment_overrides@;
                let i = choose|i: int| 0 <= i < v.len() && trim(v[i].pattern@).len() == 0;
                assert(self@.environment_overrides[i].pattern == v[i].pattern@);
            }
            return Err(owned("environment_overrides contiene un patrón vacío"));
        }
        match exception_problem(&self.temporary_exceptions) {
            Some(msg) => {
                return Err(owned(msg));
            },
            None => {},
        }
        if any_blank(&self.baseline_resources) {
            return Err(owned("baseline_resources contiene un recurso vacío"));
        }
        if any_blank(&self.baseline_categories) {
            return Err(owned("baseline_categories contiene una categoría vacía"));
        }
        Ok(())
    }

    /// Whether the policy keeps a finding of `category` on `resource` out of
    /// the active findings at time `now`.
    pub fn suppresses(&self, finding: &DriftFinding, now: i64) -> (r: bool)
        ensures
            r == policy_suppresses(self@, finding@.category, finding@.resource, now),
    {
        if any_string_equal(&self.allowlisted_categories, finding.category.as_str()) {
            return true;
        }
        if any_match(&self.allowlisted_resources, finding.resource.as_str()) {
            return true;
        }
        let mut i: usize = 0;
        while i < self.temporary_exceptions.len()
            invariant
                i <= self.temporary_exceptions.len(),
                forall|j: int| 0 <= j < i ==> !exception_applies(
                    #[trigger] self@.temporary_exceptions[j], finding@.category, finding@.resource, now),
            decreases self.temporary_exceptions.len() - i,
        {
            let e = &self.temporary_exceptions[i];
            assert(self@.temporary_exceptions[i as int] == e@);
            if str_eq(e.category.as_str(), finding.category.as_str())
                && str_eq(e.resource.as_str(), finding.resource.as_str()) && now <= e.expires_at {
                return true;
            }
            i = i + 1;
        }
        false
    }

    /// Whether `resource` is listed as critical or matches a critical pattern.
    pub fn is_critical_resource(&self, resource: &str) -> (r: bool)
        ensures
            r == policy_is_critical(self@, resource@),
    {
        any_string_equal(&self.critical_resources, resource) || any_match(&self.critical_patterns, resource)
    }

    pub fn is_baseline_resource(&self, resource: &str) -> (r: bool)
        ensures
            r == any_equal(self@.baseline_resources, resource@),
    {
        any_string_equal(&self.baseline_resources, resource)
    }

    pub fn is_baseline_category(&self, category: &str) -> (r: bool)
        ensures
            r == any_equal(self@.baseline_categories, category@),
    {
        any_string_equal(&self.baseline_categories, category)
    }
}

} // verus!

verus! {

/// The counts `describe` gives: one line per list of the policy, its name,
/// an equals sign and its length.
pub open spec fn policy_description(p: DriftPolicy) -> Seq<Seq<char>> {
    seq![
        "allowlisted_resources="@ + decimal(p.allowlisted_resources@.len()),
        "allowlisted_categories="@ + decimal(p.allowlisted_categories@.len()),
        "critical_resources="@ + decimal(p.critical_resources@.len()),
        "critical_patterns="@ + decimal(p.critical_patterns@.len()),
        "environment_overrides="@ + decimal(p.environment_overrides@.len()),
        "temporary_exceptions="@ + decimal(p.temporary_exceptions@.len()),
        "baseline_resources="@ + decimal(p.baseline_resources@.len()),
        "baseline_categories="@ + decimal(p.baseline_categories@.len()),
    ]
}

fn count_line(name: &str, n: usize) -> (r: String)
    ensures
        r@ == name@ + decimal(n as nat),
{
    let mut s = owned(name);
    let d = decimal_text(n as u64);
    push_str(&mut s, d.as_str());
    s
}

impl DriftPolicy {
    /// How many entries each list of the policy holds.
    pub fn describe(&self) -> (r: Vec<String>)
        ensures
            strings_view(r@) == policy_description(*self),
    {
        let mut r: Vec<String> = Vec::new();
        r.push(count_line("allowlisted_resources=", self.allowlisted_resources.len()));
        r.push(count_line("allowlisted_categories=", self.allowlisted_categories.len()));
        r.push(count_line("critical_resources=", self.critical_resources.len()));
        r.push(count_line("critical_patterns=", self.critical_patterns.len()));
        r.push(count_line("environment_overrides=", self.environment_overrides.len()));
        r.push(count_line("temporary_exceptions=", self.temporary_exceptions.len()));
        r.push(count_line("baseline_resources=", self.baseline_resources.len()));
        r.push(count_line("baseline_categories=", self.baseline_categories.len()));
        assert(strings_view(r@) =~= policy_description(*self));
        r
    }
}

} // verus!
