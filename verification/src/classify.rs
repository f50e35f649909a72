//! How each kind of change becomes a finding: the inferred environment and
//! asset type of a resource, its criticality, and the severity, score, tags
//! and wording of each finding.
use vstd::prelude::*;
use crate::diff::ServiceChange;
use crate::drift::{
    criticality_rank, findings_view, policy_is_critical, policy_view, resource_matches, AssetType,
    Criticality, DriftFinding, DriftPolicy, Environment, FindingState, FindingV, OverrideV, PolicyV,
    Severity, matches_resource,
};
use crate::ip::{ip_literal, is_ip_literal};
use crate::text::{
    chars_of, contains, contains_lit, debug_list_text, debug_option_str, debug_option_text,
    debug_str_list, decimal, decimal_text, lemma_strings_view_push, opt_chars, opt_str_eq, owned,
    push_str, starts_with, starts_with_lit, strings_eq, strings_view, to_lowercase, unicode_lower,
};

verus! {

/// The environment that the words of a lowercased resource point to.
pub open spec fn environment_of(lowered: Seq<char>) -> Environment {
    if contains(lowered, "admin"@) {
        Environment::Admin
    } else if contains(lowered, "staging"@) {
        Environment::Staging
    } else if contains(lowered, "dev"@) {
        Environment::Development
    } else if contains(lowered, "test"@) {
        Environment::Test
    } else if contains(lowered, "prod"@) || contains(lowered, "www"@) {
        Environment::Production
    } else {
        Environment::Unknown
    }
}

/// The environment of the first override whose pattern matches `resource`.
pub open spec fn first_override(os: Seq<OverrideV>, resource: Seq<char>) -> Option<Environment>
    decreases os.len(),
{
    if os.len() == 0 {
        None
    } else if resource_matches(os[0].pattern, resource) {
        Some(os[0].environment)
    } else {
        first_override(os.drop_first(), resource)
    }
}

/// The environment of a resource: a matching policy override, else the one
/// its lowercased name points to.
pub open spec fn environment_for(resource: Seq<char>, policy: Option<PolicyV>) -> Environment {
    let inferred = environment_of(unicode_lower(resource));
    match policy {
        Some(p) => match first_override(p.environment_overrides, resource) {
            Some(e) => e,
            None => inferred,
        },
        None => inferred,
    }
}

/// An IP address, a URL, a host name with a dot, or something else.
pub open spec fn asset_type_of(resource: Seq<char>) -> AssetType {
    if ip_literal(resource) {
        AssetType::Ip
    } else if starts_with(resource, "http://"@) || starts_with(resource, "https://"@) {
        AssetType::Service
    } else if contains(resource, "."@) {
        AssetType::Subdomain
    } else {
        AssetType::Unknown
    }
}

/// Critical when the policy says so; otherwise by environment and asset type.
pub open spec fn criticality_for(
    resource: Seq<char>,
    policy: Option<PolicyV>,
    environment: Environment,
    asset_type: AssetType,
) -> Criticality {
    if policy is Some && policy_is_critical(policy.unwrap(), resource) {
        Criticality::Critical
    } else {
        match environment {
            Environment::Admin => if asset_type == AssetType::Service {
                Criticality::Critical
            } else {
                Criticality::High
            },
            Environment::Production => if asset_type == AssetType::Service {
                Criticality::High
            } else {
                Criticality::Medium
            },
            Environment::Staging => Criticality::Medium,
            _ => Criticality::Low,
        }
    }
}

/// The higher of two criticalities.
pub open spec fn elevate(current: Criticality, minimum: Criticality) -> Criticality {
    if criticality_rank(current) < criticality_rank(minimum) {
        minimum
    } else {
        current
    }
}

/// A finding as it is first built: no identifier yet, and the asset type
/// inferred from the resource.
pub open spec fn finding_of(
    severity: Severity,
    score: u32,
    category: Seq<char>,
    title: Seq<char>,
    resource: Seq<char>,
    environment: Environment,
    criticality: Criticality,
    state: FindingState,
    tags: Seq<Seq<char>>,
    description: Seq<char>,
) -> FindingV {
    FindingV {
        finding_id: Seq::empty(),
        severity,
        score,
        category,
        title,
        resource,
        asset_type: asset_type_of(resource),
        environment,
        criticality,
        state,
        tags,
        description,
    }
}

/// Whether a lowercased host is administrative.
pub open spec fn admin_host(lowered: Seq<char>) -> bool {
    starts_with(lowered, "admin."@) || contains(lowered, ".admin."@)
}

/// Whether a lowercased host belongs to development, staging or test.
pub open spec fn nonprod_host(lowered: Seq<char>) -> bool {
    starts_with(lowered, "dev."@) || starts_with(lowered, "staging."@) || contains(lowered, ".dev."@)
        || contains(lowered, ".staging."@) || starts_with(lowered, "test."@) || contains(
        lowered,
        ".test."@,
    )
}

/// The finding for a subdomain that appeared.
pub open spec fn new_subdomain_finding(sub: Seq<char>, policy: Option<PolicyV>) -> FindingV {
    let env = environment_for(sub, policy);
    let crit = criticality_for(sub, policy, env, AssetType::Subdomain);
    let lowered = unicode_lower(sub);
    if admin_host(lowered) {
        finding_of(
            Severity::High,
            95,
            "new_admin_subdomain"@,
            "Nuevo subdominio administrativo"@,
            sub,
            env,
            elevate(crit, Criticality::High),
            FindingState::New,
            seq!["subdomain"@, "admin"@, "new-exposure"@],
            "Se detectó el subdominio "@ + sub
                + " con patrón administrativo, lo que puede indicar nueva superficie sensible expuesta."@,
        )
    } else if nonprod_host(lowered) {
        finding_of(
            Severity::Medium,
            55,
            "new_nonprod_subdomain"@,
            "Nuevo subdominio no productivo"@,
            sub,
            env,
            crit,
            FindingState::New,
            seq!["subdomain"@, "nonprod"@, "new-exposure"@],
            "Se detectó el subdominio "@ + sub
                + " asociado a entornos de desarrollo, prueba o staging."@,
        )
    } else {
        finding_of(
            Severity::Low,
            20,
            "new_subdomain"@,
            "Nuevo subdominio detectado"@,
            sub,
            env,
            crit,
            FindingState::New,
            seq!["subdomain"@, "new-exposure"@],
            "Se detectó un nuevo subdominio "@ + sub + " que no existía en el snapshot anterior."@,
        )
    }
}

/// `tech:<name>` for each technology.
pub open spec fn tech_tags(ts: Seq<Seq<char>>) -> Seq<Seq<char>> {
    Seq::new(ts.len(), |i: int| "tech:"@ + ts[i])
}

/// The tags of a new service before the scheme is looked at.
pub open spec fn service_tags(technologies: Seq<Seq<char>>, provider: Option<Seq<char>>) -> Seq<Seq<char>> {
    let base = seq!["service"@, "new-exposure"@] + tech_tags(technologies);
    match provider {
        Some(p) => base.push("provider:"@ + p),
        None => base,
    }
}

/// The finding for a service that appeared.
pub open spec fn new_service_finding(
    url: Seq<char>,
    scheme: Seq<char>,
    technologies: Seq<Seq<char>>,
    provider: Option<Seq<char>>,
    policy: Option<PolicyV>,
) -> FindingV {
    let env = environment_for(url, policy);
    let base = criticality_for(url, policy, env, AssetType::Service);
    let tags = service_tags(technologies, provider);
    if scheme == "http"@ {
        let plain = tags.push("plaintext"@);
        finding_of(
            Severity::High,
            90,
            "new_http_service"@,
            "Nuevo servicio HTTP expuesto"@,
            url,
            env,
            elevate(
                base,
                if env == Environment::Admin {
                    Criticality::Critical
                } else {
                    Criticality::High
                },
            ),
            FindingState::New,
            if env == Environment::Admin {
                plain.push("admin"@)
            } else {
                plain
            },
            "Se detectó un nuevo servicio accesible por HTTP sin cifrado en "@ + url + "."@,
        )
    } else if scheme == "https"@ {
        finding_of(
            Severity::Medium,
            50,
            "new_https_service"@,
            "Nuevo servicio HTTPS expuesto"@,
            url,
            env,
            base,
            FindingState::New,
            tags,
            "Se detectó un nuevo servicio HTTPS accesible en "@ + url + "."@,
        )
    } else {
        finding_of(
            Severity::Low,
            20,
            "new_service"@,
            "Nuevo servicio detectado"@,
            url,
            env,
            base,
            FindingState::New,
            tags,
            "Se detectó un nuevo servicio expuesto en "@ + url + "."@,
        )
    }
}

/// An HTTP status in the 2xx range.
pub open spec fn success_status(status: u16) -> bool {
    200 <= status < 300
}

pub open spec fn exposed_environment(env: Environment) -> bool {
    env == Environment::Admin || env == Environment::Production
}

pub open spec fn high_criticality(c: Criticality) -> bool {
    c == Criticality::Critical || c == Criticality::High
}

/// The findings for a service whose answer changed, in this order: it became
/// reachable; its server or provider changed; its technologies changed.
pub open spec fn service_change_findings(c: ServiceChange, policy: Option<PolicyV>) -> Seq<FindingV> {
    let url = c.url@;
    let env = environment_for(url, policy);
    let crit = criticality_for(url, policy, env, AssetType::Service);
    let became_available = !success_status(c.before_status) && success_status(c.after_status);
    let backend_changed = opt_chars(c.before_server) != opt_chars(c.after_server) || opt_chars(
        c.before_provider,
    ) != opt_chars(c.after_provider);
    let tech_changed = strings_view(c.before_technologies@) != strings_view(c.after_technologies@);
    let available = if became_available {
        seq![
            finding_of(
                if exposed_environment(env) {
                    Severity::High
                } else {
                    Severity::Medium
                },
                if exposed_environment(env) {
                    75u32
                } else {
                    60u32
                },
                "service_became_available"@,
                "Servicio ahora accesible"@,
                url,
                env,
                crit,
                FindingState::New,
                seq!["service"@, "availability-change"@, "service-available"@],
                "El servicio "@ + url + " cambió de estado "@ + decimal(c.before_status as nat)
                    + " a "@ + decimal(c.after_status as nat)
                    + ", lo que indica que ahora está accesible."@,
            ),
        ]
    } else {
        Seq::empty()
    };
    let backend = if backend_changed {
        seq![
            finding_of(
                if high_criticality(crit) {
                    Severity::Medium
                } else {
                    Severity::Low
                },
                if high_criticality(crit) {
                    30u32
                } else {
                    15u32
                },
                "service_backend_changed"@,
                "Cambio de servidor o backend"@,
                url,
                env,
                crit,
                FindingState::New,
                seq!["service"@, "backend-change"@],
                "El servicio "@ + url + " cambió backend/provider/server de "@ + debug_option_str(
                    opt_chars(c.before_server),
                ) + "/"@ + debug_option_str(opt_chars(c.before_provider)) + " a "@
                    + debug_option_str(opt_chars(c.after_server)) + "/"@ + debug_option_str(
                    opt_chars(c.after_provider),
                ) + "."@,
            ),
        ]
    } else {
        Seq::empty()
    };
    let fingerprint = if tech_changed {
        seq![
            finding_of(
                Severity::Medium,
                40,
                "service_fingerprint_changed"@,
                "Fingerprint tecnológico cambiado"@,
                url,
                env,
                crit,
                FindingState::New,
                tech_tags(strings_view(c.after_technologies@)),
                "El servicio "@ + url + " cambió de tecnologías "@ + debug_str_list(
                    strings_view(c.before_technologies@),
                ) + " a "@ + debug_str_list(strings_view(c.after_technologies@)) + "."@,
            ),
        ]
    } else {
        Seq::empty()
    };
    available + backend + fingerprint
}

/// The environment that the words of an already lowercased resource point to.
pub fn environment_from_lowered(lowered: &[char]) -> (e: Environment)
    ensures
        e == environment_of(lowered@),
{
    if contains_lit(lowered, "admin") {
        Environment::Admin
    } else if contains_lit(lowered, "staging") {
        Environment::Staging
    } else if contains_lit(lowered, "dev") {
        Environment::Development
    } else if contains_lit(lowered, "test") {
        Environment::Test
    } else if contains_lit(lowered, "prod") || contains_lit(lowered, "www") {
        Environment::Production
    } else {
        Environment::Unknown
    }
}

/// The environment that the words of a resource point to, once lowercased.
pub fn infer_environment(resource: &str) -> (e: Environment)
    ensures
        e == environment_of(unicode_lower(resource@)),
{
    let lowered = to_lowercase(resource);
    let v = chars_of(lowered.as_str());
    environment_from_lowered(&v)
}

/// The environment of `resource` under an optional policy.
pub fn infer_environment_with_policy(resource: &str, policy: Option<&DriftPolicy>) -> (e: Environment)
    ensures
        e == environment_for(resource@, policy_view(policy)),
{
    if let Some(p) = policy {
        let ghost os = p@.environment_overrides;
        let mut i: usize = 0;
        assert(os.skip(0) =~= os);
        while i < p.environment_overrides.len()
            invariant
                i <= p.environment_overrides.len(),
                os == p@.environment_overrides,
                os.len() == p.environment_overrides.len(),
                policy_view(policy) == Some(p@),
                first_override(os, resource@) == first_override(os.skip(i as int), resource@),
            decreases p.environment_overrides.len() - i,
        {
            let rule = &p.environment_overrides[i];
            assert(os.skip(i as int)[0] == rule@);
            assert(os.skip(i as int).drop_first() =~= os.skip(i + 1));
            if matches_resource(rule.pattern.as_str(), resource) {
                assert(first_override(os.skip(i as int), resource@) == Some(rule.environment));
                assert(policy_view(policy) == Some(p@));
                return rule.environment;
            }
            i = i + 1;
        }
        assert(os.skip(i as int).len() == 0);
    }
    infer_environment(resource)
}

/// The kind of asset a resource names.
pub fn infer_asset_type(resource: &str) -> (a: AssetType)
    ensures
        a == asset_type_of(resource@),
{
    let v = chars_of(resource);
    if is_ip_literal(&v) {
        AssetType::Ip
    } else if starts_with_lit(&v, "http://") || starts_with_lit(&v, "https://") {
        AssetType::Service
    } else if contains_lit(&v, ".") {
        AssetType::Subdomain
    } else {
        AssetType::Unknown
    }
}

/// How critical a resource is, by policy, environment and asset type.
pub fn classify_criticality(
    resource: &str,
    policy: Option<&DriftPolicy>,
    environment: &Environment,
    asset_type: &AssetType,
) -> (c: Criticality)
    ensures
        c == criticality_for(resource@, policy_view(policy), *environment, *asset_type),
{
    if let Some(p) = policy {
        if p.is_critical_resource(resource) {
            return Criticality::Critical;
        }
    }
    match environment {
        Environment::Admin => match asset_type {
            AssetType::Service => Criticality::Critical,
            _ => Criticality::High,
        },
        Environment::Production => match asset_type {
            AssetType::Service => Criticality::High,
            _ => Criticality::Medium,
        },
        Environment::Staging => Criticality::Medium,
        _ => Criticality::Low,
    }
}

/// `current`, raised to `minimum` when it ranks below it.
pub fn elevate_criticality(current: Criticality, minimum: Criticality) -> (c: Criticality)
    ensures
        c == elevate(current, minimum),
{
    if current.is_below(&minimum) {
        minimum
    } else {
        current
    }
}

/// What a finding is built from.
pub struct FindingSpec {
    pub severity: Severity,
    pub score: u32,
    pub category: String,
    pub title: String,
    pub resource: String,
    pub environment: Environment,
    pub criticality: Criticality,
    pub state: FindingState,
    pub tags: Vec<String>,
    pub description: String,
}

/// A finding from its parts, with an empty identifier and the asset type
/// inferred from the resource.
pub fn build_base_finding(spec: FindingSpec) -> (f: DriftFinding)
    ensures
        f@ == finding_of(
            spec.severity,
            spec.score,
            spec.category@,
            spec.title@,
            spec.resource@,
            spec.environment,
            spec.criticality,
            spec.state,
            strings_view(spec.tags@),
            spec.description@,
        ),
{
    let asset_type = infer_asset_type(spec.resource.as_str());
    DriftFinding {
        finding_id: String::new(),
        severity: spec.severity,
        score: spec.score,
        category: spec.category,
        title: spec.title,
        resource: spec.resource,
        asset_type,
        environment: spec.environment,
        criticality: spec.criticality,
        state: spec.state,
        tags: spec.tags,
        description: spec.description,
    }
}

/// A list of string literals as owned strings.
fn tag_list(items: &[&str]) -> (r: Vec<String>)
    ensures
        strings_view(r@) == Seq::new(items@.len(), |i: int| items@[i]@),
{
    let mut r: Vec<String> = Vec::new();
    let mut i: usize = 0;
    while i < items.len()
        invariant
            i <= items.len(),
            strings_view(r@) == Seq::new(i as nat, |k: int| items@[k]@),
        decreases items.len() - i,
    {
        let s = owned(items[i]);
        proof {
            lemma_strings_view_push(r@, s);
        }
        r.push(s);
        i = i + 1;
        assert(strings_view(r@) =~= Seq::new(i as nat, |k: int| items@[k]@));
    }
    r
}

/// `a` followed by `b` and then `c`, as one string.
pub(crate) fn concat3(a: &str, b: &str, c: &str) -> (r: String)
    ensures
        r@ == a@ + b@ + c@,
{
    let mut s = owned(a);
    push_str(&mut s, b);
    push_str(&mut s, c);
    s
}

/// Whether a lowercased host is administrative.
pub fn is_admin_host(lowered: &[char]) -> (r: bool)
    ensures
        r == admin_host(lowered@),
{
    starts_with_lit(lowered, "admin.") || contains_lit(lowered, ".admin.")
}

/// Whether a lowercased host belongs to development, staging or test.
pub fn is_nonprod_host(lowered: &[char]) -> (r: bool)
    ensures
        r == nonprod_host(lowered@),
{
    starts_with_lit(lowered, "dev.") || starts_with_lit(lowered, "staging.") || contains_lit(
        lowered,
        ".dev.",
    ) || contains_lit(lowered, ".staging.") || starts_with_lit(lowered, "test.") || contains_lit(
        lowered,
        ".test.",
    )
}

/// The finding for a subdomain that appeared between two snapshots.
pub fn classify_new_subdomain(subdomain: &str, policy: Option<&DriftPolicy>) -> (f: DriftFinding)
    ensures
        f@ == new_subdomain_finding(subdomain@, policy_view(policy)),
{
    let environment = infer_environment_with_policy(subdomain, policy);
    let criticality = classify_criticality(subdomain, policy, &environment, &AssetType::Subdomain);
    let lowered_text = to_lowercase(subdomain);
    let lowered = chars_of(lowered_text.as_str());
    if is_admin_host(&lowered) {
        let tags = tag_list(&["subdomain", "admin", "new-exposure"]);
        proof {
            reveal_strlit("subdomain");
            reveal_strlit("admin");
            reveal_strlit("new-exposure");
        }
        assert(strings_view(tags@) =~= seq!["subdomain"@, "admin"@, "new-exposure"@]);
        build_base_finding(
            FindingSpec {
                severity: Severity::High,
                score: 95,
                category: owned("new_admin_subdomain"),
                title: owned("Nuevo subdominio administrativo"),
                resource: owned(subdomain),
                environment,
                criticality: elevate_criticality(criticality, Criticality::High),
                state: FindingState::New,
                tags,
                description: concat3(
                    "Se detectó el subdominio ",
                    subdomain,
                    " con patrón administrativo, lo que puede indicar nueva superficie sensible expuesta.",
                ),
            },
        )
    } else if is_nonprod_host(&lowered) {
        let tags = tag_list(&["subdomain", "nonprod", "new-exposure"]);
        assert(strings_view(tags@) =~= seq!["subdomain"@, "nonprod"@, "new-exposure"@]);
        build_base_finding(
            FindingSpec {
                severity: Severity::Medium,
                score: 55,
                category: owned("new_nonprod_subdomain"),
                title: owned("Nuevo subdominio no productivo"),
                resource: owned(subdomain),
                environment,
                criticality,
                state: FindingState::New,
                tags,
                description: concat3(
                    "Se detectó el subdominio ",
                    subdomain,
                    " asociado a entornos de desarrollo, prueba o staging.",
                ),
            },
        )
    } else {
        let tags = tag_list(&["subdomain", "new-exposure"]);
        assert(strings_view(tags@) =~= seq!["subdomain"@, "new-exposure"@]);
        build_base_finding(
            FindingSpec {
                severity: Severity::Low,
                score: 20,
                category: owned("new_subdomain"),
                title: owned("Nuevo subdominio detectado"),
                resource: owned(subdomain),
                environment,
                criticality,
                state: FindingState::New,
                tags,
                description: concat3(
                    "Se detectó un nuevo subdominio ",
                    subdomain,
                    " que no existía en el snapshot anterior.",
                ),
            },
        )
    }
}

/// `tech:<name>` for each technology.
pub fn technology_tags(technologies: &[String]) -> (r: Vec<String>)
    ensures
        strings_view(r@) == tech_tags(strings_view(technologies@)),
{
    let mut r: Vec<String> = Vec::new();
    let mut i: usize = 0;
    while i < technologies.len()
        invariant
            i <= technologies.len(),
            strings_view(r@) == tech_tags(strings_view(technologies@)).take(i as int),
        decreases technologies.len() - i,
    {
        let mut t = owned("tech:");
        push_str(&mut t, technologies[i].as_str());
        proof {
            lemma_strings_view_push(r@, t);
        }
        r.push(t);
        i = i + 1;
        assert(strings_view(r@) =~= tech_tags(strings_view(technologies@)).take(i as int));
    }
    assert(tech_tags(strings_view(technologies@)).take(technologies.len() as int) =~= tech_tags(
        strings_view(technologies@),
    ));
    r
}

/// The finding for a service that appeared between two snapshots.
pub fn classify_new_service(
    url: &str,
    scheme: &str,
    technologies: &[String],
    provider: Option<&str>,
    policy: Option<&DriftPolicy>,
) -> (f: DriftFinding)
    ensures
        f@ == new_service_finding(
            url@,
            scheme@,
            strings_view(technologies@),
            match provider {
                Some(p) => Some(p@),
                None => None,
            },
            policy_view(policy),
        ),
{
    let environment = infer_environment_with_policy(url, policy);
    let base_criticality = classify_criticality(url, policy, &environment, &AssetType::Service);
    let mut tags = tag_list(&["service", "new-exposure"]);
    assert(strings_view(tags@) =~= seq!["service"@, "new-exposure"@]);
    let techs = technology_tags(technologies);
    let mut k: usize = 0;
    let ghost start = strings_view(tags@);
    while k < techs.len()
        invariant
            k <= techs.len(),
            strings_view(tags@) == start + strings_view(techs@).take(k as int),
        decreases techs.len() - k,
    {
        let t = techs[k].clone();
        proof {
            lemma_strings_view_push(tags@, t);
        }
        tags.push(t);
        k = k + 1;
        assert(strings_view(tags@) =~= start + strings_view(techs@).take(k as int));
    }
    assert(strings_view(techs@).take(techs.len() as int) =~= strings_view(techs@));
    if let Some(p) = provider {
        let t = concat3("provider:", p, "");
        assert(t@ =~= "provider:"@ + p@) by {
            reveal_strlit("");
        }
        proof {
            lemma_strings_view_push(tags@, t);
        }
        tags.push(t);
    }
    let scheme_chars = chars_of(scheme);
    if crate::text::eq_lit(&scheme_chars, "http") {
        let t = owned("plaintext");
        proof {
            lemma_strings_view_push(tags@, t);
        }
        tags.push(t);
        let is_admin = match environment {
            Environment::Admin => true,
            _ => false,
        };
        if is_admin {
            let a = owned("admin");
            proof {
                lemma_strings_view_push(tags@, a);
            }
            tags.push(a);
        }
        let minimum = if is_admin {
            Criticality::Critical
        } else {
            Criticality::High
        };
        build_base_finding(
            FindingSpec {
                severity: Severity::High,
                score: 90,
                category: owned("new_http_service"),
                title: owned("Nuevo servicio HTTP expuesto"),
                resource: owned(url),
                environment,
                criticality: elevate_criticality(base_criticality, minimum),
                state: FindingState::New,
                tags,
                description: concat3(
                    "Se detectó un nuevo servicio accesible por HTTP sin cifrado en ",
                    url,
                    ".",
                ),
            },
        )
    } else if crate::text::eq_lit(&scheme_chars, "https") {
        build_base_finding(
            FindingSpec {
                severity: Severity::Medium,
                score: 50,
                category: owned("new_https_service"),
                title: owned("Nuevo servicio HTTPS expuesto"),
                resource: owned(url),
                environment,
                criticality: base_criticality,
                state: FindingState::New,
                tags,
                description: concat3("Se detectó un nuevo servicio HTTPS accesible en ", url, "."),
            },
        )
    } else {
        build_base_finding(
            FindingSpec {
                severity: Severity::Low,
                score: 20,
                category: owned("new_service"),
                title: owned("Nuevo servicio detectado"),
                resource: owned(url),
                environment,
                criticality: base_criticality,
                state: FindingState::New,
                tags,
                description: concat3("Se detectó un nuevo servicio expuesto en ", url, "."),
            },
        )
    }
}

/// Whether an HTTP status is in the 2xx range.
pub fn is_success_status(status: u16) -> (r: bool)
    ensures
        r == success_status(status),
{
    200 <= status && status < 300
}

/// The findings for a service whose answer changed between two snapshots.
pub fn classify_service_change(change: &ServiceChange, policy: Option<&DriftPolicy>) -> (r: Vec<DriftFinding>)
    ensures
        findings_view(r@) == service_change_findings(*change, policy_view(policy)),
{
    let mut findings: Vec<DriftFinding> = Vec::new();
    let became_available = !is_success_status(change.before_status) && is_success_status(
        change.after_status,
    );
    let changed_server = !opt_str_eq(&change.before_server, &change.after_server);
    let changed_provider = !opt_str_eq(&change.before_provider, &change.after_provider);
    let changed_tech = !strings_eq(&change.before_technologies, &change.after_technologies);
    let url = change.url.as_str();
    let environment = infer_environment_with_policy(url, policy);
    let criticality = classify_criticality(url, policy, &environment, &AssetType::Service);
    let exposed = match environment {
        Environment::Admin | Environment::Production => true,
        _ => false,
    };
    let ghost spec_all = service_change_findings(*change, policy_view(policy));
    let ghost part1: Seq<FindingV> = if became_available {
        seq![spec_all[0]]
    } else {
        Seq::empty()
    };
    if became_available {
        let tags = tag_list(&["service", "availability-change", "service-available"]);
        assert(strings_view(tags@) =~= seq!["service"@, "availability-change"@, "service-available"@]);
        let mut description = concat3("El servicio ", url, " cambió de estado ");
        let before = decimal_text(change.before_status as u64);
        push_str(&mut description, before.as_str());
        push_str(&mut description, " a ");
        let after = decimal_text(change.after_status as u64);
        push_str(&mut description, after.as_str());
        push_str(&mut description, ", lo que indica que ahora está accesible.");
        let f = build_base_finding(
            FindingSpec {
                severity: if exposed {
                    Severity::High
                } else {
                    Severity::Medium
                },
                score: if exposed {
                    75
                } else {
                    60
                },
                category: owned("service_became_available"),
                title: owned("Servicio ahora accesible"),
                resource: owned(url),
                environment,
                criticality,
                state: FindingState::New,
                tags,
                description,
            },
        );
        findings.push(f);
    }
    assert(findings_view(findings@) =~= part1);
    let high = match criticality {
        Criticality::Critical | Criticality::High => true,
        _ => false,
    };
    let ghost part2: Seq<FindingV> = if changed_server || changed_provider {
        part1.push(spec_all[part1.len() as int])
    } else {
        part1
    };
    if changed_server || changed_provider {
        let tags = tag_list(&["service", "backend-change"]);
        assert(strings_view(tags@) =~= seq!["service"@, "backend-change"@]);
        let mut description = concat3("El servicio ", url, " cambió backend/provider/server de ");
        let bs = debug_option_text(&change.before_server);
        push_str(&mut description, bs.as_str());
        push_str(&mut description, "/");
        let bp = debug_option_text(&change.before_provider);
        push_str(&mut description, bp.as_str());
        push_str(&mut description, " a ");
        let a_s = debug_option_text(&change.after_server);
        push_str(&mut description, a_s.as_str());
        push_str(&mut description, "/");
        let ap = debug_option_text(&change.after_provider);
        push_str(&mut description, ap.as_str());
        push_str(&mut description, ".");
        let f = build_base_finding(
            FindingSpec {
                severity: if high {
                    Severity::Medium
                } else {
                    Severity::Low
                },
                score: if high {
                    30
                } else {
                    15
                },
                category: owned("service_backend_changed"),
                title: owned("Cambio de servidor o backend"),
                resource: owned(url),
                environment,
                criticality,
                state: FindingState::New,
                tags,
                description,
            },
        );
        findings.push(f);
    }
    assert(findings_view(findings@) =~= part2);
    if changed_tech {
        let tags = technology_tags(change.after_technologies.as_slice());
        let mut description = concat3("El servicio ", url, " cambió de tecnologías ");
        let bt = debug_list_text(&change.before_technologies);
        push_str(&mut description, bt.as_str());
        push_str(&mut description, " a ");
        let at = debug_list_text(&change.after_technologies);
        push_str(&mut description, at.as_str());
        push_str(&mut description, ".");
        let f = build_base_finding(
            FindingSpec {
                severity: Severity::Medium,
                score: 40,
                category: owned("service_fingerprint_changed"),
                title: owned("Fingerprint tecnológico cambiado"),
                resource: owned(url),
                environment,
                criticality,
                state: FindingState::New,
                tags,
                description,
            },
        );
        findings.push(f);
    }
    assert(findings_view(findings@) =~= spec_all);
    findings
}

} // verus!

verus! {

/// How a new subdomain is classified, by its lowercased name: one starting
/// with `admin.` or holding `.admin.` is `new_admin_subdomain`, `High` with
/// 95 points, on a resource at least highly critical; otherwise one starting
/// with `dev.`, `staging.` or `test.`, or holding `.dev.`, `.staging.` or
/// `.test.`, is `new_nonprod_subdomain`, `Medium` with 55 points; any other
/// is `new_subdomain`, `Low` with 20 points. Every one is new, on the
/// subdomain itself.
pub proof fn law_new_subdomain_classes(sub: Seq<char>, policy: Option<PolicyV>)
    ensures
        ({
            let l = unicode_lower(sub);
            let f = new_subdomain_finding(sub, policy);
            let admin = starts_with(l, "admin."@) || contains(l, ".admin."@);
            let nonprod = starts_with(l, "dev."@) || starts_with(l, "staging."@) || starts_with(l, "test."@)
                || contains(l, ".dev."@) || contains(l, ".staging."@) || contains(l, ".test."@);
            &&& f.resource == sub
            &&& f.state == FindingState::New
            &&& admin ==> f.severity == Severity::High && f.score == 95 && f.category == "new_admin_subdomain"@
                && (f.criticality == Criticality::High || f.criticality == Criticality::Critical)
            &&& !admin && nonprod ==> f.severity == Severity::Medium && f.score == 55 && f.category
                == "new_nonprod_subdomain"@
            &&& !admin && !nonprod ==> f.severity == Severity::Low && f.score == 20 && f.category
                == "new_subdomain"@
        }),
{
}

} // verus!
