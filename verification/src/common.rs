//! Scan results, tenancy scopes and the operational states shared by findings,
//! incidents and alert deliveries.
use vstd::prelude::*;
use crate::text::{
    eq_lit, is_blank, lower, lower_vec, opt_chars, owned, push_all, str_eq, strings_view, trim,
    trim_chars,
};

verus! {

#[derive(Debug, Clone, Copy, Default, PartialEq, Eq, Structural)]
pub struct SecurityHeaders {
    pub strict_transport_security: bool,
    pub content_security_policy: bool,
    pub x_frame_options: bool,
    pub x_content_type_options: bool,
    pub referrer_policy: bool,
}

#[derive(Debug, Clone, Default)]
pub struct HttpService {
    pub host: String,
    pub url: String,
    pub scheme: String,
    pub status: u16,
    pub server: Option<String>,
    pub title: Option<String>,
    pub content_type: Option<String>,
    pub technologies: Vec<String>,
    pub provider: Option<String>,
    pub tls_enabled: bool,
    pub security_headers: SecurityHeaders,
}

/// The abstract value of a service.
pub struct ServiceV {
    pub host: Seq<char>,
    pub url: Seq<char>,
    pub scheme: Seq<char>,
    pub status: u16,
    pub server: Option<Seq<char>>,
    pub title: Option<Seq<char>>,
    pub content_type: Option<Seq<char>>,
    pub technologies: Seq<Seq<char>>,
    pub provider: Option<Seq<char>>,
    pub tls_enabled: bool,
    pub security_headers: SecurityHeaders,
}

impl View for HttpService {
    type V = ServiceV;

    open spec fn view(&self) -> ServiceV {
        ServiceV {
            host: self.host@,
            url: self.url@,
            scheme: self.scheme@,
            status: self.status,
            server: opt_chars(self.server),
            title: opt_chars(self.title),
            content_type: opt_chars(self.content_type),
            technologies: strings_view(self.technologies@),
            provider: opt_chars(self.provider),
            tls_enabled: self.tls_enabled,
            security_headers: self.security_headers,
        }
    }
}

pub open spec fn services_view(v: Seq<HttpService>) -> Seq<ServiceV> {
    Seq::new(v.len(), |i: int| v[i]@)
}

fn clone_opt(o: &Option<String>) -> (r: Option<String>)
    ensures
        opt_chars(r) == opt_chars(*o),
{
    match o {
        Some(s) => Some(s.clone()),
        None => None,
    }
}

fn clone_text_list(v: &Vec<String>) -> (r: Vec<String>)
    ensures
        strings_view(r@) == strings_view(v@),
{
    let mut r: Vec<String> = Vec::new();
    let mut i: usize = 0;
    while i < v.len()
        invariant
            i <= v@.len(),
            strings_view(r@) == strings_view(v@).take(i as int),
        decreases v.len() - i,
    {
        let ghost before = r@;
        r.push(v[i].clone());
        proof {
            crate::text::lemma_strings_view_push(before, v@[i as int]);
        }
        assert(strings_view(r@) =~= strings_view(v@).take(i + 1));
        i = i + 1;
    }
    assert(strings_view(v@).take(v@.len() as int) =~= strings_view(v@));
    r
}

impl HttpService {
    /// A copy of the service.
    pub fn duplicate(&self) -> (r: HttpService)
        ensures
            r@ == self@,
    {
        HttpService {
            host: self.host.clone(),
            url: self.url.clone(),
            scheme: self.scheme.clone(),
            status: self.status,
            server: clone_opt(&self.server),
            title: clone_opt(&self.title),
            content_type: clone_opt(&self.content_type),
            technologies: clone_text_list(&self.technologies),
            provider: clone_opt(&self.provider),
            tls_enabled: self.tls_enabled,
            security_headers: self.security_headers,
        }
    }
}

#[derive(Debug, Clone, Default)]
pub struct ScanResult {
    pub target: String,
    pub resolved_ips: Vec<String>,
    pub subdomains: Vec<String>,
    pub services: Vec<HttpService>,
}

/// The tenant and project that a piece of data belongs to.
#[derive(Debug, Clone)]
pub struct AtlasScope {
    pub tenant_id: String,
    pub project_id: String,
}

/// Spec of `AtlasScope::validate`: the error, if any.
pub open spec fn scope_error(tenant_id: Seq<char>, project_id: Seq<char>) -> Option<Seq<char>> {
    if trim(tenant_id).len() == 0 {
        Some("tenant_id no puede estar vacío"@)
    } else if trim(project_id).len() == 0 {
        Some("project_id no puede estar vacío"@)
    } else {
        None
    }
}

impl AtlasScope {
    pub fn new(tenant_id: String, project_id: String) -> (s: Self)
        ensures
            s.tenant_id@ == tenant_id@,
            s.project_id@ == project_id@,
    {
        AtlasScope { tenant_id, project_id }
    }

    /// The scope used when no tenant is given: tenant and project `default`.
    pub fn global() -> (s: Self)
        ensures
            s.tenant_id@ == "default"@,
            s.project_id@ == "default"@,
    {
        AtlasScope { tenant_id: owned("default"), project_id: owned("default") }
    }

    pub fn is_global(&self) -> (r: bool)
        ensures
            r == (self.tenant_id@ == "default"@ && self.project_id@ == "default"@),
    {
        str_eq(self.tenant_id.as_str(), "default") && str_eq(self.project_id.as_str(), "default")
    }

    /// Both identifiers must hold something besides whitespace.
    pub fn validate(&self) -> (r: Result<(), String>)
        ensures
            r is Ok <==> scope_error(self.tenant_id@, self.project_id@) is None,
            r matches Err(e) ==> scope_error(self.tenant_id@, self.project_id@) == Some(e@),
    {
        if is_blank(self.tenant_id.as_str()) {
            return Err(owned("tenant_id no puede estar vacío"));
        }
        if is_blank(self.project_id.as_str()) {
            return Err(owned("project_id no puede estar vacío"));
        }
        Ok(())
    }
}

#[derive(Debug, Clone, Copy, PartialEq, Eq, Structural)]
pub enum OperationalState {
    Open,
    Accepted,
    Mitigated,
    FalsePositive,
}

/// Spec of `OperationalState::from_str`: canonical names and legacy aliases,
/// compared after trimming and ASCII lowercasing.
pub open spec fn operational_state_of(raw: Seq<char>) -> Option<OperationalState> {
    let k = lower(trim(raw));
    if k == "open"@ {
        Some(OperationalState::Open)
    } else if k == "accepted"@ || k == "ack"@ || k == "acknowledged"@ {
        Some(OperationalState::Accepted)
    } else if k == "mitigated"@ || k == "resolve"@ || k == "resolved"@ {
        Some(OperationalState::Mitigated)
    } else if k == "false_positive"@ || k == "false-positive"@ || k == "falsepositive"@ {
        Some(OperationalState::FalsePositive)
    } else {
        None
    }
}

pub open spec fn operational_state_name(s: OperationalState) -> Seq<char> {
    match s {
        OperationalState::Open => "open"@,
        OperationalState::Accepted => "accepted"@,
        OperationalState::Mitigated => "mitigated"@,
        OperationalState::FalsePositive => "false_positive"@,
    }
}

impl OperationalState {
    pub fn as_str(&self) -> (r: &'static str)
        ensures
            r@ == operational_state_name(*self),
    {
        match self {
            OperationalState::Open => "open",
            OperationalState::Accepted => "accepted",
            OperationalState::Mitigated => "mitigated",
            OperationalState::FalsePositive => "false_positive",
        }
    }

    pub fn to_string(&self) -> (r: String)
        ensures
            r@ == operational_state_name(*self),
    {
        owned(self.as_str())
    }

    pub fn is_terminal(&self) -> (r: bool)
        ensures
            r == (*self == OperationalState::Mitigated || *self == OperationalState::FalsePositive),
    {
        match self {
            OperationalState::Mitigated | OperationalState::FalsePositive => true,
            _ => false,
        }
    }

    pub fn from_str(raw: &str) -> (r: Result<Self, String>)
        ensures
            r is Ok <==> operational_state_of(raw@) is Some,
            r matches Ok(v) ==> operational_state_of(raw@) == Some(v),
            r matches Err(e) ==> e@ == "operational_state no soportado: "@ + lower(trim(raw@)),
    {
        let t = trim_chars(raw);
        let k = lower_vec(&t);
        if eq_lit(&k, "open") {
            Ok(OperationalState::Open)
        } else if eq_lit(&k, "accepted") || eq_lit(&k, "ack") || eq_lit(&k, "acknowledged") {
            Ok(OperationalState::Accepted)
        } else if eq_lit(&k, "mitigated") || eq_lit(&k, "resolve") || eq_lit(&k, "resolved") {
            Ok(OperationalState::Mitigated)
        } else if eq_lit(&k, "false_positive") || eq_lit(&k, "false-positive") || eq_lit(
            &k,
            "falsepositive",
        ) {
            Ok(OperationalState::FalsePositive)
        } else {
            let mut msg = owned("operational_state no soportado: ");
            push_all(&mut msg, &k);
            Err(msg)
        }
    }

    /// The canonical name of the state that `input` denotes.
    pub fn normalize_str(input: &str) -> (r: Result<&'static str, String>)
        ensures
            r is Ok <==> operational_state_of(input@) is Some,
            r matches Ok(n) ==> n@ == operational_state_name(operational_state_of(input@).unwrap()),
            r matches Err(e) ==> e@ == "operational_state no soportado: "@ + lower(trim(input@)),
    {
        match Self::from_str(input) {
            Ok(s) => Ok(s.as_str()),
            Err(e) => Err(e),
        }
    }
}

#[derive(Debug, Clone, Default)]
pub struct FindingTriagePatch {
    pub operational_state: Option<OperationalState>,
    pub owner: Option<String>,
    pub notes: Option<String>,
}

#[derive(Debug, Clone, Default)]
pub struct AssetBusinessContext {
    pub owner: Option<String>,
    pub team: Option<String>,
    pub business_service: Option<String>,
    pub criticality: Option<String>,
    pub environment: Option<String>,
    pub notes: Option<String>,
}

#[derive(Debug, Clone, Copy, PartialEq, Eq, Structural)]
pub enum IncidentState {
    Open,
    Acknowledged,
    Resolved,
}

pub open spec fn incident_state_of(raw: Seq<char>) -> Option<IncidentState> {
    let k = lower(trim(raw));
    if k == "open"@ {
        Some(IncidentState::Open)
    } else if k == "ack"@ || k == "acknowledged"@ {
        Some(IncidentState::Acknowledged)
    } else if k == "resolve"@ || k == "resolved"@ {
        Some(IncidentState::Resolved)
    } else {
        None
    }
}

pub open spec fn incident_state_name(s: IncidentState) -> Seq<char> {
    match s {
        IncidentState::Open => "open"@,
        IncidentState::Acknowledged => "acknowledged"@,
        IncidentState::Resolved => "resolved"@,
    }
}

impl IncidentState {
    pub fn as_str(&self) -> (r: &'static str)
        ensures
            r@ == incident_state_name(*self),
    {
        match self {
            IncidentState::Open => "open",
            IncidentState::Acknowledged => "acknowledged",
            IncidentState::Resolved => "resolved",
        }
    }

    pub fn to_string(&self) -> (r: String)
        ensures
            r@ == incident_state_name(*self),
    {
        owned(self.as_str())
    }

    pub fn from_str(raw: &str) -> (r: Result<Self, String>)
        ensures
            r is Ok <==> incident_state_of(raw@) is Some,
            r matches Ok(v) ==> incident_state_of(raw@) == Some(v),
            r matches Err(e) ==> e@ == "incident_state no soportado: "@ + lower(trim(raw@)),
    {
        let t = trim_chars(raw);
        let k = lower_vec(&t);
        if eq_lit(&k, "open") {
            Ok(IncidentState::Open)
        } else if eq_lit(&k, "ack") || eq_lit(&k, "acknowledged") {
            Ok(IncidentState::Acknowledged)
        } else if eq_lit(&k, "resolve") || eq_lit(&k, "resolved") {
            Ok(IncidentState::Resolved)
        } else {
            let mut msg = owned("incident_state no soportado: ");
            push_all(&mut msg, &k);
            Err(msg)
        }
    }
}

#[derive(Debug, Clone, Copy, PartialEq, Eq, Structural)]
pub enum AlertChannelKind {
    Webhook,
    Slack,
    Email,
    Unknown,
}

pub open spec fn alert_channel_of(raw: Seq<char>) -> Option<AlertChannelKind> {
    let k = lower(trim(raw));
    if k == "webhook"@ {
        Some(AlertChannelKind::Webhook)
    } else if k == "slack"@ {
        Some(AlertChannelKind::Slack)
    } else if k == "email"@ {
        Some(AlertChannelKind::Email)
    } else if k == "unknown"@ {
        Some(AlertChannelKind::Unknown)
    } else {
        None
    }
}

pub open spec fn alert_channel_name(s: AlertChannelKind) -> Seq<char> {
    match s {
        AlertChannelKind::Webhook => "webhook"@,
        AlertChannelKind::Slack => "slack"@,
        AlertChannelKind::Email => "email"@,
        AlertChannelKind::Unknown => "unknown"@,
    }
}

impl AlertChannelKind {
    pub fn as_str(&self) -> (r: &'static str)
        ensures
            r@ == alert_channel_name(*self),
    {
        match self {
            AlertChannelKind::Webhook => "webhook",
            AlertChannelKind::Slack => "slack",
            AlertChannelKind::Email => "email",
            AlertChannelKind::Unknown => "unknown",
        }
    }

    pub fn to_string(&self) -> (r: String)
        ensures
            r@ == alert_channel_name(*self),
    {
        owned(self.as_str())
    }

    pub fn from_str(raw: &str) -> (r: Result<Self, String>)
        ensures
            r is Ok <==> alert_channel_of(raw@) is Some,
            r matches Ok(v) ==> alert_channel_of(raw@) == Some(v),
            r matches Err(e) ==> e@ == "alert channel no soportado: "@ + lower(trim(raw@)),
    {
        let t = trim_chars(raw);
        let k = lower_vec(&t);
        if eq_lit(&k, "webhook") {
            Ok(AlertChannelKind::Webhook)
        } else if eq_lit(&k, "slack") {
            Ok(AlertChannelKind::Slack)
        } else if eq_lit(&k, "email") {
            Ok(AlertChannelKind::Email)
        } else if eq_lit(&k, "unknown") {
            Ok(AlertChannelKind::Unknown)
        } else {
            let mut msg = owned("alert channel no soportado: ");
            push_all(&mut msg, &k);
            Err(msg)
        }
    }
}

#[derive(Debug, Clone, Copy, PartialEq, Eq, Structural)]
pub enum AlertDeliveryStatus {
    Pending,
    Sent,
    Failed,
    Retrying,
    DeadLetter,
    Delivered,
}

pub open spec fn alert_status_of(raw: Seq<char>) -> Option<AlertDeliveryStatus> {
    let k = lower(trim(raw));
    if k == "pending"@ {
        Some(AlertDeliveryStatus::Pending)
    } else if k == "sent"@ {
        Some(AlertDeliveryStatus::Sent)
    } else if k == "failed"@ {
        Some(AlertDeliveryStatus::Failed)
    } else if k == "retrying"@ {
        Some(AlertDeliveryStatus::Retrying)
    } else if k == "dead_letter"@ || k == "dead-letter"@ {
        Some(AlertDeliveryStatus::DeadLetter)
    } else if k == "delivered"@ {
        Some(AlertDeliveryStatus::Delivered)
    } else {
        None
    }
}

pub open spec fn alert_status_name(s: AlertDeliveryStatus) -> Seq<char> {
    match s {
        AlertDeliveryStatus::Pending => "pending"@,
        AlertDeliveryStatus::Sent => "sent"@,
        AlertDeliveryStatus::Failed => "failed"@,
        AlertDeliveryStatus::Retrying => "retrying"@,
        AlertDeliveryStatus::DeadLetter => "dead_letter"@,
        AlertDeliveryStatus::Delivered => "delivered"@,
    }
}

impl AlertDeliveryStatus {
    pub fn as_str(&self) -> (r: &'static str)
        ensures
            r@ == alert_status_name(*self),
    {
        match self {
            AlertDeliveryStatus::Pending => "pending",
            AlertDeliveryStatus::Sent => "sent",
            AlertDeliveryStatus::Failed => "failed",
            AlertDeliveryStatus::Retrying => "retrying",
            AlertDeliveryStatus::DeadLetter => "dead_letter",
            AlertDeliveryStatus::Delivered => "delivered",
        }
    }

    pub fn to_string(&self) -> (r: String)
        ensures
            r@ == alert_status_name(*self),
    {
        owned(self.as_str())
    }

    pub fn from_str(raw: &str) -> (r: Result<Self, String>)
        ensures
            r is Ok <==> alert_status_of(raw@) is Some,
            r matches Ok(v) ==> alert_status_of(raw@) == Some(v),
            r matches Err(e) ==> e@ == "alert delivery status no soportado: "@ + lower(trim(raw@)),
    {
        let t = trim_chars(raw);
        let k = lower_vec(&t);
        if eq_lit(&k, "pending") {
            Ok(AlertDeliveryStatus::Pending)
        } else if eq_lit(&k, "sent") {
            Ok(AlertDeliveryStatus::Sent)
        } else if eq_lit(&k, "failed") {
            Ok(AlertDeliveryStatus::Failed)
        } else if eq_lit(&k, "retrying") {
            Ok(AlertDeliveryStatus::Retrying)
        } else if eq_lit(&k, "dead_letter") || eq_lit(&k, "dead-letter") {
            Ok(AlertDeliveryStatus::DeadLetter)
        } else if eq_lit(&k, "delivered") {
            Ok(AlertDeliveryStatus::Delivered)
        } else {
            let mut msg = owned("alert delivery status no soportado: ");
            push_all(&mut msg, &k);
            Err(msg)
        }
    }
}

} // verus!
