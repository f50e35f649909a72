//! The bodies and query parameters that the HTTP API exchanges.
use vstd::prelude::*;

verus! {

#[derive(Debug, Clone)]
pub struct ApiEnvelope<T> {
    pub data: T,
}

#[derive(Debug, Clone)]
pub struct PaginationMeta {
    pub limit: usize,
    pub returned: usize,
}

#[derive(Debug, Clone)]
pub struct PagedEnvelope<T> {
    pub data: Vec<T>,
    pub pagination: PaginationMeta,
}

#[derive(Debug, Clone)]
pub struct ScanRequest {
    pub target: String,
}

#[derive(Debug, Clone)]
pub struct SnapshotRequest {
    pub target: String,
    pub persist: Option<bool>,
    pub dir: Option<String>,
}

#[derive(Debug, Clone)]
pub struct DriftRequest {
    pub target: String,
    pub older_snapshot_path: Option<String>,
    pub newer_snapshot_path: Option<String>,
    pub persist: Option<bool>,
    pub policy_path: Option<String>,
}

#[derive(Debug, Clone)]
pub struct FindingsQuery {
    pub target: String,
    pub severity: Option<String>,
    pub state: Option<String>,
    pub operational_state: Option<String>,
    pub owner: Option<String>,
    pub limit: Option<usize>,
}

#[derive(Debug, Clone)]
pub struct FindingPatchRequest {
    pub operational_state: Option<String>,
    pub owner: Option<String>,
    pub note: Option<String>,
}

#[derive(Debug, Clone)]
pub struct IncidentPatchRequest {
    pub state: Option<String>,
    pub owner: Option<String>,
    pub notes: Option<String>,
}

#[derive(Debug, Clone)]
pub struct AssetOwnerUpsertRequest {
    pub resource: String,
    pub owner: String,
    pub team: Option<String>,
    pub business_service: Option<String>,
    pub criticality: Option<String>,
}

#[derive(Debug, Clone)]
pub struct QueryRequestBody {
    pub target: String,
    pub expression: String,
    pub limit: Option<usize>,
}

#[derive(Debug, Clone)]
pub struct SaveQueryRequest {
    pub name: String,
    pub expression: String,
}

#[derive(Debug, Clone)]
pub struct JobCreateRequest {
    pub target: String,
    pub profile: String,
    pub interval_seconds: u64,
    pub policy_path: Option<String>,
    pub enabled: Option<bool>,
}

#[derive(Debug, Clone)]
pub struct JobRunRequest {
    pub persist: Option<bool>,
}

#[derive(Debug, Clone)]
pub struct BootstrapTokenRequest {
    pub subject: String,
    pub tenant_id: String,
    pub project_id: String,
    pub role: String,
}

#[derive(Debug, Clone)]
pub struct CreateOrganizationRequest {
    pub organization_id: Option<String>,
    pub name: String,
    pub slug: String,
}

#[derive(Debug, Clone)]
pub struct CreateWorkspaceRequest {
    pub workspace_id: Option<String>,
    pub organization_id: String,
    pub name: String,
    pub slug: String,
    pub environment: String,
}

#[derive(Debug, Clone)]
pub struct CreateUserRequest {
    pub user_id: Option<String>,
    pub subject: String,
    pub email: Option<String>,
    pub display_name: Option<String>,
}

#[derive(Debug, Clone)]
pub struct CreateMembershipRequest {
    pub membership_id: Option<String>,
    pub organization_id: String,
    pub workspace_id: String,
    pub user_id: String,
    pub role: String,
}

#[derive(Debug, Clone)]
pub struct TokenResponse {
    pub access_token: String,
    pub token_type: String,
    pub expires_in: u64,
}

#[derive(Debug, Clone)]
pub struct VersionResponse {
    pub name: String,
    pub version: String,
    pub api_version: String,
}

#[derive(Debug, Clone)]
pub struct ReadyResponse {
    pub status: String,
}

#[derive(Debug, Clone)]
pub struct HealthResponse {
    pub status: String,
}

#[derive(Debug, Clone)]
pub struct OwnerOperationalSummary {
    pub owner: String,
    pub team: Option<String>,
    pub open_findings: usize,
    pub open_incidents: usize,
    pub total_risk_score: u32,
    pub resources: Vec<String>,
}

#[derive(Debug, Clone)]
pub struct AuditQuery {
    pub limit: Option<usize>,
}

#[derive(Debug, Clone)]
pub struct AlertParams {
    pub channel: Option<String>,
    pub status: Option<String>,
    pub event_type: Option<String>,
    pub limit: Option<usize>,
}

#[derive(Debug, Clone)]
pub struct ListParams {
    pub limit: Option<usize>,
}

#[derive(Debug, Clone)]
pub struct ExecutionParams {
    pub limit: Option<usize>,
}

#[derive(Debug, Clone)]
pub struct FindingsParams {
    pub severity: Option<String>,
    pub state: Option<String>,
    pub limit: Option<usize>,
}

#[derive(Debug, Clone)]
pub struct CurrentFindingsParams {
    pub severity: Option<String>,
    pub state: Option<String>,
    pub operational_state: Option<String>,
    pub owner: Option<String>,
    pub limit: Option<usize>,
}

#[derive(Debug, Clone)]
pub struct AssignFindingRequest {
    pub owner: String,
}

#[derive(Debug, Clone)]
pub struct NoteFindingRequest {
    pub notes: String,
}

#[derive(Debug, Clone)]
pub struct IncidentParams {
    pub state: Option<String>,
    pub owner: Option<String>,
    pub severity: Option<String>,
    pub source_kind: Option<String>,
    pub limit: Option<usize>,
}

#[derive(Debug, Clone)]
pub struct AssignIncidentRequest {
    pub owner: String,
}

#[derive(Debug, Clone)]
pub struct NoteIncidentRequest {
    pub notes: String,
}

#[derive(Debug, Clone)]
pub struct CreateJobRequest {
    pub target: String,
    pub profile: String,
    pub interval_seconds: u64,
    pub policy_path: Option<String>,
    pub enabled: Option<bool>,
}

#[derive(Debug, Clone)]
pub struct RunJobRequest {
    pub persist: Option<bool>,
}

#[derive(Debug, Clone)]
pub struct JobListParams {
    pub limit: Option<usize>,
}

#[derive(Debug, Clone)]
pub struct QueueListParams {
    pub limit: Option<usize>,
}

#[derive(Debug, Clone)]
pub struct OwnershipParams {
    pub resource: Option<String>,
    pub limit: Option<usize>,
}

#[derive(Debug, Clone)]
pub struct CreateSnapshotRequest {
    pub target: String,
    pub persist: Option<bool>,
}

#[derive(Debug, Clone)]
pub struct ListSnapshotsRequest {
    pub target: String,
}

#[derive(Debug, Clone)]
pub struct SnapshotParams {
    pub limit: Option<usize>,
}

#[derive(Debug, Clone)]
pub struct TelemetryParams {
    pub limit: Option<usize>,
}

} // verus!

verus! {

/// The line a patch records for a value it sets: the name, `=` and the value.
pub open spec fn set_line(name: Seq<char>, v: Option<String>) -> Seq<Seq<char>> {
    match v {
        Some(x) => seq![name + "="@ + x@],
        None => Seq::empty(),
    }
}

/// The line a patch records for a text it sets: just the name.
pub open spec fn named_line(name: Seq<char>, v: Option<String>) -> Seq<Seq<char>> {
    if v is Some {
        seq![name]
    } else {
        Seq::empty()
    }
}

fn push_set(changes: &mut Vec<String>, name: &str, v: &Option<String>)
    ensures
        crate::text::strings_view(final(changes)@) == crate::text::strings_view(old(changes)@) + set_line(name@, *v),
{
    let ghost before = changes@;
    match v {
        Some(x) => {
            let mut s = crate::text::owned(name);
            crate::text::push_str(&mut s, "=");
            crate::text::push_str(&mut s, x.as_str());
            changes.push(s);
            proof {
                crate::text::lemma_strings_view_push(before, s);
            }
        },
        None => {},
    }
    assert(crate::text::strings_view(changes@) =~= crate::text::strings_view(before) + set_line(name@, *v));
}

fn push_named(changes: &mut Vec<String>, name: &str, v: &Option<String>)
    ensures
        crate::text::strings_view(final(changes)@) == crate::text::strings_view(old(changes)@) + named_line(name@, *v),
{
    let ghost before = changes@;
    if v.is_some() {
        let s = crate::text::owned(name);
        changes.push(s);
        proof {
            crate::text::lemma_strings_view_push(before, s);
        }
    }
    assert(crate::text::strings_view(changes@) =~= crate::text::strings_view(before) + named_line(name@, *v));
}

impl FindingPatchRequest {
    /// The changes a finding patch records, in the order they are applied:
    /// the operational state, the owner, then the note.
    pub fn changes(&self) -> (r: Vec<String>)
        ensures
            crate::text::strings_view(r@) == set_line("operational_state"@, self.operational_state)
                + set_line("owner"@, self.owner) + named_line("note"@, self.note),
    {
        let mut r: Vec<String> = Vec::new();
        assert(crate::text::strings_view(r@) =~= Seq::<Seq<char>>::empty());
        push_set(&mut r, "operational_state", &self.operational_state);
        push_set(&mut r, "owner", &self.owner);
        push_named(&mut r, "note", &self.note);
        assert(crate::text::strings_view(r@) =~= set_line("operational_state"@, self.operational_state)
            + set_line("owner"@, self.owner) + named_line("note"@, self.note));
        r
    }
}

impl IncidentPatchRequest {
    /// The changes an incident patch records, in the order they are applied:
    /// the state, the owner, then the notes.
    pub fn changes(&self) -> (r: Vec<String>)
        ensures
            crate::text::strings_view(r@) == set_line("state"@, self.state) + set_line("owner"@, self.owner)
                + named_line("notes"@, self.notes),
    {
        let mut r: Vec<String> = Vec::new();
        assert(crate::text::strings_view(r@) =~= Seq::<Seq<char>>::empty());
        push_set(&mut r, "state", &self.state);
        push_set(&mut r, "owner", &self.owner);
        push_named(&mut r, "notes", &self.notes);
        assert(crate::text::strings_view(r@) =~= set_line("state"@, self.state) + set_line("owner"@, self.owner)
            + named_line("notes"@, self.notes));
        r
    }
}

} // verus!
