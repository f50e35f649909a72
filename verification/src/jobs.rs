//! Scheduled scan jobs, the requests that dispatch them, the queue items that
//! carry a request through its attempts, and the selection of due jobs.
//! Times are Unix timestamps in seconds.
use vstd::prelude::*;
use crate::order::{
    insert_pos_lt, lemma_insert_pos_lt_first, lemma_lt_asymmetric, lemma_lt_irreflexive,
    lemma_lt_transitive, lemma_sort_by_lt, lemma_sort_by_lt_step, seq_lt, sort_by_lt, sorted_by,
    str_less, strict_order,
};
use crate::text::{lower, opt_chars, owned, str_eq, trim};

verus! {

/// `SystemTime::now()` measured from the Unix epoch: `Ok` with the whole
/// seconds since the epoch when the clock is at or after it, `Err` with the
/// whole seconds before it when the clock is set earlier. The reading is the
/// time, so nothing is claimed of it.
#[verifier::external_body]
fn clock_seconds() -> (r: Result<u64, u64>) {
    match std::time::SystemTime::now().duration_since(std::time::UNIX_EPOCH) {
        Ok(d) => Ok(d.as_secs()),
        Err(e) => Err(e.duration().as_secs()),
    }
}

/// The largest distance from the epoch, in seconds, that a time of this
/// library takes: every time chrono can represent lies within it.
pub const CLOCK_LIMIT: u64 = 0xFFF_FFFF_FFFF;

/// The current time in whole seconds from the Unix epoch, negative for a
/// clock set before 1970. A reading further from the epoch than
/// `CLOCK_LIMIT` seconds is held at that distance.
pub(crate) fn now_timestamp() -> (t: i64)
    ensures
        -0x1000_0000_0000 < t < 0x1000_0000_0000,
{
    match clock_seconds() {
        Ok(s) => if s <= CLOCK_LIMIT {
            s as i64
        } else {
            CLOCK_LIMIT as i64
        },
        Err(s) => if s <= CLOCK_LIMIT {
            -(s as i64)
        } else {
            -(CLOCK_LIMIT as i64)
        },
    }
}

/// Whether `c` is a lowercase hexadecimal digit.
pub open spec fn is_lower_hex(c: char) -> bool {
    ('0' <= c && c <= '9') || ('a' <= c && c <= 'f')
}

/// The hyphenated form of a UUID: 36 characters, hyphens at positions 8,
/// 13, 18 and 23, lowercase hexadecimal digits elsewhere.
pub open spec fn hyphenated_uuid(s: Seq<char>) -> bool {
    &&& s.len() == 36
    &&& forall|i: int|
        0 <= i < 36 ==> if i == 8 || i == 13 || i == 18 || i == 23 {
            s[i] == '-'
        } else {
            is_lower_hex(#[trigger] s[i])
        }
}

/// `Uuid::new_v4().to_string()`: a fresh random identifier, written in the
/// hyphenated lowercase form that `Uuid`'s `Display` gives; nothing is
/// claimed of its digits.
#[verifier::external_body]
fn new_uuid() -> (s: String)
    ensures
        hyphenated_uuid(s@),
{
    uuid::Uuid::new_v4().to_string()
}

/// The largest number of seconds a chrono duration accepts.
pub const MAX_DURATION_SECS: i64 = 9_223_372_036_854_775;

/// `u as i64`: two's complement reinterpretation.
pub open spec fn as_i64(u: u64) -> int {
    if u <= i64::MAX {
        u as int
    } else {
        u as int - 0x1_0000_0000_0000_0000
    }
}

/// Whether `t + Duration::seconds(secs as i64)` is defined: the duration in
/// range and the sum a timestamp.
pub open spec fn shift_ok(t: i64, secs: u64) -> bool {
    -MAX_DURATION_SECS <= as_i64(secs) <= MAX_DURATION_SECS && i64::MIN <= t + as_i64(secs)
        <= i64::MAX
}

/// `t` moved by `secs as i64` seconds.
pub fn shift(t: i64, secs: u64) -> (r: i64)
    requires
        shift_ok(t, secs),
    ensures
        r == t + as_i64(secs),
{
    if secs <= 9_223_372_036_854_775_807u64 {
        let s = secs as i64;
        t + s
    } else {
        let back = (18_446_744_073_709_551_615u64 - secs) as i64;
        t - back - 1
    }
}

/// A recurring scan of a target.
#[derive(Debug, Clone)]
pub struct AtlasJob {
    pub job_id: String,
    pub target: String,
    pub profile: String,
    pub interval_seconds: u64,
    pub enabled: bool,
    pub policy_path: Option<String>,
    pub last_run_at: Option<i64>,
    pub created_at: i64,
}

/// When a job should run next: an interval after its last run, or at its
/// creation when it never ran.
pub open spec fn next_run(j: AtlasJob) -> int {
    match j.last_run_at {
        Some(t) => t + as_i64(j.interval_seconds),
        None => j.created_at as int,
    }
}

pub open spec fn next_run_ok(j: AtlasJob) -> bool {
    match j.last_run_at {
        Some(t) => shift_ok(t, j.interval_seconds),
        None => true,
    }
}

/// A job is due when it is enabled and its next run is not later than `now`.
pub open spec fn job_due(j: AtlasJob, now: i64) -> bool {
    j.enabled && next_run(j) <= now
}

impl AtlasJob {
    /// A job that never ran, with the given identifier and creation time.
    pub fn created(
        job_id: String,
        target: String,
        profile: String,
        interval_seconds: u64,
        policy_path: Option<String>,
        enabled: bool,
        created_at: i64,
    ) -> (j: AtlasJob)
        ensures
            j.job_id@ == job_id@,
            j.target@ == target@,
            j.profile@ == profile@,
            j.interval_seconds == interval_seconds,
            j.enabled == enabled,
            opt_chars(j.policy_path) == opt_chars(policy_path),
            j.last_run_at is None,
            j.created_at == created_at,
    {
        AtlasJob {
            job_id,
            target,
            profile,
            interval_seconds,
            enabled,
            policy_path,
            last_run_at: None,
            created_at,
        }
    }

    /// A new job with a fresh identifier, created now.
    pub fn new(
        target: String,
        profile: String,
        interval_seconds: u64,
        policy_path: Option<String>,
        enabled: bool,
    ) -> (j: AtlasJob)
        ensures
            j.target@ == target@,
            j.profile@ == profile@,
            j.interval_seconds == interval_seconds,
            j.enabled == enabled,
            opt_chars(j.policy_path) == opt_chars(policy_path),
            j.last_run_at is None,
            hyphenated_uuid(j.job_id@),
            -0x1000_0000_0000 < j.created_at < 0x1000_0000_0000,
    {
        let id = new_uuid();
        let now = now_timestamp();
        AtlasJob::created(id, target, profile, interval_seconds, policy_path, enabled, now)
    }

    pub fn next_run_at(&self) -> (t: i64)
        requires
            next_run_ok(*self),
        ensures
            t == next_run(*self),
    {
        match self.last_run_at {
            Some(last) => shift(last, self.interval_seconds),
            None => self.created_at,
        }
    }

    pub fn is_due_at(&self, now: i64) -> (r: bool)
        requires
            next_run_ok(*self),
        ensures
            r == job_due(*self, now),
    {
        self.enabled && self.next_run_at() <= now
    }

    /// A copy of the job.
    pub fn duplicate(&self) -> (r: AtlasJob)
        ensures
            r == *self,
    {
        AtlasJob {
            job_id: self.job_id.clone(),
            target: self.target.clone(),
            profile: self.profile.clone(),
            interval_seconds: self.interval_seconds,
            enabled: self.enabled,
            policy_path: self.policy_path.clone(),
            last_run_at: self.last_run_at,
            created_at: self.created_at,
        }
    }
}

/// Two jobs with the same contents.
pub open spec fn job_same(a: AtlasJob, b: AtlasJob) -> bool {
    a.job_id@ == b.job_id@ && a.target@ == b.target@ && a.profile@ == b.profile@
        && a.interval_seconds == b.interval_seconds && a.enabled == b.enabled && opt_chars(
        a.policy_path,
    ) == opt_chars(b.policy_path) && a.last_run_at == b.last_run_at && a.created_at
        == b.created_at
}

#[derive(Debug, Clone, Copy, PartialEq, Eq, Structural)]
pub enum JobTrigger {
    Manual,
    Scheduled,
    Replay,
    Api,
}

pub open spec fn trigger_name(t: JobTrigger) -> Seq<char> {
    match t {
        JobTrigger::Manual => "manual"@,
        JobTrigger::Scheduled => "scheduled"@,
        JobTrigger::Replay => "replay"@,
        JobTrigger::Api => "api"@,
    }
}

impl JobTrigger {
    pub fn as_str(&self) -> (r: &'static str)
        ensures
            r@ == trigger_name(*self),
    {
        match self {
            JobTrigger::Manual => "manual",
            JobTrigger::Scheduled => "scheduled",
            JobTrigger::Replay => "replay",
            JobTrigger::Api => "api",
        }
    }

    pub fn to_string(&self) -> (r: String)
        ensures
            r@ == trigger_name(*self),
    {
        owned(self.as_str())
    }
}

/// A request to run a job once.
#[derive(Debug, Clone)]
pub struct JobDispatchRequest {
    pub tenant_id: String,
    pub project_id: String,
    pub job_id: String,
    pub target: String,
    pub profile: String,
    pub policy_path: Option<String>,
    pub trigger: JobTrigger,
    pub requested_by: Option<String>,
    pub persist_artifacts: bool,
    pub max_attempts: u32,
    pub available_at: Option<i64>,
}

impl JobDispatchRequest {
    /// A request with no policy, requester or availability time, artifacts
    /// not persisted, and three attempts.
    pub fn new(
        tenant_id: String,
        project_id: String,
        job_id: String,
        target: String,
        profile: String,
        trigger: JobTrigger,
    ) -> (r: JobDispatchRequest)
        ensures
            r.tenant_id@ == tenant_id@,
            r.project_id@ == project_id@,
            r.job_id@ == job_id@,
            r.target@ == target@,
            r.profile@ == profile@,
            r.policy_path is None,
            r.trigger == trigger,
            r.requested_by is None,
            !r.persist_artifacts,
            r.max_attempts == 3,
            r.available_at is None,
    {
        JobDispatchRequest {
            tenant_id,
            project_id,
            job_id,
            target,
            profile,
            policy_path: None,
            trigger,
            requested_by: None,
            persist_artifacts: false,
            max_attempts: 3,
            available_at: None,
        }
    }

    /// A request to run `job`, carrying its identifier, target, profile and policy.
    pub fn from_job(tenant_id: String, project_id: String, job: &AtlasJob, trigger: JobTrigger) -> (r:
        JobDispatchRequest)
        ensures
            r.tenant_id@ == tenant_id@,
            r.project_id@ == project_id@,
            r.job_id@ == job.job_id@,
            r.target@ == job.target@,
            r.profile@ == job.profile@,
            opt_chars(r.policy_path) == opt_chars(job.policy_path),
            r.trigger == trigger,
            r.requested_by is None,
            !r.persist_artifacts,
            r.max_attempts == 3,
            r.available_at is None,
    {
        JobDispatchRequest {
            tenant_id,
            project_id,
            job_id: job.job_id.clone(),
            target: job.target.clone(),
            profile: job.profile.clone(),
            policy_path: job.policy_path.clone(),
            trigger,
            requested_by: None,
            persist_artifacts: false,
            max_attempts: 3,
            available_at: None,
        }
    }

    pub fn requested_by(self, subject: String) -> (r: JobDispatchRequest)
        ensures
            opt_chars(r.requested_by) == Some(subject@),
            r.max_attempts == self.max_attempts,
            r.available_at == self.available_at,
            r.persist_artifacts == self.persist_artifacts,
            r.trigger == self.trigger,
    {
        let mut r = self;
        r.requested_by = Some(subject);
        r
    }

    pub fn persist_artifacts(self, persist: bool) -> (r: JobDispatchRequest)
        ensures
            r.persist_artifacts == persist,
            r.max_attempts == self.max_attempts,
            r.available_at == self.available_at,
            r.trigger == self.trigger,
    {
        let mut r = self;
        r.persist_artifacts = persist;
        r
    }

    pub fn available_at(self, when: i64) -> (r: JobDispatchRequest)
        ensures
            r.available_at == Some(when),
            r.max_attempts == self.max_attempts,
            r.persist_artifacts == self.persist_artifacts,
            r.trigger == self.trigger,
            r.tenant_id@ == self.tenant_id@,
            r.project_id@ == self.project_id@,
            r.job_id@ == self.job_id@,
            r.target@ == self.target@,
            r.profile@ == self.profile@,
            opt_chars(r.policy_path) == opt_chars(self.policy_path),
            opt_chars(r.requested_by) == opt_chars(self.requested_by),
    {
        let mut r = self;
        r.available_at = Some(when);
        r
    }

    /// Sets the number of attempts; at least one is always made.
    pub fn max_attempts(self, attempts: u32) -> (r: JobDispatchRequest)
        ensures
            r.max_attempts == if attempts >= 1 {
                attempts
            } else {
                1
            },
            r.max_attempts >= 1,
            r.available_at == self.available_at,
            r.persist_artifacts == self.persist_artifacts,
            r.trigger == self.trigger,
    {
        let mut r = self;
        r.max_attempts = if attempts >= 1 {
            attempts
        } else {
            1
        };
        r
    }
}

#[derive(Debug, Clone, Copy, PartialEq, Eq, Structural)]
pub enum JobQueueStatus {
    Pending,
    Claimed,
    Running,
    Succeeded,
    Failed,
    Cancelled,
}

pub open spec fn queue_status_name(s: JobQueueStatus) -> Seq<char> {
    match s {
        JobQueueStatus::Pending => "pending"@,
        JobQueueStatus::Claimed => "claimed"@,
        JobQueueStatus::Running => "running"@,
        JobQueueStatus::Succeeded => "succeeded"@,
        JobQueueStatus::Failed => "failed"@,
        JobQueueStatus::Cancelled => "cancelled"@,
    }
}

/// Spec of `JobQueueStatus::from_str`: a name, after trimming and ASCII lowercasing.
pub open spec fn queue_status_of(raw: Seq<char>) -> Option<JobQueueStatus> {
    let k = lower(trim(raw));
    if k == "pending"@ {
        Some(JobQueueStatus::Pending)
    } else if k == "claimed"@ {
        Some(JobQueueStatus::Claimed)
    } else if k == "running"@ {
        Some(JobQueueStatus::Running)
    } else if k == "succeeded"@ {
        Some(JobQueueStatus::Succeeded)
    } else if k == "failed"@ {
        Some(JobQueueStatus::Failed)
    } else if k == "cancelled"@ {
        Some(JobQueueStatus::Cancelled)
    } else {
        None
    }
}

impl JobQueueStatus {
    pub fn as_str(&self) -> (r: &'static str)
        ensures
            r@ == queue_status_name(*self),
    {
        match self {
            JobQueueStatus::Pending => "pending",
            JobQueueStatus::Claimed => "claimed",
            JobQueueStatus::Running => "running",
            JobQueueStatus::Succeeded => "succeeded",
            JobQueueStatus::Failed => "failed",
            JobQueueStatus::Cancelled => "cancelled",
        }
    }

    pub fn to_string(&self) -> (r: String)
        ensures
            r@ == queue_status_name(*self),
    {
        owned(self.as_str())
    }

    /// Parses a status name; the error names the normalized input.
    pub fn from_str(raw: &str) -> (r: Result<JobQueueStatus, String>)
        ensures
            r is Ok <==> queue_status_of(raw@) is Some,
            r matches Ok(s) ==> queue_status_of(raw@) == Some(s),
            r matches Err(e) ==> e@ == "job queue status no soportado: "@ + lower(trim(raw@)),
    {
        let t = crate::text::trim_chars(raw);
        let k = crate::text::lower_vec(&t);
        if crate::text::eq_lit(&k, "pending") {
            Ok(JobQueueStatus::Pending)
        } else if crate::text::eq_lit(&k, "claimed") {
            Ok(JobQueueStatus::Claimed)
        } else if crate::text::eq_lit(&k, "running") {
            Ok(JobQueueStatus::Running)
        } else if crate::text::eq_lit(&k, "succeeded") {
            Ok(JobQueueStatus::Succeeded)
        } else if crate::text::eq_lit(&k, "failed") {
            Ok(JobQueueStatus::Failed)
        } else if crate::text::eq_lit(&k, "cancelled") {
            Ok(JobQueueStatus::Cancelled)
        } else {
            let mut e = owned("job queue status no soportado: ");
            crate::text::push_all(&mut e, &k);
            Err(e)
        }
    }
}

/// A dispatched job waiting for, or going through, its attempts.
#[derive(Debug, Clone)]
pub struct JobQueueItem {
    pub queue_id: String,
    pub tenant_id: String,
    pub project_id: String,
    pub job_id: String,
    pub target: String,
    pub profile: String,
    pub policy_path: Option<String>,
    pub trigger: String,
    pub requested_by: Option<String>,
    pub persist_artifacts: bool,
    pub status: JobQueueStatus,
    pub attempts: u32,
    pub max_attempts: u32,
    pub available_at: i64,
    pub claimed_by: Option<String>,
    pub claimed_at: Option<i64>,
    pub lease_expires_at: Option<i64>,
    pub created_at: i64,
    pub updated_at: i64,
    pub last_error: Option<String>,
}

/// A pending item whose availability time has come and whose lease, if any,
/// has run out.
pub open spec fn claimable(item: JobQueueItem, now: i64) -> bool {
    item.status == JobQueueStatus::Pending && item.available_at <= now && match item.lease_expires_at {
        Some(lease) => lease <= now,
        None => true,
    }
}

/// The parts of an item that its lifecycle steps never touch.
pub open spec fn same_request(a: JobQueueItem, b: JobQueueItem) -> bool {
    a.queue_id@ == b.queue_id@ && a.tenant_id@ == b.tenant_id@ && a.project_id@ == b.project_id@
        && a.job_id@ == b.job_id@ && a.target@ == b.target@ && a.profile@ == b.profile@
        && opt_chars(a.policy_path) == opt_chars(b.policy_path) && a.trigger@ == b.trigger@
        && opt_chars(a.requested_by) == opt_chars(b.requested_by) && a.persist_artifacts
        == b.persist_artifacts && a.max_attempts == b.max_attempts && a.created_at == b.created_at
}

/// The item claimed by `worker` at `now`, with a lease of `lease` seconds.
pub open spec fn claimed(item: JobQueueItem, worker: String, lease: u64, now: i64) -> JobQueueItem {
    JobQueueItem {
        status: JobQueueStatus::Claimed,
        claimed_by: Some(worker),
        claimed_at: Some(now),
        lease_expires_at: Some((now + as_i64(lease)) as i64),
        updated_at: now,
        ..item
    }
}

/// The item running from `now`.
pub open spec fn started(item: JobQueueItem, now: i64) -> JobQueueItem {
    JobQueueItem { status: JobQueueStatus::Running, updated_at: now, ..item }
}

/// The item finished successfully at `now`, its lease released.
pub open spec fn succeeded(item: JobQueueItem, now: i64) -> JobQueueItem {
    JobQueueItem {
        status: JobQueueStatus::Succeeded,
        updated_at: now,
        lease_expires_at: None,
        ..item
    }
}

/// The item after a failed attempt at `now`: one more attempt counted, the
/// claim released, failed for good at the maximum of attempts and otherwise
/// pending again, after the retry delay when one is given.
pub open spec fn failed(item: JobQueueItem, message: String, delay: Option<u64>, now: i64) -> JobQueueItem {
    let attempts = (item.attempts + 1) as u32;
    let retry = attempts < item.max_attempts;
    JobQueueItem {
        attempts,
        last_error: Some(message),
        updated_at: now,
        claimed_by: None,
        claimed_at: None,
        lease_expires_at: None,
        status: if retry {
            JobQueueStatus::Pending
        } else {
            JobQueueStatus::Failed
        },
        available_at: if retry && delay is Some {
            (now + as_i64(delay.unwrap())) as i64
        } else {
            item.available_at
        },
        ..item
    }
}

impl JobQueueItem {
    /// The pending item for `request`, with the given identifier, created at
    /// `now` and available from the request's time, or from `now`.
    pub fn from_dispatch_at(request: JobDispatchRequest, queue_id: String, now: i64) -> (item: JobQueueItem)
        ensures
            item.queue_id@ == queue_id@,
            item.tenant_id@ == request.tenant_id@,
            item.project_id@ == request.project_id@,
            item.job_id@ == request.job_id@,
            item.target@ == request.target@,
            item.profile@ == request.profile@,
            opt_chars(item.policy_path) == opt_chars(request.policy_path),
            item.trigger@ == trigger_name(request.trigger),
            opt_chars(item.requested_by) == opt_chars(request.requested_by),
            item.persist_artifacts == request.persist_artifacts,
            item.status == JobQueueStatus::Pending,
            item.attempts == 0,
            item.max_attempts == request.max_attempts,
            item.available_at == match request.available_at {
                Some(t) => t,
                None => now,
            },
            item.claimed_by is None,
            item.claimed_at is None,
            item.lease_expires_at is None,
            item.created_at == now,
            item.updated_at == now,
            item.last_error is None,
    {
        let trigger = request.trigger.to_string();
        let available_at = match request.available_at {
            Some(t) => t,
            None => now,
        };
        JobQueueItem {
            queue_id,
            tenant_id: request.tenant_id,
            project_id: request.project_id,
            job_id: request.job_id,
            target: request.target,
            profile: request.profile,
            policy_path: request.policy_path,
            trigger,
            requested_by: request.requested_by,
            persist_artifacts: request.persist_artifacts,
            status: JobQueueStatus::Pending,
            attempts: 0,
            max_attempts: request.max_attempts,
            available_at,
            claimed_by: None,
            claimed_at: None,
            lease_expires_at: None,
            created_at: now,
            updated_at: now,
            last_error: None,
        }
    }

    /// The pending item for `request`, with a fresh identifier, created at
    /// the time read from the clock.
    pub fn from_dispatch(request: JobDispatchRequest) -> (item: JobQueueItem)
        ensures
            -0x1000_0000_0000 < item.created_at < 0x1000_0000_0000,
            hyphenated_uuid(item.queue_id@),
            item.tenant_id@ == request.tenant_id@,
            item.project_id@ == request.project_id@,
            item.job_id@ == request.job_id@,
            item.target@ == request.target@,
            item.profile@ == request.profile@,
            opt_chars(item.policy_path) == opt_chars(request.policy_path),
            item.trigger@ == trigger_name(request.trigger),
            opt_chars(item.requested_by) == opt_chars(request.requested_by),
            item.persist_artifacts == request.persist_artifacts,
            item.status == JobQueueStatus::Pending,
            item.attempts == 0,
            item.max_attempts == request.max_attempts,
            item.available_at == match request.available_at {
                Some(t) => t,
                None => item.created_at,
            },
            item.claimed_by is None,
            item.claimed_at is None,
            item.lease_expires_at is None,
            item.updated_at == item.created_at,
            item.last_error is None,
    {
        let id = new_uuid();
        let now = now_timestamp();
        JobQueueItem::from_dispatch_at(request, id, now)
    }

    pub fn can_be_claimed_at(&self, now: i64) -> (r: bool)
        ensures
            r == claimable(*self, now),
    {
        let pending = match self.status {
            JobQueueStatus::Pending => true,
            _ => false,
        };
        let lease_over = match self.lease_expires_at {
            Some(lease) => lease <= now,
            None => true,
        };
        pending && self.available_at <= now && lease_over
    }

    /// Claims the item for `worker_id` at `now`, with a lease of `lease_seconds`.
    pub fn claim_at(&mut self, worker_id: String, lease_seconds: u64, now: i64)
        requires
            shift_ok(now, lease_seconds),
        ensures
            *final(self) == claimed(*old(self), worker_id, lease_seconds, now),
    {
        self.status = JobQueueStatus::Claimed;
        self.claimed_by = Some(worker_id);
        self.claimed_at = Some(now);
        self.lease_expires_at = Some(shift(now, lease_seconds));
        self.updated_at = now;
    }

    /// Claims the item for `worker_id` now: the item claimed at the time
    /// read from the clock, which becomes its update time.
    pub fn claim(&mut self, worker_id: String, lease_seconds: u64)
        requires
            -MAX_DURATION_SECS <= as_i64(lease_seconds) <= MAX_DURATION_SECS,
        ensures
            -0x1000_0000_0000 < final(self).updated_at < 0x1000_0000_0000,
            *final(self) == claimed(*old(self), worker_id, lease_seconds, final(self).updated_at),
    {
        let now = now_timestamp();
        self.claim_at(worker_id, lease_seconds, now);
    }

    /// Starts the item at `now`.
    pub fn start_at(&mut self, now: i64)
        ensures
            *final(self) == started(*old(self), now),
    {
        self.status = JobQueueStatus::Running;
        self.updated_at = now;
    }

    /// Starts the item now: the item running from the time read from the
    /// clock, which becomes its update time.
    pub fn start(&mut self)
        ensures
            -0x1000_0000_0000 < final(self).updated_at < 0x1000_0000_0000,
            *final(self) == started(*old(self), final(self).updated_at),
    {
        let now = now_timestamp();
        self.start_at(now);
    }

    /// Finishes the item successfully at `now`, releasing its lease.
    pub fn succeed_at(&mut self, now: i64)
        ensures
            *final(self) == succeeded(*old(self), now),
    {
        self.status = JobQueueStatus::Succeeded;
        self.updated_at = now;
        self.lease_expires_at = None;
    }

    /// Finishes the item successfully now: the item succeeded at the time
    /// read from the clock, which becomes its update time.
    pub fn succeed(&mut self)
        ensures
            -0x1000_0000_0000 < final(self).updated_at < 0x1000_0000_0000,
            *final(self) == succeeded(*old(self), final(self).updated_at),
    {
        let now = now_timestamp();
        self.succeed_at(now);
    }

    /// Records a failed attempt at `now`: the claim is released; the item
    /// fails for good once its attempts reach the maximum, and otherwise goes
    /// back to pending, available after the retry delay when one is given.
    pub fn fail_at(&mut self, message: String, retry_delay_seconds: Option<u64>, now: i64)
        requires
            old(self).attempts < u32::MAX,
            retry_delay_seconds matches Some(d) ==> shift_ok(now, d),
        ensures
            *final(self) == failed(*old(self), message, retry_delay_seconds, now),
    {
        self.attempts = self.attempts + 1;
        self.last_error = Some(message);
        self.updated_at = now;
        self.claimed_by = None;
        self.claimed_at = None;
        self.lease_expires_at = None;
        if self.attempts >= self.max_attempts {
            self.status = JobQueueStatus::Failed;
        } else {
            self.status = JobQueueStatus::Pending;
            if let Some(delay) = retry_delay_seconds {
                self.available_at = shift(now, delay);
            }
        }
    }

    /// Records a failed attempt now: the item after a failed attempt at the
    /// time read from the clock, which becomes its update time (and the base
    /// of the retry delay).
    pub fn fail(&mut self, message: String, retry_delay_seconds: Option<u64>)
        requires
            old(self).attempts < u32::MAX,
            retry_delay_seconds matches Some(d) ==> -MAX_DURATION_SECS <= as_i64(d) <= MAX_DURATION_SECS,
        ensures
            -0x1000_0000_0000 < final(self).updated_at < 0x1000_0000_0000,
            *final(self) == failed(*old(self), message, retry_delay_seconds, final(self).updated_at),
    {
        let now = now_timestamp();
        self.fail_at(message, retry_delay_seconds, now);
    }
}

/// The record of one execution of a queue item.
#[derive(Debug, Clone)]
pub struct JobExecutionRecord {
    pub execution_id: String,
    pub queue_id: String,
    pub tenant_id: String,
    pub project_id: String,
    pub job_id: String,
    pub worker_id: Option<String>,
    pub status: JobQueueStatus,
    pub started_at: Option<i64>,
    pub finished_at: Option<i64>,
    pub result_json: Option<String>,
    pub error_message: Option<String>,
    pub created_at: i64,
}

impl JobExecutionRecord {
    /// The record of the item's current execution, with the given identifier.
    pub fn from_queue_at(item: &JobQueueItem, execution_id: String, now: i64) -> (r: JobExecutionRecord)
        ensures
            r.execution_id@ == execution_id@,
            r.queue_id@ == item.queue_id@,
            r.tenant_id@ == item.tenant_id@,
            r.project_id@ == item.project_id@,
            r.job_id@ == item.job_id@,
            opt_chars(r.worker_id) == opt_chars(item.claimed_by),
            r.status == item.status,
            r.started_at == item.claimed_at,
            r.finished_at is None,
            r.result_json is None,
            r.error_message is None,
            r.created_at == now,
    {
        JobExecutionRecord {
            execution_id,
            queue_id: item.queue_id.clone(),
            tenant_id: item.tenant_id.clone(),
            project_id: item.project_id.clone(),
            job_id: item.job_id.clone(),
            worker_id: item.claimed_by.clone(),
            status: item.status,
            started_at: item.claimed_at,
            finished_at: None,
            result_json: None,
            error_message: None,
            created_at: now,
        }
    }

    /// The record of the item's current execution, with a fresh identifier.
    pub fn from_queue(item: &JobQueueItem) -> (r: JobExecutionRecord)
        ensures
            r.queue_id@ == item.queue_id@,
            r.job_id@ == item.job_id@,
            opt_chars(r.worker_id) == opt_chars(item.claimed_by),
            r.status == item.status,
            r.started_at == item.claimed_at,
            r.finished_at is None,
            hyphenated_uuid(r.execution_id@),
            r.tenant_id@ == item.tenant_id@,
            r.project_id@ == item.project_id@,
            r.result_json is None,
            r.error_message is None,
            -0x1000_0000_0000 < r.created_at < 0x1000_0000_0000,
    {
        let id = new_uuid();
        let now = now_timestamp();
        JobExecutionRecord::from_queue_at(item, id, now)
    }
}

/// `n` failed attempts in a row at the same time, with the same message.
pub open spec fn failed_times(item: JobQueueItem, n: nat, message: String, now: i64) -> JobQueueItem
    decreases n,
{
    if n == 0 {
        item
    } else {
        failed(failed_times(item, (n - 1) as nat, message, now), message, None, now)
    }
}

/// A claimed item is not claimable again, at any later time, until it is
/// released.
pub proof fn law_claimed_is_not_claimable(item: JobQueueItem, worker: String, lease: u64, now: i64, later: i64)
    ensures
        !claimable(claimed(item, worker, lease, now), later),
{
}

/// A failed attempt below the maximum puts the item back in the queue
/// without a lease: it can be claimed again once it is available.
pub proof fn law_retry_is_claimable(item: JobQueueItem, message: String, delay: Option<u64>, now: i64, later: i64)
    requires
        item.attempts + 1 < item.max_attempts,
        failed(item, message, delay, now).available_at <= later,
    ensures
        claimable(failed(item, message, delay, now), later),
{
}

/// An item is retried until it has failed `max_attempts` times: starting
/// with no attempts, it stays pending after fewer failures and is failed for
/// good after exactly `max_attempts` of them.
pub proof fn law_retries_until_failure(item: JobQueueItem, n: nat, message: String, now: i64)
    requires
        item.attempts == 0,
        1 <= n <= item.max_attempts,
    ensures
        failed_times(item, n, message, now).attempts == n,
        failed_times(item, n, message, now).status == if n < item.max_attempts {
            JobQueueStatus::Pending
        } else {
            JobQueueStatus::Failed
        },
        failed_times(item, n, message, now).max_attempts == item.max_attempts,
    decreases n,
{
    if n > 1 {
        law_retries_until_failure(item, (n - 1) as nat, message, now);
    } else {
        assert(failed_times(item, 0, message, now) == item);
    }
    let prev = failed_times(item, (n - 1) as nat, message, now);
    assert(prev.attempts == n - 1);
    assert(failed_times(item, n, message, now) == failed(prev, message, None, now));
}

/// A dispatched request goes pending, is claimable once available, and a
/// claim, a start and a success take it through `Claimed` and `Running` to
/// `Succeeded`, with its attempts and request untouched, still naming the
/// worker that claimed it and when, its lease released.
pub proof fn law_lifecycle(item: JobQueueItem, worker: String, lease: u64, t1: i64, t2: i64, t3: i64)
    requires
        item.status == JobQueueStatus::Pending,
        item.lease_expires_at is None,
        item.available_at <= t1,
    ensures
        claimable(item, t1),
        claimed(item, worker, lease, t1).status == JobQueueStatus::Claimed,
        started(claimed(item, worker, lease, t1), t2).status == JobQueueStatus::Running,
        succeeded(started(claimed(item, worker, lease, t1), t2), t3).status == JobQueueStatus::Succeeded,
        succeeded(started(claimed(item, worker, lease, t1), t2), t3).attempts == item.attempts,
        succeeded(started(claimed(item, worker, lease, t1), t2), t3).claimed_by == Some(worker),
        succeeded(started(claimed(item, worker, lease, t1), t2), t3).claimed_at == Some(t1),
        succeeded(started(claimed(item, worker, lease, t1), t2), t3).lease_expires_at is None,
        same_request(succeeded(started(claimed(item, worker, lease, t1), t2), t3), item),
{
}

/// The order in which due jobs are dispatched: earlier next run first, then
/// by target, then by identifier.
pub open spec fn job_before(a: AtlasJob, b: AtlasJob) -> bool {
    next_run(a) < next_run(b) || (next_run(a) == next_run(b) && (seq_lt(a.target@, b.target@) || (
    a.target@ == b.target@ && seq_lt(a.job_id@, b.job_id@))))
}

pub open spec fn job_order() -> spec_fn(AtlasJob, AtlasJob) -> bool {
    |a: AtlasJob, b: AtlasJob| job_before(a, b)
}

/// The due jobs, in their order.
pub open spec fn due_jobs(js: Seq<AtlasJob>, now: i64) -> Seq<AtlasJob>
    decreases js.len(),
{
    if js.len() == 0 {
        Seq::empty()
    } else {
        let r = due_jobs(js.drop_last(), now);
        if job_due(js.last(), now) {
            r.push(js.last())
        } else {
            r
        }
    }
}

pub open spec fn all_runs_ok(js: Seq<AtlasJob>) -> bool {
    forall|i: int| 0 <= i < js.len() ==> next_run_ok(#[trigger] js[i])
}

/// Spec of `select_due_jobs`: the due jobs, stably sorted by `job_before`.
pub open spec fn selection(js: Seq<AtlasJob>, now: i64) -> Seq<AtlasJob> {
    sort_by_lt(due_jobs(js, now), job_order())
}

proof fn lemma_job_order_strict()
    ensures
        strict_order(job_order()),
{
    assert forall|a: AtlasJob| !(#[trigger] job_order()(a, a)) by {
        lemma_lt_irreflexive(a.target@);
        lemma_lt_irreflexive(a.job_id@);
    }
    assert forall|a: AtlasJob, b: AtlasJob, c: AtlasJob|
        #[trigger] job_order()(a, b) && #[trigger] job_order()(b, c) implies job_order()(a, c) by {
        if seq_lt(a.target@, b.target@) && seq_lt(b.target@, c.target@) {
            lemma_lt_transitive(a.target@, b.target@, c.target@);
        }
        if seq_lt(a.job_id@, b.job_id@) && seq_lt(b.job_id@, c.job_id@) {
            lemma_lt_transitive(a.job_id@, b.job_id@, c.job_id@);
        }
    }
}

proof fn lemma_due_jobs_ok(js: Seq<AtlasJob>, now: i64)
    requires
        all_runs_ok(js),
    ensures
        all_runs_ok(due_jobs(js, now)),
        forall|j: AtlasJob| due_jobs(js, now).contains(j) <==> js.contains(j) && job_due(j, now),
    decreases js.len(),
{
    if js.len() > 0 {
        let prefix = js.drop_last();
        assert(all_runs_ok(prefix)) by {
            assert forall|i: int| 0 <= i < prefix.len() implies next_run_ok(#[trigger] prefix[i]) by {
                assert(prefix[i] == js[i]);
            }
        }
        lemma_due_jobs_ok(prefix, now);
        assert(next_run_ok(js[js.len() - 1]));
        let r = due_jobs(prefix, now);
        assert forall|j: AtlasJob| due_jobs(js, now).contains(j) <==> js.contains(j) && job_due(j, now) by {
            if js.contains(j) && job_due(j, now) {
                let k = choose|k: int| 0 <= k < js.len() && js[k] == j;
                if k < js.len() - 1 {
                    assert(prefix[k] == j);
                    assert(prefix.contains(j));
                    assert(r.contains(j));
                    let m = choose|m: int| 0 <= m < r.len() && r[m] == j;
                    if job_due(js.last(), now) {
                        assert(r.push(js.last())[m] == j);
                    }
                } else if job_due(js.last(), now) {
                    assert(r.push(js.last())[r.len() as int] == j);
                }
            }
            if due_jobs(js, now).contains(j) {
                let m = choose|m: int| 0 <= m < due_jobs(js, now).len() && due_jobs(js, now)[m] == j;
                if m < r.len() {
                    assert(r[m] == j);
                    assert(r.contains(j));
                    assert(prefix.contains(j));
                    let k = choose|k: int| 0 <= k < prefix.len() && prefix[k] == j;
                    assert(js[k] == j);
                } else {
                    assert(js[js.len() - 1] == j);
                }
            }
        }
        assert forall|i: int| 0 <= i < due_jobs(js, now).len() implies next_run_ok(#[trigger] due_jobs(js, now)[i]) by {
            if i < r.len() {
                assert(due_jobs(js, now)[i] == r[i]);
            }
        }
    }
}

/// `job_before` on two jobs.
fn job_is_before(a: &AtlasJob, b: &AtlasJob) -> (r: bool)
    requires
        next_run_ok(*a),
        next_run_ok(*b),
    ensures
        r == job_before(*a, *b),
{
    let na = a.next_run_at();
    let nb = b.next_run_at();
    if na < nb {
        return true;
    }
    if na > nb {
        return false;
    }
    if str_less(a.target.as_str(), b.target.as_str()) {
        return true;
    }
    str_eq(a.target.as_str(), b.target.as_str()) && str_less(a.job_id.as_str(), b.job_id.as_str())
}

/// The jobs due at `now`, earliest next run first (then by target and
/// identifier; ties keep their order).
pub fn select_due_jobs(jobs: &Vec<AtlasJob>, now: i64) -> (r: Vec<AtlasJob>)
    requires
        all_runs_ok(jobs@),
    ensures
        r@ == selection(jobs@, now),
{
    let ghost js = jobs@;
    let mut due: Vec<AtlasJob> = Vec::new();
    let mut i: usize = 0;
    while i < jobs.len()
        invariant
            i <= jobs.len(),
            js == jobs@,
            all_runs_ok(js),
            due@ == due_jobs(js.take(i as int), now),
        decreases jobs.len() - i,
    {
        assert(js.take(i + 1).drop_last() =~= js.take(i as int));
        assert(js.take(i + 1).last() == js[i as int]);
        assert(next_run_ok(js[i as int]));
        if jobs[i].is_due_at(now) {
            due.push(jobs[i].duplicate());
        }
        i = i + 1;
    }
    assert(js.take(jobs.len() as int) =~= js);
    let ghost ds = due@;
    proof {
        lemma_due_jobs_ok(js, now);
    }
    let mut out: Vec<AtlasJob> = Vec::new();
    let mut k: usize = 0;
    assert(ds.take(0) =~= Seq::<AtlasJob>::empty());
    while k < due.len()
        invariant
            k <= due.len(),
            ds == due@,
            all_runs_ok(ds),
            out@ == sort_by_lt(ds.take(k as int), job_order()),
            all_runs_ok(out@),
        decreases due.len() - k,
    {
        let x = due[k].duplicate();
        assert(next_run_ok(ds[k as int]));
        let ghost sorted = out@;
        let mut p: usize = 0;
        loop
            invariant
                p <= out.len(),
                sorted == out@,
                all_runs_ok(sorted),
                next_run_ok(x),
                forall|j: int| 0 <= j < p ==> !job_before(x, #[trigger] sorted[j]),
            ensures
                p <= out.len(),
                forall|j: int| 0 <= j < p ==> !job_before(x, #[trigger] sorted[j]),
                p < out.len() ==> job_before(x, sorted[p as int]),
            decreases out.len() - p,
        {
            if p >= out.len() {
                break;
            }
            assert(next_run_ok(sorted[p as int]));
            if job_is_before(&x, &out[p]) {
                break;
            }
            p = p + 1;
        }
        proof {
            lemma_insert_pos_lt_first(sorted, x, job_order(), p as int);
            lemma_sort_by_lt_step(ds, k as int, job_order());
        }
        out.insert(p, x);
        assert(all_runs_ok(out@)) by {
            assert forall|j: int| 0 <= j < out@.len() implies next_run_ok(#[trigger] out@[j]) by {
                if j < p {
                    assert(out@[j] == sorted[j]);
                } else if j > p {
                    assert(out@[j] == sorted[j - 1]);
                }
            }
        }
        k = k + 1;
    }
    assert(ds.take(due.len() as int) =~= ds);
    out
}

/// The selection holds exactly the due jobs: each selected job is one of the
/// given jobs and is due, and each due job is selected.
pub proof fn law_selection_is_due_jobs(js: Seq<AtlasJob>, now: i64)
    requires
        all_runs_ok(js),
    ensures
        forall|j: AtlasJob| selection(js, now).contains(j) <==> js.contains(j) && job_due(j, now),
        selection(js, now).len() == due_jobs(js, now).len(),
{
    lemma_job_order_strict();
    lemma_due_jobs_ok(js, now);
    lemma_sort_by_lt(due_jobs(js, now), job_order());
}

/// The selection is ordered: no selected job comes before an earlier one by
/// next run, target and identifier.
pub proof fn law_selection_is_ordered(js: Seq<AtlasJob>, now: i64)
    requires
        all_runs_ok(js),
    ensures
        forall|i: int, k: int| 0 <= i < k < selection(js, now).len() ==> !job_before(
            #[trigger] selection(js, now)[k],
            #[trigger] selection(js, now)[i],
        ),
{
    lemma_job_order_strict();
    lemma_sort_by_lt(due_jobs(js, now), job_order());
}

/// The scheduled dispatch of `job` at `now` for a tenant and project.
pub open spec fn scheduled_request(r: JobDispatchRequest, tenant: Seq<char>, project: Seq<char>, job: AtlasJob, now: i64) -> bool {
    r.tenant_id@ == tenant && r.project_id@ == project && r.job_id@ == job.job_id@ && r.target@
        == job.target@ && r.profile@ == job.profile@ && opt_chars(r.policy_path) == opt_chars(
        job.policy_path,
    ) && r.trigger == JobTrigger::Scheduled && r.requested_by is None && !r.persist_artifacts
        && r.max_attempts == 3 && r.available_at == Some(now)
}

/// One scheduled request per due job, in dispatch order, available at `now`.
pub fn build_dispatch_requests(tenant_id: &str, project_id: &str, jobs: &Vec<AtlasJob>, now: i64) -> (r:
    Vec<JobDispatchRequest>)
    requires
        all_runs_ok(jobs@),
    ensures
        r@.len() == selection(jobs@, now).len(),
        forall|i: int| 0 <= i < r@.len() ==> scheduled_request(
            #[trigger] r@[i],
            tenant_id@,
            project_id@,
            selection(jobs@, now)[i],
            now,
        ),
{
    let selected = select_due_jobs(jobs, now);
    let mut out: Vec<JobDispatchRequest> = Vec::new();
    let mut i: usize = 0;
    while i < selected.len()
        invariant
            i <= selected.len(),
            selected@ == selection(jobs@, now),
            out@.len() == i,
            forall|k: int| 0 <= k < i ==> scheduled_request(
                #[trigger] out@[k],
                tenant_id@,
                project_id@,
                selected@[k],
                now,
            ),
        decreases selected.len() - i,
    {
        let req = JobDispatchRequest::from_job(
            owned(tenant_id),
            owned(project_id),
            &selected[i],
            JobTrigger::Scheduled,
        ).available_at(now);
        out.push(req);
        i = i + 1;
    }
    out
}

} // verus!
