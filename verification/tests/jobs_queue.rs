use atlas::jobs::{
    build_dispatch_requests, select_due_jobs, AtlasJob, JobDispatchRequest, JobQueueItem,
    JobQueueStatus, JobTrigger,
};

fn now() -> i64 {
    std::time::SystemTime::now()
        .duration_since(std::time::UNIX_EPOCH)
        .unwrap()
        .as_secs() as i64
}

#[test]
fn new_job_is_due_immediately() {
    let job = AtlasJob::new("example.com".to_string(), "standard".to_string(), 3600, None, true);
    assert!(job.is_due_at(now() + 1));
}

#[test]
fn disabled_job_is_not_due() {
    let job = AtlasJob::new("example.com".to_string(), "standard".to_string(), 3600, None, false);
    assert!(!job.is_due_at(now()));
}

#[test]
fn job_is_due_an_interval_after_its_last_run() {
    let mut job = AtlasJob::created(
        "job-1".to_string(),
        "example.com".to_string(),
        "standard".to_string(),
        60,
        None,
        true,
        100,
    );
    job.last_run_at = Some(1_000);
    assert_eq!(job.next_run_at(), 1_060);
    assert!(!job.is_due_at(1_059));
    assert!(job.is_due_at(1_060));
}

#[test]
fn dispatch_request_can_be_built_from_job() {
    let job = AtlasJob::new("example.com".to_string(), "standard".to_string(), 3600, None, true);
    let req = JobDispatchRequest::from_job(
        "tenant-a".to_string(),
        "project-x".to_string(),
        &job,
        JobTrigger::Scheduled,
    );

    assert_eq!(req.tenant_id, "tenant-a");
    assert_eq!(req.project_id, "project-x");
    assert_eq!(req.job_id, job.job_id);
    assert_eq!(req.target, "example.com");
    assert_eq!(req.profile, "standard");
    assert_eq!(req.trigger, JobTrigger::Scheduled);
}

#[test]
fn queue_item_lifecycle_works() {
    let request = JobDispatchRequest::new(
        "tenant-a".to_string(),
        "project-x".to_string(),
        "job-1".to_string(),
        "example.com".to_string(),
        "standard".to_string(),
        JobTrigger::Manual,
    );

    let mut item = JobQueueItem::from_dispatch(request);
    assert_eq!(item.status, JobQueueStatus::Pending);
    assert!(item.can_be_claimed_at(now() + 1));

    item.claim("worker-1".to_string(), 30);
    assert_eq!(item.status, JobQueueStatus::Claimed);

    item.start();
    assert_eq!(item.status, JobQueueStatus::Running);

    item.succeed();
    assert_eq!(item.status, JobQueueStatus::Succeeded);
}

#[test]
fn queue_item_retries_until_failure() {
    let mut request = JobDispatchRequest::new(
        "tenant-a".to_string(),
        "project-x".to_string(),
        "job-1".to_string(),
        "example.com".to_string(),
        "standard".to_string(),
        JobTrigger::Scheduled,
    );
    request.max_attempts = 2;

    let mut item = JobQueueItem::from_dispatch(request);
    item.fail("first error".to_string(), Some(10));
    assert_eq!(item.status, JobQueueStatus::Pending);
    assert_eq!(item.attempts, 1);

    item.fail("second error".to_string(), Some(10));
    assert_eq!(item.status, JobQueueStatus::Failed);
    assert_eq!(item.attempts, 2);
}

#[test]
fn claimed_item_is_not_claimable_and_retry_waits() {
    let request = JobDispatchRequest::new(
        "tenant-a".to_string(),
        "project-x".to_string(),
        "job-1".to_string(),
        "example.com".to_string(),
        "standard".to_string(),
        JobTrigger::Api,
    );
    let mut item = JobQueueItem::from_dispatch_at(request, "q-1".to_string(), 1_000);
    assert!(item.can_be_claimed_at(1_000));
    item.claim_at("worker-1".to_string(), 30, 1_000);
    assert!(!item.can_be_claimed_at(1_010));
    assert_eq!(item.lease_expires_at, Some(1_030));
    item.fail_at("boom".to_string(), Some(60), 1_020);
    assert_eq!(item.status, JobQueueStatus::Pending);
    assert_eq!(item.available_at, 1_080);
    assert!(!item.can_be_claimed_at(1_079));
    assert!(item.can_be_claimed_at(1_080));
}

#[test]
fn scheduler_selects_due_jobs() {
    let now = now();

    let mut due = AtlasJob::new("example.com".to_string(), "standard".to_string(), 3600, None, true);
    due.last_run_at = Some(now - 7200);

    let mut not_due = AtlasJob::new("test.com".to_string(), "standard".to_string(), 3600, None, true);
    not_due.last_run_at = Some(now - 10);

    let jobs = vec![due, not_due];
    let selected = select_due_jobs(&jobs, now);

    assert_eq!(selected.len(), 1);
    assert_eq!(selected[0].target, "example.com");
}

#[test]
fn scheduler_ignores_disabled_jobs() {
    let now = now();

    let mut job = AtlasJob::new("example.com".to_string(), "standard".to_string(), 3600, None, false);
    job.last_run_at = Some(now - 7200);

    let selected = select_due_jobs(&vec![job], now);
    assert!(selected.is_empty());
}

#[test]
fn scheduler_builds_dispatch_requests() {
    let now = now();

    let mut due = AtlasJob::new("example.com".to_string(), "standard".to_string(), 3600, None, true);
    due.last_run_at = Some(now - 7200);

    let requests = build_dispatch_requests("tenant-a", "project-x", &vec![due], now);
    assert_eq!(requests.len(), 1);
    assert_eq!(requests[0].tenant_id, "tenant-a");
    assert_eq!(requests[0].project_id, "project-x");
    assert_eq!(requests[0].trigger, JobTrigger::Scheduled);
    assert_eq!(requests[0].available_at, Some(now));
}

#[test]
fn scheduler_orders_due_jobs_by_next_run() {
    let mut a = AtlasJob::created("a".to_string(), "a.com".to_string(), "standard".to_string(), 100, None, true, 0);
    a.last_run_at = Some(500);
    let mut b = AtlasJob::created("b".to_string(), "b.com".to_string(), "standard".to_string(), 100, None, true, 0);
    b.last_run_at = Some(100);
    let selected = select_due_jobs(&vec![a, b], 1_000);
    let targets: Vec<&str> = selected.iter().map(|j| j.target.as_str()).collect();
    assert_eq!(targets, vec!["b.com", "a.com"]);
}
