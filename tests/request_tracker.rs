use validity_proposer::range::ProofRange;
use validity_proposer::tracker::{is_legal_transition, FailureReason, RequestKind, RequestStatus, RequestTracker};

fn r(a: u64, b: u64) -> ProofRange {
    ProofRange::new(a, b)
}

#[test]
fn second_creation_of_same_range_fails() {
    let mut t = RequestTracker::new();
    let first = t.try_create_pending(RequestKind::Range, r(1, 10), 5);
    let second = t.try_create_pending(RequestKind::Range, r(1, 10), 6);
    assert!(first);
    assert!(!second);
    assert_eq!(t.len(), 1);
    let q = t.get(0).unwrap();
    assert_eq!(q.status, RequestStatus::Pending);
    assert_eq!(q.created_at, 5);
    assert_eq!(q.retries, 0);
    assert_eq!(q.backend_job_id, None);
}

#[test]
fn overlapping_open_range_is_refused() {
    let mut t = RequestTracker::new();
    assert!(t.try_create_pending(RequestKind::Range, r(1, 10), 0));
    assert!(!t.try_create_pending(RequestKind::Range, r(10, 20), 0));
    assert!(t.try_create_pending(RequestKind::Range, r(11, 20), 0));
    assert_eq!(t.len(), 2);
}

#[test]
fn other_kind_does_not_block() {
    let mut t = RequestTracker::new();
    assert!(t.try_create_pending(RequestKind::Range, r(1, 10), 0));
    assert!(t.try_create_pending(RequestKind::Aggregation, r(1, 10), 0));
}

#[test]
fn malformed_range_is_refused() {
    let mut t = RequestTracker::new();
    assert!(!t.try_create_pending(RequestKind::Range, r(10, 1), 0));
    assert_eq!(t.len(), 0);
}

#[test]
fn dead_lettered_request_still_blocks() {
    let mut t = RequestTracker::new();
    assert!(t.try_create_pending(RequestKind::Range, r(1, 10), 0));
    assert!(t.transition(0, RequestStatus::Pending, RequestStatus::DeadLettered, 1));
    assert!(!t.try_create_pending(RequestKind::Range, r(1, 10), 2));
    assert!(!t.try_create_pending(RequestKind::Range, r(5, 15), 2));
    assert_eq!(t.len(), 1);
}

#[test]
fn proved_range_no_longer_blocks() {
    let mut t = RequestTracker::new();
    assert!(t.try_create_pending(RequestKind::Range, r(1, 10), 0));
    assert!(t.mark_dispatched(0, 1, 1));
    assert!(t.transition(0, RequestStatus::Dispatched, RequestStatus::Proved, 2));
    assert!(t.try_create_pending(RequestKind::Range, r(1, 10), 3));
}

#[test]
fn proved_aggregation_still_blocks() {
    let mut t = RequestTracker::new();
    assert!(t.try_create_pending(RequestKind::Aggregation, r(1, 20), 0));
    assert!(t.mark_dispatched(0, 9, 1));
    assert!(t.transition(0, RequestStatus::Dispatched, RequestStatus::Proved, 2));
    assert!(!t.try_create_pending(RequestKind::Aggregation, r(1, 20), 3));
    assert!(t.transition(0, RequestStatus::Proved, RequestStatus::Submitted, 4));
    assert!(t.try_create_pending(RequestKind::Aggregation, r(1, 20), 5));
}

#[test]
fn transition_guards_current_status() {
    let mut t = RequestTracker::new();
    t.try_create_pending(RequestKind::Range, r(1, 10), 0);
    assert!(!t.transition(0, RequestStatus::Dispatched, RequestStatus::Proved, 1));
    assert_eq!(t.get(0).unwrap().status, RequestStatus::Pending);
    assert!(!t.transition(0, RequestStatus::Pending, RequestStatus::Proved, 1));
    assert!(!t.transition(3, RequestStatus::Pending, RequestStatus::Dispatched, 1));
    assert!(t.transition(0, RequestStatus::Pending, RequestStatus::Dispatched, 7));
    assert_eq!(t.get(0).unwrap().status, RequestStatus::Dispatched);
    assert_eq!(t.get(0).unwrap().updated_at, 7);
    assert!(!t.transition(0, RequestStatus::Pending, RequestStatus::Dispatched, 8));
}

#[test]
fn legal_transitions() {
    assert!(is_legal_transition(RequestStatus::Pending, RequestStatus::Dispatched));
    assert!(is_legal_transition(RequestStatus::Dispatched, RequestStatus::Proved));
    assert!(is_legal_transition(RequestStatus::Dispatched, RequestStatus::Failed));
    assert!(is_legal_transition(RequestStatus::Failed, RequestStatus::Pending));
    assert!(is_legal_transition(RequestStatus::Proved, RequestStatus::Submitted));
    assert!(is_legal_transition(RequestStatus::Failed, RequestStatus::DeadLettered));
    assert!(!is_legal_transition(RequestStatus::Submitted, RequestStatus::Pending));
    assert!(!is_legal_transition(RequestStatus::Proved, RequestStatus::Pending));
    assert!(!is_legal_transition(RequestStatus::Pending, RequestStatus::Proved));
    assert!(!is_legal_transition(RequestStatus::DeadLettered, RequestStatus::Pending));
}

#[test]
fn dispatch_records_job_and_retry_counts() {
    let mut t = RequestTracker::new();
    t.try_create_pending(RequestKind::Range, r(1, 10), 0);
    assert!(t.record_failure(0, FailureReason::JobFailed, 3));
    assert!(t.record_failure(0, FailureReason::BackendUnavailable, 4));
    assert_eq!(t.get(0).unwrap().retries, 2);
    assert!(t.mark_dispatched(0, 77, 5));
    assert_eq!(t.get(0).unwrap().backend_job_id, Some(77));
    assert!(!t.mark_dispatched(0, 78, 6));
    assert!(!t.record_failure(1, FailureReason::JobFailed, 6));
}

#[test]
fn lists_ids_by_kind_and_status() {
    let mut t = RequestTracker::new();
    t.try_create_pending(RequestKind::Range, r(1, 10), 0);
    t.try_create_pending(RequestKind::Range, r(11, 20), 0);
    t.try_create_pending(RequestKind::Aggregation, r(1, 20), 0);
    t.try_create_pending(RequestKind::Range, r(21, 30), 0);
    t.transition(1, RequestStatus::Pending, RequestStatus::Dispatched, 1);
    assert_eq!(t.list_by_status(RequestKind::Range, RequestStatus::Pending), vec![0, 3]);
    assert_eq!(t.list_by_status(RequestKind::Range, RequestStatus::Dispatched), vec![1]);
    assert_eq!(t.list_by_status(RequestKind::Aggregation, RequestStatus::Pending), vec![2]);
    assert!(t.list_by_status(RequestKind::Range, RequestStatus::Proved).is_empty());
}
