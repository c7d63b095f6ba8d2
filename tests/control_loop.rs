use validity_proposer::proposer::{
    check_artifact, DispatchOutcome, ProofShape, PollOutcome, ProofMode, ProofStrategy, Proposer, RequesterConfig, RunState,
};
use validity_proposer::mock::MockProver;
use validity_proposer::range::ProofRange;
use validity_proposer::tracker::{FailureReason, RequestKind, RequestStatus};

fn config() -> RequesterConfig {
    RequesterConfig {
        l1_chain_id: 1,
        l2_chain_id: 10,
        l2oo_address: [1u8; 20],
        dgf_address: None,
        range_proof_interval: 10,
        max_concurrent_witness_gen: 4,
        max_concurrent_proof_requests: 4,
        range_proof_strategy: ProofStrategy::Reserved,
        agg_proof_strategy: ProofStrategy::Hosted,
        agg_proof_mode: ProofMode::Plonk,
        submission_interval: 100,
        max_aggregation_span: 20,
        db_fallback_window: 30,
        max_retries: 5,
        mock: true,
        prover_address: [2u8; 20],
        safe_db_fallback: true,
        use_local_proving: false,
    }
}

/// Dispatches every pending request that the permits allow, the backend
/// accepting each.
fn dispatch_all(p: &mut Proposer, now: u64) -> Vec<usize> {
    let mut ids = Vec::new();
    while let Some(o) = p.begin_dispatch() {
        p.on_dispatch_result(DispatchOutcome::Accepted(1000 + o.id as u64), now);
        ids.push(o.id);
    }
    ids
}

fn prove_all(p: &mut Proposer, ids: &[usize], now: u64) {
    for id in ids {
        p.on_poll_result(*id, PollOutcome::Proved, now);
    }
}

#[test]
fn mock_run_from_genesis_to_head_25() {
    let mut p = Proposer::new(config(), 0);
    p.on_chain_head(25, 1);
    assert_eq!(p.request_count(), 3);
    let ranges: Vec<ProofRange> = (0..3).map(|i| p.request(i).unwrap().range).collect();
    assert_eq!(
        ranges,
        vec![ProofRange::new(1, 10), ProofRange::new(11, 20), ProofRange::new(21, 25)]
    );
    let ids = dispatch_all(&mut p, 2);
    assert_eq!(ids, vec![0, 1, 2]);
    prove_all(&mut p, &ids, 3);
    for i in 0..3 {
        assert_eq!(p.request(i).unwrap().status, RequestStatus::Proved);
    }

    let g = p.assemble_aggregation(4).unwrap();
    assert_eq!(g.component_range_ids, vec![0, 1]);
    let agg = g.id;
    assert_eq!(agg, 3);
    let q = p.request(agg).unwrap();
    assert_eq!(q.kind, RequestKind::Aggregation);
    assert_eq!(q.range, ProofRange::new(1, 20));
    assert!(p.assemble_aggregation(5).is_none());

    let o = p.begin_dispatch().unwrap();
    assert_eq!(o.id, agg);
    assert_eq!(o.strategy, ProofStrategy::Hosted);
    assert_eq!(o.mode, Some(ProofMode::Plonk));
    assert!(o.mock);
    p.on_dispatch_result(DispatchOutcome::Accepted(7), 6);
    p.on_poll_result(agg, PollOutcome::Proved, 7);

    let s = p.next_submission(8).unwrap();
    assert_eq!(s.id, agg);
    assert_eq!(s.range, ProofRange::new(1, 20));
    assert_eq!(s.target, [1u8; 20]);
    assert!(p.on_submit_result(s.id, true, 8));
    assert_eq!(p.last_submitted_block(), 20);
    assert_eq!(p.request(agg).unwrap().status, RequestStatus::Submitted);

    let g2 = p.assemble_aggregation(9).unwrap();
    assert_eq!(g2.component_range_ids, vec![2]);
    let agg2 = g2.id;
    assert_eq!(p.request(agg2).unwrap().range, ProofRange::new(21, 25));
    assert_eq!(dispatch_all(&mut p, 10), vec![agg2]);
    p.on_poll_result(agg2, PollOutcome::Proved, 11);
    assert!(p.next_submission(50).is_none());
    let s2 = p.next_submission(108).unwrap();
    assert_eq!(s2.range.start_block, 21);
    assert!(p.on_submit_result(s2.id, true, 108));
    assert_eq!(p.last_submitted_block(), 25);
    assert!(p.next_submission(1000).is_none());
}

#[test]
fn dispatch_fails_twice_then_succeeds() {
    let mut p = Proposer::new(config(), 0);
    p.on_chain_head(10, 1);
    assert_eq!(p.request_count(), 1);
    for tick in 0..2u64 {
        let o = p.begin_dispatch().unwrap();
        assert_eq!(o.id, 0);
        p.on_dispatch_result(DispatchOutcome::Unavailable, 2 + tick);
        assert_eq!(p.request(0).unwrap().status, RequestStatus::Pending);
        p.on_chain_head(10, 2 + tick);
    }
    assert_eq!(p.request(0).unwrap().retries, 2);
    let o = p.begin_dispatch().unwrap();
    assert!(p.begin_dispatch().is_none());
    p.on_dispatch_result(DispatchOutcome::Accepted(42), 5);
    let q = p.request(o.id).unwrap();
    assert_eq!(q.status, RequestStatus::Dispatched);
    assert_eq!(q.backend_job_id, Some(42));
    p.on_poll_result(0, PollOutcome::InProgress, 6);
    assert_eq!(p.request(0).unwrap().status, RequestStatus::Dispatched);
    p.on_poll_result(0, PollOutcome::Proved, 7);
    assert_eq!(p.request(0).unwrap().status, RequestStatus::Proved);
    p.on_chain_head(10, 8);
    assert_eq!(p.request_count(), 1);
}

#[test]
fn database_outage_with_fallback_degrades_then_recovers() {
    let mut p = Proposer::new(config(), 0);
    p.on_chain_head(10, 1);
    dispatch_all(&mut p, 2);
    p.on_database_status(false, 2);
    assert!(p.degraded());
    assert_eq!(p.run_state(), RunState::Running);
    p.on_poll_result(0, PollOutcome::Proved, 3);
    p.on_chain_head(20, 4);
    assert_eq!(p.request_count(), 2);
    p.on_database_status(true, 5);
    assert!(!p.degraded());
    assert_eq!(p.run_state(), RunState::Running);
    assert_eq!(p.request(0).unwrap().status, RequestStatus::Proved);
}

#[test]
fn database_outage_without_fallback_stops() {
    let mut cfg = config();
    cfg.safe_db_fallback = false;
    let mut p = Proposer::new(cfg, 0);
    p.on_database_status(false, 1);
    assert_eq!(p.run_state(), RunState::Stopped);
    assert!(!p.degraded());
    p.on_chain_head(25, 1);
    assert_eq!(p.request_count(), 0);
}

#[test]
fn failed_proofs_retry_then_dead_letter() {
    let mut cfg = config();
    cfg.max_retries = 2;
    let mut p = Proposer::new(cfg, 0);
    p.on_chain_head(10, 1);
    dispatch_all(&mut p, 2);
    p.on_poll_result(0, PollOutcome::Failed, 3);
    let q = p.request(0).unwrap();
    assert_eq!(q.status, RequestStatus::Failed);
    assert_eq!(q.retries, 1);
    assert!(p.begin_dispatch().is_none());
    p.on_chain_head(10, 4);
    assert_eq!(p.request(0).unwrap().status, RequestStatus::Pending);
    assert_eq!(p.request_count(), 1);
    dispatch_all(&mut p, 4);
    p.on_poll_result(0, PollOutcome::Failed, 5);
    assert_eq!(p.request(0).unwrap().status, RequestStatus::DeadLettered);
    p.on_poll_result(0, PollOutcome::Proved, 6);
    assert_eq!(p.request(0).unwrap().status, RequestStatus::DeadLettered);
}

#[test]
fn rejected_job_is_dead_lettered() {
    let mut p = Proposer::new(config(), 0);
    p.on_chain_head(20, 1);
    p.begin_dispatch().unwrap();
    p.on_dispatch_result(DispatchOutcome::Rejected, 2);
    assert_eq!(p.request(0).unwrap().status, RequestStatus::DeadLettered);
    let o = p.begin_dispatch().unwrap();
    assert_eq!(o.id, 1);
    p.on_dispatch_result(DispatchOutcome::Accepted(3), 3);
    p.on_poll_result(1, PollOutcome::Rejected, 4);
    assert_eq!(p.request(1).unwrap().status, RequestStatus::DeadLettered);
}

#[test]
fn permits_bound_dispatches() {
    let mut cfg = config();
    cfg.max_concurrent_proof_requests = 2;
    let mut p = Proposer::new(cfg, 0);
    p.on_chain_head(50, 1);
    assert_eq!(p.request_count(), 5);
    assert_eq!(dispatch_all(&mut p, 2), vec![0, 1]);
    p.on_poll_result(0, PollOutcome::Proved, 3);
    assert_eq!(dispatch_all(&mut p, 4), vec![2]);
}

#[test]
fn witness_permit_is_held_only_while_dispatching() {
    let mut cfg = config();
    cfg.max_concurrent_witness_gen = 1;
    let mut p = Proposer::new(cfg, 0);
    p.on_chain_head(30, 1);
    assert_eq!(dispatch_all(&mut p, 2), vec![0, 1, 2]);
}

#[test]
fn submission_goes_to_the_dispute_game_factory_when_set() {
    let mut cfg = config();
    cfg.dgf_address = Some([9u8; 20]);
    let mut p = Proposer::new(cfg, 0);
    p.on_chain_head(10, 1);
    let ids = dispatch_all(&mut p, 2);
    prove_all(&mut p, &ids, 3);
    let agg = p.assemble_aggregation(4).unwrap().id;
    dispatch_all(&mut p, 5);
    p.on_poll_result(agg, PollOutcome::Proved, 6);
    let s = p.next_submission(7).unwrap();
    assert_eq!(s.target, [9u8; 20]);
}

#[test]
fn failed_transaction_keeps_proof_for_retry() {
    let mut p = Proposer::new(config(), 0);
    p.on_chain_head(10, 1);
    let ids = dispatch_all(&mut p, 2);
    prove_all(&mut p, &ids, 3);
    let agg = p.assemble_aggregation(4).unwrap().id;
    dispatch_all(&mut p, 5);
    p.on_poll_result(agg, PollOutcome::Proved, 6);
    let s = p.next_submission(7).unwrap();
    assert!(!p.on_submit_result(s.id, false, 7));
    assert_eq!(p.request(agg).unwrap().status, RequestStatus::Proved);
    assert_eq!(p.last_submitted_block(), 0);
    assert_eq!(p.next_submission(8).unwrap().id, agg);
    assert!(!p.on_submit_result(0, true, 8));
}

#[test]
fn stopped_proposer_plans_nothing() {
    let mut p = Proposer::new(config(), 0);
    p.request_stop();
    assert_eq!(p.run_state(), RunState::Stopped);
    p.on_chain_head(25, 1);
    assert_eq!(p.request_count(), 0);
    assert!(p.begin_dispatch().is_none());
    assert!(p.next_submission(500).is_none());
}

#[test]
fn planning_resumes_after_requested_ranges() {
    let mut p = Proposer::new(config(), 100);
    p.on_chain_head(115, 1);
    assert_eq!(p.planning_base(), 115);
    assert_eq!(p.request_count(), 2);
    p.on_chain_head(130, 2);
    assert_eq!(p.request_count(), 4);
    assert_eq!(p.request(2).unwrap().range, ProofRange::new(116, 125));
    assert_eq!(p.request(3).unwrap().range, ProofRange::new(126, 130));
}

#[test]
fn artifacts_of_the_wrong_shape_are_rejected() {
    assert_eq!(
        check_artifact(RequestKind::Range, ProofMode::Plonk, ProofShape::Compressed),
        PollOutcome::Proved
    );
    assert_eq!(
        check_artifact(RequestKind::Range, ProofMode::Plonk, ProofShape::Core),
        PollOutcome::Rejected
    );
    assert_eq!(
        check_artifact(RequestKind::Aggregation, ProofMode::Groth16, ProofShape::Groth16),
        PollOutcome::Proved
    );
    assert_eq!(
        check_artifact(RequestKind::Aggregation, ProofMode::Plonk, ProofShape::Compressed),
        PollOutcome::Rejected
    );
    assert_eq!(
        check_artifact(RequestKind::Aggregation, ProofMode::Plonk, ProofShape::Groth16),
        PollOutcome::Rejected
    );
}

#[test]
fn mock_prover_hands_out_fresh_ids_and_expected_proofs() {
    let mut m = MockProver::new();
    assert_eq!(m.submit_job(), DispatchOutcome::Accepted(1));
    assert_eq!(m.submit_job(), DispatchOutcome::Accepted(2));
    assert_eq!(MockProver::proof_shape(RequestKind::Range, ProofMode::Groth16), ProofShape::Compressed);
    assert_eq!(
        MockProver::proof_shape(RequestKind::Aggregation, ProofMode::Groth16),
        ProofShape::Groth16
    );
}

#[test]
fn mock_run_through_the_mock_prover() {
    let mut m = MockProver::new();
    let mut p = Proposer::new(config(), 0);
    p.on_chain_head(25, 1);
    while let Some(o) = p.begin_dispatch() {
        p.on_dispatch_result(m.submit_job(), 2);
        let shape = MockProver::proof_shape(o.kind, ProofMode::Plonk);
        p.on_poll_result(o.id, check_artifact(o.kind, ProofMode::Plonk, shape), 3);
    }
    for i in 0..3 {
        assert_eq!(p.request(i).unwrap().status, RequestStatus::Proved);
        assert_eq!(p.request(i).unwrap().backend_job_id, Some(i as u64 + 1));
    }
}

#[test]
fn unavailable_backend_pauses_dispatch_until_next_tick() {
    let mut p = Proposer::new(config(), 0);
    p.on_chain_head(30, 1);
    let o = p.begin_dispatch().unwrap();
    p.on_dispatch_result(DispatchOutcome::Unavailable, 2);
    assert!(p.begin_dispatch().is_none());
    let q = p.request(o.id).unwrap();
    assert_eq!(q.status, RequestStatus::Pending);
    assert_eq!(q.retries, 1);
    assert_eq!(q.last_failure, Some(FailureReason::BackendUnavailable));
    p.on_chain_head(30, 3);
    assert_eq!(p.begin_dispatch().unwrap().id, o.id);
}

#[test]
fn failure_reasons_are_recorded() {
    let mut p = Proposer::new(config(), 0);
    p.on_chain_head(20, 1);
    dispatch_all(&mut p, 2);
    p.on_poll_result(0, PollOutcome::Failed, 3);
    assert_eq!(p.request(0).unwrap().last_failure, Some(FailureReason::JobFailed));
    p.on_poll_result(1, PollOutcome::Rejected, 3);
    let q = p.request(1).unwrap();
    assert_eq!(q.status, RequestStatus::DeadLettered);
    assert_eq!(q.last_failure, Some(FailureReason::BackendRejected));
}

#[test]
fn dispatched_jobs_lists_what_to_poll() {
    let mut p = Proposer::new(config(), 0);
    p.on_chain_head(30, 1);
    assert!(p.dispatched_jobs().is_empty());
    dispatch_all(&mut p, 2);
    assert_eq!(p.dispatched_jobs(), vec![(0, 1000), (1, 1001), (2, 1002)]);
    p.on_poll_result(1, PollOutcome::Proved, 3);
    assert_eq!(p.dispatched_jobs(), vec![(0, 1000), (2, 1002)]);
}

#[test]
fn dead_lettered_range_at_the_tip_is_not_planned_again() {
    let mut p = Proposer::new(config(), 0);
    p.on_chain_head(10, 1);
    p.begin_dispatch().unwrap();
    p.on_dispatch_result(DispatchOutcome::Rejected, 2);
    assert_eq!(p.request(0).unwrap().status, RequestStatus::DeadLettered);
    p.on_chain_head(10, 3);
    assert_eq!(p.request_count(), 1);
    assert_eq!(p.planning_base(), 10);
    p.on_chain_head(20, 4);
    assert_eq!(p.request_count(), 2);
    assert_eq!(p.request(1).unwrap().range, ProofRange::new(11, 20));
}

#[test]
fn dead_lettered_aggregation_is_not_assembled_again() {
    let mut p = Proposer::new(config(), 0);
    p.on_chain_head(20, 1);
    let ids = dispatch_all(&mut p, 2);
    prove_all(&mut p, &ids, 3);
    let agg = p.assemble_aggregation(4).unwrap().id;
    let o = p.begin_dispatch().unwrap();
    assert_eq!(o.id, agg);
    p.on_dispatch_result(DispatchOutcome::Rejected, 5);
    assert_eq!(p.request(agg).unwrap().status, RequestStatus::DeadLettered);
    assert!(p.assemble_aggregation(6).is_none());
    assert_eq!(p.request_count(), 3);
}

#[test]
fn outage_beyond_the_fallback_window_stops() {
    let mut p = Proposer::new(config(), 0);
    p.on_database_status(false, 100);
    assert_eq!(p.run_state(), RunState::Running);
    p.on_database_status(false, 130);
    assert_eq!(p.run_state(), RunState::Running);
    assert!(p.degraded());
    p.on_database_status(false, 131);
    assert_eq!(p.run_state(), RunState::Stopped);
}

#[test]
fn recovery_resets_the_fallback_window() {
    let mut p = Proposer::new(config(), 0);
    p.on_database_status(false, 100);
    p.on_database_status(true, 120);
    p.on_database_status(false, 200);
    p.on_database_status(false, 225);
    assert_eq!(p.run_state(), RunState::Running);
    assert!(p.degraded());
}
