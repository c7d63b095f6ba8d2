use vstd::prelude::*;

use crate::aggregator::{assembled, try_assemble};
use crate::gate::{ConcurrencyGate, WorkKind};
use crate::range::{lemma_tiles_push, plan_next_ranges, planned, tiles, ProofRange};
use crate::tracker::{
    after_create, can_create, fresh_request, FailureReason, in_flight, lemma_count_same_dispatched,
    requeued, lemma_count_push, lemma_count_update,
    legal_transition, ranges_wf, ProofRequest, RequestKind, RequestStatus, RequestTracker,
};

verus! {

/// How the proving network is asked to schedule a job.
#[derive(Clone, Copy, Debug, PartialEq, Eq, Structural)]
pub enum ProofStrategy {
    Hosted,
    Reserved,
}

/// The shape of the final aggregation proof.
#[derive(Clone, Copy, Debug, PartialEq, Eq, Structural)]
pub enum ProofMode {
    Plonk,
    Groth16,
}

/// Settings of one run; they do not change while it lasts.
#[derive(Clone, Copy, Debug)]
pub struct RequesterConfig {
    pub l1_chain_id: i64,
    pub l2_chain_id: i64,
    pub l2oo_address: [u8; 20],
    /// Where present, aggregations go to this dispute-game factory instead of
    /// the output oracle.
    pub dgf_address: Option<[u8; 20]>,
    pub range_proof_interval: u64,
    pub max_concurrent_witness_gen: u64,
    pub max_concurrent_proof_requests: u64,
    pub range_proof_strategy: ProofStrategy,
    pub agg_proof_strategy: ProofStrategy,
    pub agg_proof_mode: ProofMode,
    /// Least time between two submissions.
    pub submission_interval: u64,
    /// Most blocks that one aggregation covers.
    pub max_aggregation_span: u64,
    /// Longest database outage that the fallback rides out.
    pub db_fallback_window: u64,
    /// Failed attempts after which a request is dead-lettered.
    pub max_retries: u64,
    pub mock: bool,
    pub prover_address: [u8; 20],
    pub safe_db_fallback: bool,
    pub use_local_proving: bool,
}

/// Whether the control loop goes on ticking.
#[derive(Clone, Copy, Debug, PartialEq, Eq, Structural)]
pub enum RunState {
    Running,
    Stopped,
}

/// What the backend answered to a job submission.
#[derive(Clone, Copy, Debug, PartialEq, Eq, Structural)]
pub enum DispatchOutcome {
    Accepted(u64),
    Unavailable,
    Rejected,
}

/// What the backend said of a dispatched job.
#[derive(Clone, Copy, Debug, PartialEq, Eq, Structural)]
pub enum PollOutcome {
    Proved,
    InProgress,
    Failed,
    Rejected,
}

/// A job for the caller to hand to the proving backend.
#[derive(Clone, Copy, Debug)]
pub struct DispatchOrder {
    pub id: usize,
    pub kind: RequestKind,
    pub range: ProofRange,
    pub strategy: ProofStrategy,
    pub mode: Option<ProofMode>,
    pub mock: bool,
}

/// A proved aggregation for the caller to send to the L1 contract at `target`.
#[derive(Clone, Copy, Debug)]
pub struct SubmitOrder {
    pub id: usize,
    pub range: ProofRange,
    pub target: [u8; 20],
}

/// The planning base: the highest block already submitted or asked for by a
/// range request, dead-lettered ones included, among the first `n` requests.
pub open spec fn highest_planned(reqs: Seq<ProofRequest>, n: int, last: u64) -> u64
    decreases n,
{
    if n <= 0 {
        last
    } else {
        let below = highest_planned(reqs, n - 1, last);
        let r = reqs[n - 1];
        if r.kind == RequestKind::Range && r.range.end_block > below {
            r.range.end_block
        } else {
            below
        }
    }
}

/// The table after range requests are created for `ranges` in order.
pub open spec fn create_all(reqs: Seq<ProofRequest>, ranges: Seq<ProofRange>, now: u64) -> Seq<
    ProofRequest,
>
    decreases ranges.len(),
{
    if ranges.len() == 0 {
        reqs
    } else {
        create_all(
            after_create(reqs, RequestKind::Range, ranges[0], now),
            ranges.drop_first(),
            now,
        )
    }
}

/// The time since the last submission is long enough for another.
pub open spec fn interval_elapsed(last_time: Option<u64>, now: u64, interval: u64) -> bool {
    match last_time {
        None => true,
        Some(t) => t <= now && now - t >= interval,
    }
}

/// Request `i` is the proved aggregation that continues the submitted chain.
pub open spec fn submittable(reqs: Seq<ProofRequest>, i: int, last: u64) -> bool {
    &&& 0 <= i < reqs.len()
    &&& reqs[i].kind == RequestKind::Aggregation
    &&& reqs[i].status == RequestStatus::Proved
    &&& reqs[i].range.start_block == last + 1
}

/// Request `i` is the pending request with the lowest id.
pub open spec fn first_pending(reqs: Seq<ProofRequest>, i: int) -> bool {
    &&& 0 <= i < reqs.len()
    &&& reqs[i].status == RequestStatus::Pending
    &&& forall|j: int| 0 <= j < i ==> (#[trigger] reqs[j]).status != RequestStatus::Pending
}

/// Dispatching a request of `kind` takes a proof permit, and a range request
/// also a witness permit while its witness is generated.
pub open spec fn room_for(g: ConcurrencyGate, kind: RequestKind) -> bool {
    &&& g.outstanding(WorkKind::Proof) < g.ceiling(WorkKind::Proof)
    &&& kind == RequestKind::Range ==> g.outstanding(WorkKind::Witness) < g.ceiling(
        WorkKind::Witness,
    )
}

/// `n` less one where `c` holds and `n` is positive.
pub open spec fn less_one_if(n: int, c: bool) -> int {
    if c && n > 0 {
        n - 1
    } else {
        n
    }
}

pub open spec fn with_status(r: ProofRequest, s: RequestStatus, now: u64) -> ProofRequest {
    ProofRequest { status: s, updated_at: now, ..r }
}

/// `r` with one more failed attempt counted, for `reason`.
pub open spec fn bumped(r: ProofRequest, reason: FailureReason, now: u64) -> ProofRequest {
    ProofRequest {
        retries: if r.retries < u64::MAX {
            (r.retries + 1) as u64
        } else {
            r.retries
        },
        last_failure: Some(reason),
        updated_at: now,
        ..r
    }
}

/// `r` after a failed attempt: dead-lettered once `max_retries` attempts have
/// failed, else left in status `s`.
pub open spec fn after_failure(
    r: ProofRequest,
    s: RequestStatus,
    reason: FailureReason,
    now: u64,
    max_retries: u64,
) -> ProofRequest {
    let b = bumped(r, reason, now);
    if b.retries >= max_retries {
        with_status(b, RequestStatus::DeadLettered, now)
    } else {
        with_status(b, s, now)
    }
}

/// The table after the backend answered the dispatch of request `id`.
pub open spec fn after_dispatch(
    reqs: Seq<ProofRequest>,
    id: int,
    outcome: DispatchOutcome,
    now: u64,
    max_retries: u64,
) -> Seq<ProofRequest> {
    if !(0 <= id < reqs.len() && reqs[id].status == RequestStatus::Pending) {
        reqs
    } else {
        match outcome {
            DispatchOutcome::Accepted(job) => reqs.update(
                id,
                ProofRequest {
                    status: RequestStatus::Dispatched,
                    backend_job_id: Some(job),
                    updated_at: now,
                    ..reqs[id]
                },
            ),
            DispatchOutcome::Unavailable => reqs.update(
                id,
                after_failure(
                    reqs[id],
                    RequestStatus::Pending,
                    FailureReason::BackendUnavailable,
                    now,
                    max_retries,
                ),
            ),
            DispatchOutcome::Rejected => reqs.update(
                id,
                with_status(
                    bumped(reqs[id], FailureReason::BackendRejected, now),
                    RequestStatus::DeadLettered,
                    now,
                ),
            ),
        }
    }
}

/// The table after a poll of request `id` gave `outcome`; only a dispatched
/// request changes.
pub open spec fn after_poll(
    reqs: Seq<ProofRequest>,
    id: int,
    outcome: PollOutcome,
    now: u64,
    max_retries: u64,
) -> Seq<ProofRequest> {
    if !(0 <= id < reqs.len() && reqs[id].status == RequestStatus::Dispatched) {
        reqs
    } else {
        match outcome {
            PollOutcome::Proved => reqs.update(
                id,
                with_status(reqs[id], RequestStatus::Proved, now),
            ),
            PollOutcome::InProgress => reqs,
            PollOutcome::Failed => reqs.update(
                id,
                after_failure(
                    reqs[id],
                    RequestStatus::Failed,
                    FailureReason::JobFailed,
                    now,
                    max_retries,
                ),
            ),
            PollOutcome::Rejected => reqs.update(
                id,
                with_status(
                    bumped(reqs[id], FailureReason::BackendRejected, now),
                    RequestStatus::DeadLettered,
                    now,
                ),
            ),
        }
    }
}

/// Polling is idempotent: once a poll has found a job finished, proved,
/// failed or rejected, polling it again changes nothing, whatever it reports.
pub proof fn lemma_poll_again_is_noop(
    reqs: Seq<ProofRequest>,
    id: int,
    first: PollOutcome,
    again: PollOutcome,
    now1: u64,
    now2: u64,
    max_retries: u64,
)
    requires
        !(first is InProgress),
    ensures
        after_poll(after_poll(reqs, id, first, now1, max_retries), id, again, now2, max_retries)
            == after_poll(reqs, id, first, now1, max_retries),
{
}

/// The ranges of the proved range requests among the first `n`, in id order.
pub open spec fn proved_ranges(reqs: Seq<ProofRequest>, n: int) -> Seq<ProofRange>
    decreases n,
{
    if n <= 0 {
        seq![]
    } else {
        let below = proved_ranges(reqs, n - 1);
        if reqs[n - 1].kind == RequestKind::Range && reqs[n - 1].status == RequestStatus::Proved {
            below.push(reqs[n - 1].range)
        } else {
            below
        }
    }
}

/// The start of the current outage, seen at time `now`: the known start, or
/// `now` where none is known yet.
pub open spec fn outage_start(since: Option<u64>, now: u64) -> u64 {
    match since {
        Some(t) => t,
        None => now,
    }
}

/// An outage that began at `since` has outlasted `window` at time `now`.
pub open spec fn beyond_window(since: u64, now: u64, window: u64) -> bool {
    since <= now && now - since > window
}

/// The ids of the proved range requests among the first `n`, in id order,
/// alongside `proved_ranges`.
pub open spec fn proved_ids(reqs: Seq<ProofRequest>, n: int) -> Seq<usize>
    decreases n,
{
    if n <= 0 {
        seq![]
    } else {
        let below = proved_ids(reqs, n - 1);
        if reqs[n - 1].kind == RequestKind::Range && reqs[n - 1].status == RequestStatus::Proved {
            below.push((n - 1) as usize)
        } else {
            below
        }
    }
}

/// A new aggregation request and the range requests it is made of, in order.
#[derive(Clone, Debug)]
pub struct AggregationRequest {
    pub id: usize,
    pub component_range_ids: Vec<usize>,
}

/// The L1 contract that aggregations are sent to.
pub open spec fn target_of(c: RequesterConfig) -> [u8; 20] {
    match c.dgf_address {
        Some(a) => a,
        None => c.l2oo_address,
    }
}

/// The kind of proof that a backend handed back.
#[derive(Clone, Copy, Debug, PartialEq, Eq, Structural)]
pub enum ProofShape {
    Core,
    Compressed,
    Plonk,
    Groth16,
}

/// The shape a finished job must have: compressed for a range proof, and the
/// configured mode for an aggregation, which goes on chain.
pub open spec fn expected_shape(kind: RequestKind, mode: ProofMode) -> ProofShape {
    match kind {
        RequestKind::Range => ProofShape::Compressed,
        RequestKind::Aggregation => match mode {
            ProofMode::Plonk => ProofShape::Plonk,
            ProofMode::Groth16 => ProofShape::Groth16,
        },
    }
}

/// What a finished job of `kind` counts as: proved where its proof has the
/// expected shape, rejected otherwise, never patched over.
pub fn check_artifact(kind: RequestKind, mode: ProofMode, shape: ProofShape) -> (r: PollOutcome)
    ensures
        r == if shape == expected_shape(kind, mode) {
            PollOutcome::Proved
        } else {
            PollOutcome::Rejected
        },
{
    let expected = match kind {
        RequestKind::Range => ProofShape::Compressed,
        RequestKind::Aggregation => match mode {
            ProofMode::Plonk => ProofShape::Plonk,
            ProofMode::Groth16 => ProofShape::Groth16,
        },
    };
    if shape == expected {
        PollOutcome::Proved
    } else {
        PollOutcome::Rejected
    }
}

/// The decisions of the control loop; the caller performs the actions it asks
/// for and reports what came of them.
pub struct Proposer {
    config: RequesterConfig,
    tracker: RequestTracker,
    gate: ConcurrencyGate,
    last_submitted_block: u64,
    last_submission_time: Option<u64>,
    run_state: RunState,
    degraded: bool,
    in_dispatch: Option<usize>,
    dispatch_paused: bool,
    db_down_since: Option<u64>,
    submitted: Ghost<Seq<ProofRange>>,
    origin: Ghost<u64>,
}

impl Proposer {
    pub closed spec fn config_spec(&self) -> RequesterConfig {
        self.config
    }

    pub closed spec fn requests(&self) -> Seq<ProofRequest> {
        self.tracker@
    }

    pub closed spec fn gate_spec(&self) -> ConcurrencyGate {
        self.gate
    }

    pub closed spec fn last_submitted(&self) -> u64 {
        self.last_submitted_block
    }

    pub closed spec fn last_submission(&self) -> Option<u64> {
        self.last_submission_time
    }

    /// The ranges submitted so far, in the order they were submitted.
    pub closed spec fn submitted_ranges(&self) -> Seq<ProofRange> {
        self.submitted@
    }

    /// The last submitted block when the proposer started.
    pub closed spec fn start_block(&self) -> u64 {
        self.origin@
    }

    pub closed spec fn state(&self) -> RunState {
        self.run_state
    }

    pub closed spec fn is_degraded(&self) -> bool {
        self.degraded
    }

    /// The backend was found unavailable during this tick: no more dispatches
    /// until the next one.
    pub closed spec fn dispatch_paused_spec(&self) -> bool {
        self.dispatch_paused
    }

    /// When the current database outage began, if the database is down.
    pub closed spec fn outage_since(&self) -> Option<u64> {
        self.db_down_since
    }

    /// The request handed out for dispatch whose outcome is not yet reported.
    pub closed spec fn dispatching(&self) -> Option<usize> {
        self.in_dispatch
    }

    pub closed spec fn wf(&self) -> bool {
        &&& ranges_wf(self.tracker@)
        &&& self.gate.wf()
        &&& self.gate.ceiling(WorkKind::Witness) == self.config.max_concurrent_witness_gen
        &&& self.gate.ceiling(WorkKind::Proof) == self.config.max_concurrent_proof_requests
        &&& self.gate.outstanding(WorkKind::Proof) == in_flight(self.tracker@) + if self.in_dispatch
            is Some {
            1int
        } else {
            0int
        }
        &&& self.gate.outstanding(WorkKind::Witness) == match self.in_dispatch {
            Some(i) => if self.tracker@[i as int].kind == RequestKind::Range {
                1int
            } else {
                0int
            },
            None => 0int,
        }
        &&& self.in_dispatch matches Some(i) ==> i < self.tracker@.len()
            && self.tracker@[i as int].status == RequestStatus::Pending
        &&& tiles(self.submitted@, self.origin@ as int, self.last_submitted_block as int)
        &&& forall|i: int|
            0 <= i < self.tracker@.len() && (#[trigger] self.tracker@[i]).status
                == RequestStatus::Dispatched ==> self.tracker@[i].backend_job_id is Some
    }

    /// The submitted ranges follow one another from the starting block to the
    /// last submitted block, without gap, overlap or step back.
    pub proof fn lemma_submissions_tile(&self)
        requires
            self.wf(),
        ensures
            tiles(self.submitted_ranges(), self.start_block() as int, self.last_submitted() as int),
    {
    }

    /// The permit ceilings are the configured ones.
    pub proof fn lemma_ceilings(&self)
        requires
            self.wf(),
        ensures
            self.gate_spec().ceiling(WorkKind::Witness) == self.config_spec().max_concurrent_witness_gen,
            self.gate_spec().ceiling(WorkKind::Proof) == self.config_spec().max_concurrent_proof_requests,
    {
    }

    /// Each dispatched request holds a proof permit, so no more jobs are in
    /// flight at once than the ceiling allows.
    pub proof fn lemma_in_flight_bounded(&self)
        requires
            self.wf(),
        ensures
            in_flight(self.requests()) <= self.config_spec().max_concurrent_proof_requests,
    {
    }

    /// A running proposer with no requests, whose chain was submitted up to
    /// `last_submitted_block`.
    pub fn new(config: RequesterConfig, last_submitted_block: u64) -> (r: Proposer)
        ensures
            r.wf(),
            r.config_spec() == config,
            r.requests() == Seq::<ProofRequest>::empty(),
            r.last_submitted() == last_submitted_block,
            r.last_submission() == None::<u64>,
            r.state() == RunState::Running,
            !r.is_degraded(),
            r.dispatching() == None::<usize>,
            !r.dispatch_paused_spec(),
            r.outage_since() == None::<u64>,
            r.submitted_ranges() == Seq::<ProofRange>::empty(),
            r.start_block() == last_submitted_block,
            r.gate_spec().outstanding(WorkKind::Witness) == 0,
            r.gate_spec().outstanding(WorkKind::Proof) == 0,
            r.gate_spec().ceiling(WorkKind::Witness) == config.max_concurrent_witness_gen,
            r.gate_spec().ceiling(WorkKind::Proof) == config.max_concurrent_proof_requests,
    {
        Proposer {
            config,
            tracker: RequestTracker::new(),
            gate: ConcurrencyGate::new(
                config.max_concurrent_witness_gen,
                config.max_concurrent_proof_requests,
            ),
            last_submitted_block,
            last_submission_time: None,
            run_state: RunState::Running,
            degraded: false,
            in_dispatch: None,
            dispatch_paused: false,
            db_down_since: None,
            submitted: Ghost(Seq::empty()),
            origin: Ghost(last_submitted_block),
        }
    }

    pub fn config(&self) -> (r: RequesterConfig)
        ensures
            r == self.config_spec(),
    {
        self.config
    }

    pub fn last_submitted_block(&self) -> (r: u64)
        ensures
            r == self.last_submitted(),
    {
        self.last_submitted_block
    }

    pub fn run_state(&self) -> (r: RunState)
        ensures
            r == self.state(),
    {
        self.run_state
    }

    pub fn degraded(&self) -> (r: bool)
        ensures
            r == self.is_degraded(),
    {
        self.degraded
    }

    pub fn request(&self, id: usize) -> (r: Option<ProofRequest>)
        ensures
            id < self.requests().len() ==> r == Some(self.requests()[id as int]),
            id >= self.requests().len() ==> r.is_none(),
    {
        self.tracker.get(id)
    }

    pub fn request_count(&self) -> (r: usize)
        ensures
            r == self.requests().len(),
    {
        self.tracker.len()
    }

    /// The block after which new range requests start.
    pub fn planning_base(&self) -> (r: u64)
        ensures
            r == highest_planned(self.requests(), self.requests().len() as int, self.last_submitted()),
    {
        let n = self.tracker.len();
        let mut best: u64 = self.last_submitted_block;
        let mut i: usize = 0;
        while i < n
            invariant
                n == self.tracker@.len(),
                i <= n,
                best == highest_planned(self.tracker@, i as int, self.last_submitted_block),
            decreases n - i,
        {
            let r = self.tracker.get(i).unwrap();
            if r.kind == RequestKind::Range && r.range.end_block > best {
                best = r.range.end_block;
            }
            i += 1;
        }
        best
    }

    /// Hands out the pending request with the lowest id for dispatch, taking
    /// its permits. Nothing is handed out while the proposer is stopped, while
    /// an earlier dispatch awaits its outcome, or where the permits are taken.
    pub fn begin_dispatch(&mut self) -> (r: Option<DispatchOrder>)
        requires
            old(self).wf(),
        ensures
            final(self).wf(),
            r.is_some() == (old(self).state() == RunState::Running && old(self).dispatching()
                is None && !old(self).dispatch_paused_spec() && exists|i: int|
                first_pending(old(self).requests(), i) && room_for(
                    old(self).gate_spec(),
                    #[trigger] old(self).requests()[i].kind,
                )),
            r is None ==> *final(self) == *old(self),
            r matches Some(o) ==> {
                let q = old(self).requests()[o.id as int];
                let c = old(self).config_spec();
                &&& first_pending(old(self).requests(), o.id as int)
                &&& o.kind == q.kind
                &&& o.range == q.range
                &&& o.strategy == if q.kind == RequestKind::Range {
                    c.range_proof_strategy
                } else {
                    c.agg_proof_strategy
                }
                &&& o.mode == if q.kind == RequestKind::Range {
                    None
                } else {
                    Some(c.agg_proof_mode)
                }
                &&& o.mock == c.mock
                &&& final(self).dispatching() == Some(o.id)
                &&& final(self).dispatch_paused_spec() == old(self).dispatch_paused_spec()
                &&& final(self).requests() == old(self).requests()
                &&& final(self).config_spec() == c
                &&& final(self).last_submitted() == old(self).last_submitted()
                &&& final(self).last_submission() == old(self).last_submission()
                &&& final(self).state() == old(self).state()
                &&& final(self).is_degraded() == old(self).is_degraded()
                &&& final(self).gate_spec().outstanding(WorkKind::Proof) == old(
                    self,
                ).gate_spec().outstanding(WorkKind::Proof) + 1
                &&& final(self).gate_spec().outstanding(WorkKind::Witness) == old(
                    self,
                ).gate_spec().outstanding(WorkKind::Witness) + if q.kind == RequestKind::Range {
                    1int
                } else {
                    0int
                }
            },
    {
        if self.run_state != RunState::Running || self.in_dispatch.is_some() || self.dispatch_paused {
            return None;
        }
        let i = match self.first_pending_id() {
            Some(i) => i,
            None => return None,
        };
        let q = self.tracker.get(i).unwrap();
        let is_range = q.kind == RequestKind::Range;
        if !self.gate.has_room(WorkKind::Proof) || (is_range && !self.gate.has_room(
            WorkKind::Witness,
        )) {
            proof {
                assert forall|k: int| #[trigger] first_pending(self.tracker@, k) implies k == i by {
                    if k < i {
                        assert(self.tracker@[k].status != RequestStatus::Pending);
                    }
                    if k > i {
                        assert(self.tracker@[i as int].status != RequestStatus::Pending);
                    }
                }
            }
            return None;
        }
        self.gate.try_acquire(WorkKind::Proof);
        if is_range {
            self.gate.try_acquire(WorkKind::Witness);
        }
        self.in_dispatch = Some(i);
        let (strategy, mode) = if is_range {
            (self.config.range_proof_strategy, None)
        } else {
            (self.config.agg_proof_strategy, Some(self.config.agg_proof_mode))
        };
        Some(
            DispatchOrder {
                id: i,
                kind: q.kind,
                range: q.range,
                strategy,
                mode,
                mock: self.config.mock,
            },
        )
    }

    /// The dispatched requests with their backend jobs, in ascending id order:
    /// what each tick polls.
    pub fn dispatched_jobs(&self) -> (r: Vec<(usize, u64)>)
        requires
            self.wf(),
        ensures
            forall|k: int|
                0 <= k < r@.len() ==> {
                    &&& #[trigger] r@[k].0 < self.requests().len()
                    &&& self.requests()[r@[k].0 as int].status == RequestStatus::Dispatched
                    &&& self.requests()[r@[k].0 as int].backend_job_id == Some(r@[k].1)
                },
            forall|k: int, l: int| 0 <= k < l < r@.len() ==> r@[k].0 < r@[l].0,
            forall|i: int|
                0 <= i < self.requests().len() && (#[trigger] self.requests()[i]).status
                    == RequestStatus::Dispatched ==> exists|k: int|
                    0 <= k < r@.len() && #[trigger] r@[k].0 == i,
    {
        let mut out: Vec<(usize, u64)> = Vec::new();
        let n = self.tracker.len();
        let mut i: usize = 0;
        while i < n
            invariant
                self.wf(),
                n == self.tracker@.len(),
                i <= n,
                forall|k: int|
                    0 <= k < out@.len() ==> {
                        &&& #[trigger] out@[k].0 < i
                        &&& self.tracker@[out@[k].0 as int].status == RequestStatus::Dispatched
                        &&& self.tracker@[out@[k].0 as int].backend_job_id == Some(out@[k].1)
                    },
                forall|k: int, l: int| 0 <= k < l < out@.len() ==> out@[k].0 < out@[l].0,
                forall|j: int|
                    0 <= j < i && (#[trigger] self.tracker@[j]).status == RequestStatus::Dispatched
                        ==> exists|k: int| 0 <= k < out@.len() && #[trigger] out@[k].0 == j,
            decreases n - i,
        {
            let q = self.tracker.get(i).unwrap();
            if q.status == RequestStatus::Dispatched {
                match q.backend_job_id {
                    Some(job) => {
                        let ghost before = out@;
                        out.push((i, job));
                        assert forall|j: int|
                            0 <= j < i + 1 && (#[trigger] self.tracker@[j]).status
                                == RequestStatus::Dispatched implies exists|k: int|
                            0 <= k < out@.len() && #[trigger] out@[k].0 == j by {
                            if j == i {
                                assert(out@[out@.len() - 1].0 == j);
                            } else {
                                let k = choose|k: int| 0 <= k < before.len() && #[trigger] before[k].0 == j;
                                assert(out@[k] == before[k]);
                            }
                        }
                    },
                    None => {
                        assert(self.tracker@[i as int].backend_job_id is Some);
                    },
                }
            }
            i += 1;
        }
        out
    }

    /// The id of the pending request with the lowest id, if any.
    fn first_pending_id(&self) -> (r: Option<usize>)
        ensures
            r matches Some(i) ==> first_pending(self.tracker@, i as int),
            r is None ==> forall|i: int| !#[trigger] first_pending(self.tracker@, i),
    {
        let n = self.tracker.len();
        let mut i: usize = 0;
        while i < n
            invariant
                n == self.tracker@.len(),
                i <= n,
                forall|j: int|
                    0 <= j < i ==> (#[trigger] self.tracker@[j]).status != RequestStatus::Pending,
            decreases n - i,
        {
            if self.tracker.get(i).unwrap().status == RequestStatus::Pending {
                return Some(i);
            }
            i += 1;
        }
        proof {
            assert forall|k: int| !#[trigger] first_pending(self.tracker@, k) by {
                if 0 <= k < n {
                    assert(self.tracker@[k].status != RequestStatus::Pending);
                }
            }
        }
        None
    }

    /// Takes in the backend's answer to the dispatch handed out last. An
    /// accepted job makes the request dispatched and keeps its proof permit;
    /// an unavailable backend leaves it pending for a later tick, with one
    /// more failed attempt counted, until too many dead-letter it; a rejected
    /// job is dead-lettered. The witness permit is given back in any case, the
    /// proof permit unless the job was accepted. An unavailable backend also
    /// pauses dispatching until the next tick. With no dispatch awaiting an
    /// answer nothing changes.
    pub fn on_dispatch_result(&mut self, outcome: DispatchOutcome, now: u64)
        requires
            old(self).wf(),
        ensures
            final(self).wf(),
            old(self).dispatching() is None ==> *final(self) == *old(self),
            old(self).dispatching() matches Some(id) ==> {
                let reqs = old(self).requests();
                let known = id < reqs.len();
                let accepted = known && reqs[id as int].status == RequestStatus::Pending
                    && outcome is Accepted;
                &&& final(self).requests() == after_dispatch(
                    reqs,
                    id as int,
                    outcome,
                    now,
                    old(self).config_spec().max_retries,
                )
                &&& final(self).dispatching() is None
                &&& final(self).dispatch_paused_spec() == (old(self).dispatch_paused_spec()
                    || outcome is Unavailable)
                &&& final(self).gate_spec().outstanding(WorkKind::Witness) == less_one_if(
                    old(self).gate_spec().outstanding(WorkKind::Witness),
                    known && reqs[id as int].kind == RequestKind::Range,
                )
                &&& final(self).gate_spec().outstanding(WorkKind::Proof) == less_one_if(
                    old(self).gate_spec().outstanding(WorkKind::Proof),
                    known && !accepted,
                )
                &&& final(self).config_spec() == old(self).config_spec()
                &&& final(self).last_submitted() == old(self).last_submitted()
                &&& final(self).last_submission() == old(self).last_submission()
                &&& final(self).state() == old(self).state()
                &&& final(self).is_degraded() == old(self).is_degraded()
            },
    {
        let id = match self.in_dispatch {
            Some(id) => id,
            None => return,
        };
        self.in_dispatch = None;
        if let DispatchOutcome::Unavailable = outcome {
            self.dispatch_paused = true;
        }
        let q = match self.tracker.get(id) {
            Some(q) => q,
            None => return,
        };
        if q.kind == RequestKind::Range {
            self.gate.release(WorkKind::Witness);
        }
        if q.status != RequestStatus::Pending {
            self.gate.release(WorkKind::Proof);
            return;
        }
        let ghost reqs = self.tracker@;
        match outcome {
            DispatchOutcome::Accepted(job) => {
                self.tracker.mark_dispatched(id, job, now);
            },
            DispatchOutcome::Unavailable => {
                self.gate.release(WorkKind::Proof);
                self.fail_attempt(id, RequestStatus::Pending, FailureReason::BackendUnavailable, now);
                assert(self.tracker@ =~= after_dispatch(reqs, id as int, outcome, now, self.config.max_retries));
            },
            DispatchOutcome::Rejected => {
                self.gate.release(WorkKind::Proof);
                self.tracker.record_failure(id, FailureReason::BackendRejected, now);
                self.tracker.transition(id, RequestStatus::Pending, RequestStatus::DeadLettered, now);
                assert(self.tracker@ =~= after_dispatch(reqs, id as int, outcome, now, self.config.max_retries));
            },
        }
        proof {
            assert(self.tracker@ =~= reqs.update(id as int, self.tracker@[id as int]));
            lemma_count_update(reqs, id as int, self.tracker@[id as int], reqs.len() as int);
        }
    }

    /// Takes in what a poll of request `id` found. Only a dispatched request
    /// changes: a proof makes it proved, a failure makes it failed, with the
    /// reason and one more failed attempt counted (or dead-letters it once too
    /// many attempts failed), a rejection dead-letters it; each of these gives back
    /// its proof permit. A job still in progress changes nothing, and so does a
    /// repeated poll of a request that is no longer dispatched.
    pub fn on_poll_result(&mut self, id: usize, outcome: PollOutcome, now: u64)
        requires
            old(self).wf(),
        ensures
            final(self).wf(),
            final(self).dispatch_paused_spec() == old(self).dispatch_paused_spec(),
            final(self).requests() == after_poll(
                old(self).requests(),
                id as int,
                outcome,
                now,
                old(self).config_spec().max_retries,
            ),
            final(self).gate_spec().outstanding(WorkKind::Proof) == less_one_if(
                old(self).gate_spec().outstanding(WorkKind::Proof),
                id < old(self).requests().len() && old(self).requests()[id as int].status
                    == RequestStatus::Dispatched && !(outcome is InProgress),
            ),
            final(self).gate_spec().outstanding(WorkKind::Witness) == old(
                self,
            ).gate_spec().outstanding(WorkKind::Witness),
            final(self).config_spec() == old(self).config_spec(),
            final(self).last_submitted() == old(self).last_submitted(),
            final(self).last_submission() == old(self).last_submission(),
            final(self).state() == old(self).state(),
            final(self).is_degraded() == old(self).is_degraded(),
            final(self).dispatching() == old(self).dispatching(),
    {
        let q = match self.tracker.get(id) {
            Some(q) => q,
            None => return,
        };
        if q.status != RequestStatus::Dispatched {
            return;
        }
        let ghost reqs = self.tracker@;
        match outcome {
            PollOutcome::Proved => {
                self.tracker.transition(id, RequestStatus::Dispatched, RequestStatus::Proved, now);
                self.gate.release(WorkKind::Proof);
            },
            PollOutcome::InProgress => {},
            PollOutcome::Failed => {
                self.tracker.transition(id, RequestStatus::Dispatched, RequestStatus::Failed, now);
                self.fail_attempt(id, RequestStatus::Failed, FailureReason::JobFailed, now);
                self.gate.release(WorkKind::Proof);
                assert(after_failure(
                    with_status(reqs[id as int], RequestStatus::Failed, now),
                    RequestStatus::Failed,
                    FailureReason::JobFailed,
                    now,
                    self.config.max_retries,
                ) == after_failure(
                    reqs[id as int],
                    RequestStatus::Failed,
                    FailureReason::JobFailed,
                    now,
                    self.config.max_retries,
                ));
                assert(self.tracker@ =~= after_poll(reqs, id as int, outcome, now, self.config.max_retries));
            },
            PollOutcome::Rejected => {
                self.tracker.record_failure(id, FailureReason::BackendRejected, now);
                self.tracker.transition(
                    id,
                    RequestStatus::Dispatched,
                    RequestStatus::DeadLettered,
                    now,
                );
                self.gate.release(WorkKind::Proof);
                assert(self.tracker@ =~= after_poll(reqs, id as int, outcome, now, self.config.max_retries));
            },
        }
        proof {
            assert(self.tracker@ =~= reqs.update(id as int, self.tracker@[id as int]));
            lemma_count_update(reqs, id as int, self.tracker@[id as int], reqs.len() as int);
        }
    }

    /// Assembles the next aggregation from the proved range requests, taken in
    /// id order, and creates a pending aggregation request for it unless an
    /// open or dead-lettered one overlaps it; returns the new request's id. A stopped proposer
    /// assembles nothing.
    pub fn assemble_aggregation(&mut self, now: u64) -> (r: Option<AggregationRequest>)
        requires
            old(self).wf(),
        ensures
            final(self).wf(),
            final(self).dispatch_paused_spec() == old(self).dispatch_paused_spec(),
            ({
                let reqs = old(self).requests();
                let a = assembled(
                    proved_ranges(reqs, reqs.len() as int),
                    old(self).last_submitted(),
                    old(self).config_spec().max_aggregation_span,
                );
                if old(self).state() != RunState::Running {
                    &&& r is None
                    &&& final(self).requests() == reqs
                } else {
                    match a {
                        Some(x) => {
                            &&& r is Some == can_create(reqs, RequestKind::Aggregation, x.covered)
                            &&& r matches Some(g) ==> {
                                &&& g.id == reqs.len()
                                &&& g.component_range_ids@ == proved_ids(
                                    reqs,
                                    reqs.len() as int,
                                ).subrange(x.first as int, x.first + x.count)
                                &&& forall|k: int|
                                    0 <= k < g.component_range_ids@.len() ==> {
                                        let c = #[trigger] g.component_range_ids@[k];
                                        &&& c < reqs.len()
                                        &&& reqs[c as int].kind == RequestKind::Range
                                        &&& reqs[c as int].status == RequestStatus::Proved
                                    }
                            }
                            &&& final(self).requests() == after_create(
                                reqs,
                                RequestKind::Aggregation,
                                x.covered,
                                now,
                            )
                        },
                        None => {
                            &&& r is None
                            &&& final(self).requests() == reqs
                        },
                    }
                }
            }),
            final(self).config_spec() == old(self).config_spec(),
            final(self).gate_spec() == old(self).gate_spec(),
            final(self).last_submitted() == old(self).last_submitted(),
            final(self).last_submission() == old(self).last_submission(),
            final(self).state() == old(self).state(),
            final(self).is_degraded() == old(self).is_degraded(),
            final(self).dispatching() == old(self).dispatching(),
    {
        if self.run_state != RunState::Running {
            return None;
        }
        let n = self.tracker.len();
        let mut ranges: Vec<ProofRange> = Vec::new();
        let mut ids: Vec<usize> = Vec::new();
        let mut i: usize = 0;
        while i < n
            invariant
                n == self.tracker@.len(),
                i <= n,
                ranges@ == proved_ranges(self.tracker@, i as int),
                ids@ == proved_ids(self.tracker@, i as int),
                ids@.len() == ranges@.len(),
                forall|k: int|
                    0 <= k < ids@.len() ==> {
                        let c = #[trigger] ids@[k];
                        &&& c < i
                        &&& self.tracker@[c as int].kind == RequestKind::Range
                        &&& self.tracker@[c as int].status == RequestStatus::Proved
                    },
            decreases n - i,
        {
            let q = self.tracker.get(i).unwrap();
            if q.kind == RequestKind::Range && q.status == RequestStatus::Proved {
                ranges.push(q.range);
                ids.push(i);
            }
            i += 1;
        }
        match try_assemble(&ranges, self.last_submitted_block, self.config.max_aggregation_span) {
            Some(a) => {
                let ghost before = self.tracker@;
                if self.tracker.try_create_pending(RequestKind::Aggregation, a.covered, now) {
                    proof {
                        lemma_count_push(before, fresh_request(RequestKind::Aggregation, a.covered, now));
                    }
                    let mut parts: Vec<usize> = Vec::new();
                    let end: usize = a.first + a.count;
                    let mut k: usize = a.first;
                    while k < end
                        invariant
                            end == a.first + a.count,
                            end <= ids@.len(),
                            a.first <= k <= end,
                            parts@ == ids@.subrange(a.first as int, k as int),
                        decreases end - k,
                    {
                        parts.push(ids[k]);
                        assert(parts@ =~= ids@.subrange(a.first as int, k + 1));
                        k += 1;
                    }
                    Some(AggregationRequest { id: n, component_range_ids: parts })
                } else {
                    None
                }
            },
            None => None,
        }
    }

    /// The proved aggregation to submit next, where the submission interval
    /// has passed since the last submission: the one, lowest id first, that
    /// starts right after the last submitted block.
    pub fn next_submission(&self, now: u64) -> (r: Option<SubmitOrder>)
        ensures
            r matches Some(o) ==> {
                &&& self.state() == RunState::Running
                &&& interval_elapsed(
                    self.last_submission(),
                    now,
                    self.config_spec().submission_interval,
                )
                &&& submittable(self.requests(), o.id as int, self.last_submitted())
                &&& o.range.start_block == self.last_submitted() + 1
                &&& o.range == self.requests()[o.id as int].range
                &&& o.target == target_of(self.config_spec())
                &&& forall|j: int|
                    0 <= j < o.id ==> !#[trigger] submittable(
                        self.requests(),
                        j,
                        self.last_submitted(),
                    )
            },
            r is None ==> {
                ||| self.state() != RunState::Running
                ||| !interval_elapsed(
                    self.last_submission(),
                    now,
                    self.config_spec().submission_interval,
                )
                ||| forall|j: int| !#[trigger] submittable(self.requests(), j, self.last_submitted())
            },
    {
        if self.run_state != RunState::Running {
            return None;
        }
        let elapsed = match self.last_submission_time {
            None => true,
            Some(t) => t <= now && now - t >= self.config.submission_interval,
        };
        if !elapsed || self.last_submitted_block == u64::MAX {
            return None;
        }
        let target = match self.config.dgf_address {
            Some(a) => a,
            None => self.config.l2oo_address,
        };
        let n = self.tracker.len();
        let mut i: usize = 0;
        while i < n
            invariant
                n == self.tracker@.len(),
                i <= n,
                self.last_submitted_block < u64::MAX,
                self.run_state == RunState::Running,
                interval_elapsed(self.last_submission_time, now, self.config.submission_interval),
                target == target_of(self.config),
                forall|j: int|
                    0 <= j < i ==> !#[trigger] submittable(
                        self.tracker@,
                        j,
                        self.last_submitted_block,
                    ),
            decreases n - i,
        {
            let q = self.tracker.get(i).unwrap();
            if q.kind == RequestKind::Aggregation && q.status == RequestStatus::Proved
                && q.range.start_block == self.last_submitted_block + 1 {
                return Some(SubmitOrder { id: i, range: q.range, target });
            }
            i += 1;
        }
        None
    }

    /// Takes in the outcome of the submission of request `id`. A successful
    /// one of the aggregation that continues the submitted chain marks it
    /// submitted and moves the chain's end and the submission time; anything
    /// else changes nothing, so a failed transaction is retried later with the
    /// same proof. Says whether the submission was recorded.
    pub fn on_submit_result(&mut self, id: usize, success: bool, now: u64) -> (r: bool)
        requires
            old(self).wf(),
        ensures
            final(self).wf(),
            r == (success && submittable(old(self).requests(), id as int, old(self).last_submitted())),
            r ==> {
                let q = old(self).requests()[id as int];
                &&& q.range.start_block == old(self).last_submitted() + 1
                &&& final(self).last_submitted() > old(self).last_submitted()
                &&& final(self).requests() == old(self).requests().update(
                    id as int,
                    with_status(q, RequestStatus::Submitted, now),
                )
                &&& final(self).last_submitted() == q.range.end_block
                &&& final(self).last_submission() == Some(now)
                &&& final(self).submitted_ranges() == old(self).submitted_ranges().push(q.range)
                &&& final(self).start_block() == old(self).start_block()
                &&& final(self).config_spec() == old(self).config_spec()
                &&& final(self).gate_spec() == old(self).gate_spec()
                &&& final(self).state() == old(self).state()
                &&& final(self).is_degraded() == old(self).is_degraded()
                &&& final(self).dispatching() == old(self).dispatching()
                &&& final(self).dispatch_paused_spec() == old(self).dispatch_paused_spec()
            },
            !r ==> *final(self) == *old(self),
    {
        if !success || self.last_submitted_block == u64::MAX {
            return false;
        }
        let q = match self.tracker.get(id) {
            Some(q) => q,
            None => return false,
        };
        if q.kind != RequestKind::Aggregation || q.status != RequestStatus::Proved
            || q.range.start_block != self.last_submitted_block + 1 {
            return false;
        }
        let ghost reqs = self.tracker@;
        self.tracker.transition(id, RequestStatus::Proved, RequestStatus::Submitted, now);
        proof {
            lemma_count_update(reqs, id as int, self.tracker@[id as int], reqs.len() as int);
        }
        proof {
            assert(q.range.wf());
            lemma_tiles_push(
                self.submitted@,
                self.origin@ as int,
                self.last_submitted_block as int,
                q.range,
            );
        }
        self.submitted = Ghost(self.submitted@.push(q.range));
        self.last_submitted_block = q.range.end_block;
        self.last_submission_time = Some(now);
        true
    }

    /// Takes in, at time `now`, whether the database answers. While it does
    /// not, a proposer with the fallback goes on in degraded mode until the
    /// outage has lasted longer than the fallback window, and then stops; one
    /// without the fallback stops at once. Once the database answers again the
    /// outage is over and degraded mode ends.
    pub fn on_database_status(&mut self, available: bool, now: u64)
        requires
            old(self).wf(),
        ensures
            final(self).wf(),
            final(self).dispatch_paused_spec() == old(self).dispatch_paused_spec(),
            final(self).outage_since() == if available {
                None
            } else {
                Some(outage_start(old(self).outage_since(), now))
            },
            final(self).is_degraded() == if available {
                false
            } else {
                old(self).config_spec().safe_db_fallback || old(self).is_degraded()
            },
            final(self).state() == if !available && (!old(self).config_spec().safe_db_fallback
                || beyond_window(
                outage_start(old(self).outage_since(), now),
                now,
                old(self).config_spec().db_fallback_window,
            )) {
                RunState::Stopped
            } else {
                old(self).state()
            },
            final(self).requests() == old(self).requests(),
            final(self).config_spec() == old(self).config_spec(),
            final(self).gate_spec() == old(self).gate_spec(),
            final(self).last_submitted() == old(self).last_submitted(),
            final(self).last_submission() == old(self).last_submission(),
            final(self).dispatching() == old(self).dispatching(),
    {
        if available {
            self.degraded = false;
            self.db_down_since = None;
            return;
        }
        let since = match self.db_down_since {
            Some(t) => t,
            None => now,
        };
        self.db_down_since = Some(since);
        if !self.config.safe_db_fallback {
            self.run_state = RunState::Stopped;
            return;
        }
        self.degraded = true;
        if since <= now && now - since > self.config.db_fallback_window {
            self.run_state = RunState::Stopped;
        }
    }

    /// Stops the proposer: it plans, dispatches, aggregates and submits no
    /// more, and still takes in the outcomes of work already under way.
    pub fn request_stop(&mut self)
        requires
            old(self).wf(),
        ensures
            final(self).wf(),
            final(self).dispatch_paused_spec() == old(self).dispatch_paused_spec(),
            final(self).state() == RunState::Stopped,
            final(self).requests() == old(self).requests(),
            final(self).config_spec() == old(self).config_spec(),
            final(self).gate_spec() == old(self).gate_spec(),
            final(self).last_submitted() == old(self).last_submitted(),
            final(self).last_submission() == old(self).last_submission(),
            final(self).is_degraded() == old(self).is_degraded(),
            final(self).dispatching() == old(self).dispatching(),
    {
        self.run_state = RunState::Stopped;
    }

    /// Counts a failed attempt on request `id`, whose status is `from`, and
    /// moves it on to `to`, or to dead-letter once too many have failed.
    fn fail_attempt(&mut self, id: usize, to: RequestStatus, reason: FailureReason, now: u64)
        requires
            id < old(self).tracker@.len(),
            legal_transition(old(self).tracker@[id as int].status, RequestStatus::DeadLettered),
            old(self).tracker@[id as int].status == to || legal_transition(
                old(self).tracker@[id as int].status,
                to,
            ),
        ensures
            final(self).tracker@ == old(self).tracker@.update(
                id as int,
                after_failure(old(self).tracker@[id as int], to, reason, now, old(self).config.max_retries),
            ),
            final(self).config == old(self).config,
            final(self).gate == old(self).gate,
            final(self).last_submitted_block == old(self).last_submitted_block,
            final(self).last_submission_time == old(self).last_submission_time,
            final(self).run_state == old(self).run_state,
            final(self).degraded == old(self).degraded,
            final(self).in_dispatch == old(self).in_dispatch,
            final(self).dispatch_paused == old(self).dispatch_paused,
            final(self).submitted == old(self).submitted,
            final(self).origin == old(self).origin,
    {
        let from = self.tracker.get(id).unwrap().status;
        self.tracker.record_failure(id, reason, now);
        let b = self.tracker.get(id).unwrap();
        if b.retries >= self.config.max_retries {
            self.tracker.transition(id, from, RequestStatus::DeadLettered, now);
        } else if from != to {
            self.tracker.transition(id, from, to, now);
        }
        assert(self.tracker@[id as int] == after_failure(old(self).tracker@[id as int], to, reason, now, self.config.max_retries));
        assert(self.tracker@ =~= old(self).tracker@.update(
                id as int,
                after_failure(old(self).tracker@[id as int], to, reason, now, self.config.max_retries),
            ));
    }

    /// Starts a tick with the chain's safe head: puts failed requests back to
    /// pending for a retry, plans the ranges from the planning base up to the
    /// head and creates a pending range request for each that the tracker
    /// accepts, and lets dispatching resume. A stopped proposer changes no
    /// request.
    pub fn on_chain_head(&mut self, safe_head: u64, now: u64)
        requires
            old(self).wf(),
        ensures
            final(self).wf(),
            !final(self).dispatch_paused_spec(),
            final(self).requests() == if old(self).state() == RunState::Running {
                create_all(
                    requeued(old(self).requests(), now),
                    planned(
                        highest_planned(
                            requeued(old(self).requests(), now),
                            old(self).requests().len() as int,
                            old(self).last_submitted(),
                        ),
                        safe_head,
                        old(self).config_spec().range_proof_interval,
                    ),
                    now,
                )
            } else {
                old(self).requests()
            },
            final(self).config_spec() == old(self).config_spec(),
            final(self).gate_spec() == old(self).gate_spec(),
            final(self).last_submitted() == old(self).last_submitted(),
            final(self).last_submission() == old(self).last_submission(),
            final(self).state() == old(self).state(),
            final(self).is_degraded() == old(self).is_degraded(),
            final(self).dispatching() == old(self).dispatching(),
    {
        self.dispatch_paused = false;
        if self.run_state != RunState::Running {
            return;
        }
        let ghost before = self.tracker@;
        self.tracker.requeue_failed(now);
        proof {
            lemma_count_same_dispatched(self.tracker@, before, before.len() as int);
        }
        let base = self.planning_base();
        let ranges = plan_next_ranges(base, safe_head, self.config.range_proof_interval);
        let ghost start = self.tracker@;
        let mut i: usize = 0;
        assert(ranges@.skip(0) =~= ranges@);
        while i < ranges.len()
            invariant
                self.wf(),
                i <= ranges@.len(),
                create_all(self.tracker@, ranges@.skip(i as int), now) == create_all(
                    start,
                    ranges@,
                    now,
                ),
                self.config == old(self).config,
                self.gate == old(self).gate,
                self.last_submitted_block == old(self).last_submitted_block,
                self.last_submission_time == old(self).last_submission_time,
                self.run_state == old(self).run_state,
                self.degraded == old(self).degraded,
                self.in_dispatch == old(self).in_dispatch,
                !self.dispatch_paused,
                self.submitted == old(self).submitted,
                self.origin == old(self).origin,
            decreases ranges@.len() - i,
        {
            let ghost before = self.tracker@;
            let created = self.tracker.try_create_pending(RequestKind::Range, ranges[i], now);
            if created {
                proof {
                    lemma_count_push(before, fresh_request(RequestKind::Range, ranges@[i as int], now));
                }
            }
            assert(ranges@.skip(i as int).drop_first() =~= ranges@.skip(i + 1));
            assert(create_all(before, ranges@.skip(i as int), now) == create_all(
                self.tracker@,
                ranges@.skip(i + 1),
                now,
            ));
            i += 1;
        }
        assert(ranges@.skip(i as int) =~= Seq::<ProofRange>::empty());
    }
}

} // verus!
