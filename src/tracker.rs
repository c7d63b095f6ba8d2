use vstd::prelude::*;

use crate::range::ProofRange;

verus! {

/// Which program a request asks the backend to prove.
#[derive(Clone, Copy, Debug, PartialEq, Eq, Structural)]
pub enum RequestKind {
    Range,
    Aggregation,
}

/// Where a request stands in its life.
#[derive(Clone, Copy, Debug, PartialEq, Eq, Structural)]
pub enum RequestStatus {
    Pending,
    Dispatched,
    Proved,
    Failed,
    Submitted,
    DeadLettered,
}

/// Pending, dispatched and failed requests still await work, and so does a
/// proved aggregation until it is submitted; the others are terminal.
pub open spec fn is_open(kind: RequestKind, s: RequestStatus) -> bool {
    ||| s == RequestStatus::Pending
    ||| s == RequestStatus::Dispatched
    ||| s == RequestStatus::Failed
    ||| (kind == RequestKind::Aggregation && s == RequestStatus::Proved)
}

/// A request in status `s` keeps an overlapping request of its kind from
/// being created: while it is open, and once dead-lettered, since
/// dead-lettered work waits for an operator and is never retried on its own.
pub open spec fn blocks_creation(kind: RequestKind, s: RequestStatus) -> bool {
    is_open(kind, s) || s == RequestStatus::DeadLettered
}

pub fn blocks_creation_status(kind: RequestKind, s: RequestStatus) -> (r: bool)
    ensures
        r == blocks_creation(kind, s),
{
    s == RequestStatus::Pending || s == RequestStatus::Dispatched || s == RequestStatus::Failed
        || s == RequestStatus::DeadLettered || (kind == RequestKind::Aggregation && s
        == RequestStatus::Proved)
}

/// The status changes that the tracker allows.
pub open spec fn legal_transition(from: RequestStatus, to: RequestStatus) -> bool {
    match (from, to) {
        (RequestStatus::Pending, RequestStatus::Dispatched) => true,
        (RequestStatus::Dispatched, RequestStatus::Proved) => true,
        (RequestStatus::Dispatched, RequestStatus::Failed) => true,
        (RequestStatus::Proved, RequestStatus::Submitted) => true,
        (RequestStatus::Failed, RequestStatus::Pending) => true,
        (RequestStatus::Pending, RequestStatus::DeadLettered) => true,
        (RequestStatus::Dispatched, RequestStatus::DeadLettered) => true,
        (RequestStatus::Failed, RequestStatus::DeadLettered) => true,
        _ => false,
    }
}

pub fn is_legal_transition(from: RequestStatus, to: RequestStatus) -> (r: bool)
    ensures
        r == legal_transition(from, to),
{
    match (from, to) {
        (RequestStatus::Pending, RequestStatus::Dispatched) => true,
        (RequestStatus::Dispatched, RequestStatus::Proved) => true,
        (RequestStatus::Dispatched, RequestStatus::Failed) => true,
        (RequestStatus::Proved, RequestStatus::Submitted) => true,
        (RequestStatus::Failed, RequestStatus::Pending) => true,
        (RequestStatus::Pending, RequestStatus::DeadLettered) => true,
        (RequestStatus::Dispatched, RequestStatus::DeadLettered) => true,
        (RequestStatus::Failed, RequestStatus::DeadLettered) => true,
        _ => false,
    }
}

/// Why an attempt at a request failed.
#[derive(Clone, Copy, Debug, PartialEq, Eq, Structural)]
pub enum FailureReason {
    /// The backend could not take the job (network error, quota).
    BackendUnavailable,
    /// The backend took the job and reported it failed.
    JobFailed,
    /// The backend refused the job as invalid.
    BackendRejected,
}

/// One proof request as the tracker records it.
#[derive(Clone, Copy, Debug)]
pub struct ProofRequest {
    pub kind: RequestKind,
    pub range: ProofRange,
    pub status: RequestStatus,
    pub backend_job_id: Option<u64>,
    pub retries: u64,
    pub last_failure: Option<FailureReason>,
    pub created_at: u64,
    pub updated_at: u64,
}

/// The record that a successful creation appends.
pub open spec fn fresh_request(kind: RequestKind, range: ProofRange, now: u64) -> ProofRequest {
    ProofRequest {
        kind,
        range,
        status: RequestStatus::Pending,
        backend_job_id: None,
        retries: 0,
        last_failure: None,
        created_at: now,
        updated_at: now,
    }
}

/// A request of `kind` for `range` may be created: the range is well formed
/// and no open or dead-lettered request of the same kind overlaps it.
pub open spec fn can_create(reqs: Seq<ProofRequest>, kind: RequestKind, range: ProofRange) -> bool {
    &&& range.wf()
    &&& !exists|i: int|
        0 <= i < reqs.len() && (#[trigger] reqs[i]).kind == kind && blocks_creation(reqs[i].kind, reqs[i].status)
            && reqs[i].range.overlaps(range)
}

/// Every recorded range is well formed.
pub open spec fn ranges_wf(reqs: Seq<ProofRequest>) -> bool {
    forall|i: int| 0 <= i < reqs.len() ==> (#[trigger] reqs[i]).range.wf()
}

/// How many of the first `n` requests are dispatched.
pub open spec fn count_dispatched(reqs: Seq<ProofRequest>, n: int) -> nat
    decreases n,
{
    if n <= 0 {
        0
    } else {
        count_dispatched(reqs, n - 1) + if reqs[n - 1].status == RequestStatus::Dispatched {
            1nat
        } else {
            0nat
        }
    }
}

/// How many requests are dispatched to the backend and not yet finished.
pub open spec fn in_flight(reqs: Seq<ProofRequest>) -> nat {
    count_dispatched(reqs, reqs.len() as int)
}

/// Two tables whose first `n` requests are dispatched at the same places
/// count alike there.
pub proof fn lemma_count_same_dispatched(a: Seq<ProofRequest>, b: Seq<ProofRequest>, n: int)
    requires
        0 <= n <= a.len(),
        n <= b.len(),
        forall|j: int|
            0 <= j < n ==> ((#[trigger] a[j]).status == RequestStatus::Dispatched) == (b[j].status
                == RequestStatus::Dispatched),
    ensures
        count_dispatched(a, n) == count_dispatched(b, n),
    decreases n,
{
    if n > 0 {
        lemma_count_same_dispatched(a, b, n - 1);
    }
}

/// The table with every failed request put back to pending for a retry.
pub open spec fn requeued(reqs: Seq<ProofRequest>, now: u64) -> Seq<ProofRequest> {
    Seq::new(
        reqs.len(),
        |i: int|
            if reqs[i].status == RequestStatus::Failed {
                ProofRequest { status: RequestStatus::Pending, updated_at: now, ..reqs[i] }
            } else {
                reqs[i]
            },
    )
}

/// Two tables that agree on their first `n` requests count alike there.
pub proof fn lemma_count_prefix(a: Seq<ProofRequest>, b: Seq<ProofRequest>, n: int)
    requires
        0 <= n <= a.len(),
        n <= b.len(),
        forall|j: int| 0 <= j < n ==> a[j] == b[j],
    ensures
        count_dispatched(a, n) == count_dispatched(b, n),
    decreases n,
{
    if n > 0 {
        lemma_count_prefix(a, b, n - 1);
    }
}

/// Replacing request `i` changes the count by what the replacement changes.
pub proof fn lemma_count_update(reqs: Seq<ProofRequest>, i: int, r: ProofRequest, n: int)
    requires
        0 <= i < reqs.len(),
        0 <= n <= reqs.len(),
    ensures
        count_dispatched(reqs.update(i, r), n) + (if i < n && reqs[i].status
            == RequestStatus::Dispatched {
            1int
        } else {
            0int
        }) == count_dispatched(reqs, n) + (if i < n && r.status == RequestStatus::Dispatched {
            1int
        } else {
            0int
        }),
    decreases n,
{
    if n > 0 {
        lemma_count_update(reqs, i, r, n - 1);
    }
}

/// Appending a request that is not dispatched keeps the count.
pub proof fn lemma_count_push(reqs: Seq<ProofRequest>, r: ProofRequest)
    requires
        r.status != RequestStatus::Dispatched,
    ensures
        in_flight(reqs.push(r)) == in_flight(reqs),
{
    lemma_count_prefix(reqs.push(r), reqs, reqs.len() as int);
}

/// Dead-lettered work is not created again: no request of the same kind
/// overlapping a dead-lettered one can be created while it stays there.
pub proof fn lemma_dead_letter_blocks(
    reqs: Seq<ProofRequest>,
    i: int,
    kind: RequestKind,
    range: ProofRange,
)
    requires
        0 <= i < reqs.len(),
        reqs[i].kind == kind,
        reqs[i].status == RequestStatus::DeadLettered,
        reqs[i].range.overlaps(range),
    ensures
        !can_create(reqs, kind, range),
{
}

/// The table after `try_create_pending`.
pub open spec fn after_create(
    reqs: Seq<ProofRequest>,
    kind: RequestKind,
    range: ProofRange,
    now: u64,
) -> Seq<ProofRequest> {
    if can_create(reqs, kind, range) {
        reqs.push(fresh_request(kind, range, now))
    } else {
        reqs
    }
}

/// Two creations of the same range, one after the other as the tracker
/// serialises them: at most one reports success, and one does exactly when
/// the range could be created at all.
pub proof fn lemma_create_pending_once(
    reqs: Seq<ProofRequest>,
    kind: RequestKind,
    range: ProofRange,
    now1: u64,
    now2: u64,
)
    ensures
        !(can_create(reqs, kind, range) && can_create(
            after_create(reqs, kind, range, now1),
            kind,
            range,
        )),
        (can_create(reqs, kind, range) || can_create(
            after_create(reqs, kind, range, now1),
            kind,
            range,
        )) == can_create(reqs, kind, range),
        after_create(after_create(reqs, kind, range, now1), kind, range, now2) == after_create(
            reqs,
            kind,
            range,
            now1,
        ),
{
    if can_create(reqs, kind, range) {
        let next = after_create(reqs, kind, range, now1);
        let last = (next.len() - 1) as int;
        assert(next[last] == fresh_request(kind, range, now1));
        assert(next[last].range.overlaps(range));
    }
}

/// How many of the creations of `range`, one per time in `nows`, succeed.
pub open spec fn creations(
    reqs: Seq<ProofRequest>,
    kind: RequestKind,
    range: ProofRange,
    nows: Seq<u64>,
) -> nat
    decreases nows.len(),
{
    if nows.len() == 0 {
        0
    } else {
        (if can_create(reqs, kind, range) {
            1nat
        } else {
            0nat
        }) + creations(after_create(reqs, kind, range, nows[0]), kind, range, nows.drop_first())
    }
}

/// The table after the creations of `range`, one per time in `nows`.
pub open spec fn after_creates(
    reqs: Seq<ProofRequest>,
    kind: RequestKind,
    range: ProofRange,
    nows: Seq<u64>,
) -> Seq<ProofRequest>
    decreases nows.len(),
{
    if nows.len() == 0 {
        reqs
    } else {
        after_creates(after_create(reqs, kind, range, nows[0]), kind, range, nows.drop_first())
    }
}

proof fn lemma_creations_blocked(
    reqs: Seq<ProofRequest>,
    kind: RequestKind,
    range: ProofRange,
    nows: Seq<u64>,
)
    requires
        !can_create(reqs, kind, range),
    ensures
        creations(reqs, kind, range, nows) == 0,
        after_creates(reqs, kind, range, nows) == reqs,
    decreases nows.len(),
{
    if nows.len() > 0 {
        lemma_creations_blocked(reqs, kind, range, nows.drop_first());
    }
}

/// Any number of creations of the same range, serialised by the tracker:
/// exactly one succeeds where the range could be created at all, none
/// otherwise, and the table gains that one pending request and nothing else.
pub proof fn lemma_create_pending_exactly_once(
    reqs: Seq<ProofRequest>,
    kind: RequestKind,
    range: ProofRange,
    nows: Seq<u64>,
)
    requires
        nows.len() >= 1,
    ensures
        creations(reqs, kind, range, nows) == if can_create(reqs, kind, range) {
            1nat
        } else {
            0nat
        },
        after_creates(reqs, kind, range, nows) == after_create(reqs, kind, range, nows[0]),
{
    lemma_create_pending_once(reqs, kind, range, nows[0], nows[0]);
    let next = after_create(reqs, kind, range, nows[0]);
    lemma_creations_blocked(next, kind, range, nows.drop_first());
}

/// The table after a status change of request `id`, where the change is allowed.
pub open spec fn after_transition(
    reqs: Seq<ProofRequest>,
    id: int,
    from: RequestStatus,
    to: RequestStatus,
    now: u64,
) -> Seq<ProofRequest> {
    if 0 <= id < reqs.len() && reqs[id].status == from && legal_transition(from, to) {
        reqs.update(id, ProofRequest { status: to, updated_at: now, ..reqs[id] })
    } else {
        reqs
    }
}

/// The table of proof requests, indexed by request id.
pub struct RequestTracker {
    requests: Vec<ProofRequest>,
}

impl View for RequestTracker {
    type V = Seq<ProofRequest>;

    closed spec fn view(&self) -> Seq<ProofRequest> {
        self.requests@
    }
}

impl RequestTracker {
    pub fn new() -> (r: RequestTracker)
        ensures
            r@ == Seq::<ProofRequest>::empty(),
    {
        RequestTracker { requests: Vec::new() }
    }

    pub fn len(&self) -> (r: usize)
        ensures
            r == self@.len(),
    {
        self.requests.len()
    }

    pub fn get(&self, id: usize) -> (r: Option<ProofRequest>)
        ensures
            id < self@.len() ==> r == Some(self@[id as int]),
            id >= self@.len() ==> r.is_none(),
    {
        if id < self.requests.len() {
            Some(self.requests[id])
        } else {
            None
        }
    }

    /// Creates a pending request of `kind` for `range` unless the range is
    /// malformed or an open or dead-lettered request of the same kind overlaps
    /// it; says whether it did.
    pub fn try_create_pending(&mut self, kind: RequestKind, range: ProofRange, now: u64) -> (created:
        bool)
        ensures
            created == can_create(old(self)@, kind, range),
            final(self)@ == after_create(old(self)@, kind, range, now),
    {
        if range.start_block > range.end_block {
            return false;
        }
        let n = self.requests.len();
        let mut i: usize = 0;
        while i < n
            invariant
                n == self.requests@.len(),
                range.wf(),
                forall|j: int|
                    0 <= j < i ==> !((#[trigger] self.requests@[j]).kind == kind && blocks_creation(
                        self.requests@[j].kind,
                        self.requests@[j].status,
                    ) && self.requests@[j].range.overlaps(range)),
            decreases n - i,
        {
            let r = self.requests[i];
            if r.kind == kind && blocks_creation_status(r.kind, r.status) && r.range.overlaps_with(&range) {
                assert(!can_create(self.requests@, kind, range)) by {
                    assert(self.requests@[i as int] == r);
                }
                return false;
            }
            i += 1;
        }
        self.requests.push(
            ProofRequest {
                kind,
                range,
                status: RequestStatus::Pending,
                backend_job_id: None,
                retries: 0,
                last_failure: None,
                created_at: now,
                updated_at: now,
            },
        );
        true
    }

    /// Moves request `id` from `from` to `to`; fails, changing nothing, where
    /// the id is unknown, its status is not `from`, or the change is not allowed.
    pub fn transition(&mut self, id: usize, from: RequestStatus, to: RequestStatus, now: u64) -> (ok:
        bool)
        ensures
            ok == (id < old(self)@.len() && old(self)@[id as int].status == from
                && legal_transition(from, to)),
            final(self)@ == after_transition(old(self)@, id as int, from, to, now),
    {
        if id >= self.requests.len() || !is_legal_transition(from, to) {
            return false;
        }
        let mut rec = self.requests[id];
        if rec.status != from {
            return false;
        }
        rec.status = to;
        rec.updated_at = now;
        self.requests[id] = rec;
        true
    }

    /// Moves request `id` from pending to dispatched and records the backend's
    /// job handle.
    pub fn mark_dispatched(&mut self, id: usize, job: u64, now: u64) -> (ok: bool)
        ensures
            ok == (id < old(self)@.len() && old(self)@[id as int].status
                == RequestStatus::Pending),
            ok ==> final(self)@ == old(self)@.update(
                id as int,
                ProofRequest {
                    status: RequestStatus::Dispatched,
                    backend_job_id: Some(job),
                    updated_at: now,
                    ..old(self)@[id as int]
                },
            ),
            !ok ==> final(self)@ == old(self)@,
    {
        if id >= self.requests.len() {
            return false;
        }
        let mut rec = self.requests[id];
        if rec.status != RequestStatus::Pending {
            return false;
        }
        rec.status = RequestStatus::Dispatched;
        rec.backend_job_id = Some(job);
        rec.updated_at = now;
        self.requests[id] = rec;
        true
    }

    /// Counts one more failed attempt on request `id` and records why it
    /// failed; the count stops at the largest `u64`.
    pub fn record_failure(&mut self, id: usize, reason: FailureReason, now: u64) -> (ok: bool)
        ensures
            ok == (id < old(self)@.len()),
            ok ==> final(self)@ == old(self)@.update(
                id as int,
                ProofRequest {
                    retries: if old(self)@[id as int].retries < u64::MAX {
                        (old(self)@[id as int].retries + 1) as u64
                    } else {
                        old(self)@[id as int].retries
                    },
                    last_failure: Some(reason),
                    updated_at: now,
                    ..old(self)@[id as int]
                },
            ),
            !ok ==> final(self)@ == old(self)@,
    {
        if id >= self.requests.len() {
            return false;
        }
        let mut rec = self.requests[id];
        if rec.retries < u64::MAX {
            rec.retries = rec.retries + 1;
        }
        rec.last_failure = Some(reason);
        rec.updated_at = now;
        self.requests[id] = rec;
        true
    }

    /// Puts every failed request back to pending, for another attempt.
    pub fn requeue_failed(&mut self, now: u64)
        ensures
            final(self)@ == requeued(old(self)@, now),
    {
        let n = self.requests.len();
        let mut i: usize = 0;
        while i < n
            invariant
                n == old(self)@.len(),
                self@.len() == n,
                i <= n,
                forall|j: int| 0 <= j < i ==> self@[j] == #[trigger] requeued(old(self)@, now)[j],
                forall|j: int| i <= j < n ==> #[trigger] self@[j] == old(self)@[j],
            decreases n - i,
        {
            let mut rec = self.requests[i];
            if rec.status == RequestStatus::Failed {
                rec.status = RequestStatus::Pending;
                rec.updated_at = now;
                self.requests[i] = rec;
            }
            i += 1;
        }
        assert(self@ =~= requeued(old(self)@, now));
    }

    /// The ids of the requests of `kind` whose status is `status`, ascending.
    pub fn list_by_status(&self, kind: RequestKind, status: RequestStatus) -> (r: Vec<usize>)
        ensures
            forall|k: int|
                0 <= k < r@.len() ==> {
                    &&& #[trigger] r@[k] < self@.len()
                    &&& self@[r@[k] as int].kind == kind
                    &&& self@[r@[k] as int].status == status
                },
            forall|k: int, l: int| 0 <= k < l < r@.len() ==> r@[k] < r@[l],
            forall|i: int|
                0 <= i < self@.len() && (#[trigger] self@[i]).kind == kind && self@[i].status
                    == status ==> r@.contains(i as usize),
    {
        let mut out: Vec<usize> = Vec::new();
        let n = self.requests.len();
        let mut i: usize = 0;
        while i < n
            invariant
                n == self@.len(),
                i <= n,
                forall|k: int|
                    0 <= k < out@.len() ==> {
                        &&& #[trigger] out@[k] < i
                        &&& self@[out@[k] as int].kind == kind
                        &&& self@[out@[k] as int].status == status
                    },
                forall|k: int, l: int| 0 <= k < l < out@.len() ==> out@[k] < out@[l],
                forall|j: int|
                    0 <= j < i && (#[trigger] self@[j]).kind == kind && self@[j].status == status
                        ==> out@.contains(j as usize),
            decreases n - i,
        {
            let r = self.requests[i];
            if r.kind == kind && r.status == status {
                let ghost before = out@;
                out.push(i);
                assert forall|j: int|
                    0 <= j < i + 1 && (#[trigger] self@[j]).kind == kind && self@[j].status
                        == status implies out@.contains(j as usize) by {
                    if j == i {
                        assert(out@[out@.len() - 1] == i);
                    } else {
                        assert(before.contains(j as usize));
                        let k = choose|k: int| 0 <= k < before.len() && before[k] == j as usize;
                        assert(out@[k] == before[k]);
                    }
                }
            }
            i += 1;
        }
        out
    }
}

} // verus!
