use vstd::prelude::*;

use crate::proposer::{expected_shape, DispatchOutcome, ProofMode, ProofShape};
use crate::tracker::RequestKind;

verus! {

/// The stand-in backend of mock runs: it accepts every job under a fresh
/// synthetic id and finishes it at once with a proof of the expected shape.
pub struct MockProver {
    next_job: u64,
}

impl MockProver {
    /// The id that the next accepted job gets.
    pub closed spec fn next_id(&self) -> u64 {
        self.next_job
    }

    pub fn new() -> (r: MockProver)
        ensures
            r.next_id() == 1,
    {
        MockProver { next_job: 1 }
    }

    /// Accepts a job under the next synthetic id; refuses, as an unavailable
    /// backend would, once the ids run out.
    pub fn submit_job(&mut self) -> (r: DispatchOutcome)
        ensures
            old(self).next_id() < u64::MAX ==> {
                &&& r == DispatchOutcome::Accepted(old(self).next_id())
                &&& final(self).next_id() == old(self).next_id() + 1
            },
            old(self).next_id() == u64::MAX ==> {
                &&& r == DispatchOutcome::Unavailable
                &&& final(self).next_id() == old(self).next_id()
            },
    {
        if self.next_job == u64::MAX {
            return DispatchOutcome::Unavailable;
        }
        let id = self.next_job;
        self.next_job = id + 1;
        DispatchOutcome::Accepted(id)
    }

    /// The proof a finished mock job of `kind` comes back with.
    pub fn proof_shape(kind: RequestKind, mode: ProofMode) -> (r: ProofShape)
        ensures
            r == expected_shape(kind, mode),
    {
        match kind {
            RequestKind::Range => ProofShape::Compressed,
            RequestKind::Aggregation => match mode {
                ProofMode::Plonk => ProofShape::Plonk,
                ProofMode::Groth16 => ProofShape::Groth16,
            },
        }
    }
}

} // verus!
