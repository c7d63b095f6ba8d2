use vstd::prelude::*;

verus! {

/// The two kinds of work whose concurrency is bounded.
#[derive(Clone, Copy, Debug, PartialEq, Eq, Structural)]
pub enum WorkKind {
    Witness,
    Proof,
}

/// Counts outstanding witness and proof jobs against their ceilings.
pub struct ConcurrencyGate {
    max_witness: u64,
    max_proof: u64,
    witness: u64,
    proof: u64,
}

impl ConcurrencyGate {
    /// How many jobs of `kind` hold a permit.
    pub closed spec fn outstanding(&self, kind: WorkKind) -> int {
        match kind {
            WorkKind::Witness => self.witness as int,
            WorkKind::Proof => self.proof as int,
        }
    }

    /// The most jobs of `kind` that may hold a permit at once.
    pub closed spec fn ceiling(&self, kind: WorkKind) -> int {
        match kind {
            WorkKind::Witness => self.max_witness as int,
            WorkKind::Proof => self.max_proof as int,
        }
    }

    pub open spec fn wf(&self) -> bool {
        &&& self.outstanding(WorkKind::Witness) <= self.ceiling(WorkKind::Witness)
        &&& self.outstanding(WorkKind::Proof) <= self.ceiling(WorkKind::Proof)
    }

    pub fn new(max_witness: u64, max_proof: u64) -> (r: ConcurrencyGate)
        ensures
            r.wf(),
            r.ceiling(WorkKind::Witness) == max_witness,
            r.ceiling(WorkKind::Proof) == max_proof,
            r.outstanding(WorkKind::Witness) == 0,
            r.outstanding(WorkKind::Proof) == 0,
    {
        ConcurrencyGate { max_witness, max_proof, witness: 0, proof: 0 }
    }

    pub fn outstanding_count(&self, kind: WorkKind) -> (r: u64)
        ensures
            r == self.outstanding(kind),
    {
        match kind {
            WorkKind::Witness => self.witness,
            WorkKind::Proof => self.proof,
        }
    }

    /// A permit of `kind` is free.
    pub fn has_room(&self, kind: WorkKind) -> (r: bool)
        ensures
            r == (self.outstanding(kind) < self.ceiling(kind)),
    {
        match kind {
            WorkKind::Witness => self.witness < self.max_witness,
            WorkKind::Proof => self.proof < self.max_proof,
        }
    }

    /// Takes a permit of `kind` where one is free; on refusal nothing changes
    /// and the work waits for a later tick.
    pub fn try_acquire(&mut self, kind: WorkKind) -> (granted: bool)
        requires
            old(self).wf(),
        ensures
            final(self).wf(),
            granted == (old(self).outstanding(kind) < old(self).ceiling(kind)),
            final(self).outstanding(kind) == old(self).outstanding(kind) + (if granted {
                1int
            } else {
                0int
            }),
            forall|k: WorkKind|
                k != kind ==> #[trigger] final(self).outstanding(k) == old(self).outstanding(k),
            forall|k: WorkKind| #[trigger] final(self).ceiling(k) == old(self).ceiling(k),
            !granted ==> *final(self) == *old(self),
    {
        match kind {
            WorkKind::Witness => {
                if self.witness < self.max_witness {
                    self.witness = self.witness + 1;
                    true
                } else {
                    false
                }
            },
            WorkKind::Proof => {
                if self.proof < self.max_proof {
                    self.proof = self.proof + 1;
                    true
                } else {
                    false
                }
            },
        }
    }

    /// Gives back a permit of `kind`; with none outstanding nothing changes.
    pub fn release(&mut self, kind: WorkKind)
        requires
            old(self).wf(),
        ensures
            final(self).wf(),
            final(self).outstanding(kind) == if old(self).outstanding(kind) > 0 {
                old(self).outstanding(kind) - 1
            } else {
                old(self).outstanding(kind)
            },
            forall|k: WorkKind|
                k != kind ==> #[trigger] final(self).outstanding(k) == old(self).outstanding(k),
            forall|k: WorkKind| #[trigger] final(self).ceiling(k) == old(self).ceiling(k),
    {
        match kind {
            WorkKind::Witness => {
                if self.witness > 0 {
                    self.witness = self.witness - 1;
                }
            },
            WorkKind::Proof => {
                if self.proof > 0 {
                    self.proof = self.proof - 1;
                }
            },
        }
    }
}

} // verus!
