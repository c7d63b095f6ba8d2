use vstd::prelude::*;

verus! {

/// An inclusive span of L2 block numbers.
#[derive(Clone, Copy, Debug, PartialEq, Eq, Structural)]
pub struct ProofRange {
    pub start_block: u64,
    pub end_block: u64,
}

impl ProofRange {
    pub open spec fn wf(self) -> bool {
        self.start_block <= self.end_block
    }

    /// Number of blocks in the span.
    pub open spec fn len(self) -> int {
        self.end_block - self.start_block + 1
    }

    pub open spec fn overlaps(self, other: ProofRange) -> bool {
        self.start_block <= other.end_block && other.start_block <= self.end_block
    }

    pub fn new(start_block: u64, end_block: u64) -> (r: ProofRange)
        ensures
            r.start_block == start_block,
            r.end_block == end_block,
    {
        ProofRange { start_block, end_block }
    }

    pub fn overlaps_with(&self, other: &ProofRange) -> (r: bool)
        ensures
            r == self.overlaps(*other),
    {
        self.start_block <= other.end_block && other.start_block <= self.end_block
    }
}

/// The ranges that cover `(last, head]` in order, each `max_len` blocks long
/// but the last, which takes what is left.
pub open spec fn planned(last: u64, head: u64, max_len: u64) -> Seq<ProofRange>
    decreases head - last,
{
    if head <= last || max_len == 0 {
        seq![]
    } else {
        let end: u64 = if head - last <= max_len { head } else { (last + max_len) as u64 };
        seq![ProofRange { start_block: (last + 1) as u64, end_block: end }].add(
            planned(end, head, max_len),
        )
    }
}

/// The ranges of `rs` follow one another without gap or overlap, the first
/// starting right after `last` and the last ending at `head`.
pub open spec fn tiles(rs: Seq<ProofRange>, last: int, head: int) -> bool {
    &&& rs.len() == 0 ==> last == head
    &&& rs.len() > 0 ==> {
        &&& rs[0].start_block == last + 1
        &&& rs[rs.len() - 1].end_block == head
    }
    &&& forall|i: int| 0 <= i < rs.len() ==> (#[trigger] rs[i]).wf()
    &&& forall|i: int|
        0 <= i < rs.len() - 1 ==> (#[trigger] rs[i + 1]).start_block == rs[i].end_block + 1
}

/// A tiling extends by a well-formed range that starts right after its end.
pub proof fn lemma_tiles_push(rs: Seq<ProofRange>, last: int, head: int, r: ProofRange)
    requires
        tiles(rs, last, head),
        r.wf(),
        r.start_block == head + 1,
    ensures
        tiles(rs.push(r), last, r.end_block as int),
{
    let out = rs.push(r);
    assert forall|i: int| 0 <= i < out.len() - 1 implies (#[trigger] out[i + 1]).start_block
        == out[i].end_block + 1 by {
        if i + 1 < rs.len() {
            assert(rs[i + 1].start_block == rs[i].end_block + 1);
        }
    }
    assert forall|i: int| 0 <= i < out.len() implies (#[trigger] out[i]).wf() by {
        if i < rs.len() {
            assert(rs[i].wf());
        }
    }
}

/// The next ranges to prove after `last_submitted_block`, up to
/// `current_safe_head`, none longer than `max_range_len` blocks.
pub fn plan_next_ranges(last_submitted_block: u64, current_safe_head: u64, max_range_len: u64) -> (r:
    Vec<ProofRange>)
    ensures
        r@ == planned(last_submitted_block, current_safe_head, max_range_len),
        last_submitted_block <= current_safe_head && max_range_len > 0 ==> {
            &&& tiles(r@, last_submitted_block as int, current_safe_head as int)
            &&& forall|i: int| 0 <= i < r@.len() ==> (#[trigger] r@[i]).len() <= max_range_len
        },
        current_safe_head <= last_submitted_block || max_range_len == 0 ==> r@.len() == 0,
{
    let mut out: Vec<ProofRange> = Vec::new();
    if max_range_len == 0 {
        return out;
    }
    let mut cur: u64 = last_submitted_block;
    while cur < current_safe_head
        invariant
            max_range_len > 0,
            last_submitted_block <= cur || current_safe_head <= last_submitted_block,
            out@ + planned(cur, current_safe_head, max_range_len) == planned(
                last_submitted_block,
                current_safe_head,
                max_range_len,
            ),
        decreases current_safe_head - cur,
    {
        let end: u64 = if current_safe_head - cur <= max_range_len {
            current_safe_head
        } else {
            cur + max_range_len
        };
        let ghost rest = planned(end, current_safe_head, max_range_len);
        out.push(ProofRange { start_block: cur + 1, end_block: end });
        assert(planned(cur, current_safe_head, max_range_len) == seq![
            ProofRange { start_block: (cur + 1) as u64, end_block: end },
        ].add(rest));
        assert(out@ + rest == planned(last_submitted_block, current_safe_head, max_range_len)) by {
            assert(out@ + rest =~= (out@.drop_last() + seq![out@.last()]) + rest);
        }
        cur = end;
    }
    assert(planned(cur, current_safe_head, max_range_len) =~= seq![]);
    assert(out@ =~= out@ + seq![]);
    if last_submitted_block <= current_safe_head {
        proof {
            lemma_plan_tiles(last_submitted_block, current_safe_head, max_range_len);
        }
    }
    out
}

/// Planning covers exactly `(last, head]` with contiguous ranges of at most
/// `max_len` blocks each, for any `head` not below `last` and any positive
/// `max_len`.
pub proof fn lemma_plan_tiles(last: u64, head: u64, max_len: u64)
    requires
        last <= head,
        max_len > 0,
    ensures
        tiles(planned(last, head, max_len), last as int, head as int),
        forall|i: int|
            0 <= i < planned(last, head, max_len).len() ==> (#[trigger] planned(
                last,
                head,
                max_len,
            )[i]).len() <= max_len,
    decreases head - last,
{
    let rs = planned(last, head, max_len);
    if last < head {
        let end: u64 = if head - last <= max_len { head } else { (last + max_len) as u64 };
        lemma_plan_tiles(end, head, max_len);
        let tail = planned(end, head, max_len);
        let first = ProofRange { start_block: (last + 1) as u64, end_block: end };
        assert(rs == seq![first].add(tail));
        assert forall|i: int| 0 <= i < rs.len() implies (#[trigger] rs[i]).wf() && rs[i].len()
            <= max_len by {
            if i > 0 {
                assert(rs[i] == tail[i - 1]);
            }
        }
        assert forall|i: int| 0 <= i < rs.len() - 1 implies (#[trigger] rs[i + 1]).start_block
            == rs[i].end_block + 1 by {
            assert(rs[i + 1] == tail[i]);
            if i > 0 {
                assert(rs[i] == tail[i - 1]);
                assert(tail[(i - 1) + 1].start_block == tail[i - 1].end_block + 1);
            } else {
                assert(tail.len() > 0);
                assert(tail[0].start_block == end + 1);
            }
        }
        if tail.len() > 0 {
            assert(rs[rs.len() - 1] == tail[tail.len() - 1]);
        }
    }
}

} // verus!
