use vstd::prelude::*;

use crate::range::{tiles, ProofRange};

verus! {

/// An aggregation to request: the span it covers and which of the proved
/// ranges it is made of (`count` of them from index `first`).
#[derive(Clone, Copy, Debug, PartialEq, Eq, Structural)]
pub struct Assembly {
    pub covered: ProofRange,
    pub first: usize,
    pub count: usize,
}

/// Index of the first range from `i` on that ends after `last`.
pub open spec fn skip_submitted(rs: Seq<ProofRange>, i: int, last: int) -> int
    decreases rs.len() - i,
{
    if 0 <= i < rs.len() && rs[i].end_block <= last {
        skip_submitted(rs, i + 1, last)
    } else {
        i
    }
}

/// How many ranges from index `i` on continue the chain that ended at `prev`,
/// each starting right after its predecessor and the whole staying within
/// `max_span` blocks after `last`.
pub open spec fn chain_len(rs: Seq<ProofRange>, i: int, prev: int, last: int, max_span: int) -> nat
    decreases rs.len() - i,
{
    if 0 <= i < rs.len() && rs[i].start_block == prev + 1 && rs[i].wf() && rs[i].end_block - last
        <= max_span {
        1 + chain_len(rs, i + 1, rs[i].end_block as int, last, max_span)
    } else {
        0
    }
}

/// What `try_assemble` returns: the longest run of proved ranges that starts
/// right after `last`, or nothing where the next range is not proved.
pub open spec fn assembled(rs: Seq<ProofRange>, last: u64, max_span: u64) -> Option<Assembly> {
    let s = skip_submitted(rs, 0, last as int);
    let n = chain_len(rs, s, last as int, last as int, max_span as int);
    if n == 0 {
        None
    } else {
        Some(
            Assembly {
                covered: ProofRange {
                    start_block: (last + 1) as u64,
                    end_block: rs[s + n - 1].end_block,
                },
                first: s as usize,
                count: n as usize,
            },
        )
    }
}

/// A chain of `n` ranges from `i` tiles the blocks after `prev` up to the end
/// of its last range, within the span.
proof fn lemma_chain_tiles(rs: Seq<ProofRange>, i: int, prev: int, last: int, max_span: int)
    requires
        0 <= i <= rs.len(),
        chain_len(rs, i, prev, last, max_span) > 0,
    ensures
        i + chain_len(rs, i, prev, last, max_span) <= rs.len(),
        tiles(
            rs.subrange(i, i + chain_len(rs, i, prev, last, max_span)),
            prev,
            rs[i + chain_len(rs, i, prev, last, max_span) - 1].end_block as int,
        ),
        rs[i + chain_len(rs, i, prev, last, max_span) - 1].end_block - last <= max_span,
    decreases rs.len() - i,
{
    let n = chain_len(rs, i, prev, last, max_span);
    let sub = rs.subrange(i, i + n);
    let m = chain_len(rs, i + 1, rs[i].end_block as int, last, max_span);
    if m > 0 {
        lemma_chain_tiles(rs, i + 1, rs[i].end_block as int, last, max_span);
        let tail = rs.subrange(i + 1, i + 1 + m);
        assert forall|j: int| 0 <= j < sub.len() implies (#[trigger] sub[j]).wf() by {
            if j > 0 {
                assert(sub[j] == tail[j - 1]);
            }
        }
        assert forall|j: int| 0 <= j < sub.len() - 1 implies (#[trigger] sub[j + 1]).start_block
            == sub[j].end_block + 1 by {
            assert(sub[j + 1] == tail[j]);
            if j > 0 {
                assert(sub[j] == tail[j - 1]);
                assert(tail[(j - 1) + 1].start_block == tail[j - 1].end_block + 1);
            }
        }
    }
}

/// Assembles the next aggregation from `proved`, the proved ranges in
/// ascending order: ranges that end at or before `last_submitted_block` are
/// passed over, then the run of ranges that follow one another from
/// `last_submitted_block + 1` is taken up to the first gap, or up to the
/// range that would make it longer than `max_span` blocks.
pub fn try_assemble(proved: &Vec<ProofRange>, last_submitted_block: u64, max_span: u64) -> (r:
    Option<Assembly>)
    ensures
        r == assembled(proved@, last_submitted_block, max_span),
        r matches Some(a) ==> {
            &&& a.first + a.count <= proved@.len()
            &&& a.covered.start_block == last_submitted_block + 1
            &&& a.covered.len() <= max_span
            &&& tiles(
                proved@.subrange(a.first as int, a.first + a.count),
                last_submitted_block as int,
                a.covered.end_block as int,
            )
        },
{
    let ghost rs = proved@;
    let ghost last = last_submitted_block as int;
    let n = proved.len();
    let mut s: usize = 0;
    while s < n && proved[s].end_block <= last_submitted_block
        invariant
            rs == proved@,
            last == last_submitted_block as int,
            n == rs.len(),
            s <= n,
            skip_submitted(rs, s as int, last) == skip_submitted(rs, 0, last),
        decreases n - s,
    {
        assert(skip_submitted(rs, s as int, last) == skip_submitted(rs, s + 1, last));
        s += 1;
    }
    assert(skip_submitted(rs, s as int, last) == s);
    let mut i: usize = s;
    let mut prev: u64 = last_submitted_block;
    while i < n && prev < u64::MAX && proved[i].start_block == prev + 1 && proved[i].start_block
        <= proved[i].end_block && proved[i].end_block - last_submitted_block <= max_span
        invariant
            rs == proved@,
            last == last_submitted_block as int,
            n == rs.len(),
            s <= i <= n,
            prev >= last_submitted_block,
            s == skip_submitted(rs, 0, last),
            chain_len(rs, s as int, last, last, max_span as int) == (i - s) + chain_len(
                rs,
                i as int,
                prev as int,
                last,
                max_span as int,
            ),
            i > s ==> prev == rs[i - 1].end_block,
            i == s ==> prev == last_submitted_block,
        decreases n - i,
    {
        assert(chain_len(rs, i as int, prev as int, last, max_span as int) == 1 + chain_len(
            rs,
            i + 1,
            rs[i as int].end_block as int,
            last,
            max_span as int,
        ));
        prev = proved[i].end_block;
        i += 1;
    }
    proof {
        assert(chain_len(rs, i as int, prev as int, last, max_span as int) == 0);
    }
    if i == s {
        None
    } else {
        proof {
            lemma_chain_tiles(rs, s as int, last, last, max_span as int);
        }
        Some(
            Assembly {
                covered: ProofRange { start_block: last_submitted_block + 1, end_block: prev },
                first: s,
                count: i - s,
            },
        )
    }
}

} // verus!
