use validity_proposer::range::{plan_next_ranges, ProofRange};

fn r(a: u64, b: u64) -> ProofRange {
    ProofRange::new(a, b)
}

#[test]
fn plans_fixed_length_ranges_with_short_tail() {
    assert_eq!(plan_next_ranges(0, 25, 10), vec![r(1, 10), r(11, 20), r(21, 25)]);
}

#[test]
fn plans_nothing_when_head_not_ahead() {
    assert!(plan_next_ranges(30, 30, 10).is_empty());
    assert!(plan_next_ranges(30, 12, 10).is_empty());
}

#[test]
fn plans_nothing_with_zero_length() {
    assert!(plan_next_ranges(0, 25, 0).is_empty());
}

#[test]
fn plans_exact_multiple_without_tail() {
    assert_eq!(plan_next_ranges(100, 120, 10), vec![r(101, 110), r(111, 120)]);
}

#[test]
fn plans_single_block_ranges() {
    assert_eq!(plan_next_ranges(5, 8, 1), vec![r(6, 6), r(7, 7), r(8, 8)]);
}

#[test]
fn plans_up_to_the_largest_block() {
    let max = u64::MAX;
    assert_eq!(plan_next_ranges(max - 5, max, 4), vec![r(max - 4, max - 1), r(max, max)]);
    assert_eq!(plan_next_ranges(max - 5, max, u64::MAX), vec![r(max - 4, max)]);
}

#[test]
fn planned_ranges_tile_the_new_blocks() {
    for (last, head, len) in [(0u64, 25u64, 10u64), (7, 100, 9), (3, 4, 100), (0, 1000, 1)] {
        let rs = plan_next_ranges(last, head, len);
        assert_eq!(rs[0].start_block, last + 1);
        assert_eq!(rs[rs.len() - 1].end_block, head);
        for w in rs.windows(2) {
            assert_eq!(w[1].start_block, w[0].end_block + 1);
        }
        for x in &rs {
            assert!(x.start_block <= x.end_block);
            assert!(x.end_block - x.start_block + 1 <= len);
        }
    }
}

#[test]
fn overlap_is_symmetric_and_inclusive() {
    assert!(r(1, 10).overlaps_with(&r(10, 20)));
    assert!(r(10, 20).overlaps_with(&r(1, 10)));
    assert!(!r(1, 10).overlaps_with(&r(11, 20)));
}
