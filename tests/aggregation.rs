use validity_proposer::aggregator::try_assemble;
use validity_proposer::range::ProofRange;

fn r(a: u64, b: u64) -> ProofRange {
    ProofRange::new(a, b)
}

#[test]
fn stops_at_the_first_gap() {
    let proved = vec![r(1, 10), r(21, 30)];
    let a = try_assemble(&proved, 0, 1000).unwrap();
    assert_eq!(a.covered, r(1, 10));
    assert_eq!(a.first, 0);
    assert_eq!(a.count, 1);
}

#[test]
fn nothing_when_next_range_missing() {
    let proved = vec![r(11, 20), r(21, 30)];
    assert_eq!(try_assemble(&proved, 0, 1000), None);
    assert_eq!(try_assemble(&Vec::new(), 0, 1000), None);
}

#[test]
fn respects_the_maximum_span() {
    let proved = vec![r(1, 10), r(11, 20), r(21, 25)];
    let a = try_assemble(&proved, 0, 20).unwrap();
    assert_eq!(a.covered, r(1, 20));
    assert_eq!(a.count, 2);
    assert_eq!(try_assemble(&proved, 0, 9), None);
}

#[test]
fn passes_over_submitted_ranges() {
    let proved = vec![r(1, 10), r(11, 20), r(21, 25)];
    let a = try_assemble(&proved, 20, 20).unwrap();
    assert_eq!(a.covered, r(21, 25));
    assert_eq!(a.first, 2);
    assert_eq!(a.count, 1);
}

#[test]
fn takes_the_whole_contiguous_run() {
    let proved = vec![r(1, 10), r(11, 20), r(21, 25), r(27, 30)];
    let a = try_assemble(&proved, 0, 1000).unwrap();
    assert_eq!(a.covered, r(1, 25));
    assert_eq!(a.count, 3);
}
