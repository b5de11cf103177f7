use streamkey::sequence::UnboundedSequence;

#[test]
fn test_sequence_counts_from_zero() {
    let mut s = UnboundedSequence::new();
    assert_eq!(s.next_raw(), 0);
    assert_eq!(s.next_raw(), 1);
    assert_eq!(s.next_raw(), 2);

    // Restartable only by constructing a fresh instance.
    let mut fresh = UnboundedSequence::default();
    assert_eq!(fresh.next_raw(), 0);
}

#[test]
fn test_sequence_maps_through_conversion() {
    let mut s = UnboundedSequence::new();
    let convert = |raw: u128| format!("item-{}", raw);
    assert_eq!(s.next_with(&convert), "item-0");
    assert_eq!(s.next_with(&convert), "item-1");
    let double = |raw: u128| raw * 2;
    assert_eq!(s.next_with(&double), 4);
}
