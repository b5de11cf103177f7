use streamkey::timestamp::{epoch_ns, epoch_secs, Timestamp};

#[test]
fn test_epoch_readings_are_ordered() {
    let secs = epoch_secs();
    let ns = epoch_ns();
    // The clock is past the epoch, and the nanosecond reading agrees with the
    // second reading to within a generous margin.
    assert!(secs > 0);
    assert!(ns > 0);
    let ns_secs = (ns / 1_000_000_000) as u64;
    assert!(ns_secs >= secs);
    assert!(ns_secs - secs < 10);
}

#[test]
fn test_timestamp_new_reads_clock() {
    let t = Timestamp::new();
    assert!(t.value() > 0);
}

#[test]
fn test_timestamp_parse() {
    assert_eq!(Timestamp::parse("1234567890").value(), 1234567890);
    assert_eq!(Timestamp::parse("0").value(), 0);
    assert_eq!(Timestamp::parse("").value(), 0);
    assert_eq!(Timestamp::parse("12x").value(), 0);
    assert_eq!(Timestamp::parse("-5").value(), 0);
    assert_eq!(
        Timestamp::parse("18446744073709551615").value(),
        u64::MAX
    );
    // One past u64::MAX overflows and parses to zero.
    assert_eq!(Timestamp::parse("18446744073709551616").value(), 0);
}
