use streamkey::codec::DecodeError;
use streamkey::counter::{ByteCounter, IDENTIFIER_SIZE};
use streamkey::timestamp::Timestamp;

#[test]
fn counter_test_stream_id() {
    {
        assert_eq!(IDENTIFIER_SIZE, 8);
    }

    {
        assert_eq!(ByteCounter::default().id, [0, 0, 0, 0, 0, 0, 0, 0]);
    }

    {
        let mut bid = ByteCounter::default();

        let next_bid = bid.next_id();
        assert_eq!(next_bid.id, [0, 0, 0, 0, 0, 0, 0, 1]);

        let next_next_bid = next_bid.next_id();

        assert_eq!(next_bid.id, [0, 0, 0, 0, 0, 0, 0, 1]);
        assert_eq!(next_next_bid.id, [0, 0, 0, 0, 0, 0, 0, 2]);

        for _ in 0..1e+6 as u64 {
            bid = bid.next_id();
        }

        assert_eq!(bid.id, [0, 0, 0, 0, 0, 15, 66, 64]);
    }

    {
        let mut bid = ByteCounter::new_with_prefix("stream".to_string());
        for _ in 0..1e+6 as u64 {
            bid = bid.next_id();
        }

        assert_eq!(
            format!("stream:{}:000000000000000015066064", bid.timestamp.value()),
            bid.to_string()
        );

        let _from = format!("stream:{}:000000000000000015066064", bid.timestamp.value());
        let _bid: ByteCounter = ByteCounter::decode(&_from).unwrap();
        assert_eq!(bid.to_string(), _bid.to_string());
        assert_eq!(Some("stream".to_string()), bid.prefix);
        assert_eq!(bid.timestamp.value(), _bid.timestamp.value());
    }
}

#[test]
fn counter_test_distance() {
    {
        let default = ByteCounter::default();
        let nextnext = default.next_id().next_id();

        assert_eq!(default.to_u128(), 0);
        assert_eq!(nextnext.to_u128(), 2);
        assert_eq!(default.distance(&nextnext), 2);
    }

    {
        let default = ByteCounter::default();
        let mut default2 = ByteCounter::default();

        default2 = default2.next_id();
        default2 = default2.next_id();
        default2 = default2.next_id();
        default2 = default2.next_id();

        assert_eq!(default2.distance(&default), 4);
        assert_eq!(default.distance(&default2), 4);
    }
}

#[test]
fn test_short_segment_left_pads() {
    let c = ByteCounter::decode_bytes("1").unwrap();
    assert_eq!(c.id, [0, 0, 0, 0, 0, 0, 0, 1]);
    assert_eq!(c.to_u128(), 1);
    assert!(c.valid);
}

#[test]
fn test_long_segment_keeps_trailing_groups() {
    // Nine groups for an eight-byte counter: the leading group is discarded.
    let c = ByteCounter::decode_bytes("255000000000000000000015066064").unwrap();
    assert_eq!(c.id, [0, 0, 0, 0, 0, 15, 66, 64]);
}

#[test]
fn test_decode_bytes_rejects_non_digit_group() {
    let r = ByteCounter::decode_bytes("0000000000000000000000a4");
    assert_eq!(r.unwrap_err(), DecodeError::InvalidGroup);
}

#[test]
fn test_decode_bytes_rejects_group_over_255() {
    let r = ByteCounter::decode_bytes("000000000000000000000999");
    assert_eq!(r.unwrap_err(), DecodeError::InvalidGroup);
}

#[test]
fn test_decode_wrong_field_count_is_soft_invalid() {
    let c = ByteCounter::decode("000000000000000000000001").unwrap();
    assert!(!c.valid);
    assert_eq!(c.id, [0, 0, 0, 0, 0, 0, 0, 0]);
    assert_eq!(c.prefix, None);

    let c = ByteCounter::decode("a:b:c:d").unwrap();
    assert!(!c.valid);
    assert_eq!(c.id, [0, 0, 0, 0, 0, 0, 0, 0]);
}

#[test]
fn test_decode_bad_timestamp_is_invalid() {
    let c = ByteCounter::decode("stream:notanumber:000000000000000000000001").unwrap();
    assert!(!c.valid);
    assert_eq!(c.timestamp.value(), 0);
    assert_eq!(c.id, [0, 0, 0, 0, 0, 0, 0, 1]);

    let c = ByteCounter::decode("stream:0:000000000000000000000001").unwrap();
    assert!(!c.valid);
    assert_eq!(c.timestamp.value(), 0);
}

#[test]
fn test_decode_hard_error_in_full_key() {
    let r = ByteCounter::decode("stream:17:00000000000000000000x001");
    assert_eq!(r.unwrap_err(), DecodeError::InvalidGroup);
}

#[test]
fn test_round_trip_fixed_timestamp() {
    let c = ByteCounter::new_with_prefix("orders".to_string())
        .with_timestamp(Timestamp(1234567890))
        .next_at(Timestamp(1234567890))
        .next_at(Timestamp(1234567890));
    let text = c.to_string();
    assert_eq!(text, "orders:1234567890:000000000000000000000002");
    let d = ByteCounter::decode(&text).unwrap();
    assert_eq!(d, c);
    assert!(d.valid);

    let plain = ByteCounter::new().with_timestamp(Timestamp(77));
    let text = plain.to_string();
    assert_eq!(text, "77:000000000000000000000000");
    let d = ByteCounter::decode(&text).unwrap();
    assert_eq!(d, plain);
}

#[test]
fn test_increment_distance_is_one() {
    let c = ByteCounter::decode_bytes("000000000000000255255255").unwrap();
    let up = c.next_id();
    assert_eq!(c.distance(&up), 1);
    assert_eq!(up.distance(&c), 1);
    let down = c.prev_id();
    assert_eq!(c.distance(&down), 1);
    assert_eq!(down.distance(&c), 1);
}

#[test]
fn test_increment_then_decrement_returns() {
    let c = ByteCounter::decode_bytes("000000000000255000255007").unwrap();
    assert_eq!(c.next_id().prev_id().id, c.id);
    assert_eq!(c.prev_id().next_id().id, c.id);

    // Across the wrap boundary in both directions.
    let max = ByteCounter::max();
    assert_eq!(max.next_id().id, [0, 0, 0, 0, 0, 0, 0, 0]);
    assert_eq!(max.next_id().prev_id().id, max.id);
    let zero = ByteCounter::new();
    assert_eq!(zero.prev_id().id, [255, 255, 255, 255, 255, 255, 255, 255]);
    assert_eq!(zero.prev_id().next_id().id, zero.id);
}

#[test]
fn test_ordering_matches_numeric_value() {
    let ts = Timestamp(5);
    let a = ByteCounter::new().with_timestamp(ts).next_at(ts);
    let b = a.next_at(ts).next_at(ts);
    assert!(a.lt(&b));
    assert!(!b.lt(&a));
    assert!(!a.lt(&a));
    assert!(a.to_u128() < b.to_u128());
}
