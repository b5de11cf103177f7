use streamkey::codec::DecodeError;
use streamkey::id::{BigID, IDENTIFIER_SIZE};

#[test]
fn id_test_stream_id() {
    {
        assert_eq!(IDENTIFIER_SIZE, 16);
    }

    {
        assert_eq!(
            BigID::default().id,
            [0, 0, 0, 0, 0, 0, 0, 0, 0, 0, 0, 0, 0, 0, 0, 0]
        );
    }

    {
        let mut bid = BigID::default();

        let next_bid = bid.next();
        assert_eq!(
            next_bid.id,
            [0, 0, 0, 0, 0, 0, 0, 0, 0, 0, 0, 0, 0, 0, 0, 1]
        );

        let next_next_bid = next_bid.next();

        assert_eq!(
            next_bid.id,
            [0, 0, 0, 0, 0, 0, 0, 0, 0, 0, 0, 0, 0, 0, 0, 1]
        );
        assert_eq!(
            next_next_bid.id,
            [0, 0, 0, 0, 0, 0, 0, 0, 0, 0, 0, 0, 0, 0, 0, 2]
        );

        for _ in 0..1e+6 as u64 {
            bid = bid.next();
        }

        assert_eq!(bid.id, [0, 0, 0, 0, 0, 0, 0, 0, 0, 0, 0, 0, 0, 15, 66, 64]);
    }

    {
        let mut bid = BigID::new(Some("stream".to_string()));
        for _ in 0..1e+6 as u64 {
            bid = bid.next();
        }

        assert_eq!(
            "stream:000000000000000000000000000000000000000015066064",
            bid.to_string()
        );

        let _bid: BigID =
            BigID::decode("stream:000000000000000000000000000000000000000015066064").unwrap();
        assert_eq!(bid.to_string(), _bid.to_string());
        assert_eq!(Some("stream".to_string()), bid.prefix);
    }
}

#[test]
fn id_test_distance() {
    {
        let default = BigID::default();
        let nextnext = default.next().next();

        assert_eq!(default.to_u128(), 0);
        assert_eq!(nextnext.to_u128(), 2);
        assert_eq!(default.distance(&nextnext), 2);
    }

    {
        let default = BigID::default();
        let mut default2 = BigID::default();

        default2 = default2.next();
        default2 = default2.next();
        default2 = default2.next();
        default2 = default2.next();

        assert_eq!(default2.distance(&default), 4);
        assert_eq!(default.distance(&default2), 4);
    }
}

#[test]
fn test_id_short_segment_left_pads() {
    let b = BigID::decode_bytes("1").unwrap();
    assert_eq!(b.to_u128(), 1);
    assert!(b.valid);
}

#[test]
fn test_id_bare_segment_decodes_without_prefix() {
    let b = BigID::decode("000000000000000000000000000000000000000000000003").unwrap();
    assert_eq!(b.prefix, None);
    assert_eq!(b.to_u128(), 3);
    assert!(b.valid);
}

#[test]
fn test_id_wrong_field_count_is_soft_invalid() {
    let b = BigID::decode("a:b:c").unwrap();
    assert!(!b.valid);
    assert_eq!(b.prefix, None);
    assert_eq!(b.to_u128(), 0);
}

#[test]
fn test_id_rejects_bad_group() {
    let r = BigID::decode("stream:0000000000000000000000000000000000000000000009x9");
    assert_eq!(r.unwrap_err(), DecodeError::InvalidGroup);
    let r = BigID::decode_bytes("777");
    assert_eq!(r.unwrap_err(), DecodeError::InvalidGroup);
}

#[test]
fn test_id_round_trip() {
    let mut b = BigID::new(Some("logs".to_string()));
    for _ in 0..300 {
        b = b.next();
    }
    let text = b.to_string();
    let d = BigID::decode(&text).unwrap();
    assert_eq!(d.id, b.id);
    assert_eq!(d.prefix, b.prefix);
    assert!(d.valid);
}

#[test]
fn test_id_from_bytes() {
    let b = BigID::from_bytes(b"stream:000000000000000000000000000000000000000015066064")
        .unwrap();
    assert_eq!(b.prefix, Some("stream".to_string()));
    assert_eq!(b.to_u128(), 1_000_000);
}

#[test]
fn test_id_wraps_at_maximum() {
    let mut b = BigID::decode_bytes(
        "255255255255255255255255255255255255255255255255",
    )
    .unwrap();
    assert_eq!(b.id, [255u8; 16]);
    b = b.next();
    assert_eq!(b.id, [0u8; 16]);
}
