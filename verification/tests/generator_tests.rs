use streamkey::counter::ByteCounter;
use streamkey::generator::Generator;
use streamkey::timestamp::Timestamp;

#[test]
fn test_generator() {
    let prefix: String = "a1b2c3d4e5f6g7h8".to_string();

    {
        let mut generator = Generator::new();
        let mut expected = ByteCounter::default();
        for _ in 0..1000 {
            let item = match generator.next() {
                Some(item) => item,
                None => break,
            };
            assert_eq!(item, expected);
            assert_eq!(item.prefix, None);
            expected = expected.next_id();
        }
    }

    {
        let mut generator = Generator::new();
        let mut expected = ByteCounter::max();
        for _ in 0..100 {
            let item = match generator.next_back() {
                Some(item) => item,
                None => break,
            };
            assert_eq!(item, expected);
            assert_eq!(item.prefix, None);
            expected = expected.prev_id();
        }
    }

    {
        let mut generator = Generator::new_with_prefix(prefix.clone());
        let mut expected = ByteCounter::new_with_prefix(prefix.clone());
        for _ in 0..100 {
            let item = match generator.next() {
                Some(item) => item,
                None => break,
            };
            assert_eq!(item, expected);
            assert_eq!(item.prefix, Some(prefix.clone()));
            expected = expected.next_id();
        }
    }

    {
        let mut generator = Generator::new_with_prefix(prefix.clone());
        let mut expected = ByteCounter::max_with_prefix(prefix.clone());
        for _ in 0..100 {
            let item = match generator.next_back() {
                Some(item) => item,
                None => break,
            };
            println!("{:?}", item.to_string());
            assert_eq!(item, expected);
            assert_eq!(item.prefix, Some(prefix.clone()));
            expected = expected.prev_id();
        }
    }
}

#[test]
fn test_generator_equal_bounds_is_empty() {
    let mut g = Generator::new();
    assert!(g.next().is_none());
    assert!(g.next_back().is_none());

    let base = ByteCounter::new_with_prefix("jobs".to_string()).with_timestamp(Timestamp(9));
    let mut g = Generator::new_with_bounds(base.clone(), base);
    assert!(g.next().is_none());
    assert!(g.next_back().is_none());
}

#[test]
fn test_generator_two_ended_full_range() {
    let ts = Timestamp(11);
    let zero = ByteCounter::new().with_timestamp(ts);
    let max = ByteCounter::max().with_timestamp(ts);
    let mut g = Generator::new_with_bounds(zero, max);

    let mut seen: Vec<u128> = Vec::new();
    for step in 0..10 {
        let item = if step % 2 == 0 {
            g.next_at(ts).unwrap()
        } else {
            g.next_back_at(ts).unwrap()
        };
        seen.push(item.to_u128());
    }
    // Front emits 0,1,2,3,4; back emits the values just below the exclusive
    // all-0xFF bound.
    let top = u64::MAX as u128;
    assert_eq!(
        seen,
        vec![0, top - 1, 1, top - 2, 2, top - 3, 3, top - 4, 4, top - 5]
    );
    for i in 0..seen.len() {
        for j in 0..i {
            assert_ne!(seen[i], seen[j]);
        }
    }
}

#[test]
fn test_generator_two_ended_stops_at_meeting_point() {
    let ts = Timestamp(4);
    let start = ByteCounter::new().with_timestamp(ts);
    let end = start.next_at(ts).next_at(ts).next_at(ts);
    let mut g = Generator::new_with_bounds(start, end);

    // The run covers [0, 3): alternating consumption emits 0, 2, 1 and then
    // both directions are exhausted.
    assert_eq!(g.next_at(ts).unwrap().to_u128(), 0);
    assert_eq!(g.next_back_at(ts).unwrap().to_u128(), 2);
    assert_eq!(g.next_at(ts).unwrap().to_u128(), 1);
    assert!(g.next_at(ts).is_none());
    assert!(g.next_back_at(ts).is_none());
}
