use idmanager::ReusePolicy::{ReuseFast, ReuseSlow};
use idmanager::{IdError, IdManager, Intervals};

#[test]
fn delayed_reuse_visits_a_bounded_range_in_order_then_wraps() {
    let mut manager = IdManager::<u8>::new_limited_range(ReuseSlow, 10, 50).unwrap();

    for i in 10..=50 {
        assert_eq!(manager.allocate(), Ok(i));
    }
    assert_eq!(manager.allocate(), Err(IdError::PoolExhausted));

    assert_eq!(manager.free(30), Ok(()));
    assert_eq!(manager.free(10), Ok(()));

    assert_eq!(manager.dump(), "[10], [30]");

    assert_eq!(manager.allocate(), Ok(10));
    assert_eq!(manager.allocate(), Ok(30));
    assert_eq!(manager.can_allocate(), false);
}

#[test]
fn delayed_reuse_cursor_wraps_past_the_top() {
    let mut manager = IdManager::<u8>::new_limited_range(ReuseSlow, 10, 12).unwrap();

    assert_eq!(manager.allocate(), Ok(10));
    assert_eq!(manager.allocate(), Ok(11));
    assert_eq!(manager.free(10), Ok(()));
    assert_eq!(manager.allocate(), Ok(12));
    assert_eq!(manager.free(11), Ok(()));
    assert_eq!(manager.allocate(), Ok(10));
    assert_eq!(manager.allocate(), Ok(11));
}

#[test]
fn marking_ranges_then_using_ids_in_a_limited_range() {
    let mut manager = IdManager::<u8>::new_limited_range(ReuseSlow, 10, 210).unwrap();

    assert_eq!(manager.mark_interval_as_used(201, 210), Ok(()));
    assert_eq!(manager.mark_value_as_used(11), Ok(()));

    assert_eq!(manager.dump(), "[10], [12,200]");

    assert_eq!(manager.allocate(), Ok(10));
    assert_eq!(manager.dump(), "[12,200]");

    assert_eq!(manager.allocate(), Ok(12));
    assert_eq!(manager.dump(), "[13,200]");

    assert_eq!(manager.allocate(), Ok(13));
    assert_eq!(manager.dump(), "[14,200]");

    assert_eq!(manager.free(13), Ok(()));
    assert_eq!(manager.dump(), "[13,200]");

    assert_eq!(manager.free(10), Ok(()));
    assert_eq!(manager.dump(), "[10], [13,200]");
}

#[test]
fn bulk_removals_that_meet_at_their_bounds() {
    let mut intervals = Intervals::<u8>::new();

    assert_eq!(intervals.insert_interval(0, 255), true);

    intervals.remove_interval(0, 1);
    intervals.remove_interval(4, 10);
    intervals.remove_interval(3, 12);

    assert_eq!(intervals.dump(), "[2], [13,255]");
}

#[test]
fn removing_an_interval_twice_changes_nothing_more() {
    let mut intervals = Intervals::<u8>::new();

    assert_eq!(intervals.insert_interval(0, 100), true);
    assert_eq!(intervals.insert_interval(120, 200), true);

    intervals.remove_interval(90, 130);
    let once = intervals.dump();
    intervals.remove_interval(90, 130);

    assert_eq!(once, "[0,89], [131,200]");
    assert_eq!(intervals.dump(), once);
}

#[test]
fn allocate_then_free_restores_the_free_ids() {
    for policy in [ReuseFast, ReuseSlow] {
        let mut manager = IdManager::<u8>::new(policy);

        assert_eq!(manager.mark_interval_as_used(5, 9), Ok(()));
        assert_eq!(manager.mark_value_as_used(0), Ok(()));
        let before = manager.dump();

        let id = manager.allocate().unwrap();
        assert_ne!(manager.dump(), before);

        assert_eq!(manager.free(id), Ok(()));
        assert_eq!(manager.dump(), before);
    }
}

#[test]
fn every_id_is_either_free_or_allocated() {
    // replays the same history for each id, then asks whether it was free
    let history = |manager: &mut IdManager<u8>| {
        for _ in 0..20 {
            manager.allocate().unwrap();
        }
        assert_eq!(manager.free(3), Ok(()));
        assert_eq!(manager.free(17), Ok(()));
        assert_eq!(manager.mark_interval_as_used(100, 110), Ok(()));
    };
    for v in 0..=255u8 {
        let mut manager = IdManager::<u8>::new(ReuseFast);
        history(&mut manager);
        let was_free = v == 3 || v == 17 || (v >= 20 && !(100..=110).contains(&v));
        match manager.free(v) {
            Ok(()) => assert!(!was_free),
            Err(e) => {
                assert_eq!(e, IdError::NotAllocated);
                assert!(was_free);
            }
        }
    }
}

#[test]
fn intervals_stay_disjoint_and_merged() {
    let mut intervals = Intervals::<u16>::new();

    assert_eq!(intervals.insert_interval(10, 20), true);
    assert_eq!(intervals.insert_interval(30, 40), true);
    assert_eq!(intervals.insert_value(25), true);
    assert_eq!(intervals.insert_interval(21, 24), true);
    assert_eq!(intervals.dump(), "[10,25], [30,40]");

    assert_eq!(intervals.insert_interval(26, 29), true);
    assert_eq!(intervals.dump(), "[10,40]");

    assert_eq!(intervals.remove_value(10), true);
    assert_eq!(intervals.remove_value(40), true);
    assert_eq!(intervals.remove_value(25), true);
    assert_eq!(intervals.remove_value(25), false);
    assert_eq!(intervals.dump(), "[11,24], [26,39]");

    assert_eq!(intervals.insert_value(25), true);
    assert_eq!(intervals.dump(), "[11,39]");
}

#[test]
fn allocating_from_an_empty_pool_is_refused() {
    let mut manager = IdManager::<u8>::new_limited_range(ReuseFast, 7, 7).unwrap();

    assert_eq!(manager.allocate(), Ok(7));
    assert_eq!(manager.can_allocate(), false);
    assert_eq!(manager.allocate(), Err(IdError::PoolExhausted));
    assert_eq!(manager.dump(), "");
}

#[test]
fn reversed_bounds_are_malformed() {
    assert!(matches!(
        IdManager::<u8>::new_limited_range(ReuseFast, 50, 10),
        Err(IdError::MalformedRange)
    ));

    let mut manager = IdManager::<u8>::new(ReuseFast);
    assert_eq!(manager.mark_interval_as_used(12, 11), Err(IdError::MalformedRange));
    assert_eq!(manager.dump(), "[0,255]");
}

#[test]
fn ids_outside_the_range_are_refused() {
    let mut manager = IdManager::<u8>::new_limited_range(ReuseFast, 10, 50).unwrap();

    assert_eq!(manager.mark_value_as_used(9), Err(IdError::OutOfRange));
    assert_eq!(manager.mark_value_as_used(51), Err(IdError::OutOfRange));
    assert_eq!(manager.mark_interval_as_used(5, 20), Err(IdError::OutOfRange));
    assert_eq!(manager.mark_interval_as_used(40, 60), Err(IdError::OutOfRange));
    assert_eq!(manager.free(60), Err(IdError::OutOfRange));
    assert_eq!(manager.free(0), Err(IdError::OutOfRange));
    assert_eq!(manager.dump(), "[10,50]");
}

#[test]
fn marking_used_ids_again_is_a_no_op() {
    let mut manager = IdManager::<u8>::new(ReuseFast);

    assert_eq!(manager.mark_value_as_used(4), Ok(()));
    assert_eq!(manager.mark_value_as_used(4), Ok(()));
    assert_eq!(manager.mark_interval_as_used(10, 20), Ok(()));
    assert_eq!(manager.mark_interval_as_used(12, 15), Ok(()));
    assert_eq!(manager.dump(), "[0,3], [5,9], [21,255]");
}

#[test]
fn the_largest_type_works_at_its_bounds() {
    let mut manager = IdManager::<u128>::new(ReuseFast);

    assert_eq!(manager.mark_interval_as_used(1, u128::MAX - 1), Ok(()));
    assert_eq!(manager.dump(), "[0], [340282366920938463463374607431768211455]");

    assert_eq!(manager.allocate(), Ok(0));
    assert_eq!(manager.allocate(), Ok(u128::MAX));
    assert_eq!(manager.allocate(), Err(IdError::PoolExhausted));

    assert_eq!(manager.free(u128::MAX), Ok(()));
    assert_eq!(manager.free(0), Ok(()));
    assert_eq!(manager.dump(), "[0], [340282366920938463463374607431768211455]");

    assert_eq!(manager.allocate(), Ok(0));
    assert_eq!(manager.allocate(), Ok(u128::MAX));
}

#[test]
fn removing_through_the_top_and_bottom_of_the_type() {
    let mut intervals = Intervals::<u8>::new();

    assert_eq!(intervals.insert_interval(0, 255), true);

    intervals.remove_interval(250, 255);
    intervals.remove_interval(0, 0);
    assert_eq!(intervals.dump(), "[1,249]");

    assert_eq!(intervals.remove_first_value(), Ok(1));
    let first = intervals.remove_first_interval().unwrap();
    assert_eq!((first.lower(), first.upper()), (2, 249));
    assert_eq!(intervals.is_empty(), true);
}
