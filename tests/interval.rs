use std::cmp::Ordering;

use idmanager::{IdError, Interval};

#[test]
fn test_create_for_all_supported_types() {
    {
        let _interval = Interval::<u8>::new(u8::MIN, u8::MAX).unwrap();
    }
    {
        let _interval = Interval::<u16>::new(u16::MIN, u16::MAX).unwrap();
    }
    {
        let _interval = Interval::<u32>::new(u32::MIN, u32::MAX).unwrap();
    }
    {
        let _interval = Interval::<u64>::new(u64::MIN, u64::MAX).unwrap();
    }
    {
        let _interval = Interval::<u128>::new(u128::MIN, u128::MAX).unwrap();
    }
    {
        let _interval = Interval::<usize>::new(usize::MIN, usize::MAX).unwrap();
    }
}

#[test]
fn create_upper_less_than_lower_is_malformed() {
    assert_eq!(Interval::<u8>::new(12, 11), Err(IdError::MalformedRange));
}

#[test]
fn test_lower() {
    let interval = Interval::<u8>::new(10, 11).unwrap();

    assert_eq!(interval.lower(), 10);
}

#[test]
fn test_upper() {
    let interval = Interval::<u8>::new(10, 11).unwrap();

    assert_eq!(interval.upper(), 11);
}

#[test]
fn test_equal() {
    let interval1 = Interval::<u8>::new(10, 12).unwrap();
    let interval2 = Interval::<u8>::new(10, 12).unwrap();
    let interval3 = Interval::<u8>::new(11, 11).unwrap();
    let interval4 = Interval::<u8>::new(10, 10).unwrap();
    let interval5 = Interval::<u8>::new(9, 15).unwrap();
    let interval6 = Interval::<u8>::new(11, 11).unwrap();

    assert_eq!(interval1.cmp(&interval2), Ordering::Equal);
    assert_eq!(interval2.cmp(&interval1), Ordering::Equal);
    assert_eq!(interval1.cmp(&interval3), Ordering::Less);
    assert_eq!(interval1.cmp(&interval4), Ordering::Greater);
    // intervals are ordered by lower bound first, then by upper bound
    assert_eq!(interval1.cmp(&interval5), Ordering::Greater);
    assert_eq!(interval1.cmp(&interval6), Ordering::Less);
}

#[test]
fn interval_test_dump() {
    {
        let interval = Interval::<u8>::new(10, 11).unwrap();

        assert_eq!(interval.dump(), "[10,11]");
    }
    {
        let interval = Interval::<u8>::new(22, 33).unwrap();

        assert_eq!(interval.dump(), "[22,33]");
    }
    {
        let interval = Interval::<u8>::new(10, 10).unwrap();

        assert_eq!(interval.dump(), "[10]");
    }
    {
        let interval = Interval::<u8>::new_single_value_interval(255);

        assert_eq!(interval.dump(), "[255]");
    }
}

#[test]
fn dump_of_the_widest_values() {
    let interval = Interval::<u128>::new(0, u128::MAX).unwrap();

    assert_eq!(interval.dump(), "[0,340282366920938463463374607431768211455]");

    let interval = Interval::<u64>::new_single_value_interval(1_000_000_007);

    assert_eq!(interval.dump(), "[1000000007]");
}

#[test]
fn test_contains_value() {
    let interval = Interval::<u8>::new(10, 12).unwrap();

    assert_eq!(interval.contains_value(9), false);
    assert_eq!(interval.contains_value(10), true);
    assert_eq!(interval.contains_value(11), true);
    assert_eq!(interval.contains_value(12), true);
    assert_eq!(interval.contains_value(13), false);
}

#[test]
fn test_contains() {
    let interval1 = Interval::<u8>::new(10, 13).unwrap();
    let interval2 = Interval::<u8>::new(11, 12).unwrap();

    assert_eq!(interval1.overlaps(&interval1), true);
    assert_eq!(interval1.overlaps(&interval2), true);
    assert_eq!(interval2.overlaps(&interval1), true);

    let interval3 = Interval::<u8>::new(11, 14).unwrap();

    assert_eq!(interval1.overlaps(&interval3), true);
    assert_eq!(interval2.overlaps(&interval3), true);
    assert_eq!(interval3.overlaps(&interval1), true);
}

#[test]
fn overlaps_is_false_for_touching_intervals() {
    let interval1 = Interval::<u8>::new(10, 13).unwrap();
    let interval2 = Interval::<u8>::new(14, 20).unwrap();

    assert_eq!(interval1.overlaps(&interval2), false);
    assert_eq!(interval2.overlaps(&interval1), false);
}

#[test]
fn test_extends_lower() {
    let interval1 = Interval::<u8>::new(10, 13).unwrap();
    let interval2 = Interval::<u8>::new(7, 8).unwrap();

    assert_eq!(interval1.extends_lower(&interval2), false);

    let interval3 = Interval::<u8>::new(7, 9).unwrap();

    assert_eq!(interval1.extends_lower(&interval3), true);
}

#[test]
fn test_extends_lower_new_interval_is_max() {
    let interval1 = Interval::<u8>::new(10, 13).unwrap();
    let new_interval = Interval::<u8>::new(14, u8::MAX).unwrap();

    assert_eq!(interval1.extends_lower(&new_interval), false);
}

#[test]
fn test_extends_lower_new_interval_is_min() {
    let interval1 = Interval::<u8>::new(10, 13).unwrap();
    let new_interval = Interval::<u8>::new(u8::MIN, 17).unwrap();

    assert_eq!(interval1.extends_lower(&new_interval), false);
}

#[test]
fn test_extends_upper() {
    let interval1 = Interval::<u8>::new(10, 13).unwrap();
    let interval2 = Interval::<u8>::new(15, 17).unwrap();

    assert_eq!(interval1.extends_upper(&interval2), false);

    let interval3 = Interval::<u8>::new(14, 17).unwrap();

    assert_eq!(interval1.extends_upper(&interval3), true);
}

#[test]
fn test_extends_upper_new_interval_is_max() {
    let interval1 = Interval::<u8>::new(10, 13).unwrap();
    let new_interval = Interval::<u8>::new(14, u8::MAX).unwrap();

    assert_eq!(interval1.extends_upper(&new_interval), true);
}

#[test]
fn test_extends_upper_new_interval_is_min() {
    let interval1 = Interval::<u8>::new(10, 13).unwrap();
    let new_interval = Interval::<u8>::new(u8::MIN, 17).unwrap();

    assert_eq!(interval1.extends_upper(&new_interval), false);
}
