use loaf::clock::{now_timespec, timespec_of};

#[test]
fn timespec_of_splits_seconds_and_nanoseconds() {
    assert_eq!(timespec_of(Some((5, 7))), (5, 7));
    assert_eq!(timespec_of(Some((1_700_000_000, 999_999_999))), (1_700_000_000, 999_999_999));
    assert_eq!(timespec_of(None), (0, 0));
}

#[test]
fn now_is_after_the_epoch_with_nanoseconds_below_a_second() {
    let (s, n) = now_timespec();
    assert!(s > 1_500_000_000);
    assert!((0..1_000_000_000).contains(&n));
}
