use lib::time::Timeout;
use lib::time::Timestamp;

#[test]
fn ord() {
    let t = Timeout::inactive();
    let t0 = Timeout::active(Timestamp::from_secs_since_epoch(0));
    let t1 = Timeout::active(Timestamp::from_secs_since_epoch(1));
    let t2 = Timeout::active(Timestamp::from_secs_since_epoch(2));
    assert!(t0 < t);
    assert!(t0 < t1);
    assert!(t1 < t2);
    assert!(t2 < t);
}

#[test]
fn timestamp_units() {
    assert_eq!(Timestamp::from_secs_since_epoch(3).as_usecs_since_epoch(), 3_000_000);
    assert_eq!(Timestamp::from_usecs_since_epoch(17).as_usecs_since_epoch(), 17);
    assert_eq!(Timestamp::default(), Timestamp::sentinel());
    assert_eq!(Timestamp::sentinel().as_usecs_since_epoch(), u64::MAX);
    // Nanoseconds round up to whole microseconds.
    let t = Timestamp::from_usecs_since_epoch(10).add_duration(2, 1);
    assert_eq!(t.as_usecs_since_epoch(), 2_000_011);
    let t = Timestamp::from_usecs_since_epoch(10).add_duration(0, 2000);
    assert_eq!(t.as_usecs_since_epoch(), 12);
}

#[test]
fn timeout_state() {
    let inactive = Timeout::inactive();
    assert!(!inactive.is_active());
    assert_eq!(inactive.to_opt(), None);
    assert_eq!(Timeout::default(), inactive);
    let t = Timestamp::from_usecs_since_epoch(5_000);
    let active = Timeout::active(t);
    assert!(active.is_active());
    assert_eq!(active.to_opt(), Some(t));
    assert_eq!(active.time_from(Timestamp::from_usecs_since_epoch(1_000)), Some((0, 4_000)));
    assert_eq!(active.time_from(Timestamp::from_usecs_since_epoch(9_000)), Some((0, 0)));
    assert_eq!(inactive.time_from(t), None);
    let far = Timeout::active(Timestamp::from_usecs_since_epoch(3_000_000_005));
    assert_eq!(far.time_from(Timestamp::from_usecs_since_epoch(0)), Some((3, 5)));
}
