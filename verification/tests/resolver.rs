use cdc_core::resolver::Resolver;
use cdc_core::timestamp::TimeStamp;

#[test]
fn test_resolver_tracks_locks() {
    let mut resolver = Resolver::new(1);
    // Nothing resolves before initialization completes.
    assert!(resolver.resolve(TimeStamp::new(10)).is_none());
    resolver.init();
    assert!(resolver.is_initialized());

    resolver.track_lock(TimeStamp::new(5), b"a".to_vec());
    resolver.track_lock(TimeStamp::new(7), b"b".to_vec());
    // The smallest tracked start timestamp bounds the resolved one.
    assert_eq!(resolver.resolve(TimeStamp::new(10)), Some(TimeStamp::new(5)));

    // Untracking an absent lock changes nothing.
    resolver.untrack_lock(TimeStamp::new(9), None, b"zz".to_vec());
    assert_eq!(resolver.resolve(TimeStamp::new(10)), Some(TimeStamp::new(5)));

    resolver.untrack_lock(TimeStamp::new(5), Some(TimeStamp::new(6)), b"a".to_vec());
    assert_eq!(resolver.resolve(TimeStamp::new(10)), Some(TimeStamp::new(7)));

    resolver.untrack_lock(TimeStamp::new(7), Some(TimeStamp::new(8)), b"b".to_vec());
    assert_eq!(resolver.resolve(TimeStamp::new(10)), Some(TimeStamp::new(10)));

    // The stream never goes back, whatever minimum is supplied next.
    assert_eq!(resolver.resolve(TimeStamp::new(3)), Some(TimeStamp::new(10)));
}

#[test]
fn test_resolver_duplicate_keys() {
    // Two transactions may lock distinct keys at the same start
    // timestamp; untracking one leaves the other tracked.
    let mut resolver = Resolver::new(2);
    resolver.init();
    resolver.track_lock(TimeStamp::new(4), b"x".to_vec());
    resolver.track_lock(TimeStamp::new(4), b"y".to_vec());
    resolver.untrack_lock(TimeStamp::new(4), Some(TimeStamp::new(9)), b"x".to_vec());
    assert_eq!(resolver.resolve(TimeStamp::new(8)), Some(TimeStamp::new(4)));
}
