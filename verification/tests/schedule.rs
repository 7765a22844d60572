use cosense_ocr::schedule::{Limiter, Progress};

#[test]
fn pool_admits_at_most_its_capacity() {
    // With a cap of 50, the first 50 starts are admitted and the 51st is
    // refused until a call returns its permit.
    let mut pool = Limiter::new(50);
    for _ in 0..50 {
        assert!(pool.try_start());
    }
    assert_eq!(pool.in_flight_count(), 50);
    assert!(!pool.try_start());
    assert_eq!(pool.in_flight_count(), 50);
    pool.finish();
    assert_eq!(pool.in_flight_count(), 49);
    assert!(pool.try_start());
    assert!(!pool.try_start());
}

#[test]
fn permit_returns_on_failure_paths_too() {
    // A permit is given back whether the call succeeded or failed, so the
    // pool never loses capacity.
    let mut pool = Limiter::new(2);
    assert!(pool.try_start());
    assert!(pool.try_start());
    pool.finish();
    pool.finish();
    assert_eq!(pool.in_flight_count(), 0);
    assert!(pool.try_start());
}

#[test]
fn zero_capacity_admits_nothing() {
    let mut pool = Limiter::new(0);
    assert!(!pool.try_start());
    assert_eq!(pool.in_flight_count(), 0);
}

#[test]
fn progress_counts_only_successes() {
    let mut progress = Progress::new(3);
    assert_eq!(progress.completed_count(), 0);
    progress.record_success();
    progress.record_success();
    assert_eq!(progress.completed_count(), 2);
}
