use catalog_harvest::limiter::{dispatch_page, ConcurrencyLimiter, FANOUT_WIDTH};

#[test]
fn width_is_fifty() {
    assert_eq!(FANOUT_WIDTH, 50);
}

#[test]
fn admission_stops_at_the_width() {
    let mut lim = ConcurrencyLimiter::new();
    for _ in 0..50 {
        assert!(lim.try_admit());
    }
    assert_eq!(lim.in_flight, 50);
    // the fifty-first is refused until a completion frees a slot
    assert!(!lim.try_admit());
    assert_eq!(lim.in_flight, 50);
    lim.complete();
    assert!(lim.try_admit());
    assert_eq!(lim.in_flight, 50);
}

#[test]
fn page_dispatch_peak_never_exceeds_the_width() {
    // a page larger than the width peaks exactly at the width
    assert_eq!(dispatch_page(60), 50);
    assert_eq!(dispatch_page(1000), 50);
    // a smaller page peaks at its own size
    assert_eq!(dispatch_page(10), 10);
    assert_eq!(dispatch_page(0), 0);
}
