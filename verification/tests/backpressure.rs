use bt_sniffer::backpressure::{Backpressure, Mode};

#[test]
fn recent_watermarks_and_storage_capacity_are_independent() {
    let mut b = Backpressure::new(Mode::Freshness, 10000, 4);
    assert!(!b.update(0, 9000, Some(0), false)); // an old backlog does not stop discovery
    assert!(b.update(5000, 9016, Some(16), false));
    assert!(!b.update(10000, 9004, Some(4), false));
    assert!(!b.update(35000, 9005, Some(5), false)); // interrupts the recovery
    b.update(40000, 9004, Some(4), false);
    assert!(!b.update(65000, 9004, Some(4), false));
    assert!(b.update(70000, 9004, Some(4), false));
    assert_eq!(b.resumes, 1);
    assert!(b.update(75000, 10000, Some(0), false));
    assert!(!b.update(80000, 8000, Some(0), false));
    assert!(b.update(85000, 7999, Some(0), false));
    b.update(90000, 0, Some(0), true);
    assert!(b.paused());
}

#[test]
fn small_capacity_and_capacity_mode() {
    for capacity in 1..=4usize {
        let mut b = Backpressure::new(Mode::Freshness, capacity, 4);
        assert!(b.update(0, capacity as i64, Some(capacity as i64), false));
        b.update(5000, 0, Some(0), false);
        assert!(b.update(35000, 0, Some(0), false));
    }
    let mut b = Backpressure::new(Mode::Capacity, 10000, 4);
    assert!(!b.update(0, 9999, Some(9999), false));
}

#[test]
fn a_pause_is_counted_once_however_often_it_is_reported() {
    let paused = || {
        let mut b = Backpressure::new(Mode::Capacity, 10, 4);
        assert!(b.update(1000, 10, None, false));
        b
    };
    let mut twice = paused();
    assert_eq!(twice.log(1400).paused_ms, 400);
    assert_eq!(twice.log(3000).paused_ms, 2000);
    assert_eq!(paused().log(3000).paused_ms, 2000);
    assert_eq!(twice.log(2500).paused_ms, 2000);
}
