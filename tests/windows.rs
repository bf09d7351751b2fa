use iox_db::windows::PersistenceWindows;

#[test]
fn watermark_never_goes_down_across_persists() {
    let mut w = PersistenceWindows::new(10);
    w.add_range(0, 1, 100, 200, 0);
    w.add_range(1, 1, 50, 60, 20);
    w.add_range(2, 1, 300, 400, 40);
    let mut last = w.minimum_unpersisted_timestamp().unwrap();
    assert_eq!(last, 50);
    while let Some(h) = w.flush_handle(100, false) {
        assert!(w.flush(h));
        match w.minimum_unpersisted_timestamp() {
            Some(m) => {
                assert!(m >= last);
                last = m;
            }
            None => break,
        }
    }
    assert!(w.is_empty());
}

#[test]
fn flush_clears_up_to_timestamp() {
    let mut w = PersistenceWindows::new(10);
    w.add_range(0, 2, 10, 30, 0);
    w.add_range(1, 1, 5, 50, 5);
    let h = w.flush_handle(20, false).unwrap();
    assert_eq!(h.timestamp(), 50);
    assert!(w.flush(h));
    assert_eq!(w.minimum_unpersisted_timestamp(), None);
}

#[test]
fn flush_keeps_rows_after_timestamp() {
    let mut w = PersistenceWindows::new(10);
    w.add_range(0, 1, 10, 10, 0);
    w.add_range(1, 1, 20, 40, 10);
    let h = w.flush_handle(15, false).unwrap();
    assert_eq!(h.timestamp(), 10);
    assert!(w.flush(h));
    assert_eq!(w.minimum_unpersisted_timestamp(), Some(20));
}

#[test]
fn later_writes_below_timestamp_stay_unpersisted() {
    let mut w = PersistenceWindows::new(10);
    w.add_range(0, 1, 100, 100, 0);
    let h = w.flush_handle(10, false).unwrap();
    assert_eq!(h.timestamp(), 100);
    // a late row below the handle's timestamp arrives before the flush
    w.add_range(1, 1, 50, 50, 11);
    assert!(w.flush(h));
    assert_eq!(w.minimum_unpersisted_timestamp(), Some(50));
}

#[test]
fn nothing_closed_gives_no_handle() {
    let mut w = PersistenceWindows::new(10);
    assert!(w.flush_handle(0, true).is_none());
    w.add_range(0, 1, 1, 2, 0);
    assert!(w.flush_handle(5, false).is_none());
    assert!(w.flush_handle(5, true).is_some());
}

#[test]
fn stale_handle_changes_nothing() {
    let mut w = PersistenceWindows::new(0);
    w.add_range(0, 1, 1, 2, 0);
    let h1 = w.flush_handle(0, true).unwrap();
    let h2 = w.flush_handle(0, true).unwrap();
    assert!(w.flush(h1));
    assert!(w.is_empty());
    w.add_range(1, 1, 5, 6, 1);
    assert!(!w.flush(h2));
    assert_eq!(w.minimum_unpersisted_timestamp(), Some(5));
}
