use rivalcfg_tray::cache::{is_fresh, BatteryTracker, IconCache, RetryState};

#[test]
fn cache_miss_then_record_then_hit() {
    let mut cache = IconCache::new();
    assert_eq!(cache.get("a.svg"), None);
    cache.record("a.svg", "/tmp/a.png".to_string(), 10);
    let (raster, mtime) = cache.get("a.svg").unwrap();
    assert_eq!(raster, "/tmp/a.png");
    assert_eq!(mtime, 10);
    assert!(is_fresh(mtime, 10, true));
    assert!(is_fresh(mtime, 9, true));
}

#[test]
fn cache_entry_with_deleted_raster_is_a_miss_and_reconverts() {
    let mut cache = IconCache::new();
    cache.record("a.svg", "/tmp/a.png".to_string(), 10);
    let (_, mtime) = cache.get("a.svg").unwrap();
    // the backing raster file is gone: the lookup is a miss
    assert!(!is_fresh(mtime, 10, false));
    // the fresh conversion that follows replaces the record
    cache.record("a.svg", "/tmp/a2.png".to_string(), 11);
    let (raster2, mtime2) = cache.get("a.svg").unwrap();
    assert_eq!(raster2, "/tmp/a2.png");
    assert_eq!(mtime2, 11);
    assert_eq!(cache.len(), 1);
}

#[test]
fn cache_modified_source_is_stale() {
    let mut cache = IconCache::new();
    cache.record("a.svg", "/tmp/a.png".to_string(), 10);
    let (_, mtime) = cache.get("a.svg").unwrap();
    assert!(!is_fresh(mtime, 11, true));
}

#[test]
fn cache_record_keeps_other_keys() {
    let mut cache = IconCache::new();
    cache.record("a.svg", "/tmp/a.png".to_string(), 1);
    cache.record("b.svg", "/tmp/b.png".to_string(), 2);
    cache.record("a.svg", "/tmp/a2.png".to_string(), 3);
    assert_eq!(cache.get("b.svg").unwrap(), ("/tmp/b.png".to_string(), 2));
    assert_eq!(cache.get("a.svg").unwrap(), ("/tmp/a2.png".to_string(), 3));
    assert_eq!(cache.len(), 2);
}

#[test]
fn sweep_flushes_everything_and_lists_existing_rasters() {
    let mut cache = IconCache::new();
    cache.record("a.svg", "/tmp/a.png".to_string(), 1);
    cache.record("b.svg", "/tmp/b.png".to_string(), 2);
    cache.record("c.svg", "/tmp/c.png".to_string(), 3);
    let rasters = cache.raster_paths();
    assert_eq!(
        rasters,
        vec![
            "/tmp/a.png".to_string(),
            "/tmp/b.png".to_string(),
            "/tmp/c.png".to_string()
        ]
    );
    // b's raster is already gone: it is only dropped, not deleted
    let to_delete = cache.sweep(&vec![true, false, true]);
    assert_eq!(
        to_delete,
        vec!["/tmp/a.png".to_string(), "/tmp/c.png".to_string()]
    );
    assert_eq!(cache.len(), 0);
    // the next access after a sweep is always a miss
    assert_eq!(cache.get("a.svg"), None);
    assert_eq!(cache.get("b.svg"), None);
    assert_eq!(cache.get("c.svg"), None);
}

#[test]
fn tracker_reports_change_only_when_the_state_differs() {
    let mut t = BatteryTracker::new();
    assert_eq!(t.current(), None);
    assert!(t.update(75, true));
    assert_eq!(t.current(), Some((75, true)));
    // the same state twice in a row: the second update is a no-op signal
    assert!(!t.update(75, true));
    assert!(t.update(75, false));
    assert!(t.update(74, false));
    assert_eq!(t.current(), Some((74, false)));
}

#[test]
fn retry_schedule_backs_off_exponentially_then_gives_up() {
    let mut r = RetryState::new();
    assert_eq!(r.attempts_made(), 0);
    assert_eq!(r.on_failure(), Some(200));
    assert_eq!(r.on_failure(), Some(400));
    assert_eq!(r.on_failure(), Some(800));
    assert_eq!(r.on_failure(), Some(1600));
    assert_eq!(r.on_failure(), None);
    assert_eq!(r.attempts_made(), 5);
}
