use accelara::progress::{ProgressCache, ProgressEvent, STALENESS_WINDOW_MILLIS};
use accelara::registry::ProcessRegistry;

fn ev(id: &str, progress: u64, downloaded: u64) -> ProgressEvent {
    ProgressEvent {
        id: id.to_string(),
        progress,
        downloaded,
        total: 1000000,
        speed: 5000,
    }
}

#[test]
fn at_most_one_handle_per_id() {
    // A second insert for the same id is refused and hands the handle
    // back; after a take, the id is free again.
    let mut reg: ProcessRegistry<u32> = ProcessRegistry::new();
    assert!(reg.insert("job-1".to_string(), 11).is_ok());
    assert_eq!(reg.insert("job-1".to_string(), 22), Err(22));
    assert_eq!(reg.len(), 1);
    assert!(reg.contains("job-1"));
    assert_eq!(reg.take("job-1"), Some(11));
    assert!(!reg.contains("job-1"));
    assert_eq!(reg.take("job-1"), None);
    assert!(reg.insert("job-1".to_string(), 33).is_ok());
}

#[test]
fn registry_drain_empties_everything() {
    let mut reg: ProcessRegistry<u32> = ProcessRegistry::new();
    reg.insert("a".to_string(), 1).unwrap();
    reg.insert("b".to_string(), 2).unwrap();
    let all = reg.drain();
    assert_eq!(all.len(), 2);
    assert_eq!(reg.len(), 0);
}

#[test]
fn spurious_zero_not_persisted() {
    // A zero-byte report against a record with progress is broadcast
    // but never persisted and never cached.
    let mut cache = ProgressCache::new();
    let persist_first = cache.observe(0, 0, &ev("job-1", 1000, 100000), 1000);
    assert!(persist_first);
    let persist_zero = cache.observe(1000, 100000, &ev("job-1", 0, 0), 2000);
    assert!(!persist_zero);
    let entry = cache.lookup("job-1").unwrap();
    assert_eq!(entry.downloaded, 100000);
}

#[test]
fn zero_bytes_on_empty_record_pass_the_guard() {
    // With nothing stored, a zero byte count is not spurious; it is
    // persisted when the movement is big enough.
    let mut cache = ProgressCache::new();
    let persist = cache.observe(0, 0, &ev("job-1", 200, 0), 1000);
    assert!(persist);
}

#[test]
fn small_change_waits_for_periodic_flush() {
    // The delta is measured against the row's last persisted values.
    let mut cache = ProgressCache::new();
    // 0.5% and 500 bytes past the stored values: below both thresholds.
    let persist = cache.observe(1000, 100000, &ev("job-1", 1050, 100500), 1100);
    assert!(!persist);
    // More than one percentage point past the stored value.
    let persist2 = cache.observe(1000, 100000, &ev("job-1", 1200, 100600), 1200);
    assert!(persist2);
    // More than a million bytes past the stored value.
    let persist3 = cache.observe(1200, 100600, &ev("job-1", 1201, 1200700), 1300);
    assert!(persist3);
    // Two small steps whose sum passes the threshold: the second one
    // is persisted, because the row is still at the old count.
    let a = cache.observe(0, 0, &ev("job-2", 100, 600000), 1400);
    assert!(!a);
    let b = cache.observe(0, 0, &ev("job-2", 200, 1200000), 1500);
    assert!(b);
}

#[test]
fn flush_keeps_fresh_evicts_stale() {
    let mut cache = ProgressCache::new();
    cache.observe(0, 0, &ev("fresh", 1000, 1000), 100000);
    cache.observe(0, 0, &ev("stale", 1000, 1000), 10);
    let saved = cache.flush_split(100500, STALENESS_WINDOW_MILLIS);
    assert_eq!(saved.len(), 1);
    assert_eq!(saved[0].0, "fresh");
    assert!(cache.lookup("fresh").is_some());
    assert!(cache.lookup("stale").is_none());
}

#[test]
fn remove_drops_only_that_entry() {
    let mut cache = ProgressCache::new();
    cache.observe(0, 0, &ev("a", 1000, 1000), 1000);
    cache.observe(0, 0, &ev("b", 1000, 1000), 1000);
    cache.remove("a");
    assert!(cache.lookup("a").is_none());
    assert!(cache.lookup("b").is_some());
}

#[test]
fn persisted_downloads_never_regress() {
    // A full sequence through the guard: the persisted byte count is
    // monotone even with an out-of-order zero in the stream.
    let mut cache = ProgressCache::new();
    let reports: [(u64, u64); 5] = [(1000, 100000), (2500, 250000), (0, 0), (4000, 400000), (
        9900,
        1000000,
    )];
    let mut stored_p: u64 = 0;
    let mut stored: u64 = 0;
    let mut last_stored: u64 = 0;
    for (k, (p, d)) in reports.iter().enumerate() {
        let persist = cache.observe(stored_p, stored, &ev("job-1", *p, *d), 1000 + k as u64);
        if persist {
            stored_p = *p;
            stored = *d;
        }
        assert!(stored >= last_stored, "persisted bytes regressed");
        last_stored = stored;
    }
    assert_eq!(stored, 1000000);
}
