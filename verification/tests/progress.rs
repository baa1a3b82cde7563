use cepa::progress::{
    duration_ms, duration_us, report_finishing_progress_if_due, saturating_duration_us,
    TraversalProgressClock, PROGRESS_CLOCK_CHECK_INTERVAL_ENTRIES, PROGRESS_INTERVAL_NANOS,
};
use cepa::types::{ScanPhase, ScanProgress};

const MILLISECOND: u64 = 1_000_000;
const MICROSECOND: u64 = 1_000;

#[test]
fn traversal_progress_is_time_bounded() {
    let last_progress_at = 5 * PROGRESS_INTERVAL_NANOS;
    let mut clock = TraversalProgressClock::new(last_progress_at);
    assert!(!clock.update_due_at(last_progress_at + PROGRESS_INTERVAL_NANOS - MILLISECOND));
    assert!(clock.update_due_at(last_progress_at + PROGRESS_INTERVAL_NANOS));
}

#[test]
fn traversal_progress_amortizes_clock_checks() {
    let mut clock = TraversalProgressClock::new(5 * PROGRESS_INTERVAL_NANOS);
    assert!(clock.should_check_clock());
    assert!(!clock.update_due_at(clock.last_update_at + MILLISECOND));
    for _ in 1..PROGRESS_CLOCK_CHECK_INTERVAL_ENTRIES {
        assert!(!clock.should_check_clock());
    }
    assert!(clock.should_check_clock());
}

#[test]
fn traversal_progress_adapts_to_slow_entries() {
    let started_at = 5 * PROGRESS_INTERVAL_NANOS;
    let mut clock = TraversalProgressClock::new(started_at);
    assert!(clock.should_check_clock());
    assert!(!clock.update_due_at(started_at + 50 * MILLISECOND));
    assert_eq!(clock.entries_until_check, 1);
    assert!(clock.should_check_clock());
    let update_at = started_at + PROGRESS_INTERVAL_NANOS;
    assert!(clock.update_due_at(update_at));
    clock.mark_updated(update_at);
    assert_eq!(clock.entries_until_check, 2);
}

#[test]
fn traversal_progress_keeps_fast_clock_reads_and_updates_bounded() {
    let started_at = 5 * PROGRESS_INTERVAL_NANOS;
    let mut clock = TraversalProgressClock::new(started_at);
    let entries = 101_011_u32;
    let mut clock_checks = 0_u32;
    let mut updates = Vec::new();
    for entry in 1..=entries {
        if !clock.should_check_clock() {
            continue;
        }
        clock_checks += 1;
        let now = started_at + u64::from(entry) * MICROSECOND;
        if clock.update_due_at(now) {
            clock.mark_updated(now);
            updates.push(now);
        }
    }

    assert!(clock_checks <= entries.div_ceil(32) + 2);
    assert!(clock_checks * 30 < entries);
    assert_eq!(updates.len(), 1);
    assert!(updates[0] - started_at >= PROGRESS_INTERVAL_NANOS);
}

#[test]
fn finishing_progress_heartbeats_are_time_bounded_and_refresh_elapsed_time() {
    let mut progress = ScanProgress {
        phase: ScanPhase::Finishing,
        entries_scanned: 17,
        files_scanned: 11,
        directories_scanned: 6,
        logical_bytes: 23,
        allocated_bytes: 29,
        skipped_entries: 0,
        current_path: "/fixture".to_string(),
        elapsed_ms: 0,
        largest_items: Vec::new(),
    };
    let now = 10 * PROGRESS_INTERVAL_NANOS;
    let started_at = now - 250 * MILLISECOND;
    let mut last_progress_at = now;
    let mut updates: Vec<ScanProgress> = Vec::new();

    if report_finishing_progress_if_due(&mut progress, started_at, last_progress_at, now) {
        updates.push(progress.clone());
        last_progress_at = now;
    }
    assert!(updates.is_empty(), "an early checkpoint must not emit");

    last_progress_at = now - PROGRESS_INTERVAL_NANOS;
    if report_finishing_progress_if_due(&mut progress, started_at, last_progress_at, now) {
        updates.push(progress.clone());
        last_progress_at = now;
    }
    assert_eq!(updates.len(), 1);
    assert!(updates[0].elapsed_ms >= 250);
    assert_eq!(updates[0].phase, ScanPhase::Finishing);

    if report_finishing_progress_if_due(&mut progress, started_at, last_progress_at, now) {
        updates.push(progress.clone());
    }
    assert_eq!(updates.len(), 1, "back-to-back checkpoints must coalesce");
}

#[test]
fn durations_truncate_to_whole_units_and_saturate() {
    assert_eq!(duration_ms(1_999_999), 1);
    assert_eq!(duration_us(1_999), 1);
    assert_eq!(duration_ms(u128::MAX), u64::MAX);
    assert_eq!(saturating_duration_us(5_000, 9_000), 0);
    assert_eq!(saturating_duration_us(9_000, 5_000), 4);
}
