//! When a running scan publishes progress. Times are nanoseconds read from
//! one monotonic clock; clock reads themselves are amortized over entries.
use vstd::prelude::*;
use crate::types::ScanProgress;

verus! {

/// The least time between two progress reports, in nanoseconds.
pub const PROGRESS_INTERVAL_NANOS: u64 = 100000000;
/// The most entries between two clock reads.
pub const PROGRESS_CLOCK_CHECK_INTERVAL_ENTRIES: u8 = 32;

/// Nanoseconds from `earlier` to `later`, or zero when `later` is not later.
pub open spec fn elapsed_since(later: u64, earlier: u64) -> u64 {
    if later >= earlier {
        (later - earlier) as u64
    } else {
        0
    }
}

/// How many entries to let pass before the next clock read: enough to cover
/// the time remaining until the next report at the rate just sampled,
/// rounded up and kept between one and 32; 32 when the sample took no time.
pub open spec fn check_window(remaining: int, sampled_nanos: int, sampled_entries: int) -> u8 {
    if sampled_nanos == 0 {
        PROGRESS_CLOCK_CHECK_INTERVAL_ENTRIES
    } else {
        let estimate = (remaining * sampled_entries + sampled_nanos - 1) / sampled_nanos;
        if estimate < 1 {
            1
        } else if estimate > PROGRESS_CLOCK_CHECK_INTERVAL_ENTRIES {
            PROGRESS_CLOCK_CHECK_INTERVAL_ENTRIES
        } else {
            estimate as u8
        }
    }
}

/// Computes the next clock-read window from the time remaining until a
/// report and the time the last window of entries took.
pub fn progress_clock_check_window(remaining: u64, sampled_nanos: u64, sampled_entries: u8) -> (window:
    u8)
    ensures
        window == check_window(remaining as int, sampled_nanos as int, sampled_entries as int),
        1 <= window <= PROGRESS_CLOCK_CHECK_INTERVAL_ENTRIES,
{
    if sampled_nanos == 0 {
        return PROGRESS_CLOCK_CHECK_INTERVAL_ENTRIES;
    }
    let entries = sampled_entries as u128;
    let wide = remaining as u128;
    assert(wide * entries <= 18446744073709551615u128 * 255) by (nonlinear_arith)
        requires
            wide <= 18446744073709551615u128,
            entries <= 255,
    ;
    let numerator = wide * entries;
    let estimate = (numerator + (sampled_nanos as u128 - 1)) / (sampled_nanos as u128);
    if estimate < 1 {
        1
    } else if estimate > PROGRESS_CLOCK_CHECK_INTERVAL_ENTRIES as u128 {
        PROGRESS_CLOCK_CHECK_INTERVAL_ENTRIES
    } else {
        estimate as u8
    }
}

/// Decides, entry by entry, when a traversal reads the clock and when it
/// publishes progress.
#[derive(Clone, Copy, Debug)]
pub struct TraversalProgressClock {
    pub last_update_at: u64,
    pub last_check_at: u64,
    pub entries_in_check_window: u8,
    pub entries_until_check: u8,
}

impl TraversalProgressClock {
    /// A clock started at `now` that reads the clock after the first entry,
    /// so that a single slow entry still publishes promptly.
    pub fn new(now: u64) -> (clock: Self)
        ensures
            clock.last_update_at == now,
            clock.last_check_at == now,
            clock.entries_in_check_window == 1,
            clock.entries_until_check == 1,
    {
        TraversalProgressClock {
            last_update_at: now,
            last_check_at: now,
            entries_in_check_window: 1,
            entries_until_check: 1,
        }
    }

    /// Counts one entry; true when the clock should be read for it.
    pub fn should_check_clock(&mut self) -> (check: bool)
        requires
            old(self).entries_until_check > 0,
        ensures
            final(self).entries_until_check == old(self).entries_until_check - 1,
            check == (final(self).entries_until_check == 0),
            final(self).last_update_at == old(self).last_update_at,
            final(self).last_check_at == old(self).last_check_at,
            final(self).entries_in_check_window == old(self).entries_in_check_window,
    {
        self.entries_until_check = self.entries_until_check - 1;
        self.entries_until_check == 0
    }

    /// Records a clock read at `now`: true when a report is due, and the
    /// next window of entries sized to the rate just observed.
    pub fn update_due_at(&mut self, now: u64) -> (due: bool)
        ensures
            due == (elapsed_since(now, old(self).last_update_at) >= PROGRESS_INTERVAL_NANOS),
            final(self).last_check_at == now,
            final(self).last_update_at == old(self).last_update_at,
            final(self).entries_in_check_window == check_window(
                if due {
                    PROGRESS_INTERVAL_NANOS as int
                } else {
                    PROGRESS_INTERVAL_NANOS - elapsed_since(now, old(self).last_update_at)
                },
                elapsed_since(now, old(self).last_check_at) as int,
                old(self).entries_in_check_window as int,
            ),
            final(self).entries_until_check == final(self).entries_in_check_window,
            1 <= final(self).entries_until_check <= PROGRESS_CLOCK_CHECK_INTERVAL_ENTRIES,
    {
        let since_update = now.saturating_sub(self.last_update_at);
        let since_check = now.saturating_sub(self.last_check_at);
        let due = since_update >= PROGRESS_INTERVAL_NANOS;
        let remaining = if due {
            PROGRESS_INTERVAL_NANOS
        } else {
            PROGRESS_INTERVAL_NANOS - since_update
        };
        let window = progress_clock_check_window(remaining, since_check, self.entries_in_check_window);
        self.last_check_at = now;
        self.entries_in_check_window = window;
        self.entries_until_check = window;
        due
    }

    /// Records that progress was published at `now`.
    pub fn mark_updated(&mut self, now: u64)
        ensures
            final(self).last_update_at == now,
            final(self).last_check_at == old(self).last_check_at,
            final(self).entries_in_check_window == old(self).entries_in_check_window,
            final(self).entries_until_check == old(self).entries_until_check,
    {
        self.last_update_at = now;
    }
}

/// Whole milliseconds in a number of nanoseconds, saturating at `u64::MAX`.
pub fn duration_ms(nanos: u128) -> (ms: u64)
    ensures
        ms == (if nanos / 1000000 > u64::MAX {
            u64::MAX as int
        } else {
            (nanos / 1000000) as int
        }),
{
    let ms = nanos / 1000000;
    if ms > u64::MAX as u128 {
        u64::MAX
    } else {
        ms as u64
    }
}

/// Whole microseconds in a number of nanoseconds, saturating at `u64::MAX`.
pub fn duration_us(nanos: u128) -> (us: u64)
    ensures
        us == (if nanos / 1000 > u64::MAX {
            u64::MAX as int
        } else {
            (nanos / 1000) as int
        }),
{
    let us = nanos / 1000;
    if us > u64::MAX as u128 {
        u64::MAX
    } else {
        us as u64
    }
}

/// Whole microseconds from `earlier` to `later`, or zero when `later` is
/// not later.
pub fn saturating_duration_us(later: u64, earlier: u64) -> (us: u64)
    ensures
        us == elapsed_since(later, earlier) / 1000,
{
    later.saturating_sub(earlier) / 1000
}

/// A heartbeat while the finished tree is aggregated: once a report is due
/// since the last one, the report's elapsed time is refreshed from the scan's
/// start and true is returned so that the caller publishes it; an early
/// checkpoint changes nothing.
pub fn report_finishing_progress_if_due(
    progress: &mut ScanProgress,
    started_at: u64,
    last_progress_at: u64,
    now: u64,
) -> (due: bool)
    ensures
        due == (elapsed_since(now, last_progress_at) >= PROGRESS_INTERVAL_NANOS),
        due ==> final(progress).elapsed_ms == elapsed_since(now, started_at) / 1000000,
        !due ==> final(progress).elapsed_ms == old(progress).elapsed_ms,
        final(progress).phase == old(progress).phase,
        final(progress).entries_scanned == old(progress).entries_scanned,
        final(progress).files_scanned == old(progress).files_scanned,
        final(progress).directories_scanned == old(progress).directories_scanned,
        final(progress).logical_bytes == old(progress).logical_bytes,
        final(progress).allocated_bytes == old(progress).allocated_bytes,
        final(progress).skipped_entries == old(progress).skipped_entries,
        final(progress).current_path == old(progress).current_path,
        final(progress).largest_items == old(progress).largest_items,
{
    if now.saturating_sub(last_progress_at) < PROGRESS_INTERVAL_NANOS {
        return false;
    }
    progress.elapsed_ms = duration_ms(now.saturating_sub(started_at) as u128);
    true
}

} // verus!
