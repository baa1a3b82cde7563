use cepa::compression::BTRFS_SUPER_MAGIC;
use cepa::estimator::{linux_sample_codec, AlgorithmFidelity, SampleCodec};
use cepa::compression::{inspect, CompressionState, CompressionStateKind, CompressionStateScope};
use cepa::estimator::{
    counted_sample_bytes, estimate_precheck, precheck_outcome, round_allocation, sample_ranges, zlib_sample_len,
    zstd_sample_len, EstimateStatus, ALLOCATION_GRANULARITY, MAX_SAMPLE_RANGES,
    SAMPLE_RANGE_BYTES,
};
use cepa::snapshot::CompressionTarget;
use cepa::types::EntryKind;
use std::sync::atomic::AtomicBool;

fn target(kind: EntryKind, logical_bytes: u64, allocated_bytes: u64) -> CompressionTarget {
    CompressionTarget {
        path: b"not-opened".to_vec(),
        kind,
        logical_bytes,
        allocated_bytes,
        allocated_size_is_estimate: false,
        scan_revision: None,
    }
}

#[test]
fn bounds_large_files_to_three_non_overlapping_ranges() {
    let size = 64 * 1024 * 1024;
    let ranges = sample_ranges(size);

    assert_eq!(ranges.len(), MAX_SAMPLE_RANGES);
    assert_eq!(ranges[0], (0, SAMPLE_RANGE_BYTES));
    assert!(ranges.windows(2).all(|pair| {
        pair[0].0 + pair[0].1 as u64 <= pair[1].0 && pair[1].0 % ALLOCATION_GRANULARITY == 0
    }));
    assert!(ranges.last().expect("tail range").0 + SAMPLE_RANGE_BYTES as u64 <= size);
}

#[test]
fn fully_samples_small_files_without_overlapping_ranges() {
    let size = SAMPLE_RANGE_BYTES as u64 + 17;
    let ranges = sample_ranges(size);

    assert_eq!(
        ranges,
        vec![(0, SAMPLE_RANGE_BYTES), (SAMPLE_RANGE_BYTES as u64, 17)]
    );
    assert_eq!(
        ranges.iter().map(|(_, length)| *length as u64).sum::<u64>(),
        size
    );
}

#[test]
fn empty_files_have_no_sample_ranges() {
    assert!(sample_ranges(0).is_empty());
    assert_eq!(sample_ranges(1), vec![(0, 1)]);
}

#[test]
fn three_full_ranges_still_sample_the_whole_file() {
    let size = (3 * SAMPLE_RANGE_BYTES) as u64;
    assert_eq!(
        sample_ranges(size),
        vec![
            (0, SAMPLE_RANGE_BYTES),
            (SAMPLE_RANGE_BYTES as u64, SAMPLE_RANGE_BYTES),
            (2 * SAMPLE_RANGE_BYTES as u64, SAMPLE_RANGE_BYTES),
        ]
    );
}

#[test]
fn one_byte_past_three_ranges_switches_to_spread_samples() {
    let size = (3 * SAMPLE_RANGE_BYTES) as u64 + 1;
    let ranges = sample_ranges(size);
    let middle = ((size - SAMPLE_RANGE_BYTES as u64) / 2 / 4096) * 4096;
    let tail = ((size - SAMPLE_RANGE_BYTES as u64) / 4096) * 4096;
    assert_eq!(
        ranges,
        vec![
            (0, SAMPLE_RANGE_BYTES),
            (middle, SAMPLE_RANGE_BYTES),
            (tail, SAMPLE_RANGE_BYTES)
        ]
    );
}

#[test]
fn allocation_rounds_up_to_whole_units() {
    assert_eq!(round_allocation(0), 0);
    assert_eq!(round_allocation(1), 4096);
    assert_eq!(round_allocation(4096), 4096);
    assert_eq!(round_allocation(4097), 8192);
    assert_eq!(round_allocation(u64::MAX), (u64::MAX / 4096) * 4096);
}

#[test]
fn cancellation_returns_without_opening_the_file() {
    let cancel = AtomicBool::new(true);
    let estimate = estimate_precheck(&target(EntryKind::File, 1, 1), &cancel)
        .expect("a raised flag stops the estimate");

    assert_eq!(estimate.status, EstimateStatus::Cancelled);
    assert_eq!(estimate.sampled_bytes, 0);
}

#[test]
fn rejects_empty_or_deduplicated_entries_without_io() {
    let cancel = AtomicBool::new(false);
    let estimate = estimate_precheck(&target(EntryKind::File, 0, 0), &cancel)
        .expect("empty entries are no candidates");

    assert_eq!(estimate.status, EstimateStatus::NotCandidate);
}

#[test]
fn only_regular_files_are_candidates() {
    let cancel = AtomicBool::new(false);
    let estimate = estimate_precheck(&target(EntryKind::Directory, 10, 10), &cancel)
        .expect("folders are no candidates");
    assert_eq!(estimate.status, EstimateStatus::NotCandidate);
    assert_eq!(
        estimate.detail,
        "Only regular files can be sampled for compression savings."
    );
    assert!(estimate_precheck(&target(EntryKind::File, 10, 10), &cancel).is_none());
}

#[test]
fn compressible_samples_shrink_and_count_no_more_than_their_input() {
    let input = vec![7_u8; 300_000];
    let zstd = zstd_sample_len(&input).expect("compress with zstd");
    assert!(zstd < input.len());
    let zlib = zlib_sample_len(&input);
    assert!(zlib < input.len());
    assert_eq!(counted_sample_bytes(input.len() + 5, input.len()), input.len() as u64);
    assert_eq!(counted_sample_bytes(3, input.len()), 3);
}

#[test]
fn non_files_are_rejected_before_platform_inspection() {
    let state = inspect(EntryKind::Symlink, || -> CompressionState {
        panic!("a link must never reach platform inspection")
    });

    assert_eq!(state.state, CompressionStateKind::NotApplicable);
    assert_eq!(state.scope, CompressionStateScope::NoScope);
}

#[test]
fn sampling_codecs_describe_themselves_and_only_btrfs_samples_on_linux() {
    let codec = linux_sample_codec(BTRFS_SUPER_MAGIC).expect("Btrfs samples with zstd");
    assert_eq!(codec, SampleCodec::Zstd);
    assert_eq!(codec.algorithm(), "zstd");
    assert_eq!(codec.fidelity(), AlgorithmFidelity::Exact);
    assert_eq!(
        linux_sample_codec(0xef53),
        Err("Savings estimation is currently implemented only for Btrfs on Linux.".to_string())
    );
    assert_eq!(SampleCodec::ZlibProxy.algorithm(), "zlib-proxy");
    assert_eq!(SampleCodec::ZlibProxy.fidelity(), AlgorithmFidelity::Proxy);
    assert_eq!(SampleCodec::Lznt1.fidelity(), AlgorithmFidelity::Exact);

    let input = vec![7_u8; 64 * 1024];
    for codec in [SampleCodec::Zstd, SampleCodec::ZlibProxy, SampleCodec::Lznt1] {
        let compressed = codec.sample_len(&input).expect("compress a sample");
        assert!(compressed > 0 && compressed < input.len());
    }
}

#[test]
fn a_candidate_is_cancelled_exactly_when_the_flag_was_raised() {
    let cancelled = precheck_outcome(&target(EntryKind::File, 10, 4096), true)
        .expect("a raised flag stops the estimate");
    assert_eq!(cancelled.status, EstimateStatus::Cancelled);
    assert_eq!(cancelled.detail, "Savings estimation was cancelled before it completed.");
    assert!(precheck_outcome(&target(EntryKind::File, 10, 4096), false).is_none());
    let directory = precheck_outcome(&target(EntryKind::Directory, 10, 4096), true)
        .expect("a folder is never sampled");
    assert_eq!(directory.status, EstimateStatus::NotCandidate);
}
