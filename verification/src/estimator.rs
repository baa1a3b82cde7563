//! Bounded compressibility sampling: which byte ranges of a file are read,
//! how their compressed size is measured with the platform's codec, and the
//! estimates that end before any sampling.
use vstd::prelude::*;
use crate::compression::{BTRFS_SUPER_MAGIC, CompressionState, CompressionStateKind};
use crate::snapshot::CompressionTarget;
use crate::arena::sat_add;
use crate::types::EntryKind;
use std::sync::atomic::AtomicBool;

verus! {

/// The length of one sampled range.
pub const SAMPLE_RANGE_BYTES: usize = 262144;
/// The most ranges sampled from one file.
pub const MAX_SAMPLE_RANGES: usize = 3;
/// The largest single read while sampling.
pub const READ_CHUNK_BYTES: usize = 65536;
/// The unit in which compressed sizes are allocated.
pub const ALLOCATION_GRANULARITY: u64 = 4096;
/// The version of the estimation method.
pub const ESTIMATOR_VERSION: u32 = 1;
/// The chunk length that Btrfs compresses independently.
pub const ZSTD_CHUNK_BYTES: usize = 131072;

/// How an estimate ended.
#[derive(Clone, Copy, Debug, PartialEq, Eq, Structural)]
pub enum EstimateStatus {
    Estimated,
    NotCandidate,
    Unsupported,
    Unavailable,
    Cancelled,
}

/// How much an estimate can be trusted.
#[derive(Clone, Copy, Debug, PartialEq, Eq, Structural)]
pub enum EstimateConfidence {
    High,
    Medium,
    Low,
    Unrated,
}

/// Whether the sampling codec is the one the filesystem uses.
#[derive(Clone, Copy, Debug, PartialEq, Eq, Structural)]
pub enum AlgorithmFidelity {
    Exact,
    Proxy,
    Unmatched,
}

/// An estimate of the allocated bytes that compression would save.
#[derive(Clone, Debug)]
pub struct SavingsEstimate {
    pub status: EstimateStatus,
    pub algorithm: Option<String>,
    pub fidelity: AlgorithmFidelity,
    pub confidence: EstimateConfidence,
    pub sampled_bytes: u64,
    pub logical_bytes: u64,
    pub allocated_bytes: u64,
    pub estimated_savings_lower: Option<u64>,
    pub estimated_savings_upper: Option<u64>,
    pub estimator_version: u32,
    pub detail: String,
}

/// An estimate that ended before sampling, with its reason.
pub open spec fn is_terminal(
    estimate: SavingsEstimate,
    status: EstimateStatus,
    target: CompressionTarget,
    detail: Seq<char>,
) -> bool {
    &&& estimate.status == status
    &&& estimate.algorithm is None
    &&& estimate.fidelity == AlgorithmFidelity::Unmatched
    &&& estimate.confidence == EstimateConfidence::Unrated
    &&& estimate.sampled_bytes == 0
    &&& estimate.logical_bytes == target.logical_bytes
    &&& estimate.allocated_bytes == target.allocated_bytes
    &&& estimate.estimated_savings_lower is None
    &&& estimate.estimated_savings_upper is None
    &&& estimate.estimator_version == ESTIMATOR_VERSION
    &&& estimate.detail@ == detail
}

impl SavingsEstimate {
    /// An estimate that ends before sampling.
    pub fn terminal(status: EstimateStatus, target: &CompressionTarget, detail: String) -> (estimate:
        Self)
        ensures
            is_terminal(estimate, status, *target, detail@),
    {
        SavingsEstimate {
            status,
            algorithm: None,
            fidelity: AlgorithmFidelity::Unmatched,
            confidence: EstimateConfidence::Unrated,
            sampled_bytes: 0,
            logical_bytes: target.logical_bytes,
            allocated_bytes: target.allocated_bytes,
            estimated_savings_lower: None,
            estimated_savings_upper: None,
            estimator_version: ESTIMATOR_VERSION,
            detail,
        }
    }

    /// An estimate stopped by cancellation.
    pub fn cancelled(target: &CompressionTarget) -> (estimate: Self)
        ensures
            is_terminal(
                estimate,
                EstimateStatus::Cancelled,
                *target,
                "Savings estimation was cancelled before it completed."@,
            ),
    {
        Self::terminal(
            EstimateStatus::Cancelled,
            target,
            "Savings estimation was cancelled before it completed.".to_string(),
        )
    }
}

/// A byte count rounded up to whole allocation units, saturating.
pub open spec fn spec_round_allocation(bytes: u64) -> int {
    (sat_add(bytes as int, ALLOCATION_GRANULARITY - 1) as int / ALLOCATION_GRANULARITY as int)
        * ALLOCATION_GRANULARITY
}

/// Rounds a byte count up to whole allocation units.
pub fn round_allocation(bytes: u64) -> (rounded: u64)
    ensures
        rounded == spec_round_allocation(bytes),
{
    let units = bytes.saturating_add(ALLOCATION_GRANULARITY - 1) / ALLOCATION_GRANULARITY;
    assert(units * 4096 <= u64::MAX) by (nonlinear_arith)
        requires
            units == bytes.saturating_add(4095) / 4096,
            bytes.saturating_add(4095) <= u64::MAX,
    ;
    units * ALLOCATION_GRANULARITY
}

/// The ranges sampled from a file: the whole file in consecutive ranges of
/// at most 256 KiB when it fits in three of them; otherwise one range at the
/// start, one in the middle and one at the end, the later two aligned down
/// to the allocation unit.
pub open spec fn spec_sample_ranges(logical_bytes: u64) -> Seq<(u64, usize)>
    decreases logical_bytes,
{
    let sample = SAMPLE_RANGE_BYTES as int;
    if logical_bytes as int <= sample * MAX_SAMPLE_RANGES as int {
        whole_file_ranges(logical_bytes as int, logical_bytes as int)
    } else {
        let middle = ((logical_bytes - sample) / 2 / ALLOCATION_GRANULARITY as int)
            * ALLOCATION_GRANULARITY as int;
        let tail = ((logical_bytes - sample) / ALLOCATION_GRANULARITY as int)
            * ALLOCATION_GRANULARITY as int;
        seq![
            (0u64, SAMPLE_RANGE_BYTES),
            (middle as u64, SAMPLE_RANGE_BYTES),
            (tail as u64, SAMPLE_RANGE_BYTES),
        ]
    }
}

/// Consecutive ranges of at most 256 KiB covering the first `covered` bytes.
pub open spec fn whole_file_ranges(total: int, covered: int) -> Seq<(u64, usize)>
    decreases covered,
{
    if covered <= 0 {
        Seq::empty()
    } else {
        let last_start = ((covered - 1) / SAMPLE_RANGE_BYTES as int) * SAMPLE_RANGE_BYTES as int;
        whole_file_ranges(total, last_start).push(
            (last_start as u64, (covered - last_start) as usize),
        )
    }
}

proof fn lemma_whole_file_ranges_step(total: int, start: int)
    requires
        0 <= start,
        start % (SAMPLE_RANGE_BYTES as int) == 0,
        start < total,
    ensures
        ({
            let length = if total - start < SAMPLE_RANGE_BYTES {
                total - start
            } else {
                SAMPLE_RANGE_BYTES as int
            };
            whole_file_ranges(total, start + length) == whole_file_ranges(total, start).push(
                (start as u64, length as usize),
            )
        }),
{
    let length = if total - start < SAMPLE_RANGE_BYTES {
        total - start
    } else {
        SAMPLE_RANGE_BYTES as int
    };
    let covered = start + length;
    assert((covered - 1) / (SAMPLE_RANGE_BYTES as int) * (SAMPLE_RANGE_BYTES as int) == start) by (nonlinear_arith)
        requires
            start % 262144 == 0,
            0 <= start,
            1 <= length <= 262144,
            covered == start + length,
    ;
}

/// Chooses the byte ranges to sample from a file.
pub fn sample_ranges(logical_bytes: u64) -> (ranges: Vec<(u64, usize)>)
    ensures
        ranges@ == spec_sample_ranges(logical_bytes),
{
    let maximum: u64 = (SAMPLE_RANGE_BYTES * MAX_SAMPLE_RANGES) as u64;
    if logical_bytes <= maximum {
        let mut ranges: Vec<(u64, usize)> = Vec::new();
        let mut offset: u64 = 0;
        while offset < logical_bytes
            invariant
                0 <= offset <= logical_bytes <= maximum,
                maximum == 786432,
                (offset as int) % (SAMPLE_RANGE_BYTES as int) == 0 || offset == logical_bytes,
                ranges@ == whole_file_ranges(logical_bytes as int, offset as int),
            decreases logical_bytes - offset,
        {
            let length: usize = if logical_bytes - offset < SAMPLE_RANGE_BYTES as u64 {
                (logical_bytes - offset) as usize
            } else {
                SAMPLE_RANGE_BYTES
            };
            proof {
                lemma_whole_file_ranges_step(logical_bytes as int, offset as int);
            }
            ranges.push((offset, length));
            offset = offset + length as u64;
            proof {
                if length < SAMPLE_RANGE_BYTES {
                    assert(offset == logical_bytes);
                } else {
                    assert((offset as int) % (SAMPLE_RANGE_BYTES as int) == 0) by (nonlinear_arith)
                        requires
                            offset == (offset - 262144) + 262144,
                            (offset - 262144) % 262144 == 0 || offset - 262144 == logical_bytes,
                            offset - 262144 < logical_bytes,
                    ;
                }
            }
        }
        return ranges;
    }
    let sample = SAMPLE_RANGE_BYTES as u64;
    let middle = ((logical_bytes - sample) / 2 / ALLOCATION_GRANULARITY) * ALLOCATION_GRANULARITY;
    let tail = ((logical_bytes - sample) / ALLOCATION_GRANULARITY) * ALLOCATION_GRANULARITY;
    let mut ranges: Vec<(u64, usize)> = Vec::new();
    ranges.push((0, SAMPLE_RANGE_BYTES));
    ranges.push((middle, SAMPLE_RANGE_BYTES));
    ranges.push((tail, SAMPLE_RANGE_BYTES));
    proof {
        assert(ranges@ =~= spec_sample_ranges(logical_bytes));
    }
    ranges
}

/// Sampled ranges never overlap, stay inside the file, and cover a small
/// file completely.
pub proof fn lemma_sample_ranges_are_bounded(logical_bytes: u64)
    ensures
        ({
            let ranges = spec_sample_ranges(logical_bytes);
            &&& ranges.len() <= MAX_SAMPLE_RANGES
            &&& forall|i: int|
                0 <= i < ranges.len() ==> ranges[i].0 + ranges[i].1 <= logical_bytes
            &&& forall|i: int|
                0 <= i < ranges.len() - 1 ==> ranges[i].0 + ranges[i].1 <= ranges[i + 1].0
        }),
{
    let sample = SAMPLE_RANGE_BYTES as int;
    if logical_bytes as int <= sample * 3 {
        lemma_whole_file_ranges_facts(logical_bytes as int, logical_bytes as int);
    } else {
        let l = logical_bytes as int;
        let middle = ((l - sample) / 2 / 4096) * 4096;
        let tail = ((l - sample) / 4096) * 4096;
        assert(sample <= middle && middle + sample <= tail && tail + sample <= l) by (nonlinear_arith)
            requires
                l > 786432,
                sample == 262144,
                middle == ((l - sample) / 2 / 4096) * 4096,
                tail == ((l - sample) / 4096) * 4096,
        ;
    }
}

proof fn lemma_whole_file_ranges_facts(total: int, covered: int)
    requires
        0 <= covered <= total <= 786432,
    ensures
        ({
            let ranges = whole_file_ranges(total, covered);
            &&& ranges.len() == (covered + SAMPLE_RANGE_BYTES - 1) / SAMPLE_RANGE_BYTES as int
            &&& forall|i: int| 0 <= i < ranges.len() ==> ranges[i].0 + ranges[i].1 <= covered
            &&& forall|i: int|
                0 <= i < ranges.len() - 1 ==> ranges[i].0 + ranges[i].1 <= ranges[i + 1].0
            &&& ranges.len() > 0 ==> ranges.last().0 + ranges.last().1 == covered
            &&& forall|i: int| 0 <= i < ranges.len() ==> ranges[i].0 == i * SAMPLE_RANGE_BYTES as int
        }),
    decreases covered,
{
    if covered > 0 {
        let last_start = ((covered - 1) / SAMPLE_RANGE_BYTES as int) * SAMPLE_RANGE_BYTES as int;
        assert(0 <= last_start < covered && covered - last_start <= 262144 && (last_start
            + 262144 - 1) / 262144 == last_start / 262144 && last_start % 262144 == 0 && (covered
            + 262144 - 1) / 262144 == last_start / 262144 + 1) by (nonlinear_arith)
            requires
                covered > 0,
                last_start == ((covered - 1) / 262144) * 262144,
        ;
        lemma_whole_file_ranges_facts(total, last_start);
        assert(last_start / 262144 * 262144 == last_start) by (nonlinear_arith)
            requires
                last_start % 262144 == 0,
        ;
    }
}

/// Whether an entry can be sampled at all: a regular file with logical and
/// allocated bytes of its own.
pub open spec fn is_sampling_candidate(target: CompressionTarget) -> bool {
    target.kind == EntryKind::File && target.logical_bytes != 0 && target.allocated_bytes != 0
}

/// The checks an estimate makes before touching the file, given whether the
/// cancellation flag was found raised: only regular files with logical and
/// allocated bytes of their own are candidates; a candidate is cancelled
/// exactly when the flag was raised, and otherwise goes on (`None`).
pub fn precheck_outcome(target: &CompressionTarget, cancelled: bool) -> (early: Option<
    SavingsEstimate,
>)
    ensures
        target.kind != EntryKind::File ==> (early matches Some(e) && is_terminal(
            e,
            EstimateStatus::NotCandidate,
            *target,
            "Only regular files can be sampled for compression savings."@,
        )),
        target.kind == EntryKind::File && (target.logical_bytes == 0 || target.allocated_bytes
            == 0) ==> (early matches Some(e) && is_terminal(
            e,
            EstimateStatus::NotCandidate,
            *target,
            "This entry has no independently accounted allocated data to estimate."@,
        )),
        is_sampling_candidate(*target) ==> (early is Some <==> cancelled),
        is_sampling_candidate(*target) ==> (early matches Some(e) ==> is_terminal(
            e,
            EstimateStatus::Cancelled,
            *target,
            "Savings estimation was cancelled before it completed."@,
        )),
{
    if target.kind != EntryKind::File {
        return Some(
            SavingsEstimate::terminal(
                EstimateStatus::NotCandidate,
                target,
                "Only regular files can be sampled for compression savings.".to_string(),
            ),
        );
    }
    if target.logical_bytes == 0 || target.allocated_bytes == 0 {
        return Some(
            SavingsEstimate::terminal(
                EstimateStatus::NotCandidate,
                target,
                "This entry has no independently accounted allocated data to estimate.".to_string(),
            ),
        );
    }
    if cancelled {
        return Some(SavingsEstimate::cancelled(target));
    }
    None
}

/// The checks an estimate makes before touching the file: only regular
/// files with logical and allocated bytes of their own are candidates, and
/// for a candidate the cancellation flag is read, a raised flag stopping it.
pub fn estimate_precheck(target: &CompressionTarget, cancel: &AtomicBool) -> (early: Option<
    SavingsEstimate,
>)
    ensures
        target.kind != EntryKind::File ==> (early matches Some(e) && is_terminal(
            e,
            EstimateStatus::NotCandidate,
            *target,
            "Only regular files can be sampled for compression savings."@,
        )),
        target.kind == EntryKind::File && (target.logical_bytes == 0 || target.allocated_bytes
            == 0) ==> (early matches Some(e) && is_terminal(
            e,
            EstimateStatus::NotCandidate,
            *target,
            "This entry has no independently accounted allocated data to estimate."@,
        )),
        is_sampling_candidate(*target) ==> (early matches Some(e) ==> is_terminal(
            e,
            EstimateStatus::Cancelled,
            *target,
            "Savings estimation was cancelled before it completed."@,
        )),
{
    let cancelled = target.kind == EntryKind::File && target.logical_bytes != 0
        && target.allocated_bytes != 0 && crate::cancel::cancel_requested(cancel);
    precheck_outcome(target, cancelled)
}

/// The check of the file's current compression state before sampling: an
/// already compressed file is no candidate, and a state that does not apply
/// or cannot be read makes the estimate unavailable with its reason.
pub fn state_precheck(target: &CompressionTarget, state: &CompressionState) -> (early: Option<
    SavingsEstimate,
>)
    ensures
        state.state == CompressionStateKind::Compressed ==> (early matches Some(e) && is_terminal(
            e,
            EstimateStatus::NotCandidate,
            *target,
            "The filesystem already reports this file as compressed."@,
        )),
        (state.state == CompressionStateKind::NotApplicable || state.state
            == CompressionStateKind::Unavailable) ==> (early matches Some(e) && is_terminal(
            e,
            EstimateStatus::Unavailable,
            *target,
            state.detail@,
        )),
        !(state.state == CompressionStateKind::Compressed || state.state
            == CompressionStateKind::NotApplicable || state.state
            == CompressionStateKind::Unavailable) ==> early is None,
{
    match state.state {
        CompressionStateKind::Compressed => Some(
            SavingsEstimate::terminal(
                EstimateStatus::NotCandidate,
                target,
                "The filesystem already reports this file as compressed.".to_string(),
            ),
        ),
        CompressionStateKind::NotApplicable | CompressionStateKind::Unavailable => Some(
            SavingsEstimate::terminal(EstimateStatus::Unavailable, target, state.detail.clone()),
        ),
        _ => None,
    }
}

/// The check of the opened file against the scan: it must still be a
/// regular file of the scanned size and, where the platform reports it, of
/// the scanned allocation.
pub fn revision_precheck(
    target: &CompressionTarget,
    is_file: bool,
    length: u64,
    allocated_bytes: Option<u64>,
) -> (early: Option<SavingsEstimate>)
    ensures
        !is_file ==> (early matches Some(e) && is_terminal(
            e,
            EstimateStatus::Unavailable,
            *target,
            "The scanned item is no longer a regular file."@,
        )),
        is_file && length != target.logical_bytes ==> (early matches Some(e) && is_terminal(
            e,
            EstimateStatus::Unavailable,
            *target,
            "The file size changed after the scan; rescan before estimating savings."@,
        )),
        is_file && length == target.logical_bytes && (allocated_bytes matches Some(a) && a
            != target.allocated_bytes) ==> (early matches Some(e) && is_terminal(
            e,
            EstimateStatus::Unavailable,
            *target,
            "The file's allocation changed after the scan; rescan before estimating savings."@,
        )),
        is_file && length == target.logical_bytes && !(allocated_bytes matches Some(a) && a
            != target.allocated_bytes) ==> early is None,
{
    if !is_file {
        return Some(
            SavingsEstimate::terminal(
                EstimateStatus::Unavailable,
                target,
                "The scanned item is no longer a regular file.".to_string(),
            ),
        );
    }
    if length != target.logical_bytes {
        return Some(
            SavingsEstimate::terminal(
                EstimateStatus::Unavailable,
                target,
                "The file size changed after the scan; rescan before estimating savings.".to_string(),
            ),
        );
    }
    if let Some(current) = allocated_bytes {
        if current != target.allocated_bytes {
            return Some(
                SavingsEstimate::terminal(
                    EstimateStatus::Unavailable,
                    target,
                    "The file's allocation changed after the scan; rescan before estimating savings.".to_string(),
                ),
            );
        }
    }
    None
}

/// The length of what `zstd::bulk::compress` produces for some bytes at
/// level 3.
pub uninterp spec fn zstd_level3_len(input: Seq<u8>) -> nat;

/// The length of what `miniz_oxide::deflate::compress_to_vec_zlib` produces
/// for some bytes at level 6.
pub uninterp spec fn zlib_level6_len(input: Seq<u8>) -> nat;

/// The length of what `lznt1::compress` appends for some bytes.
pub uninterp spec fn lznt1_len(input: Seq<u8>) -> nat;

/// Calls `zstd::bulk::compress` at level 3 and keeps the output's length;
/// an encoder error is handed back as text.
#[verifier::external_body]
fn zstd_compress_len(chunk: &[u8]) -> (r: Result<usize, String>)
    ensures
        r matches Ok(n) ==> n == zstd_level3_len(chunk@),
{
    match zstd::bulk::compress(chunk, 3) {
        Ok(output) => Ok(output.len()),
        Err(error) => Err(error.to_string()),
    }
}

/// Calls `miniz_oxide::deflate::compress_to_vec_zlib` at level 6 and keeps
/// the output's length.
#[verifier::external_body]
fn zlib_compress_len(input: &[u8]) -> (n: usize)
    ensures
        n == zlib_level6_len(input@),
{
    miniz_oxide::deflate::compress_to_vec_zlib(input, 6).len()
}

/// Calls `lznt1::compress` into an empty vector and keeps its length.
#[verifier::external_body]
fn lznt1_compress_len(input: &[u8]) -> (n: usize)
    ensures
        n == lznt1_len(input@),
{
    let mut output = Vec::new();
    lznt1::compress(input, &mut output);
    output.len()
}

/// The Btrfs-style compressed size of some bytes: each 128 KiB chunk is
/// compressed with zstd at level 3 on its own and counts no more than its
/// own length, the counts added with saturation.
pub open spec fn zstd_chunked_len(input: Seq<u8>, chunks: int) -> int
    decreases chunks,
{
    if chunks <= 0 {
        0
    } else {
        let start = (chunks - 1) * ZSTD_CHUNK_BYTES as int;
        let end = if chunks * (ZSTD_CHUNK_BYTES as int) < input.len() {
            chunks * ZSTD_CHUNK_BYTES as int
        } else {
            input.len() as int
        };
        let chunk = input.subrange(start, end);
        let counted = if zstd_level3_len(chunk) < chunk.len() {
            zstd_level3_len(chunk) as int
        } else {
            chunk.len() as int
        };
        sat_add(zstd_chunked_len(input, chunks - 1), counted) as int
    }
}

/// The number of 128 KiB chunks of some bytes.
pub open spec fn chunk_count(len: int) -> int {
    (len + ZSTD_CHUNK_BYTES - 1) / ZSTD_CHUNK_BYTES as int
}

/// Measures the compressed size of a sample with zstd in Btrfs's 128 KiB
/// chunks; the first encoder error ends the measurement.
pub fn zstd_sample_len(input: &[u8]) -> (r: Result<usize, String>)
    requires
        input@.len() <= usize::MAX,
    ensures
        r matches Ok(n) ==> n == sat_add_usize(zstd_chunked_len(input@, chunk_count(input@.len() as int))),
        input@.len() == 0 ==> r == Ok::<usize, String>(0),
{
    let mut total: usize = 0;
    let mut start: usize = 0;
    let mut chunks: usize = 0;
    while start < input.len()
        invariant
            0 <= start <= input@.len(),
            start == chunks * ZSTD_CHUNK_BYTES || start == input@.len(),
            start < input@.len() ==> start == chunks * ZSTD_CHUNK_BYTES,
            chunks == chunk_count(start as int),
            total == sat_add_usize(zstd_chunked_len(input@, chunks as int)),
        decreases input@.len() - start,
    {
        let end: usize = if input.len() - start > ZSTD_CHUNK_BYTES {
            start + ZSTD_CHUNK_BYTES
        } else {
            input.len()
        };
        let chunk = slice_range(input, start, end);
        let compressed = match zstd_compress_len(chunk) {
            Ok(n) => n,
            Err(error) => {
                return Err(error);
            },
        };
        let counted = if compressed < chunk.len() {
            compressed
        } else {
            chunk.len()
        };
        proof {
            assert(start == chunks * ZSTD_CHUNK_BYTES);
            assert((chunks + 1) * ZSTD_CHUNK_BYTES == start + ZSTD_CHUNK_BYTES);
            assert(chunk_count(end as int) == chunks + 1) by (nonlinear_arith)
                requires
                    start == chunks * 131072,
                    start < end <= start + 131072,
            ;
        }
        total = total.saturating_add(counted);
        start = end;
        chunks = chunks + 1;
    }
    Ok(total)
}

/// A total clipped to `usize`.
pub open spec fn sat_add_usize(total: int) -> usize {
    if total > usize::MAX {
        usize::MAX
    } else {
        total as usize
    }
}

fn slice_range(input: &[u8], start: usize, end: usize) -> (part: &[u8])
    requires
        start <= end <= input@.len(),
    ensures
        part@ == input@.subrange(start as int, end as int),
{
    let (head, _) = input.split_at(end);
    let (_, part) = head.split_at(start);
    part
}

/// Measures the compressed size of a sample with zlib at level 6, the
/// compressibility proxy used where the writer's algorithm is not known.
pub fn zlib_sample_len(input: &[u8]) -> (n: usize)
    ensures
        n == zlib_level6_len(input@),
{
    zlib_compress_len(input)
}

/// Measures the compressed size of a sample with LZNT1, the format of NTFS
/// compression.
pub fn lznt1_sample_len(input: &[u8]) -> (n: usize)
    ensures
        n == lznt1_len(input@),
{
    lznt1_compress_len(input)
}

/// The codec that compresses the samples on a platform.
#[derive(Clone, Copy, Debug, PartialEq, Eq, Structural)]
pub enum SampleCodec {
    /// zstd at level 3 in 128 KiB chunks, what Btrfs writes.
    Zstd,
    /// zlib at level 6, a labelled proxy where the writer's algorithm is
    /// not known.
    ZlibProxy,
    /// LZNT1, what NTFS writes.
    Lznt1,
}

/// The name a codec reports.
pub open spec fn codec_algorithm(codec: SampleCodec) -> Seq<char> {
    match codec {
        SampleCodec::Zstd => "zstd"@,
        SampleCodec::ZlibProxy => "zlib-proxy"@,
        SampleCodec::Lznt1 => "lznt1"@,
    }
}

/// How a codec's description reads.
pub open spec fn codec_detail(codec: SampleCodec) -> Seq<char> {
    match codec {
        SampleCodec::Zstd => "Samples use the Btrfs-supported Zstd algorithm at level 3."@,
        SampleCodec::ZlibProxy => "The macOS writer algorithm is undefined, so Cepa uses zlib only as a clearly labeled compressibility proxy."@,
        SampleCodec::Lznt1 => "Samples use the same 4 KiB-chunked LZNT1 format as NTFS compression."@,
    }
}

impl SampleCodec {
    /// The codec's name.
    pub fn algorithm(self) -> (name: String)
        ensures
            name@ == codec_algorithm(self),
    {
        match self {
            SampleCodec::Zstd => "zstd".to_string(),
            SampleCodec::ZlibProxy => "zlib-proxy".to_string(),
            SampleCodec::Lznt1 => "lznt1".to_string(),
        }
    }

    /// Whether the codec is the one the filesystem writes with.
    pub fn fidelity(self) -> (fidelity: AlgorithmFidelity)
        ensures
            fidelity == (if self == SampleCodec::ZlibProxy {
                AlgorithmFidelity::Proxy
            } else {
                AlgorithmFidelity::Exact
            }),
    {
        match self {
            SampleCodec::ZlibProxy => AlgorithmFidelity::Proxy,
            _ => AlgorithmFidelity::Exact,
        }
    }

    /// The codec's description.
    pub fn detail(self) -> (detail: String)
        ensures
            detail@ == codec_detail(self),
    {
        match self {
            SampleCodec::Zstd => "Samples use the Btrfs-supported Zstd algorithm at level 3.".to_string(),
            SampleCodec::ZlibProxy => "The macOS writer algorithm is undefined, so Cepa uses zlib only as a clearly labeled compressibility proxy.".to_string(),
            SampleCodec::Lznt1 => "Samples use the same 4 KiB-chunked LZNT1 format as NTFS compression.".to_string(),
        }
    }

    /// Measures the compressed size of one sample with this codec.
    pub fn sample_len(self, input: &[u8]) -> (r: Result<usize, String>)
        ensures
            self == SampleCodec::Zstd && r is Ok ==> r->Ok_0 == sat_add_usize(
                zstd_chunked_len(input@, chunk_count(input@.len() as int)),
            ),
            self == SampleCodec::ZlibProxy ==> r == Ok::<usize, String>(
                zlib_level6_len(input@) as usize,
            ),
            self == SampleCodec::Lznt1 ==> r == Ok::<usize, String>(lznt1_len(input@) as usize),
    {
        // Reading the length records that it fits in a `usize`.
        let _len = input.len();
        match self {
            SampleCodec::Zstd => zstd_sample_len(input),
            SampleCodec::ZlibProxy => Ok(zlib_sample_len(input)),
            SampleCodec::Lznt1 => Ok(lznt1_sample_len(input)),
        }
    }
}

/// The sampling codec for a Linux file from the type of its filesystem:
/// zstd on Btrfs; anywhere else estimation is unsupported.
pub fn linux_sample_codec(filesystem_type: i64) -> (r: Result<SampleCodec, String>)
    ensures
        filesystem_type == BTRFS_SUPER_MAGIC ==> r == Ok::<SampleCodec, String>(SampleCodec::Zstd),
        filesystem_type != BTRFS_SUPER_MAGIC ==> (r matches Err(message) && message@
            == "Savings estimation is currently implemented only for Btrfs on Linux."@),
{
    if filesystem_type == BTRFS_SUPER_MAGIC {
        Ok(SampleCodec::Zstd)
    } else {
        Err("Savings estimation is currently implemented only for Btrfs on Linux.".to_string())
    }
}

/// A sample never counts as larger than its input.
pub fn counted_sample_bytes(compressed: usize, input_len: usize) -> (counted: u64)
    ensures
        counted == (if compressed < input_len {
            compressed
        } else {
            input_len
        }),
{
    let counted = if compressed < input_len {
        compressed
    } else {
        input_len
    };
    counted as u64
}

} // verus!
