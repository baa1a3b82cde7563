//! Compact, exact file identities and revisions retained from a scan so that a
//! later mutation plan can prove it still refers to the same file contents.
use vstd::prelude::*;

verus! {

/// Number of low bits of a packed Unix timestamp that hold the nanoseconds.
pub const UNIX_NANOSECOND_BITS: u32 = 30;
/// Earliest representable second of a packed Unix timestamp (-2^33).
pub const UNIX_MIN_SECONDS: i64 = -8589934592i64;
/// Latest representable second of a packed Unix timestamp (2^33 - 1).
pub const UNIX_MAX_SECONDS: i64 = 8589934591i64;
/// Nanoseconds in one second.
pub const UNIX_NANOSECONDS_PER_SECOND: i64 = 1000000000i64;

/// The identity and revision of one scanned regular file: the filesystem that
/// holds it, its nonzero file number, and its modification and change stamps.
#[derive(Clone, Copy, Debug, PartialEq, Eq, Structural)]
pub struct ScannedFileRevision {
    pub filesystem_id: u64,
    pub file_id: u64,
    pub modified: u64,
    pub changed: u64,
}

/// A revision without its filesystem identity. Unix scans never cross a
/// filesystem boundary, so the identity is retained once per scan instead.
#[derive(Clone, Copy, Debug, PartialEq, Eq, Structural)]
pub struct CompactScannedFileRevision {
    pub file_id: u64,
    pub modified: u64,
    pub changed: u64,
}

/// What a no-follow snapshot of an open regular file reports.
#[derive(Clone, Copy, Debug, PartialEq, Eq, Structural)]
pub struct FileSnapshot {
    pub scanned: ScannedFileRevision,
    pub logical_bytes: u64,
    pub allocated_bytes: Option<u64>,
    pub link_count: u64,
}

/// Why the metadata of an open handle cannot anchor a file revision.
#[derive(Clone, Copy, Debug, PartialEq, Eq, Structural)]
pub enum SnapshotError {
    /// The handle no longer refers to a regular file.
    NotRegularFile,
    /// The filesystem returned a zero file number or an unrepresentable timestamp.
    UnusableIdentity,
}

/// The exact packing of a Unix timestamp: seconds biased by 2^33 in the high
/// bits, nanoseconds in the low thirty bits; `None` outside the packed range.
pub open spec fn spec_pack_unix_timestamp(seconds: int, nanoseconds: int) -> Option<u64> {
    if UNIX_MIN_SECONDS <= seconds <= UNIX_MAX_SECONDS && 0 <= nanoseconds
        < UNIX_NANOSECONDS_PER_SECOND {
        Some(((seconds - UNIX_MIN_SECONDS) * 1073741824 + nanoseconds) as u64)
    } else {
        None
    }
}

impl ScannedFileRevision {
    /// Builds a revision; a zero file number is no identity at all.
    pub fn from_raw_parts(filesystem_id: u64, file_id: u64, modified: u64, changed: u64) -> (r:
        Option<Self>)
        ensures
            r == (if file_id == 0 {
                None::<Self>
            } else {
                Some(Self { filesystem_id, file_id, modified, changed })
            }),
    {
        if file_id == 0 {
            None
        } else {
            Some(Self { filesystem_id, file_id, modified, changed })
        }
    }

    /// Builds a revision from Unix stat fields, packing both timestamps.
    pub fn from_unix_parts(
        filesystem_id: u64,
        file_id: u64,
        modified_seconds: i64,
        modified_nanoseconds: i64,
        changed_seconds: i64,
        changed_nanoseconds: i64,
    ) -> (r: Option<Self>)
        ensures
            r == (match (
                spec_pack_unix_timestamp(modified_seconds as int, modified_nanoseconds as int),
                spec_pack_unix_timestamp(changed_seconds as int, changed_nanoseconds as int),
            ) {
                (Some(modified), Some(changed)) => if file_id == 0 {
                    None::<Self>
                } else {
                    Some(Self { filesystem_id, file_id, modified, changed })
                },
                _ => None,
            }),
    {
        let modified = match pack_unix_timestamp(modified_seconds, modified_nanoseconds) {
            Some(value) => value,
            None => return None,
        };
        let changed = match pack_unix_timestamp(changed_seconds, changed_nanoseconds) {
            Some(value) => value,
            None => return None,
        };
        Self::from_raw_parts(filesystem_id, file_id, modified, changed)
    }

    /// Splits off the filesystem identity.
    pub fn compact(self) -> (r: (u64, CompactScannedFileRevision))
        ensures
            r.0 == self.filesystem_id,
            r.1 == (CompactScannedFileRevision {
                file_id: self.file_id,
                modified: self.modified,
                changed: self.changed,
            }),
    {
        (
            self.filesystem_id,
            CompactScannedFileRevision {
                file_id: self.file_id,
                modified: self.modified,
                changed: self.changed,
            },
        )
    }
}

impl CompactScannedFileRevision {
    /// Reattaches a filesystem identity.
    pub fn expand(self, filesystem_id: u64) -> (r: ScannedFileRevision)
        ensures
            r == (ScannedFileRevision {
                filesystem_id,
                file_id: self.file_id,
                modified: self.modified,
                changed: self.changed,
            }),
    {
        ScannedFileRevision {
            filesystem_id,
            file_id: self.file_id,
            modified: self.modified,
            changed: self.changed,
        }
    }
}

/// Splitting a revision and reattaching the same filesystem identity gives the
/// revision back exactly.
pub proof fn lemma_compact_expand_round_trip(revision: ScannedFileRevision)
    ensures
        (CompactScannedFileRevision {
            file_id: revision.file_id,
            modified: revision.modified,
            changed: revision.changed,
        }).expand_spec(revision.filesystem_id) == revision,
{
}

impl CompactScannedFileRevision {
    /// The revision that `expand` returns.
    pub open spec fn expand_spec(self, filesystem_id: u64) -> ScannedFileRevision {
        ScannedFileRevision {
            filesystem_id,
            file_id: self.file_id,
            modified: self.modified,
            changed: self.changed,
        }
    }
}

/// Packs a Unix timestamp exactly, or reports that it lies outside the range.
pub fn pack_unix_timestamp(seconds: i64, nanoseconds: i64) -> (r: Option<u64>)
    ensures
        r == spec_pack_unix_timestamp(seconds as int, nanoseconds as int),
{
    if seconds < UNIX_MIN_SECONDS || seconds > UNIX_MAX_SECONDS || nanoseconds < 0
        || nanoseconds >= UNIX_NANOSECONDS_PER_SECOND {
        return None;
    }
    let biased_seconds: u64 = (seconds as i128 - UNIX_MIN_SECONDS as i128) as u64;
    assert(biased_seconds < 17179869184);
    Some(biased_seconds * 1073741824 + nanoseconds as u64)
}

/// Two timestamps pack to the same value only when they are the same instant.
pub proof fn lemma_pack_unix_timestamp_injective(s1: int, n1: int, s2: int, n2: int)
    requires
        spec_pack_unix_timestamp(s1, n1) is Some,
        spec_pack_unix_timestamp(s1, n1) == spec_pack_unix_timestamp(s2, n2),
    ensures
        s1 == s2,
        n1 == n2,
{
    let b1 = s1 - UNIX_MIN_SECONDS;
    let b2 = s2 - UNIX_MIN_SECONDS;
    assert(b1 * 1073741824 + n1 == b2 * 1073741824 + n2);
    if b1 < b2 {
        assert(b1 * 1073741824 + 1073741824 <= b2 * 1073741824) by (nonlinear_arith)
            requires
                b1 < b2,
        ;
    } else if b2 < b1 {
        assert(b2 * 1073741824 + 1073741824 <= b1 * 1073741824) by (nonlinear_arith)
            requires
                b2 < b1,
        ;
    }
}

/// The Linux device-number split that libc's `major` performs.
pub open spec fn spec_device_major(dev: u64) -> u32 {
    (((dev & 0xfff00u64) >> 8u64) | ((dev & 0xfffff00000000000u64) >> 32u64)) as u32
}

/// The Linux device-number split that libc's `minor` performs.
pub open spec fn spec_device_minor(dev: u64) -> u32 {
    ((dev & 0xffu64) | ((dev & 0xffffff00000u64) >> 12u64)) as u32
}

/// Calls `libc::major`, which extracts the major half of a Linux device number.
#[verifier::external_body]
fn device_major(dev: u64) -> (major: u32)
    ensures
        major == spec_device_major(dev),
{
    libc::major(dev)
}

/// Calls `libc::minor`, which extracts the minor half of a Linux device number.
#[verifier::external_body]
fn device_minor(dev: u64) -> (minor: u32)
    ensures
        minor == spec_device_minor(dev),
{
    libc::minor(dev)
}

/// The canonical device identity shared by statx and std metadata: the major
/// half in the high thirty-two bits, the minor half in the low thirty-two.
pub fn combine_device_id(major: u32, minor: u32) -> (id: u64)
    ensures
        id == major as int * 4294967296 + minor as int,
{
    let id = ((major as u64) << 32u64) | (minor as u64);
    assert(((major as u64) << 32u64) | (minor as u64) == (major as u64) * 4294967296u64
        + (minor as u64)) by (bit_vector);
    id
}

/// The filesystem identity of a Linux `st_dev`, in the same canonical form as
/// statx reports, so that both can be compared exactly.
pub fn linux_revision_filesystem_id(dev: u64) -> (id: u64)
    ensures
        id == spec_device_major(dev) as int * 4294967296 + spec_device_minor(dev) as int,
{
    combine_device_id(device_major(dev), device_minor(dev))
}

/// The snapshot that Unix metadata of an open handle gives, or why it is not
/// usable: only a regular file with a nonzero file number and representable
/// timestamps anchors a revision; allocation is the block count times 512,
/// saturating.
pub fn unix_file_snapshot(
    is_file: bool,
    filesystem_id: u64,
    inode: u64,
    modified_seconds: i64,
    modified_nanoseconds: i64,
    changed_seconds: i64,
    changed_nanoseconds: i64,
    length: u64,
    blocks: u64,
    link_count: u64,
) -> (r: Result<FileSnapshot, SnapshotError>)
    ensures
        !is_file ==> r == Err::<FileSnapshot, SnapshotError>(SnapshotError::NotRegularFile),
        is_file ==> match spec_revision_from_unix(
            filesystem_id,
            inode,
            modified_seconds as int,
            modified_nanoseconds as int,
            changed_seconds as int,
            changed_nanoseconds as int,
        ) {
            None => r == Err::<FileSnapshot, SnapshotError>(SnapshotError::UnusableIdentity),
            Some(scanned) => r == Ok::<FileSnapshot, SnapshotError>(
                FileSnapshot {
                    scanned,
                    logical_bytes: length,
                    allocated_bytes: Some(
                        if blocks * 512 > u64::MAX {
                            u64::MAX
                        } else {
                            (blocks * 512) as u64
                        },
                    ),
                    link_count,
                },
            ),
        },
{
    if !is_file {
        return Err(SnapshotError::NotRegularFile);
    }
    let scanned = match ScannedFileRevision::from_unix_parts(
        filesystem_id,
        inode,
        modified_seconds,
        modified_nanoseconds,
        changed_seconds,
        changed_nanoseconds,
    ) {
        Some(scanned) => scanned,
        None => return Err(SnapshotError::UnusableIdentity),
    };
    Ok(
        FileSnapshot {
            scanned,
            logical_bytes: length,
            allocated_bytes: Some(saturating_mul_u64(blocks, 512)),
            link_count,
        },
    )
}

/// The revision that `from_unix_parts` builds.
pub open spec fn spec_revision_from_unix(
    filesystem_id: u64,
    file_id: u64,
    ms: int,
    mn: int,
    cs: int,
    cn: int,
) -> Option<ScannedFileRevision> {
    match (spec_pack_unix_timestamp(ms, mn), spec_pack_unix_timestamp(cs, cn)) {
        (Some(modified), Some(changed)) => if file_id == 0 {
            None
        } else {
            Some(ScannedFileRevision { filesystem_id, file_id, modified, changed })
        },
        _ => None,
    }
}

/// Multiplies, saturating at `u64::MAX`.
pub fn saturating_mul_u64(a: u64, b: u64) -> (r: u64)
    ensures
        r == (if a * b > u64::MAX {
            u64::MAX
        } else {
            (a * b) as u64
        }),
{
    match a.checked_mul(b) {
        Some(value) => value,
        None => u64::MAX,
    }
}

} // verus!
