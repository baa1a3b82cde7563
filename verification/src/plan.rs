//! Read-only compression plans: what blocks a plan, what it warns about,
//! and how a retained plan is revalidated against the file it names.
use vstd::prelude::*;
use vstd::string::StringExecFns;
use crate::compression::{CompressionCapability, CompressionCapabilityStatus, CompressionState, CompressionStateKind};
use crate::revision::{FileSnapshot, ScannedFileRevision};
use crate::snapshot::CompressionTarget;
use crate::types::EntryKind;

verus! {

/// The largest file NTFS compresses: 30 GiB.
pub const NTFS_MAX_UNCOMPRESSED_BYTES: u64 = 32212254720;
/// The length of one read while hashing file content.
pub const CONTENT_HASH_CHUNK_BYTES: usize = 1048576;

/// The change a plan would make.
#[derive(Clone, Copy, Debug, PartialEq, Eq, Structural)]
pub enum CompressionOperation {
    Compress,
    Decompress,
}

/// Whether a plan could be applied.
#[derive(Clone, Copy, Debug, PartialEq, Eq, Structural)]
pub enum CompressionPlanStatus {
    Prepared,
    Blocked,
}

/// Why a plan cannot be applied.
#[derive(Clone, Copy, Debug, PartialEq, Eq, Structural)]
pub enum PlanBlockerCode {
    WriterUnavailable,
    CapabilityUnavailable,
    StateUnavailable,
    AlreadyInRequestedState,
    FileTooLarge,
}

/// One reason a plan is blocked.
#[derive(Clone, Debug)]
pub struct PlanBlocker {
    pub code: PlanBlockerCode,
    pub detail: String,
}

/// What a prepared plan would do, and what blocks it.
#[derive(Clone, Debug)]
pub struct CompressionPlanPreview {
    pub plan_id: u64,
    pub scan_id: u64,
    pub node_id: u64,
    pub operation: CompressionOperation,
    pub status: CompressionPlanStatus,
    pub filesystem: String,
    pub algorithm: Option<String>,
    pub logical_bytes: u64,
    pub allocated_bytes: u64,
    pub allocated_size_is_estimate: bool,
    pub estimated_read_bytes: u64,
    pub estimated_write_bytes: u64,
    pub required_free_space_bytes: Option<u64>,
    pub link_count: u64,
    pub warnings: Vec<String>,
    pub blockers: Vec<PlanBlocker>,
}

/// The outcome of revalidating a retained plan.
#[derive(Clone, Copy, Debug, PartialEq, Eq, Structural)]
pub enum PlanValidationStatus {
    Valid,
    Changed,
    Unavailable,
}

/// A revalidation outcome with its reason.
#[derive(Clone, Debug)]
pub struct PlanValidation {
    pub plan_id: u64,
    pub status: PlanValidationStatus,
    pub detail: String,
}

/// The revision of a file as a plan retains it.
#[derive(Clone, Copy, Debug, PartialEq, Eq, Structural)]
pub struct FileRevision {
    pub scanned: ScannedFileRevision,
    pub logical_bytes: u64,
    pub allocated_bytes: Option<u64>,
    pub link_count: u64,
}

impl FileRevision {
    /// The revision of a no-follow snapshot.
    pub fn from_snapshot(snapshot: FileSnapshot) -> (revision: Self)
        ensures
            revision.scanned == snapshot.scanned,
            revision.logical_bytes == snapshot.logical_bytes,
            revision.allocated_bytes == snapshot.allocated_bytes,
            revision.link_count == snapshot.link_count,
    {
        FileRevision {
            scanned: snapshot.scanned,
            logical_bytes: snapshot.logical_bytes,
            allocated_bytes: snapshot.allocated_bytes,
            link_count: snapshot.link_count,
        }
    }
}

/// Why anchoring or hashing file content failed.
#[derive(Clone, Debug)]
pub enum IntegrityError {
    Cancelled,
    Changed,
    Io(String),
}

/// The message for an anchoring failure while preparing a plan.
pub fn prepare_integrity_error(error: IntegrityError) -> (message: String)
    ensures
        match error {
            IntegrityError::Cancelled => message@
                == "Compression planning was superseded by a newer request."@,
            IntegrityError::Changed => message@
                == "The file changed while its content was being anchored; rescan before planning."@,
            IntegrityError::Io(detail) => message@ == "The file content could not be read safely for planning: "@
                + detail@ + "."@,
        },
{
    match error {
        IntegrityError::Cancelled => "Compression planning was superseded by a newer request.".to_string(),
        IntegrityError::Changed => "The file changed while its content was being anchored; rescan before planning.".to_string(),
        IntegrityError::Io(detail) => read_failure_message(detail.as_str()),
    }
}

/// Wraps an I/O error's text in the planning message.
fn read_failure_message(detail: &str) -> (message: String)
    ensures
        message@ == "The file content could not be read safely for planning: "@ + detail@ + "."@,
{
    let mut message = "The file content could not be read safely for planning: ".to_string();
    message.append(detail);
    message.append(".");
    message
}

/// The checks of a freshly opened file against the scan before planning:
/// only regular files, with a retained scan revision that still matches,
/// of the scanned size and, unless sizes were estimated, of the scanned
/// allocation.
pub fn check_planning_target(target: &CompressionTarget, revision: &FileRevision) -> (r: Result<
    (),
    String,
>)
    ensures
        r is Ok <==> (target.kind == EntryKind::File && target.scan_revision == Some(
            revision.scanned,
        ) && revision.logical_bytes == target.logical_bytes && (target.allocated_size_is_estimate
            || revision.allocated_bytes == Some(target.allocated_bytes))),
        r matches Err(message) ==> if target.kind != EntryKind::File {
            message@ == "Only regular files can be included in a compression plan."@
        } else if target.scan_revision is None {
            message@
                == "The scan could not retain a stable file identity and revision; rescan with a supported backend before planning."@
        } else if target.scan_revision != Some(revision.scanned) {
            message@ == "The file identity or revision changed after the scan; rescan before planning."@
        } else if revision.logical_bytes != target.logical_bytes {
            message@ == "The file size changed after the scan; rescan before planning."@
        } else {
            message@ == "The file allocation changed after the scan; rescan before planning."@
        },
{
    if target.kind != EntryKind::File {
        return Err("Only regular files can be included in a compression plan.".to_string());
    }
    let scanned = match target.scan_revision {
        Some(scanned) => scanned,
        None => {
            return Err(
                "The scan could not retain a stable file identity and revision; rescan with a supported backend before planning.".to_string(),
            );
        },
    };
    if revision.scanned != scanned {
        return Err(
            "The file identity or revision changed after the scan; rescan before planning.".to_string(),
        );
    }
    if revision.logical_bytes != target.logical_bytes {
        return Err("The file size changed after the scan; rescan before planning.".to_string());
    }
    if !target.allocated_size_is_estimate && revision.allocated_bytes != Some(
        target.allocated_bytes,
    ) {
        return Err("The file allocation changed after the scan; rescan before planning.".to_string());
    }
    Ok(())
}

/// The codes of a plan's blockers, in the order they are checked.
pub open spec fn blocker_codes(
    operation: CompressionOperation,
    capability_status: CompressionCapabilityStatus,
    writer_available: bool,
    filesystem_is_ntfs: bool,
    state: CompressionStateKind,
    logical_bytes: u64,
) -> Seq<PlanBlockerCode> {
    let writer = if !writer_available {
        seq![PlanBlockerCode::WriterUnavailable]
    } else {
        Seq::empty()
    };
    let capability = if capability_status == CompressionCapabilityStatus::Unsupported
        || capability_status == CompressionCapabilityStatus::Unavailable {
        seq![PlanBlockerCode::CapabilityUnavailable]
    } else {
        Seq::empty()
    };
    let unreadable = if state == CompressionStateKind::Unavailable || state
        == CompressionStateKind::Unsupported || state == CompressionStateKind::NotApplicable {
        seq![PlanBlockerCode::StateUnavailable]
    } else {
        Seq::empty()
    };
    let already = if (operation == CompressionOperation::Compress && state
        == CompressionStateKind::Compressed) || (operation == CompressionOperation::Decompress
        && state == CompressionStateKind::NotCompressed) {
        seq![PlanBlockerCode::AlreadyInRequestedState]
    } else {
        Seq::empty()
    };
    let too_large = if operation == CompressionOperation::Compress && filesystem_is_ntfs
        && logical_bytes > NTFS_MAX_UNCOMPRESSED_BYTES {
        seq![PlanBlockerCode::FileTooLarge]
    } else {
        Seq::empty()
    };
    writer + capability + unreadable + already + too_large
}

/// The bytes of "ntfs".
pub open spec fn ntfs_name() -> Seq<u8> {
    seq![110u8, 116u8, 102u8, 115u8]
}

/// The codes of some blockers.
pub open spec fn codes_of(blockers: Seq<PlanBlocker>) -> Seq<PlanBlockerCode> {
    Seq::new(blockers.len(), |i: int| blockers[i].code)
}

/// The shared-data warning of a file with several hard links.
fn hard_link_warning(link_count: u64) -> (warning: String)
    ensures
        warning@ == "This file has "@ + crate::chart::decimal_digits(link_count as nat)
            + " hard links; changing one path changes their shared data."@,
{
    let mut warning = "This file has ".to_string();
    warning.append(crate::chart::decimal_text(link_count).as_str());
    warning.append(" hard links; changing one path changes their shared data.");
    warning
}

fn push_blocker(blockers: &mut Vec<PlanBlocker>, code: PlanBlockerCode, detail: String)
    ensures
        codes_of(final(blockers)@) == codes_of(old(blockers)@).push(code),
{
    blockers.push(PlanBlocker { code, detail });
    proof {
        assert(codes_of(final(blockers)@) =~= codes_of(old(blockers)@).push(code));
    }
}

/// The preview of a plan from the scan's target, the volume's capability
/// and the file's state: every blocker that applies, warnings for shared
/// hard-linked data and estimated sizes, and the first algorithm for a
/// compression. No writer exists, so no free-space margin is promised.
pub fn plan_preview(
    plan_id: u64,
    scan_id: u64,
    node_id: u64,
    operation: CompressionOperation,
    target: &CompressionTarget,
    capability: &CompressionCapability,
    state: &CompressionState,
    link_count: u64,
) -> (preview: CompressionPlanPreview)
    ensures
        preview.plan_id == plan_id,
        preview.scan_id == scan_id,
        preview.node_id == node_id,
        preview.operation == operation,
        codes_of(preview.blockers@) == blocker_codes(
            operation,
            capability.status,
            capability.writer_available,
            crate::roots::eq_ignore_ascii_case(
                vstd::utf8::encode_utf8(capability.filesystem@),
                ntfs_name(),
            ),
            state.state,
            target.logical_bytes,
        ),
        preview.status == (if preview.blockers@.len() == 0 {
            CompressionPlanStatus::Prepared
        } else {
            CompressionPlanStatus::Blocked
        }),
        preview.filesystem == capability.filesystem,
        match preview.algorithm {
            Some(algorithm) => operation == CompressionOperation::Compress
                && capability.algorithms@.len() > 0 && algorithm == capability.algorithms@[0],
            None => operation == CompressionOperation::Decompress || capability.algorithms@.len()
                == 0,
        },
        preview.logical_bytes == target.logical_bytes,
        preview.allocated_bytes == target.allocated_bytes,
        preview.allocated_size_is_estimate == target.allocated_size_is_estimate,
        preview.estimated_read_bytes == target.logical_bytes,
        preview.estimated_write_bytes == target.logical_bytes,
        preview.required_free_space_bytes is None,
        preview.link_count == link_count,
        preview.warnings@.len() == (if link_count > 1 {
            1int
        } else {
            0int
        }) + (if target.allocated_size_is_estimate {
            1int
        } else {
            0int
        }),
        link_count > 1 ==> preview.warnings@[0]@ == "This file has "@
            + crate::chart::decimal_digits(link_count as nat)
            + " hard links; changing one path changes their shared data."@,
{
    let mut blockers: Vec<PlanBlocker> = Vec::new();
    if !capability.writer_available {
        push_blocker(
            &mut blockers,
            PlanBlockerCode::WriterUnavailable,
            "Cepa does not have a writable compression backend for this volume.".to_string(),
        );
    }
    if capability.status == CompressionCapabilityStatus::Unsupported || capability.status
        == CompressionCapabilityStatus::Unavailable {
        push_blocker(&mut blockers, PlanBlockerCode::CapabilityUnavailable, capability.detail.clone());
    }
    if state.state == CompressionStateKind::Unavailable || state.state
        == CompressionStateKind::Unsupported || state.state == CompressionStateKind::NotApplicable {
        push_blocker(&mut blockers, PlanBlockerCode::StateUnavailable, state.detail.clone());
    }
    let already = (operation == CompressionOperation::Compress && state.state
        == CompressionStateKind::Compressed) || (operation == CompressionOperation::Decompress
        && state.state == CompressionStateKind::NotCompressed);
    if already {
        push_blocker(
            &mut blockers,
            PlanBlockerCode::AlreadyInRequestedState,
            "The filesystem already reports the requested compression state.".to_string(),
        );
    }
    let filesystem_bytes = crate::text::text_bytes(capability.filesystem.as_str());
    let ntfs: Vec<u8> = vec![110u8, 116u8, 102u8, 115u8];
    assert(ntfs@ =~= ntfs_name());
    let is_ntfs = crate::roots::equal_ignoring_ascii_case(&filesystem_bytes, &ntfs);
    if operation == CompressionOperation::Compress && is_ntfs && target.logical_bytes
        > NTFS_MAX_UNCOMPRESSED_BYTES {
        push_blocker(
            &mut blockers,
            PlanBlockerCode::FileTooLarge,
            "NTFS compression does not support files larger than 30 GiB.".to_string(),
        );
    }
    proof {
        let c = blocker_codes(
            operation,
            capability.status,
            capability.writer_available,
            is_ntfs,
            state.state,
            target.logical_bytes,
        );
        assert(codes_of(blockers@) =~= c);
    }
    let mut warnings: Vec<String> = Vec::new();
    if link_count > 1 {
        warnings.push(hard_link_warning(link_count));
    }
    if target.allocated_size_is_estimate {
        warnings.push(
            "The scan backend estimated allocated size; apply must measure it again natively.".to_string(),
        );
    }
    let algorithm = if operation == CompressionOperation::Compress && capability.algorithms.len()
        > 0 {
        Some(capability.algorithms[0].clone())
    } else {
        None
    };
    let status = if blockers.len() == 0 {
        CompressionPlanStatus::Prepared
    } else {
        CompressionPlanStatus::Blocked
    };
    CompressionPlanPreview {
        plan_id,
        scan_id,
        node_id,
        operation,
        status,
        filesystem: capability.filesystem.clone(),
        algorithm,
        logical_bytes: target.logical_bytes,
        allocated_bytes: target.allocated_bytes,
        allocated_size_is_estimate: target.allocated_size_is_estimate,
        estimated_read_bytes: target.logical_bytes,
        estimated_write_bytes: target.logical_bytes,
        required_free_space_bytes: None,
        link_count,
        warnings,
        blockers,
    }
}

/// The outcome of comparing the revisions read during revalidation: the
/// path must still lead to the retained file, and the retained file must be
/// unchanged since planning; `None` when both hold.
pub fn binding_outcome(plan_id: u64, rebound: &FileRevision, anchored: &FileRevision, planned: &FileRevision) -> (outcome:
    Option<PlanValidation>)
    ensures
        *rebound != *anchored ==> (outcome matches Some(v) && v.plan_id == plan_id && v.status
            == PlanValidationStatus::Changed && v.detail@
            == "The path now refers to a different file; discard this plan and rescan."@),
        *rebound == *anchored && *anchored != *planned ==> (outcome matches Some(v) && v.plan_id
            == plan_id && v.status == PlanValidationStatus::Changed && v.detail@
            == "The retained file changed; discard this plan and rescan."@),
        *rebound == *anchored && *anchored == *planned ==> outcome is None,
{
    if *rebound != *anchored {
        return Some(
            PlanValidation {
                plan_id,
                status: PlanValidationStatus::Changed,
                detail: "The path now refers to a different file; discard this plan and rescan.".to_string(),
            },
        );
    }
    if *anchored != *planned {
        return Some(
            PlanValidation {
                plan_id,
                status: PlanValidationStatus::Changed,
                detail: "The retained file changed; discard this plan and rescan.".to_string(),
            },
        );
    }
    None
}

/// A digest of file content.
#[derive(Clone, Copy, Debug)]
pub struct ContentDigest {
    pub bytes: [u8; 32],
}

/// Whether two digests are equal.
pub fn digests_equal(a: &ContentDigest, b: &ContentDigest) -> (equal: bool)
    ensures
        equal == (a.bytes@ == b.bytes@),
{
    let mut index: usize = 0;
    while index < 32
        invariant
            0 <= index <= 32,
            a.bytes@.len() == 32,
            b.bytes@.len() == 32,
            forall|k: int| 0 <= k < index ==> a.bytes@[k] == b.bytes@[k],
        decreases 32 - index,
    {
        if a.bytes[index] != b.bytes[index] {
            return false;
        }
        index = index + 1;
    }
    proof {
        assert(a.bytes@ =~= b.bytes@);
    }
    true
}

/// The outcome of hashing the retained content again: a cancelled hash is
/// superseded, a change or read failure is reported, and a different digest
/// means the content changed; `None` when the digest still matches.
pub fn digest_outcome(plan_id: u64, hashed: Result<ContentDigest, IntegrityError>, planned: &ContentDigest) -> (outcome:
    Option<PlanValidation>)
    ensures
        match hashed {
            Ok(digest) => if digest.bytes@ == planned.bytes@ {
                outcome is None
            } else {
                outcome matches Some(v) && v.plan_id == plan_id && v.status
                    == PlanValidationStatus::Changed && v.detail@
                    == "The retained file content changed; discard this plan and rescan."@
            },
            Err(IntegrityError::Cancelled) => outcome matches Some(v) && v.plan_id == plan_id
                && v.status == PlanValidationStatus::Unavailable && v.detail@
                == "Plan validation was superseded by a newer request."@,
            Err(IntegrityError::Changed) => outcome matches Some(v) && v.plan_id == plan_id
                && v.status == PlanValidationStatus::Changed && v.detail@
                == "The retained file changed while its content was being validated; discard this plan and rescan."@,
            Err(IntegrityError::Io(detail)) => outcome matches Some(v) && v.plan_id == plan_id
                && v.status == PlanValidationStatus::Unavailable && v.detail@
                == "The retained file content could not be read: "@ + detail@ + "."@,
        },
{
    match hashed {
        Ok(digest) => if digests_equal(&digest, planned) {
            None
        } else {
            Some(
                PlanValidation {
                    plan_id,
                    status: PlanValidationStatus::Changed,
                    detail: "The retained file content changed; discard this plan and rescan.".to_string(),
                },
            )
        },
        Err(IntegrityError::Cancelled) => Some(
            PlanValidation {
                plan_id,
                status: PlanValidationStatus::Unavailable,
                detail: "Plan validation was superseded by a newer request.".to_string(),
            },
        ),
        Err(IntegrityError::Changed) => Some(
            PlanValidation {
                plan_id,
                status: PlanValidationStatus::Changed,
                detail: "The retained file changed while its content was being validated; discard this plan and rescan.".to_string(),
            },
        ),
        Err(IntegrityError::Io(detail)) => Some(
            PlanValidation {
                plan_id,
                status: PlanValidationStatus::Unavailable,
                detail: content_read_failure(detail.as_str()),
            },
        ),
    }
}

/// Whether hashing may start: a cancelled request is superseded, and the
/// open file must still be at the revision it was expected to have.
pub fn hashing_may_start(cancelled: bool, before: &FileRevision, expected: &FileRevision) -> (r:
    Result<(), IntegrityError>)
    ensures
        cancelled ==> r matches Err(IntegrityError::Cancelled),
        !cancelled && *before != *expected ==> r matches Err(IntegrityError::Changed),
        !cancelled && *before == *expected ==> r is Ok,
{
    if cancelled {
        return Err(IntegrityError::Cancelled);
    }
    if *before != *expected {
        return Err(IntegrityError::Changed);
    }
    Ok(())
}

/// The digest of a hashed file, kept only when the file's revision did not
/// move while it was read and the request was not cancelled meanwhile.
pub fn hashed_digest(
    digest: ContentDigest,
    before: &FileRevision,
    after: &FileRevision,
    cancelled: bool,
) -> (r: Result<ContentDigest, IntegrityError>)
    ensures
        *after != *before ==> r matches Err(IntegrityError::Changed),
        *after == *before && cancelled ==> r matches Err(IntegrityError::Cancelled),
        *after == *before && !cancelled ==> (r matches Ok(d) && d.bytes@ == digest.bytes@),
{
    if *after != *before {
        return Err(IntegrityError::Changed);
    }
    if cancelled {
        return Err(IntegrityError::Cancelled);
    }
    Ok(digest)
}

/// What preparing a plan concludes once the content has been hashed and
/// the file read again through the retained handle and through its path:
/// the digest when the hash succeeded, the retained file is still at the
/// planned revision and the path still leads to it; otherwise the reason.
pub fn planning_outcome(
    hashed: Result<ContentDigest, IntegrityError>,
    anchored: &FileRevision,
    rebound: &FileRevision,
    expected: &FileRevision,
) -> (r: Result<ContentDigest, String>)
    ensures
        match hashed {
            Err(error) => (r matches Err(message) && message@ == match error {
                IntegrityError::Cancelled => "Compression planning was superseded by a newer request."@,
                IntegrityError::Changed => "The file changed while its content was being anchored; rescan before planning."@,
                IntegrityError::Io(detail) => "The file content could not be read safely for planning: "@
                    + detail@ + "."@,
            }),
            Ok(digest) => if *anchored != *expected {
                r matches Err(message) && message@
                    == "The file changed while its compression plan was being prepared; rescan before planning."@
            } else if *rebound != *anchored {
                r matches Err(message) && message@
                    == "The file path changed while its compression plan was being prepared; rescan before planning."@
            } else {
                r matches Ok(d) && d.bytes@ == digest.bytes@
            },
        },
{
    let digest = match hashed {
        Ok(digest) => digest,
        Err(error) => {
            return Err(prepare_integrity_error(error));
        },
    };
    if *anchored != *expected {
        return Err(
            "The file changed while its compression plan was being prepared; rescan before planning.".to_string(),
        );
    }
    if *rebound != *anchored {
        return Err(
            "The file path changed while its compression plan was being prepared; rescan before planning.".to_string(),
        );
    }
    Ok(digest)
}

/// The last step of revalidation: after hashing, the path must still lead
/// to the retained file; then the plan is valid.
pub fn rebinding_verdict(plan_id: u64, rebound_after_hash: &FileRevision, anchored: &FileRevision) -> (v:
    PlanValidation)
    ensures
        v.plan_id == plan_id,
        (v.status == PlanValidationStatus::Valid) == (*rebound_after_hash == *anchored),
        *rebound_after_hash == *anchored ==> v.detail@
            == "The retained file content, metadata, and current path binding still match this plan."@,
        *rebound_after_hash != *anchored ==> v.status == PlanValidationStatus::Changed && v.detail@
            == "The path changed while its content was being validated; discard this plan and rescan."@,
{
    if *rebound_after_hash != *anchored {
        return PlanValidation {
            plan_id,
            status: PlanValidationStatus::Changed,
            detail: "The path changed while its content was being validated; discard this plan and rescan.".to_string(),
        };
    }
    PlanValidation {
        plan_id,
        status: PlanValidationStatus::Valid,
        detail: "The retained file content, metadata, and current path binding still match this plan.".to_string(),
    }
}

/// The status and detail a revalidation answers, from everything it reads:
/// the first check that fails decides; a plan that passes every check is
/// valid.
pub open spec fn revalidation_verdict(
    rebound: FileRevision,
    anchored: FileRevision,
    planned: FileRevision,
    hashed: Result<ContentDigest, IntegrityError>,
    planned_digest: ContentDigest,
    rebound_after_hash: FileRevision,
) -> (PlanValidationStatus, Seq<char>) {
    if rebound != anchored {
        (
            PlanValidationStatus::Changed,
            "The path now refers to a different file; discard this plan and rescan."@,
        )
    } else if anchored != planned {
        (PlanValidationStatus::Changed, "The retained file changed; discard this plan and rescan."@)
    } else {
        match hashed {
            Err(IntegrityError::Cancelled) => (
                PlanValidationStatus::Unavailable,
                "Plan validation was superseded by a newer request."@,
            ),
            Err(IntegrityError::Changed) => (
                PlanValidationStatus::Changed,
                "The retained file changed while its content was being validated; discard this plan and rescan."@,
            ),
            Err(IntegrityError::Io(detail)) => (
                PlanValidationStatus::Unavailable,
                "The retained file content could not be read: "@ + detail@ + "."@,
            ),
            Ok(digest) => if digest.bytes@ != planned_digest.bytes@ {
                (
                    PlanValidationStatus::Changed,
                    "The retained file content changed; discard this plan and rescan."@,
                )
            } else if rebound_after_hash != anchored {
                (
                    PlanValidationStatus::Changed,
                    "The path changed while its content was being validated; discard this plan and rescan."@,
                )
            } else {
                (
                    PlanValidationStatus::Valid,
                    "The retained file content, metadata, and current path binding still match this plan."@,
                )
            },
        }
    }
}

/// The verdict of a revalidation from everything it reads: the path's and
/// the retained file's revisions before hashing, the hash of the retained
/// content, and the path's revision after hashing. A plan is valid exactly
/// when the path leads to the retained file before and after hashing, the
/// retained file is at the planned revision and its content hashes to the
/// planned digest.
pub fn revalidation_outcome(
    plan_id: u64,
    rebound: &FileRevision,
    anchored: &FileRevision,
    planned: &FileRevision,
    hashed: Result<ContentDigest, IntegrityError>,
    planned_digest: &ContentDigest,
    rebound_after_hash: &FileRevision,
) -> (v: PlanValidation)
    ensures
        v.plan_id == plan_id,
        (v.status, v.detail@) == revalidation_verdict(
            *rebound,
            *anchored,
            *planned,
            hashed,
            *planned_digest,
            *rebound_after_hash,
        ),
        (v.status == PlanValidationStatus::Valid) == (*rebound == *anchored && *anchored == *planned
            && (hashed matches Ok(d) && d.bytes@ == planned_digest.bytes@) && *rebound_after_hash
            == *anchored),
{
    if let Some(outcome) = binding_outcome(plan_id, rebound, anchored, planned) {
        return outcome;
    }
    if let Some(outcome) = digest_outcome(plan_id, hashed, planned_digest) {
        return outcome;
    }
    rebinding_verdict(plan_id, rebound_after_hash, anchored)
}

/// Wraps an I/O error's text in the validation message.
fn content_read_failure(detail: &str) -> (message: String)
    ensures
        message@ == "The retained file content could not be read: "@ + detail@ + "."@,
{
    let mut message = "The retained file content could not be read: ".to_string();
    message.append(detail);
    message.append(".");
    message
}

#[verifier::external_type_specification]
#[verifier::external_body]
pub struct ExBlake3Hasher(blake3::Hasher);

/// The bytes a BLAKE3 hasher has absorbed since it was created.
pub uninterp spec fn absorbed(hasher: blake3::Hasher) -> Seq<u8>;

/// The BLAKE3 hash of some bytes.
pub uninterp spec fn blake3_hash(input: Seq<u8>) -> Seq<u8>;

/// Calls `blake3::Hasher::new`, which has absorbed nothing.
#[verifier::external_body]
fn hasher_new() -> (hasher: blake3::Hasher)
    ensures
        absorbed(hasher) == Seq::<u8>::empty(),
{
    blake3::Hasher::new()
}

/// Calls `blake3::Hasher::update`, which absorbs the bytes after those
/// absorbed before.
#[verifier::external_body]
fn hasher_update(hasher: &mut blake3::Hasher, input: &[u8])
    ensures
        absorbed(*final(hasher)) == absorbed(*old(hasher)) + input@,
{
    hasher.update(input);
}

/// Calls `blake3::Hasher::finalize`, which returns the hash of everything
/// absorbed.
#[verifier::external_body]
fn hasher_finalize(hasher: &blake3::Hasher) -> (digest: ContentDigest)
    ensures
        digest.bytes@ == blake3_hash(absorbed(*hasher)),
{
    ContentDigest { bytes: *hasher.finalize().as_bytes() }
}

/// Hashes a file's content chunk by chunk as it is read: it asks for the
/// next chunk, absorbs what was read, and refuses a read that ended early.
pub struct ContentHasher {
    hasher: blake3::Hasher,
    offset: u64,
    logical_bytes: u64,
    content: Ghost<Seq<u8>>,
}

impl ContentHasher {
    /// The content absorbed so far.
    pub closed spec fn spec_content(self) -> Seq<u8> {
        self.content@
    }

    /// How many bytes have been absorbed.
    pub closed spec fn spec_offset(self) -> u64 {
        self.offset
    }

    /// How many bytes the file holds.
    pub closed spec fn spec_logical_bytes(self) -> u64 {
        self.logical_bytes
    }

    /// The hasher agrees with what it has absorbed.
    pub closed spec fn wf(self) -> bool {
        &&& absorbed(self.hasher) == self.content@
        &&& self.content@.len() == self.offset
        &&& self.offset <= self.logical_bytes
    }

    /// A hasher for a file of this size.
    pub fn new(logical_bytes: u64) -> (hasher: Self)
        ensures
            hasher.wf(),
            hasher.spec_content() == Seq::<u8>::empty(),
            hasher.spec_offset() == 0,
            hasher.spec_logical_bytes() == logical_bytes,
    {
        ContentHasher { hasher: hasher_new(), offset: 0, logical_bytes, content: Ghost(Seq::empty()) }
    }

    /// The offset and length of the next read, or `None` once the whole file
    /// is absorbed.
    pub fn next_read(&self) -> (next: Option<(u64, usize)>)
        requires
            self.wf(),
        ensures
            match next {
                Some((offset, length)) => offset == self.spec_offset() && offset
                    < self.spec_logical_bytes() && length == (if self.spec_logical_bytes() - offset
                    < CONTENT_HASH_CHUNK_BYTES {
                    self.spec_logical_bytes() - offset
                } else {
                    CONTENT_HASH_CHUNK_BYTES as int
                }),
                None => self.spec_offset() == self.spec_logical_bytes(),
            },
    {
        if self.offset >= self.logical_bytes {
            return None;
        }
        let remaining = self.logical_bytes - self.offset;
        let length = if remaining < CONTENT_HASH_CHUNK_BYTES as u64 {
            remaining as usize
        } else {
            CONTENT_HASH_CHUNK_BYTES
        };
        Some((self.offset, length))
    }

    /// Absorbs the bytes of one read; an empty read means the file ended
    /// while its content was being read.
    pub fn absorb(&mut self, chunk: &[u8]) -> (r: Result<(), IntegrityError>)
        requires
            old(self).wf(),
            old(self).spec_offset() + chunk@.len() <= old(self).spec_logical_bytes(),
        ensures
            final(self).wf(),
            final(self).spec_logical_bytes() == old(self).spec_logical_bytes(),
            chunk@.len() == 0 ==> (r matches Err(IntegrityError::Io(_))) && final(self).spec_content()
                == old(self).spec_content(),
            chunk@.len() > 0 ==> r is Ok && final(self).spec_content() == old(self).spec_content()
                + chunk@,
    {
        if chunk.len() == 0 {
            return Err(IntegrityError::Io("the file ended while its content was being read".to_string()));
        }
        hasher_update(&mut self.hasher, chunk);
        self.offset = self.offset + chunk.len() as u64;
        self.content = Ghost(self.content@ + chunk@);
        Ok(())
    }

    /// The digest of everything absorbed.
    pub fn finish(&self) -> (digest: ContentDigest)
        requires
            self.wf(),
        ensures
            digest.bytes@ == blake3_hash(self.spec_content()),
    {
        hasher_finalize(&self.hasher)
    }
}

} // verus!
