//! The decisions of the Linux statx traversal: what one `statx` result
//! contributes, whether a folder opened for reading is still the folder that
//! was listed, and how a measured entry joins the tree.
use vstd::prelude::*;
use crate::arena::{FileIdentity, MeasuredMetadata, node_pushed, sat_add};
use crate::ranking::partial_observed;
use crate::revision::{ScannedFileRevision, spec_revision_from_unix};
use crate::types::EntryKind;
use crate::walk::{TreeBuilder, bump};
use crate::arena::ScanCounters;

verus! {

/// The fields of the basic statistics and the mount id that a traversal
/// asks `statx` for.
pub const STATX_REQUEST: u32 = 0x17ff;
/// The file-type bits of a mode.
pub const S_IFMT: u16 = 0o170000;
/// The file type of a folder.
pub const S_IFDIR: u16 = 0o040000;
/// The file type of a regular file.
pub const S_IFREG: u16 = 0o100000;
/// The file type of a symbolic link.
pub const S_IFLNK: u16 = 0o120000;

/// What `statx` reported for one entry, read without following links or
/// triggering automounts.
#[derive(Clone, Copy, Debug)]
pub struct StatxFields {
    pub mask: u32,
    pub mode: u16,
    pub size: u64,
    pub blocks: u64,
    pub link_count: u32,
    pub inode: u64,
    pub device_major: u32,
    pub device_minor: u32,
    pub mount_id: u64,
    pub modified_seconds: i64,
    pub modified_nanoseconds: u32,
    pub changed_seconds: i64,
    pub changed_nanoseconds: u32,
}

/// The identity a folder had when it was listed, checked again when it is
/// opened for reading.
#[derive(Clone, Copy, Debug, PartialEq, Eq, Structural)]
pub struct DirectoryIdentity {
    pub device_major: u32,
    pub device_minor: u32,
    pub inode: u64,
    pub mount_id: u64,
}

/// One measured entry of a folder listing.
#[derive(Clone, Debug)]
pub struct StatxEntry {
    pub name: Vec<u8>,
    pub kind: EntryKind,
    pub measured: MeasuredMetadata,
    pub mount_boundary: bool,
    pub directory_identity: Option<DirectoryIdentity>,
}

/// Whether `statx` returned every field the traversal needs.
pub open spec fn spec_has_required_fields(stat: StatxFields) -> bool {
    stat.mask & STATX_REQUEST == STATX_REQUEST
}

/// Reports whether `statx` returned every field the traversal needs.
pub fn has_required_fields(stat: &StatxFields) -> (complete: bool)
    ensures
        complete == spec_has_required_fields(*stat),
{
    stat.mask & STATX_REQUEST == STATX_REQUEST
}

/// The kind of an entry from its mode; a link is never followed.
pub open spec fn spec_mode_kind(mode: u16) -> EntryKind {
    let file_type = mode & S_IFMT;
    if file_type == S_IFDIR {
        EntryKind::Directory
    } else if file_type == S_IFLNK {
        EntryKind::Symlink
    } else if file_type == S_IFREG {
        EntryKind::File
    } else {
        EntryKind::Other
    }
}

/// Classifies an entry by the file-type bits of its mode.
pub fn mode_kind(mode: u16) -> (kind: EntryKind)
    ensures
        kind == spec_mode_kind(mode),
{
    let file_type = mode & S_IFMT;
    if file_type == S_IFDIR {
        EntryKind::Directory
    } else if file_type == S_IFLNK {
        EntryKind::Symlink
    } else if file_type == S_IFREG {
        EntryKind::File
    } else {
        EntryKind::Other
    }
}

/// The device identity of an entry: major in the high half, minor in the
/// low half.
pub open spec fn spec_device_id(stat: StatxFields) -> u64 {
    (stat.device_major as int * 4294967296 + stat.device_minor as int) as u64
}

/// Combines the device numbers of an entry.
pub fn device_id(stat: &StatxFields) -> (id: u64)
    ensures
        id == spec_device_id(*stat),
{
    crate::revision::combine_device_id(stat.device_major, stat.device_minor)
}

/// The identity recorded for a folder that will be read later.
pub open spec fn spec_directory_identity(stat: StatxFields) -> DirectoryIdentity {
    DirectoryIdentity {
        device_major: stat.device_major,
        device_minor: stat.device_minor,
        inode: stat.inode,
        mount_id: stat.mount_id,
    }
}

impl DirectoryIdentity {
    /// Whether a freshly opened folder is the one that was listed: complete
    /// statistics of a folder with the same device, inode and mount.
    pub open spec fn spec_matches(self, opened: StatxFields) -> bool {
        &&& spec_has_required_fields(opened)
        &&& spec_mode_kind(opened.mode) == EntryKind::Directory
        &&& spec_directory_identity(opened) == self
    }

    /// Checks a freshly opened folder against the listed identity.
    pub fn matches(self, opened: &StatxFields) -> (same: bool)
        ensures
            same == self.spec_matches(*opened),
    {
        has_required_fields(opened) && mode_kind(opened.mode) == EntryKind::Directory
            && self.device_major == opened.device_major && self.device_minor
            == opened.device_minor && self.inode == opened.inode && self.mount_id
            == opened.mount_id
    }
}

/// What a listed entry contributes. Without complete statistics it is a
/// measurement failure, a folder when the listing said so; otherwise only a
/// regular file has bytes, an identity shared with its other hard links and
/// a revision, a folder on another mount is a boundary, and any other folder
/// carries the identity under which it will be read.
pub open spec fn spec_statx_entry(
    listed_as_directory: bool,
    root_mount_id: u64,
    stat: Option<StatxFields>,
) -> (EntryKind, MeasuredMetadata, bool, Option<DirectoryIdentity>) {
    if stat is Some && spec_has_required_fields(stat->0) {
        let stat = stat->0;
        let kind = spec_mode_kind(stat.mode);
        let is_file = kind == EntryKind::File;
        let device = spec_device_id(stat);
        let boundary = kind == EntryKind::Directory && stat.mount_id != root_mount_id;
        (
            kind,
            MeasuredMetadata {
                logical_bytes: if is_file {
                    stat.size
                } else {
                    0
                },
                allocated_bytes: if is_file {
                    sat_mul_512(stat.blocks)
                } else {
                    0
                },
                filesystem_id: Some(device),
                file_identity: if is_file && stat.link_count > 1 {
                    Some(FileIdentity(device, stat.inode))
                } else {
                    None
                },
                scan_revision: if is_file {
                    spec_revision_from_unix(
                        device,
                        stat.inode,
                        stat.modified_seconds as int,
                        stat.modified_nanoseconds as int,
                        stat.changed_seconds as int,
                        stat.changed_nanoseconds as int,
                    )
                } else {
                    None
                },
                metadata_error: false,
            },
            boundary,
            if kind == EntryKind::Directory && !boundary {
                Some(spec_directory_identity(stat))
            } else {
                None
            },
        )
    } else {
        (
            if listed_as_directory {
                EntryKind::Directory
            } else {
                EntryKind::Other
            },
            MeasuredMetadata {
                logical_bytes: 0,
                allocated_bytes: 0,
                filesystem_id: None,
                file_identity: None,
                scan_revision: None,
                metadata_error: true,
            },
            false,
            None,
        )
    }
}

/// A regular file measures its size and its 512-byte blocks, and one with
/// another hard link is known by its device and inode, so that every path to
/// it measures as the same file and its bytes count once; a file with a
/// single link has no identity. The device is the major number in the
/// high half and the minor number in the low half, so two paths to one
/// inode on one device carry equal identities.
pub proof fn lemma_statx_hard_link_identity(
    listed_as_directory: bool,
    root_mount_id: u64,
    stat: StatxFields,
    other: StatxFields,
)
    requires
        spec_has_required_fields(stat),
        stat.mode & S_IFMT == S_IFREG,
    ensures
        spec_statx_entry(listed_as_directory, root_mount_id, Some(stat)).1.file_identity == (if stat.link_count
            >= 2 {
            Some(
                FileIdentity(
                    (stat.device_major as int * 4294967296 + stat.device_minor as int) as u64,
                    stat.inode,
                ),
            )
        } else {
            None
        }),
        spec_statx_entry(listed_as_directory, root_mount_id, Some(stat)).1.logical_bytes == stat.size,
        spec_statx_entry(listed_as_directory, root_mount_id, Some(stat)).1.allocated_bytes == (if stat.blocks
            * 512 > u64::MAX {
            u64::MAX as int
        } else {
            stat.blocks * 512
        }),
        spec_has_required_fields(other) && other.mode & S_IFMT == S_IFREG && other.link_count >= 2
            && stat.link_count >= 2 ==> (spec_statx_entry(
            listed_as_directory,
            root_mount_id,
            Some(stat),
        ).1.file_identity == spec_statx_entry(
            listed_as_directory,
            root_mount_id,
            Some(other),
        ).1.file_identity <==> (stat.device_major == other.device_major && stat.device_minor
            == other.device_minor && stat.inode == other.inode)),
{
    assert(spec_mode_kind(stat.mode) == EntryKind::File);
    if spec_has_required_fields(other) && other.mode & S_IFMT == S_IFREG {
        assert(spec_mode_kind(other.mode) == EntryKind::File);
    }
}

/// A block count in bytes, saturating.
pub open spec fn sat_mul_512(blocks: u64) -> u64 {
    if blocks * 512 > u64::MAX {
        u64::MAX
    } else {
        (blocks * 512) as u64
    }
}

/// Measures one listed entry from its `statx` result, or records that it
/// could not be measured.
pub fn statx_entry(
    name: Vec<u8>,
    listed_as_directory: bool,
    root_mount_id: u64,
    stat: Option<StatxFields>,
) -> (entry: StatxEntry)
    ensures
        entry.name@ == name@,
        (entry.kind, entry.measured, entry.mount_boundary, entry.directory_identity)
            == spec_statx_entry(listed_as_directory, root_mount_id, stat),
{
    let complete = match stat {
        Some(fields) => has_required_fields(&fields),
        None => false,
    };
    if !complete {
        return StatxEntry {
            name,
            kind: if listed_as_directory {
                EntryKind::Directory
            } else {
                EntryKind::Other
            },
            measured: MeasuredMetadata::failed(),
            mount_boundary: false,
            directory_identity: None,
        };
    }
    let stat = stat.unwrap();
    let kind = mode_kind(stat.mode);
    let is_file = kind == EntryKind::File;
    let device = device_id(&stat);
    let boundary = kind == EntryKind::Directory && stat.mount_id != root_mount_id;
    let scan_revision = if is_file {
        ScannedFileRevision::from_unix_parts(
            device,
            stat.inode,
            stat.modified_seconds,
            stat.modified_nanoseconds as i64,
            stat.changed_seconds,
            stat.changed_nanoseconds as i64,
        )
    } else {
        None
    };
    StatxEntry {
        name,
        kind,
        measured: MeasuredMetadata {
            logical_bytes: if is_file {
                stat.size
            } else {
                0
            },
            allocated_bytes: if is_file {
                crate::revision::saturating_mul_u64(stat.blocks, 512)
            } else {
                0
            },
            filesystem_id: Some(device),
            file_identity: if is_file && stat.link_count > 1 {
                Some(FileIdentity(device, stat.inode))
            } else {
                None
            },
            scan_revision,
            metadata_error: false,
        },
        mount_boundary: boundary,
        directory_identity: if kind == EntryKind::Directory && !boundary {
            Some(
                DirectoryIdentity {
                    device_major: stat.device_major,
                    device_minor: stat.device_minor,
                    inode: stat.inode,
                    mount_id: stat.mount_id,
                },
            )
        } else {
            None
        },
    }
}

/// What ingesting a listed entry did.
#[derive(Clone, Copy, Debug, PartialEq, Eq, Structural)]
pub enum NativeStep {
    /// A cloud-only entry, counted and not read.
    Cloud,
    /// An entry that could not be read or measured, counted as skipped.
    Skipped,
    /// A name that stands for the folder itself or its parent.
    Ignored,
    /// An entry on another filesystem, counted and left out.
    OtherFilesystem,
    /// A new node with this id that is not read further.
    Added(usize),
    /// A new folder node with this id whose children are to be read.
    Descend(usize),
}

/// The counters after a statx entry's own skips: a measurement failure and
/// a folder on another mount.
pub open spec fn statx_counted(before: ScanCounters, entry: StatxEntry) -> ScanCounters {
    ScanCounters {
        skipped_entries: bump(before.skipped_entries, entry.measured.metadata_error),
        skipped_filesystems: bump(
            before.skipped_filesystems,
            entry.kind == EntryKind::Directory && entry.mount_boundary,
        ),
        ..before
    }
}

/// Ingests one listed entry under its folder. An unmeasured entry that is
/// not a folder is only counted as skipped; an unmeasured folder is counted
/// and kept as an empty folder; a folder on another mount is counted and
/// not read; a folder with a listed identity is to be read.
#[verifier::rlimit(30)]
pub fn ingest_statx(tree: &mut TreeBuilder, parent: usize, entry: StatxEntry) -> (step: NativeStep)
    requires
        old(tree).wf(),
        parent < old(tree).spec_nodes().len(),
        old(tree).spec_nodes().len() < usize::MAX,
    ensures
        final(tree).wf(),
        final(tree).spec_ancestors() == old(tree).spec_ancestors(),
        final(tree).spec_root_filesystem() == old(tree).spec_root_filesystem(),
        entry.measured.metadata_error && entry.kind != EntryKind::Directory ==> {
            &&& step == NativeStep::Skipped
            &&& final(tree).spec_counters() == (ScanCounters {
                skipped_entries: bump(old(tree).spec_counters().skipped_entries, true),
                ..old(tree).spec_counters()
            })
            &&& final(tree).spec_nodes() == old(tree).spec_nodes()
            &&& final(tree).spec_partial() == old(tree).spec_partial()
        },
        !(entry.measured.metadata_error && entry.kind != EntryKind::Directory) ==> {
            let n = old(tree).spec_nodes().len() as usize;
            &&& step == (if entry.kind == EntryKind::Directory && !entry.mount_boundary
                && entry.directory_identity is Some {
                NativeStep::Descend(n)
            } else {
                NativeStep::Added(n)
            })
            &&& exists|r: (usize, Option<usize>)|
                r.0 == n && #[trigger] node_pushed(
                    statx_counted(old(tree).spec_counters(), entry),
                    final(tree).spec_counters(),
                    old(tree).spec_nodes(),
                    final(tree).spec_nodes(),
                    parent,
                    entry.name@,
                    entry.kind,
                    entry.measured,
                    r,
                )
            &&& partial_observed(
                old(tree).spec_partial(),
                final(tree).spec_partial(),
                final(tree).spec_nodes(),
                n,
            )
        },
{
    if entry.measured.metadata_error && entry.kind != EntryKind::Directory {
        tree.skip_unreadable();
        return NativeStep::Skipped;
    }
    if entry.measured.metadata_error {
        tree.skip_unreadable();
    }
    let descend = entry.kind == EntryKind::Directory && !entry.mount_boundary
        && entry.directory_identity.is_some();
    if entry.kind == EntryKind::Directory && entry.mount_boundary {
        tree.skip_other_filesystem();
    }
    let ghost counted = tree.spec_counters();
    let ghost name = entry.name@;
    assert(counted == statx_counted(old(tree).spec_counters(), entry));
    let node_id = tree.add_child(parent, entry.name, entry.kind, entry.measured);
    if descend {
        NativeStep::Descend(node_id)
    } else {
        NativeStep::Added(node_id)
    }
}

/// Why a folder could not be read.
#[derive(Clone, Copy, Debug, PartialEq, Eq, Structural)]
pub enum ReadFailure {
    /// The traversal was cancelled while the folder was read.
    Cancelled,
    /// The folder could not be opened or listed.
    Unreadable,
}

/// What a folder that could not be read does to the traversal.
#[derive(Clone, Copy, Debug, PartialEq, Eq, Structural)]
pub enum FailureAction {
    /// Stop: the scan was cancelled.
    StopCancelled,
    /// Stop: the root itself could not be read.
    StopUnreadableRoot,
    /// Count the folder as skipped and go on.
    CountSkipped,
}

/// A cancelled read stops the scan; an unreadable root stops it with the
/// root's error; any other unreadable folder is counted as skipped.
pub fn failure_action(parent_id: usize, failure: ReadFailure) -> (action: FailureAction)
    ensures
        failure == ReadFailure::Cancelled ==> action == FailureAction::StopCancelled,
        failure == ReadFailure::Unreadable && parent_id == 0 ==> action
            == FailureAction::StopUnreadableRoot,
        failure == ReadFailure::Unreadable && parent_id != 0 ==> action
            == FailureAction::CountSkipped,
{
    match failure {
        ReadFailure::Cancelled => FailureAction::StopCancelled,
        ReadFailure::Unreadable => if parent_id == 0 {
            FailureAction::StopUnreadableRoot
        } else {
            FailureAction::CountSkipped
        },
    }
}

} // verus!
