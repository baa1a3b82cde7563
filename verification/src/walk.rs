//! Building the scan tree from a depth-first walk of the root, and turning
//! the aggregated tree into the scan's result and retained snapshot.
use vstd::prelude::*;
use crate::arena::{
    FileIdentity, HardLinkOwner, InternalNode, MeasuredMetadata, ScanCounters, arena_wf,
    child_links, file_identity_key, identity_key, node_pushed, parent_links, sat_add, sat_sub,
};
use crate::revision::{
    ScannedFileRevision, linux_revision_filesystem_id, saturating_mul_u64, spec_device_major,
    spec_device_minor, spec_revision_from_unix,
};
use crate::compression::BTRFS_SUPER_MAGIC;
use crate::ranking::{PartialRanking, observe_partial_file, partial_observed};
use crate::snapshot::ScanSnapshot;
use crate::text::{lossy_text, text_bytes, utf8_lossy};
use crate::types::{EntryKind, ScanPhase, ScanProgress, ScanResult};

verus! {

broadcast use vstd::std_specs::hash::group_hash_axioms;

/// One entry yielded by a depth-first walk of the scan root. `metadata` is
/// `None` when the entry could not be measured at all.
#[derive(Clone, Debug)]
pub struct WalkEntry {
    pub depth: usize,
    pub name: Vec<u8>,
    pub is_dir: bool,
    pub is_symlink: bool,
    pub is_file: bool,
    pub metadata: Option<MeasuredMetadata>,
    pub read_children_error: bool,
}

/// The Unix metadata of one entry, read without following links.
#[derive(Clone, Copy, Debug)]
pub struct UnixMetadata {
    pub length: u64,
    pub blocks: u64,
    pub device: u64,
    pub inode: u64,
    pub link_count: u64,
    pub modified_seconds: i64,
    pub modified_nanoseconds: i64,
    pub changed_seconds: i64,
    pub changed_nanoseconds: i64,
}

/// The device identity that revisions record on Linux: major in the high
/// half, minor in the low half.
pub open spec fn spec_revision_device(device: u64) -> u64 {
    (spec_device_major(device) as int * 4294967296 + spec_device_minor(device) as int) as u64
}

/// What an entry's metadata contributes: only a regular file has bytes, an
/// identity shared with other hard links (when it has more than one link)
/// and a revision; every entry reports its device.
pub open spec fn spec_measure_unix(metadata: UnixMetadata, is_file: bool) -> MeasuredMetadata {
    MeasuredMetadata {
        logical_bytes: if is_file {
            metadata.length
        } else {
            0
        },
        allocated_bytes: if is_file {
            if metadata.blocks * 512 > u64::MAX {
                u64::MAX
            } else {
                (metadata.blocks * 512) as u64
            }
        } else {
            0
        },
        filesystem_id: Some(metadata.device),
        file_identity: if is_file && metadata.link_count > 1 {
            Some(FileIdentity(metadata.device, metadata.inode))
        } else {
            None
        },
        scan_revision: if is_file {
            spec_revision_from_unix(
                spec_revision_device(metadata.device),
                metadata.inode,
                metadata.modified_seconds as int,
                metadata.modified_nanoseconds as int,
                metadata.changed_seconds as int,
                metadata.changed_nanoseconds as int,
            )
        } else {
            None
        },
        metadata_error: false,
    }
}

/// A regular file with another hard link is known by its device and inode,
/// so that every path to it measures as the same file and its bytes count
/// once; a file with a single link, or anything but a file, has no
/// identity. Two paths carry equal identities exactly when they name one
/// inode on one device.
pub proof fn lemma_unix_hard_link_identity(metadata: UnixMetadata, other: UnixMetadata, is_file: bool)
    ensures
        spec_measure_unix(metadata, is_file).file_identity == (if is_file && metadata.link_count >= 2 {
            Some(FileIdentity(metadata.device, metadata.inode))
        } else {
            None
        }),
        is_file && metadata.link_count >= 2 && other.link_count >= 2 ==> (spec_measure_unix(
            metadata,
            true,
        ).file_identity == spec_measure_unix(other, true).file_identity <==> (metadata.device
            == other.device && metadata.inode == other.inode)),
{
}

/// Measures one entry from its Unix metadata.
pub fn measure_unix_metadata(metadata: UnixMetadata, is_file: bool) -> (measured: MeasuredMetadata)
    ensures
        measured == spec_measure_unix(metadata, is_file),
{
    let scan_revision = if is_file {
        ScannedFileRevision::from_unix_parts(
            linux_revision_filesystem_id(metadata.device),
            metadata.inode,
            metadata.modified_seconds,
            metadata.modified_nanoseconds,
            metadata.changed_seconds,
            metadata.changed_nanoseconds,
        )
    } else {
        None
    };
    MeasuredMetadata {
        logical_bytes: if is_file {
            metadata.length
        } else {
            0
        },
        allocated_bytes: if is_file {
            saturating_mul_u64(metadata.blocks, 512)
        } else {
            0
        },
        filesystem_id: Some(metadata.device),
        file_identity: if is_file && metadata.link_count > 1 {
            Some(FileIdentity(metadata.device, metadata.inode))
        } else {
            None
        },
        scan_revision,
        metadata_error: false,
    }
}

/// Whether a filesystem's reported allocation is only an estimate: Btrfs
/// reports the uncompressed extent length of compressed data.
pub fn allocation_is_estimate(filesystem_type: i64) -> (estimate: bool)
    ensures
        estimate == (filesystem_type == BTRFS_SUPER_MAGIC),
{
    filesystem_type == BTRFS_SUPER_MAGIC
}

/// The kind of an entry; a link is never followed, so a link to a folder is
/// a link.
pub open spec fn spec_entry_kind(is_dir: bool, is_symlink: bool, is_file: bool) -> EntryKind {
    if is_dir {
        EntryKind::Directory
    } else if is_symlink {
        EntryKind::Symlink
    } else if is_file {
        EntryKind::File
    } else {
        EntryKind::Other
    }
}

/// Classifies an entry from its unfollowed file type.
pub fn entry_kind(is_dir: bool, is_symlink: bool, is_file: bool) -> (kind: EntryKind)
    ensures
        kind == spec_entry_kind(is_dir, is_symlink, is_file),
{
    if is_dir {
        EntryKind::Directory
    } else if is_symlink {
        EntryKind::Symlink
    } else if is_file {
        EntryKind::File
    } else {
        EntryKind::Other
    }
}

/// Whether the walk may read the children of an entry: a folder is read only
/// when it is on the root's filesystem, or when the root's filesystem is
/// unknown.
pub fn descends_into(is_dir: bool, root_filesystem: Option<u64>, filesystem_id: Option<u64>) -> (descend:
    bool)
    ensures
        descend == !(is_dir && root_filesystem is Some && filesystem_id != root_filesystem),
{
    !(is_dir && root_filesystem.is_some() && filesystem_id != root_filesystem)
}

/// Whether a folder entry lies on a filesystem other than the root's, both
/// being known.
pub open spec fn spec_other_filesystem(
    is_dir: bool,
    root_filesystem: Option<u64>,
    filesystem_id: Option<u64>,
) -> bool {
    is_dir && match (root_filesystem, filesystem_id) {
        (Some(root_id), Some(entry_id)) => root_id != entry_id,
        _ => false,
    }
}

/// What ingesting one walk entry did.
#[derive(Clone, Copy, Debug, PartialEq, Eq, Structural)]
pub enum IngestStep {
    /// The root itself, which is already in the tree.
    Root,
    /// An entry that could not be measured and was counted as skipped.
    Skipped,
    /// A new node with this id.
    Added(usize),
    /// An entry deeper than the folders seen so far: the walk was not
    /// depth-first.
    MissingParent,
}

/// Adds one, saturating.
pub open spec fn bump(count: u64, by: bool) -> u64 {
    if by {
        sat_add(count as int, 1)
    } else {
        count
    }
}

fn bump_exec(count: u64, by: bool) -> (r: u64)
    ensures
        r == bump(count, by),
{
    if by {
        count.saturating_add(1)
    } else {
        count
    }
}

/// The counters after an entry's own errors and a crossing into another
/// filesystem are counted.
pub open spec fn counted_entry(
    before: ScanCounters,
    entry: WalkEntry,
    root_filesystem: Option<u64>,
) -> ScanCounters {
    let measured = entry.metadata.unwrap();
    ScanCounters {
        skipped_entries: bump(
            bump(before.skipped_entries, measured.metadata_error),
            entry.read_children_error,
        ),
        skipped_filesystems: bump(
            before.skipped_filesystems,
            spec_other_filesystem(entry.is_dir, root_filesystem, measured.filesystem_id),
        ),
        ..before
    }
}

/// What applying a streamed file measurement did.
#[derive(Clone, Copy, Debug, PartialEq, Eq, Structural)]
pub enum MeasurementStep {
    /// The measurement failed and was counted as skipped.
    Skipped,
    /// The file's bytes were recorded.
    Measured,
    /// The file's bytes were recorded and it has other hard links to find.
    Linked,
}

/// The node after a streamed measurement: its bytes and retained revision.
pub open spec fn measured_node(
    node: InternalNode,
    measured: MeasuredMetadata,
    revision: Option<crate::revision::CompactScannedFileRevision>,
) -> InternalNode {
    InternalNode {
        logical_bytes: measured.logical_bytes,
        allocated_bytes: measured.allocated_bytes,
        scan_revision: revision,
        ..node
    }
}

/// The scan tree under construction: the arena, the chain of open folders
/// by depth, the counters and the running ranking of the largest files.
#[derive(Debug)]
pub struct TreeBuilder {
    nodes: Vec<InternalNode>,
    ancestors: Vec<usize>,
    counters: ScanCounters,
    partial: PartialRanking,
    root_filesystem: Option<u64>,
}

impl TreeBuilder {
    /// The tree is a well-formed arena consistent with the counters, the
    /// ranking and the open folders.
    pub closed spec fn wf(self) -> bool {
        &&& arena_wf(self.nodes@)
        &&& self.nodes@.len() <= u64::MAX
        &&& self.counters.inv(self.nodes@)
        &&& self.partial.inv()
        &&& forall|k: int|
            0 <= k < self.partial.candidates@.len() ==> #[trigger] self.partial.candidates@[k].node_id
                < self.nodes@.len()
        &&& forall|k: int| 0 <= k < self.ancestors@.len() ==> (#[trigger] self.ancestors@[k] as int)
            < self.nodes@.len()
    }

    /// The arena built so far.
    pub closed spec fn spec_nodes(self) -> Seq<InternalNode> {
        self.nodes@
    }

    /// The open folders by depth, the root first.
    pub closed spec fn spec_ancestors(self) -> Seq<usize> {
        self.ancestors@
    }

    /// The counters so far.
    pub closed spec fn spec_counters(self) -> ScanCounters {
        self.counters
    }

    /// The running ranking of the largest files.
    pub closed spec fn spec_partial(self) -> PartialRanking {
        self.partial
    }

    /// The filesystem of the root, when known.
    pub closed spec fn spec_root_filesystem(self) -> Option<u64> {
        self.root_filesystem
    }

    /// A tree holding only the root, which is the only open folder.
    pub fn new(root_name: Vec<u8>, root_filesystem: Option<u64>) -> (builder: Self)
        ensures
            builder.wf(),
            builder.spec_nodes().len() == 1,
            builder.spec_nodes()[0].name@ == root_name@,
            builder.spec_nodes()[0].kind == EntryKind::Directory,
            builder.spec_ancestors() == seq![0usize],
            builder.spec_counters().files_scanned == 0,
            builder.spec_counters().directories_scanned == 0,
            builder.spec_counters().skipped_entries == 0,
            builder.spec_counters().skipped_filesystems == 0,
            builder.spec_counters().skipped_cloud_entries == 0,
            builder.spec_counters().duplicate_hard_links == 0,
            builder.spec_counters().observed_logical_bytes == 0,
            builder.spec_counters().observed_allocated_bytes == 0,
            builder.spec_counters().revision_filesystem_id is None,
            builder.spec_partial().candidates@.len() == 0,
            builder.spec_root_filesystem() == root_filesystem,
    {
        let mut nodes: Vec<InternalNode> = Vec::new();
        nodes.push(InternalNode::root(root_name));
        let mut ancestors: Vec<usize> = Vec::new();
        ancestors.push(0);
        proof {
            assert(ancestors@ =~= seq![0usize]);
        }
        TreeBuilder {
            nodes,
            ancestors,
            counters: ScanCounters::new(),
            partial: PartialRanking::new(),
            root_filesystem,
        }
    }

    /// A well-formed tree is a well-formed arena, so it holds its root.
    pub proof fn lemma_wf_arena(&self)
        requires
            self.wf(),
        ensures
            arena_wf(self.spec_nodes()),
            self.spec_nodes().len() >= 1,
    {
    }

    /// The arena built so far, to read.
    pub fn nodes(&self) -> (nodes: &Vec<InternalNode>)
        ensures
            nodes@ == self.spec_nodes(),
    {
        &self.nodes
    }

    /// The number of nodes in the tree.
    pub fn node_count(&self) -> (count: usize)
        ensures
            count == self.spec_nodes().len(),
    {
        self.nodes.len()
    }

    /// Counts an entry the walk could not read.
    pub fn skip_unreadable(&mut self)
        requires
            old(self).wf(),
        ensures
            final(self).wf(),
            final(self).spec_counters() == (ScanCounters {
                skipped_entries: sat_add(old(self).spec_counters().skipped_entries as int, 1),
                ..old(self).spec_counters()
            }),
            final(self).spec_nodes() == old(self).spec_nodes(),
            final(self).spec_ancestors() == old(self).spec_ancestors(),
            final(self).spec_partial() == old(self).spec_partial(),
            final(self).spec_root_filesystem() == old(self).spec_root_filesystem(),
    {
        self.counters.skipped_entries = self.counters.skipped_entries.saturating_add(1);
    }

    /// Counts an entry that is stored only in the cloud and was not read.
    pub fn skip_cloud_entry(&mut self)
        requires
            old(self).wf(),
        ensures
            final(self).wf(),
            final(self).spec_counters() == (ScanCounters {
                skipped_cloud_entries: sat_add(
                    old(self).spec_counters().skipped_cloud_entries as int,
                    1,
                ),
                ..old(self).spec_counters()
            }),
            final(self).spec_nodes() == old(self).spec_nodes(),
            final(self).spec_ancestors() == old(self).spec_ancestors(),
            final(self).spec_partial() == old(self).spec_partial(),
            final(self).spec_root_filesystem() == old(self).spec_root_filesystem(),
    {
        self.counters.skipped_cloud_entries = self.counters.skipped_cloud_entries.saturating_add(1);
    }

    /// Counts a folder on another filesystem that is not descended into.
    pub fn skip_other_filesystem(&mut self)
        requires
            old(self).wf(),
        ensures
            final(self).wf(),
            final(self).spec_counters() == (ScanCounters {
                skipped_filesystems: sat_add(
                    old(self).spec_counters().skipped_filesystems as int,
                    1,
                ),
                ..old(self).spec_counters()
            }),
            final(self).spec_nodes() == old(self).spec_nodes(),
            final(self).spec_ancestors() == old(self).spec_ancestors(),
            final(self).spec_partial() == old(self).spec_partial(),
            final(self).spec_root_filesystem() == old(self).spec_root_filesystem(),
    {
        self.counters.skipped_filesystems = self.counters.skipped_filesystems.saturating_add(1);
    }

    /// Adds an entry under a known parent, accounting for it and offering it
    /// to the running ranking; the open folders are left as they are.
    pub fn add_child(
        &mut self,
        parent: usize,
        name: Vec<u8>,
        kind: EntryKind,
        measured: MeasuredMetadata,
    ) -> (node_id: usize)
        requires
            old(self).wf(),
            parent < old(self).spec_nodes().len(),
            old(self).spec_nodes().len() < usize::MAX,
        ensures
            final(self).wf(),
            node_id == old(self).spec_nodes().len(),
            exists|r: (usize, Option<usize>)|
                r.0 == node_id && #[trigger] node_pushed(
                    old(self).spec_counters(),
                    final(self).spec_counters(),
                    old(self).spec_nodes(),
                    final(self).spec_nodes(),
                    parent,
                    name@,
                    kind,
                    measured,
                    r,
                ),
            partial_observed(
                old(self).spec_partial(),
                final(self).spec_partial(),
                final(self).spec_nodes(),
                node_id,
            ),
            final(self).spec_ancestors() == old(self).spec_ancestors(),
            final(self).spec_root_filesystem() == old(self).spec_root_filesystem(),
    {
        let ghost name_view = name@;
        let r = self.counters.push_node(&mut self.nodes, parent, name, kind, measured);
        let node_id = r.0;
        let count = self.nodes.len();
        assert(self.nodes@.len() <= u64::MAX);
        proof {
            assert forall|k: int| 0 <= k < self.partial.candidates@.len() implies #[trigger] self.partial.candidates@[k].node_id
                < self.nodes@.len() by {}
            assert forall|k: int| 0 <= k < self.ancestors@.len() implies (#[trigger] self.ancestors@[k] as int)
                < self.nodes@.len() by {}
        }
        observe_partial_file(&mut self.partial, &self.nodes, node_id, r.1);
        proof {
            assert(node_pushed(
                old(self).counters,
                self.spec_counters(),
                old(self).spec_nodes(),
                self.spec_nodes(),
                parent,
                name_view,
                kind,
                measured,
                r,
            ));
        }
        node_id
    }

    /// Records a measurement made after the tree was built from a volume
    /// index: a failed one is counted as skipped; otherwise the file's node
    /// takes its bytes and revision, the traversal totals grow, the file
    /// becomes the owner of its hard-link identity, and it is offered to the
    /// running ranking. A file with more than one link still has names to
    /// find.
    #[verifier::rlimit(30)]
    pub fn apply_measurement(&mut self, node_id: usize, measured: MeasuredMetadata, link_count: u32) -> (step:
        MeasurementStep)
        requires
            old(self).wf(),
            node_id < old(self).spec_nodes().len(),
        ensures
            final(self).wf(),
            final(self).spec_ancestors() == old(self).spec_ancestors(),
            final(self).spec_root_filesystem() == old(self).spec_root_filesystem(),
            measured.metadata_error ==> {
                &&& step == MeasurementStep::Skipped
                &&& final(self).spec_counters() == (ScanCounters {
                    skipped_entries: bump(old(self).spec_counters().skipped_entries, true),
                    ..old(self).spec_counters()
                })
                &&& final(self).spec_nodes() == old(self).spec_nodes()
                &&& final(self).spec_partial() == old(self).spec_partial()
            },
            !measured.metadata_error ==> {
                let before = old(self).spec_counters();
                let after = final(self).spec_counters();
                let retained = ScanCounters::retained(
                    before.revision_filesystem_id,
                    measured.scan_revision,
                );
                &&& step == (if link_count > 1 {
                    MeasurementStep::Linked
                } else {
                    MeasurementStep::Measured
                })
                &&& final(self).spec_nodes() == old(self).spec_nodes().update(
                    node_id as int,
                    measured_node(old(self).spec_nodes()[node_id as int], measured, retained.0),
                )
                &&& after.revision_filesystem_id == retained.1
                &&& after.observed_logical_bytes == sat_add(
                    before.observed_logical_bytes as int,
                    measured.logical_bytes as int,
                )
                &&& after.observed_allocated_bytes == sat_add(
                    before.observed_allocated_bytes as int,
                    measured.allocated_bytes as int,
                )
                &&& after.hard_link_owners@ == (match measured.file_identity {
                    Some(identity) => before.hard_link_owners@.insert(
                        identity_key(identity),
                        HardLinkOwner {
                            node_id,
                            logical_bytes: measured.logical_bytes,
                            allocated_bytes: measured.allocated_bytes,
                        },
                    ),
                    None => before.hard_link_owners@,
                })
                &&& after.files_scanned == before.files_scanned
                &&& after.directories_scanned == before.directories_scanned
                &&& after.skipped_entries == before.skipped_entries
                &&& after.skipped_filesystems == before.skipped_filesystems
                &&& after.skipped_cloud_entries == before.skipped_cloud_entries
                &&& after.duplicate_hard_links == before.duplicate_hard_links
                &&& partial_observed(
                    old(self).spec_partial(),
                    final(self).spec_partial(),
                    final(self).spec_nodes(),
                    node_id,
                )
            },
    {
        if measured.metadata_error {
            self.skip_unreadable();
            return MeasurementStep::Skipped;
        }
        let ghost old_nodes = self.nodes@;
        let revision = self.counters.retain_scan_revision(measured.scan_revision);
        self.nodes[node_id].logical_bytes = measured.logical_bytes;
        self.nodes[node_id].allocated_bytes = measured.allocated_bytes;
        self.nodes[node_id].scan_revision = revision;
        proof {
            assert(self.nodes@ =~= old_nodes.update(
                node_id as int,
                measured_node(old_nodes[node_id as int], measured, revision),
            ));
            assert forall|i: int| 0 < i < self.nodes@.len() implies #[trigger] parent_links(
                self.nodes@,
                i,
            ) by {
                assert(parent_links(old_nodes, i));
            }
            assert forall|i: int, k: int|
                0 <= i < self.nodes@.len() && 0 <= k < self.nodes@[i].children@.len() implies #[trigger] child_links(
                self.nodes@,
                i,
                k,
            ) by {
                assert(child_links(old_nodes, i, k));
            }
        }
        self.counters.observed_logical_bytes = self.counters.observed_logical_bytes.saturating_add(
            measured.logical_bytes,
        );
        self.counters.observed_allocated_bytes = self.counters.observed_allocated_bytes.saturating_add(
            measured.allocated_bytes,
        );
        match measured.file_identity {
            Some(identity) => {
                let key = file_identity_key(identity);
                self.counters.hard_link_owners.insert(
                    key,
                    HardLinkOwner {
                        node_id,
                        logical_bytes: measured.logical_bytes,
                        allocated_bytes: measured.allocated_bytes,
                    },
                );
            },
            None => {},
        }
        observe_partial_file(&mut self.partial, &self.nodes, node_id, None);
        if link_count > 1 {
            MeasurementStep::Linked
        } else {
            MeasurementStep::Measured
        }
    }

    /// Ingests one walk entry. The root entry only counts an unreadable root
    /// folder; an entry that could not be measured is counted as skipped;
    /// any other entry counts its errors and crossing into another
    /// filesystem, then becomes a node under the open folder one level up,
    /// and a folder becomes the open folder at its depth.
    #[verifier::spinoff_prover]
    #[verifier::rlimit(40)]
    pub fn ingest(&mut self, entry: WalkEntry) -> (step: IngestStep)
        requires
            old(self).wf(),
            old(self).spec_nodes().len() < usize::MAX,
        ensures
            final(self).wf(),
            final(self).spec_root_filesystem() == old(self).spec_root_filesystem(),
            entry.depth == 0 ==> {
                &&& step == IngestStep::Root
                &&& final(self).spec_counters() == (ScanCounters {
                    skipped_entries: bump(
                        old(self).spec_counters().skipped_entries,
                        entry.read_children_error,
                    ),
                    ..old(self).spec_counters()
                })
                &&& final(self).spec_nodes() == old(self).spec_nodes()
                &&& final(self).spec_ancestors() == old(self).spec_ancestors()
                &&& final(self).spec_partial() == old(self).spec_partial()
            },
            entry.depth > 0 && entry.metadata is None ==> {
                &&& step == IngestStep::Skipped
                &&& final(self).spec_counters() == (ScanCounters {
                    skipped_entries: bump(old(self).spec_counters().skipped_entries, true),
                    ..old(self).spec_counters()
                })
                &&& final(self).spec_nodes() == old(self).spec_nodes()
                &&& final(self).spec_ancestors() == old(self).spec_ancestors()
                &&& final(self).spec_partial() == old(self).spec_partial()
            },
            entry.depth > 0 && entry.metadata is Some && entry.depth > old(self).spec_ancestors().len()
                ==> {
                &&& step == IngestStep::MissingParent
                &&& final(self).spec_counters() == counted_entry(
                    old(self).spec_counters(),
                    entry,
                    old(self).spec_root_filesystem(),
                )
                &&& final(self).spec_nodes() == old(self).spec_nodes()
                &&& final(self).spec_ancestors() == old(self).spec_ancestors()
                &&& final(self).spec_partial() == old(self).spec_partial()
            },
            entry.depth > 0 && entry.metadata is Some && entry.depth <= old(self).spec_ancestors().len()
                ==> {
                let n = old(self).spec_nodes().len() as usize;
                let open = old(self).spec_ancestors().take(entry.depth as int);
                let kind = spec_entry_kind(entry.is_dir, entry.is_symlink, entry.is_file);
                &&& step == IngestStep::Added(n)
                &&& exists|r: (usize, Option<usize>)|
                    r.0 == n && #[trigger] node_pushed(
                        counted_entry(old(self).spec_counters(), entry, old(self).spec_root_filesystem()),
                        final(self).spec_counters(),
                        old(self).spec_nodes(),
                        final(self).spec_nodes(),
                        open[entry.depth - 1],
                        entry.name@,
                        kind,
                        entry.metadata.unwrap(),
                        r,
                    )
                &&& partial_observed(
                    old(self).spec_partial(),
                    final(self).spec_partial(),
                    final(self).spec_nodes(),
                    n,
                )
                &&& final(self).spec_ancestors() == (if kind == EntryKind::Directory {
                    open.push(n)
                } else {
                    open
                })
            },
    {
        if entry.depth == 0 {
            self.counters.skipped_entries = bump_exec(
                self.counters.skipped_entries,
                entry.read_children_error,
            );
            return IngestStep::Root;
        }
        let measured = match entry.metadata {
            Some(measured) => measured,
            None => {
                self.counters.skipped_entries = bump_exec(self.counters.skipped_entries, true);
                return IngestStep::Skipped;
            },
        };
        self.counters.skipped_entries = bump_exec(
            self.counters.skipped_entries,
            measured.metadata_error,
        );
        let kind = entry_kind(entry.is_dir, entry.is_symlink, entry.is_file);
        let other_filesystem = entry.is_dir && match (self.root_filesystem, measured.filesystem_id) {
            (Some(root_id), Some(entry_id)) => root_id != entry_id,
            _ => false,
        };
        self.counters.skipped_filesystems = bump_exec(
            self.counters.skipped_filesystems,
            other_filesystem,
        );
        self.counters.skipped_entries = bump_exec(
            self.counters.skipped_entries,
            entry.read_children_error,
        );
        let ghost ancestors = self.ancestors@;
        self.ancestors.truncate(entry.depth);
        proof {
            assert(self.ancestors@ =~= ancestors.take(
                if entry.depth < ancestors.len() {
                    entry.depth as int
                } else {
                    ancestors.len() as int
                },
            ));
        }
        if entry.depth > self.ancestors.len() {
            return IngestStep::MissingParent;
        }
        let parent = self.ancestors[entry.depth - 1];
        let ghost counted = self.counters;
        let r = self.counters.push_node(&mut self.nodes, parent, entry.name, kind, measured);
        let node_id = r.0;
        let count = self.nodes.len();
        assert(self.nodes@.len() <= u64::MAX);
        proof {
            let before = old(self).counters;
            assert(counted == (ScanCounters {
                skipped_entries: bump(
                    bump(before.skipped_entries, measured.metadata_error),
                    entry.read_children_error,
                ),
                skipped_filesystems: bump(
                    before.skipped_filesystems,
                    spec_other_filesystem(entry.is_dir, self.root_filesystem, measured.filesystem_id),
                ),
                ..before
            }));
            assert(node_pushed(
                counted,
                self.counters,
                old(self).nodes@,
                self.nodes@,
                parent,
                entry.name@,
                kind,
                measured,
                r,
            ));
            assert forall|k: int| 0 <= k < self.partial.candidates@.len() implies #[trigger] self.partial.candidates@[k].node_id
                < self.nodes@.len() by {}
        }
        observe_partial_file(&mut self.partial, &self.nodes, node_id, r.1);
        if kind == EntryKind::Directory {
            self.ancestors.push(node_id);
        }
        proof {
            assert(node_pushed(
                counted,
                self.spec_counters(),
                old(self).spec_nodes(),
                self.spec_nodes(),
                parent,
                entry.name@,
                kind,
                measured,
                r,
            ));
            assert(exists|r2: (usize, Option<usize>)|
                r2.0 == node_id && #[trigger] node_pushed(
                    counted,
                    self.spec_counters(),
                    old(self).spec_nodes(),
                    self.spec_nodes(),
                    parent,
                    entry.name@,
                    kind,
                    measured,
                    r2,
                ));
        }
        IngestStep::Added(node_id)
    }

    /// A progress report of the traversal so far.
    pub fn progress(&self, phase: ScanPhase, current_path: String, elapsed_ms: u64) -> (progress:
        ScanProgress)
        requires
            self.wf(),
        ensures
            progress.phase == phase,
            progress.entries_scanned == self.spec_counters().files_scanned
                + self.spec_counters().directories_scanned,
            progress.files_scanned == self.spec_counters().files_scanned,
            progress.directories_scanned == self.spec_counters().directories_scanned,
            progress.logical_bytes == self.spec_counters().observed_logical_bytes,
            progress.allocated_bytes == self.spec_counters().observed_allocated_bytes,
            progress.skipped_entries == self.spec_counters().skipped_entries,
            progress.current_path == current_path,
            progress.elapsed_ms == elapsed_ms,
            progress.largest_items@.len() == self.spec_partial().candidates@.len(),
            exists|ranked: Seq<crate::ranking::PartialCandidate>| #[trigger]
                crate::ranking::ranked_items(
                    progress.largest_items@,
                    self.spec_nodes(),
                    self.spec_partial().candidates@,
                    ranked,
                ),
    {
        let largest_items = self.partial.items(&self.nodes);
        proof {
            let w = choose|ranked: Seq<crate::ranking::PartialCandidate>|
                crate::ranking::ranked_items(largest_items@, self.nodes@, self.partial.candidates@, ranked);
            assert(crate::ranking::ranked_items(largest_items@, self.nodes@, self.partial.candidates@, w));
        }
        let progress = ScanProgress {
            phase,
            entries_scanned: self.counters.files_scanned + self.counters.directories_scanned,
            files_scanned: self.counters.files_scanned,
            directories_scanned: self.counters.directories_scanned,
            logical_bytes: self.counters.observed_logical_bytes,
            allocated_bytes: self.counters.observed_allocated_bytes,
            skipped_entries: self.counters.skipped_entries,
            current_path,
            elapsed_ms,
            largest_items,
        };
        proof {
            let w = choose|ranked: Seq<crate::ranking::PartialCandidate>|
                crate::ranking::ranked_items(largest_items@, self.nodes@, self.partial.candidates@, ranked);
            assert(crate::ranking::ranked_items(
                progress.largest_items@,
                self.spec_nodes(),
                self.spec_partial().candidates@,
                w,
            ));
        }
        progress
    }

    /// Ends the traversal, handing over the arena and the counters.
    pub fn into_parts(self) -> (parts: (Vec<InternalNode>, ScanCounters))
        requires
            self.wf(),
        ensures
            parts.0@ == self.spec_nodes(),
            parts.1 == self.spec_counters(),
            arena_wf(parts.0@),
    {
        let TreeBuilder { nodes, ancestors: _, counters, partial: _, root_filesystem: _ } = self;
        (nodes, counters)
    }
}

/// Whether sizes were estimated, links deduplicated and the root's
/// filesystem enforced, as the traversal that built the tree guarantees.
#[derive(Clone, Copy, Debug)]
pub struct ScanSemantics {
    pub allocated_size_is_estimate: bool,
    pub hard_link_deduplication_supported: bool,
    pub same_filesystem_enforced: bool,
}

/// How long each stage of a scan took.
#[derive(Clone, Copy, Debug)]
pub struct ScanTimings {
    pub traversal_us: u64,
    pub aggregation_us: u64,
    pub indexing_us: u64,
    pub elapsed_ms: u64,
}

/// A completed scan: its reported result and the snapshot kept for views.
#[derive(Debug)]
pub struct ScanOutput {
    pub result: ScanResult,
    pub snapshot: ScanSnapshot,
}

/// The display name of a canonical root path: its final component, or the
/// whole path when it has none (the filesystem root).
pub open spec fn final_component(path: Seq<u8>) -> Seq<u8> {
    let cut = last_separator(path, path.len() as int);
    if cut + 1 < path.len() {
        path.subrange(cut + 1, path.len() as int)
    } else {
        path
    }
}

/// The position of the last `/` before `end`, or -1.
pub open spec fn last_separator(path: Seq<u8>, end: int) -> int
    decreases end,
{
    if end <= 0 {
        -1
    } else if path[end - 1] == 47u8 {
        end - 1
    } else {
        last_separator(path, end - 1)
    }
}

proof fn lemma_last_separator_bounds(path: Seq<u8>, end: int)
    requires
        0 <= end <= path.len(),
    ensures
        -1 <= last_separator(path, end) < end,
        end <= 0 ==> last_separator(path, end) == -1,
    decreases end,
{
    if end > 0 && path[end - 1] != 47u8 {
        lemma_last_separator_bounds(path, end - 1);
    }
}

/// Takes the final component of a canonical root path.
pub fn root_display_name(path: &Vec<u8>) -> (name: Vec<u8>)
    ensures
        name@ == final_component(path@),
{
    let mut end: usize = path.len();
    proof {
        lemma_last_separator_bounds(path@, path@.len() as int);
    }
    while end > 0 && path[end - 1] != 47u8
        invariant
            0 <= end <= path@.len(),
            last_separator(path@, path@.len() as int) == last_separator(path@, end as int),
        decreases end,
    {
        end = end - 1;
    }
    let ghost cut = last_separator(path@, path@.len() as int);
    assert(cut + 1 == end as int);
    let mut name: Vec<u8> = Vec::new();
    if end < path.len() {
        let mut index: usize = end;
        while index < path.len()
            invariant
                end <= index <= path@.len(),
                name@ == path@.subrange(end as int, index as int),
            decreases path@.len() - index,
        {
            name.push(path[index]);
            index = index + 1;
            proof {
                assert(name@ =~= path@.subrange(end as int, index as int));
            }
        }
    } else {
        let mut index: usize = 0;
        while index < path.len()
            invariant
                0 <= index <= path@.len(),
                name@ == path@.subrange(0, index as int),
            decreases path@.len() - index,
        {
            name.push(path[index]);
            index = index + 1;
            proof {
                assert(name@ =~= path@.subrange(0, index as int));
            }
        }
        proof {
            assert(path@.subrange(0, path@.len() as int) =~= path@);
        }
    }
    name
}

/// The result and snapshot of an aggregated tree: the root's totals, every
/// folder below the root counted, and the traversal's counters.
pub fn scan_output(
    root_path: Vec<u8>,
    nodes: Vec<InternalNode>,
    counters: &ScanCounters,
    root_is_macos_volume: bool,
    backend: &'static str,
    semantics: ScanSemantics,
    timings: ScanTimings,
) -> (output: ScanOutput)
    requires
        arena_wf(nodes@),
    ensures
        ({
            let root = nodes@[0];
            let result = output.result;
            &&& result.root@ == utf8_lossy(root_path@)
            &&& result.display_name@ == utf8_lossy(final_component(root_path@))
            &&& result.backend == backend
            &&& result.logical_bytes == root.logical_bytes
            &&& result.allocated_bytes == root.allocated_bytes
            &&& result.file_count == root.file_count
            &&& result.directory_count == sat_sub(root.directory_count as int, 1)
            &&& result.skipped_entries == counters.skipped_entries
            &&& result.skipped_filesystems == counters.skipped_filesystems
            &&& result.skipped_cloud_entries == counters.skipped_cloud_entries
            &&& result.duplicate_hard_links == counters.duplicate_hard_links
            &&& result.traversal_us == timings.traversal_us
            &&& result.aggregation_us == timings.aggregation_us
            &&& result.indexing_us == timings.indexing_us
            &&& result.elapsed_ms == timings.elapsed_ms
            &&& result.allocated_size_is_estimate == semantics.allocated_size_is_estimate
            &&& result.hard_link_deduplication_supported
                == semantics.hard_link_deduplication_supported
            &&& result.same_filesystem_enforced == semantics.same_filesystem_enforced
            &&& output.snapshot.spec_nodes() == nodes@
            &&& output.snapshot.spec_root_path() == root_path@
            &&& output.snapshot.spec_root_is_macos_volume() == root_is_macos_volume
            &&& output.snapshot.spec_allocated_size_is_estimate()
                == semantics.allocated_size_is_estimate
            &&& output.snapshot.spec_revision_filesystem_id() == counters.revision_filesystem_id
        }),
{
    let count = nodes.len();
    assert(nodes@.len() <= u64::MAX);
    let root = &nodes[0];
    let logical_bytes = root.logical_bytes;
    let allocated_bytes = root.allocated_bytes;
    let file_count = root.file_count;
    let directory_count = root.directory_count.saturating_sub(1);
    let root_text = lossy_text(root_path.as_slice());
    let name = root_display_name(&root_path);
    let display_name = lossy_text(name.as_slice());
    let result = ScanResult {
        root: root_text,
        display_name,
        backend,
        logical_bytes,
        allocated_bytes,
        file_count,
        directory_count,
        skipped_entries: counters.skipped_entries,
        skipped_filesystems: counters.skipped_filesystems,
        skipped_cloud_entries: counters.skipped_cloud_entries,
        duplicate_hard_links: counters.duplicate_hard_links,
        traversal_us: timings.traversal_us,
        aggregation_us: timings.aggregation_us,
        indexing_us: timings.indexing_us,
        elapsed_ms: timings.elapsed_ms,
        allocated_size_is_estimate: semantics.allocated_size_is_estimate,
        hard_link_deduplication_supported: semantics.hard_link_deduplication_supported,
        same_filesystem_enforced: semantics.same_filesystem_enforced,
    };
    let snapshot = ScanSnapshot::new(
        root_path,
        root_is_macos_volume,
        nodes,
        semantics.allocated_size_is_estimate,
        counters.revision_filesystem_id,
    );
    ScanOutput { result, snapshot }
}

impl ScanOutput {
    /// Shows a volume's own name for the root, in the result and in every
    /// view, without changing the scanned path.
    pub fn set_root_display_name(&mut self, name: String)
        ensures
            final(self).result == (ScanResult { display_name: name, ..old(self).result }),
            final(self).snapshot.spec_nodes() == old(self).snapshot.spec_nodes().update(
                0,
                InternalNode { name: final(self).snapshot.spec_nodes()[0].name, ..old(self).snapshot.spec_nodes()[0] },
            ),
            final(self).snapshot.spec_nodes()[0].name@ == vstd::utf8::encode_utf8(name@),
            final(self).snapshot.spec_root_path() == old(self).snapshot.spec_root_path(),
            final(self).snapshot.spec_root_is_macos_volume() == old(
                self,
            ).snapshot.spec_root_is_macos_volume(),
            final(self).snapshot.spec_allocated_size_is_estimate() == old(
                self,
            ).snapshot.spec_allocated_size_is_estimate(),
            final(self).snapshot.spec_revision_filesystem_id() == old(
                self,
            ).snapshot.spec_revision_filesystem_id(),
    {
        // Reading the nodes brings the snapshot's arena invariant into view.
        let _ = self.snapshot.nodes();
        let bytes = text_bytes(name.as_str());
        self.snapshot.set_root_display_name(bytes);
        self.result.display_name = name;
    }
}

} // verus!
