//! The retained scan tree: an arena of nodes in which every parent precedes
//! its children, built one entry at a time with hard-link deduplication.
use vstd::prelude::*;
use crate::revision::{CompactScannedFileRevision, ScannedFileRevision};
use crate::text::{Order, bytes_order, compare_bytes, path_order};
use crate::types::EntryKind;
use std::collections::HashMap;

verus! {

broadcast use vstd::std_specs::hash::group_hash_axioms;

/// A parent node id stored as the id plus one.
#[derive(Clone, Copy, Debug)]
pub struct ParentId {
    encoded: usize,
}

impl ParentId {
    #[verifier::type_invariant]
    spec fn inv(self) -> bool {
        self.encoded > 0
    }

    /// The node id this parent refers to.
    pub closed spec fn id(self) -> int {
        self.encoded - 1
    }

    /// Encodes a node id; the largest `usize` has no encoding.
    pub fn new(node_id: usize) -> (parent: Self)
        requires
            node_id < usize::MAX,
        ensures
            parent.id() == node_id,
    {
        ParentId { encoded: node_id + 1 }
    }

    /// Decodes the node id.
    pub fn node_id(self) -> (node_id: usize)
        ensures
            node_id == self.id(),
    {
        proof {
            use_type_invariant(&self);
        }
        self.encoded - 1
    }
}

/// A device number and inode pair shared by all hard links of one file.
#[derive(Clone, Copy, Debug, PartialEq, Eq, Structural)]
pub struct FileIdentity(pub u64, pub u64);

/// The hash key of a file identity: the device in the high half.
pub open spec fn identity_key(identity: FileIdentity) -> u128 {
    (identity.0 as int * 18446744073709551616 + identity.1 as int) as u128
}

pub(crate) fn file_identity_key(identity: FileIdentity) -> (key: u128)
    ensures
        key == identity_key(identity),
{
    let high = identity.0 as u128;
    let low = identity.1 as u128;
    assert((high << 64u128) | low == high * 18446744073709551616u128 + low) by (bit_vector)
        requires
            high < 18446744073709551616u128,
            low < 18446744073709551616u128,
    ;
    (high << 64u128) | low
}

/// What the metadata of one entry contributes to the scan.
#[derive(Clone, Copy, Debug)]
pub struct MeasuredMetadata {
    pub logical_bytes: u64,
    pub allocated_bytes: u64,
    pub filesystem_id: Option<u64>,
    pub file_identity: Option<FileIdentity>,
    pub scan_revision: Option<ScannedFileRevision>,
    pub metadata_error: bool,
}

impl MeasuredMetadata {
    /// Metadata that could not be read.
    pub fn failed() -> (m: Self)
        ensures
            m.logical_bytes == 0,
            m.allocated_bytes == 0,
            m.filesystem_id is None,
            m.file_identity is None,
            m.scan_revision is None,
            m.metadata_error,
    {
        MeasuredMetadata {
            logical_bytes: 0,
            allocated_bytes: 0,
            filesystem_id: None,
            file_identity: None,
            scan_revision: None,
            metadata_error: true,
        }
    }
}

/// The node that currently carries the bytes of a hard-linked file.
#[derive(Clone, Copy, Debug)]
pub struct HardLinkOwner {
    pub node_id: usize,
    pub logical_bytes: u64,
    pub allocated_bytes: u64,
}

/// One retained entry of the scan tree.
#[derive(Debug)]
pub struct InternalNode {
    pub name: Vec<u8>,
    pub parent: Option<ParentId>,
    pub children: Vec<usize>,
    pub kind: EntryKind,
    pub logical_bytes: u64,
    pub allocated_bytes: u64,
    pub file_count: u64,
    pub directory_count: u64,
    pub scan_revision: Option<CompactScannedFileRevision>,
}

impl InternalNode {
    /// The root node of a scan: a directory named after the final component
    /// of the root path (or the whole path when it has none).
    pub fn root(name: Vec<u8>) -> (node: Self)
        ensures
            node.name@ == name@,
            node.parent is None,
            node.children@.len() == 0,
            node.kind == EntryKind::Directory,
            node.logical_bytes == 0,
            node.allocated_bytes == 0,
            node.file_count == 0,
            node.directory_count == 1,
            node.scan_revision is None,
    {
        InternalNode {
            name,
            parent: None,
            children: Vec::new(),
            kind: EntryKind::Directory,
            logical_bytes: 0,
            allocated_bytes: 0,
            file_count: 0,
            directory_count: 1,
            scan_revision: None,
        }
    }

    /// The id of the parent, if the node has one.
    pub fn parent_id(&self) -> (parent: Option<usize>)
        ensures
            parent == (match self.parent {
                Some(p) => Some(p.id() as usize),
                None => None::<usize>,
            }),
            self.parent is Some ==> parent_of(*self) == parent.unwrap() as int,
    {
        match self.parent {
            Some(p) => Some(p.node_id()),
            None => None,
        }
    }
}

/// The parent id of a node, or -1 for the root.
pub open spec fn parent_of(node: InternalNode) -> int {
    match node.parent {
        Some(p) => p.id(),
        None => -1,
    }
}

/// Node `i` has a parent that precedes it and lists it as a child.
pub open spec fn parent_links(nodes: Seq<InternalNode>, i: int) -> bool {
    &&& nodes[i].parent is Some
    &&& 0 <= parent_of(nodes[i]) < i
    &&& nodes[parent_of(nodes[i])].children@.contains(i as usize)
}

/// Child `k` of node `i` follows it and names it as its parent.
pub open spec fn child_links(nodes: Seq<InternalNode>, i: int, k: int) -> bool {
    let c = nodes[i].children@[k] as int;
    &&& i < c < nodes.len()
    &&& parent_of(nodes[c]) == i
}

/// The arena invariant: node 0 is the parentless root; every other node has
/// an earlier parent that lists it; every listed child names its lister as
/// parent; and no child is listed twice.
pub open spec fn arena_wf(nodes: Seq<InternalNode>) -> bool {
    &&& nodes.len() >= 1
    &&& nodes[0].parent is None
    &&& forall|i: int| 0 < i < nodes.len() ==> #[trigger] parent_links(nodes, i)
    &&& forall|i: int, k: int|
        0 <= i < nodes.len() && 0 <= k < nodes[i].children@.len() ==> #[trigger] child_links(
            nodes,
            i,
            k,
        )
    &&& forall|i: int, k1: int, k2: int|
        0 <= i < nodes.len() && 0 <= k1 < nodes[i].children@.len() && 0 <= k2
            < nodes[i].children@.len() && k1 != k2 ==> #[trigger] nodes[i].children@[k1]
            != #[trigger] nodes[i].children@[k2]
}

/// The ids from a node up to (excluding) the root: the node, its parent, and
/// so on.
pub open spec fn ancestor_chain(nodes: Seq<InternalNode>, id: int) -> Seq<usize>
    decreases id,
{
    if 0 < id < nodes.len() && 0 <= parent_of(nodes[id]) < id {
        seq![id as usize] + ancestor_chain(nodes, parent_of(nodes[id]))
    } else {
        Seq::empty()
    }
}

/// The names from below the root down to a node.
pub open spec fn relative_path(nodes: Seq<InternalNode>, id: int) -> Seq<Seq<u8>>
    decreases id,
{
    if 0 < id < nodes.len() && 0 <= parent_of(nodes[id]) < id {
        relative_path(nodes, parent_of(nodes[id])).push(nodes[id].name@)
    } else {
        Seq::empty()
    }
}

/// The names of a chain read from the root end.
pub open spec fn chain_names(nodes: Seq<InternalNode>, chain: Seq<usize>) -> Seq<Seq<u8>> {
    chain.reverse().map_values(|i: usize| nodes[i as int].name@)
}

/// The names of a node's path are the names along its ancestor chain, and
/// every id on the chain is a non-root node.
pub proof fn lemma_relative_path_chain(nodes: Seq<InternalNode>, id: int)
    requires
        nodes.len() <= usize::MAX,
    ensures
        relative_path(nodes, id) == chain_names(nodes, ancestor_chain(nodes, id)),
        forall|k: int|
            0 <= k < ancestor_chain(nodes, id).len() ==> 0 < #[trigger] ancestor_chain(
                nodes,
                id,
            )[k] < nodes.len(),
    decreases id,
{
    if 0 < id < nodes.len() && 0 <= parent_of(nodes[id]) < id {
        let p = parent_of(nodes[id]);
        lemma_relative_path_chain(nodes, p);
        let c = ancestor_chain(nodes, id);
        let cp = ancestor_chain(nodes, p);
        assert(c == seq![id as usize] + cp);
        assert(c.reverse() =~= cp.reverse().push(id as usize));
        let lhs = chain_names(nodes, c);
        let rhs = chain_names(nodes, cp).push(nodes[id].name@);
        assert(lhs.len() == rhs.len());
        assert forall|k: int| 0 <= k < lhs.len() implies lhs[k] == rhs[k] by {
            assert(c.reverse()[k] == cp.reverse().push(id as usize)[k]);
        }
        assert(lhs =~= rhs);
        assert forall|k: int| 0 <= k < c.len() implies 0 < #[trigger] c[k] < nodes.len() by {
            if k > 0 {
                assert(c[k] == cp[k - 1]);
                assert(0 < cp[k - 1] < nodes.len());
            } else {
                assert(c[0] == id as usize);
            }
        }
    } else {
        assert(chain_names(nodes, Seq::empty()) =~= Seq::empty());
    }
}

proof fn lemma_path_order_skip(a: Seq<Seq<u8>>, b: Seq<Seq<u8>>, i: int)
    requires
        0 <= i <= a.len(),
        i <= b.len(),
        forall|k: int| 0 <= k < i ==> a[k] == b[k],
    ensures
        path_order(a, b) == path_order(a.skip(i), b.skip(i)),
    decreases i,
{
    if i > 0 {
        crate::text::lemma_lex_order_equal(
            crate::text::byte_ints(a[0]),
            crate::text::byte_ints(b[0]),
        );
        lemma_path_order_skip(a.drop_first(), b.drop_first(), i - 1);
        assert(a.drop_first().skip(i - 1) =~= a.skip(i));
        assert(b.drop_first().skip(i - 1) =~= b.skip(i));
    } else {
        assert(a.skip(0) =~= a);
        assert(b.skip(0) =~= b);
    }
}

/// Collects the ids from a node up to (excluding) the root into scratch space.
pub fn relative_node_path(nodes: &Vec<InternalNode>, node_id: usize, components: &mut Vec<usize>)
    requires
        arena_wf(nodes@),
        node_id < nodes@.len(),
    ensures
        final(components)@ == ancestor_chain(nodes@, node_id as int),
{
    components.clear();
    let mut current = node_id;
    loop
        invariant
            arena_wf(nodes@),
            current < nodes@.len(),
            components@ + ancestor_chain(nodes@, current as int) == ancestor_chain(
                nodes@,
                node_id as int,
            ),
        decreases current,
    {
        match nodes[current].parent_id() {
            Some(parent) => {
                proof {
                    if current == 0 {
                        assert(false);
                    }
                    assert(parent_links(nodes@, current as int));
                    assert(ancestor_chain(nodes@, current as int) == seq![current]
                        + ancestor_chain(nodes@, parent as int));
                    assert(components@.push(current) + ancestor_chain(nodes@, parent as int)
                        =~= components@ + ancestor_chain(nodes@, current as int));
                }
                components.push(current);
                current = parent;
            },
            None => {
                proof {
                    if current > 0 {
                        assert(parent_links(nodes@, current as int));
                    }
                    assert(ancestor_chain(nodes@, current as int) =~= Seq::<usize>::empty());
                    assert(components@ =~= components@ + Seq::<usize>::empty());
                }
                return;
            },
        }
    }
}



/// Compares the paths of two nodes below the root, name by name.
pub fn compare_relative_node_paths(
    nodes: &Vec<InternalNode>,
    left: usize,
    right: usize,
    left_components: &mut Vec<usize>,
    right_components: &mut Vec<usize>,
) -> (r: Order)
    requires
        arena_wf(nodes@),
        left < nodes@.len(),
        right < nodes@.len(),
    ensures
        r == path_order(relative_path(nodes@, left as int), relative_path(nodes@, right as int)),
{
    relative_node_path(nodes, left, left_components);
    relative_node_path(nodes, right, right_components);
    let total = nodes.len();
    assert(nodes@.len() == total);
    let ghost a = relative_path(nodes@, left as int);
    let ghost b = relative_path(nodes@, right as int);
    proof {
        lemma_relative_path_chain(nodes@, left as int);
        lemma_relative_path_chain(nodes@, right as int);
        lemma_path_order_skip(a, b, 0);
    }
    let left_len = left_components.len();
    let right_len = right_components.len();
    let n = if left_len < right_len { left_len } else { right_len };
    let mut k: usize = 0;
    while k < n
        invariant
            left_components@ == ancestor_chain(nodes@, left as int),
            right_components@ == ancestor_chain(nodes@, right as int),
            a == chain_names(nodes@, left_components@),
            b == chain_names(nodes@, right_components@),
            a == relative_path(nodes@, left as int),
            b == relative_path(nodes@, right as int),
            forall|j: int|
                0 <= j < left_components@.len() ==> 0 < #[trigger] left_components@[j]
                    < nodes@.len(),
            forall|j: int|
                0 <= j < right_components@.len() ==> 0 < #[trigger] right_components@[j]
                    < nodes@.len(),
            left_len == left_components@.len(),
            right_len == right_components@.len(),
            n <= left_len,
            n <= right_len,
            n == left_len || n == right_len,
            0 <= k <= n,
            forall|j: int| 0 <= j < k ==> a[j] == b[j],
        decreases n - k,
    {
        let left_id = left_components[left_len - 1 - k];
        let right_id = right_components[right_len - 1 - k];
        assert(a[k as int] == nodes@[left_id as int].name@);
        assert(b[k as int] == nodes@[right_id as int].name@);
        let order = compare_bytes(nodes[left_id].name.as_slice(), nodes[right_id].name.as_slice());
        match order {
            Order::Equal => {
                proof {
                    crate::text::lemma_lex_order_equal(
                        crate::text::byte_ints(a[k as int]),
                        crate::text::byte_ints(b[k as int]),
                    );
                    assert(crate::text::byte_ints(a[k as int]).len() == a[k as int].len());
                    assert(a[k as int] =~= b[k as int]) by {
                        assert forall|t: int| 0 <= t < a[k as int].len() implies a[k as int][t]
                            == b[k as int][t] by {
                            assert(crate::text::byte_ints(a[k as int])[t] == a[k as int][t]
                                as int);
                            assert(crate::text::byte_ints(b[k as int])[t] == b[k as int][t]
                                as int);
                        }
                    }
                }
            },
            other => {
                proof {
                    lemma_path_order_skip(a, b, k as int);
                    assert(a.skip(k as int).len() > 0);
                    assert(b.skip(k as int).len() > 0);
                    assert(a.skip(k as int)[0] == a[k as int]);
                    assert(b.skip(k as int)[0] == b[k as int]);
                    assert(crate::text::bytes_order(a.skip(k as int)[0], b.skip(k as int)[0])
                        == other);
                    assert(path_order(a.skip(k as int), b.skip(k as int)) == other);
                }
                return other;
            },
        }
        k = k + 1;
    }
    proof {
        lemma_path_order_skip(a, b, k as int);
    }
    if left_len < right_len {
        Order::Less
    } else if left_len > right_len {
        Order::Greater
    } else {
        Order::Equal
    }
}

/// Running totals of a traversal and the state needed to deduplicate hard
/// links and to retain compact file revisions.
#[derive(Debug)]
pub struct ScanCounters {
    pub files_scanned: u64,
    pub directories_scanned: u64,
    pub skipped_entries: u64,
    pub skipped_filesystems: u64,
    pub skipped_cloud_entries: u64,
    pub duplicate_hard_links: u64,
    pub observed_logical_bytes: u64,
    pub observed_allocated_bytes: u64,
    pub hard_link_owners: HashMap<u128, HardLinkOwner>,
    pub hard_link_path_left: Vec<usize>,
    pub hard_link_path_right: Vec<usize>,
    pub revision_filesystem_id: Option<u64>,
}

/// Adds, saturating at `u64::MAX`.
pub open spec fn sat_add(a: int, b: int) -> u64 {
    if a + b > u64::MAX {
        u64::MAX
    } else {
        (a + b) as u64
    }
}

/// Subtracts, saturating at zero.
pub open spec fn sat_sub(a: int, b: int) -> u64 {
    if a - b < 0 {
        0
    } else {
        (a - b) as u64
    }
}

/// The bytes an entry of this kind contributes before deduplication.
pub open spec fn kind_bytes(kind: EntryKind, measured: MeasuredMetadata) -> (u64, u64) {
    if kind == EntryKind::File {
        (measured.logical_bytes, measured.allocated_bytes)
    } else {
        (0, 0)
    }
}

/// The file and directory counts of a single entry of this kind.
pub open spec fn kind_counts(kind: EntryKind) -> (u64, u64) {
    match kind {
        EntryKind::Directory => (0, 1),
        EntryKind::File => (1, 0),
        _ => (0, 0),
    }
}

/// What appending an entry does to the counters and the arena: the new node
/// is the last, listed under its parent, with the bytes it is owed; a hard
/// link whose identity already has an owner counts as a duplicate and takes
/// the bytes over only when its path below the root sorts first.
pub open spec fn node_pushed(
    before: ScanCounters,
    after: ScanCounters,
    old_nodes: Seq<InternalNode>,
    new_nodes: Seq<InternalNode>,
    parent: usize,
    name: Seq<u8>,
    kind: EntryKind,
    measured: MeasuredMetadata,
    r: (usize, Option<usize>),
) -> bool {
    let n = old_nodes.len() as int;
    let prev = before.previous_owner(measured);
    let replaces = before.replaces_owner(
        old_nodes,
        parent as int,
        name,
        measured,
    );
    let base = kind_bytes(kind, measured);
    let counts = kind_counts(kind);
    let retained = ScanCounters::retained(
        before.revision_filesystem_id,
        measured.scan_revision,
    );
    let accepted_logical: u64 = if prev is Some {
        0u64
    } else {
        base.0
    };
    let accepted_allocated: u64 = if prev is Some {
        0u64
    } else {
        base.1
    };
    let observed_logical = sat_add(
        before.observed_logical_bytes as int,
        accepted_logical as int,
    );
    let observed_allocated = sat_add(
        before.observed_allocated_bytes as int,
        accepted_allocated as int,
    );
    &&& r.0 == n
    &&& r.1 == (if replaces {
        Some(prev.unwrap().node_id)
    } else {
        None::<usize>
    })
    &&& arena_wf(new_nodes)
    &&& after.inv(new_nodes)
    &&& new_nodes.len() == n + 1
    &&& forall|i: int|
        0 <= i < n ==> {
            &&& #[trigger] new_nodes[i].name == old_nodes[i].name
            &&& new_nodes[i].parent == old_nodes[i].parent
            &&& new_nodes[i].kind == old_nodes[i].kind
            &&& new_nodes[i].file_count == old_nodes[i].file_count
            &&& new_nodes[i].directory_count == old_nodes[i].directory_count
            &&& new_nodes[i].scan_revision == old_nodes[i].scan_revision
            &&& new_nodes[i].children@ == (if i == parent {
                old_nodes[i].children@.push(n as usize)
            } else {
                old_nodes[i].children@
            })
            &&& if replaces && i == prev.unwrap().node_id {
                new_nodes[i].logical_bytes == 0
                    && new_nodes[i].allocated_bytes == 0
            } else {
                new_nodes[i].logical_bytes == old_nodes[i].logical_bytes
                    && new_nodes[i].allocated_bytes
                    == old_nodes[i].allocated_bytes
            }
        }
    &&& new_nodes[n].name@ == name
    &&& new_nodes[n].parent is Some
    &&& parent_of(new_nodes[n]) == parent
    &&& new_nodes[n].children@.len() == 0
    &&& new_nodes[n].kind == kind
    &&& new_nodes[n].logical_bytes == (if replaces {
        measured.logical_bytes
    } else {
        accepted_logical
    })
    &&& new_nodes[n].allocated_bytes == (if replaces {
        measured.allocated_bytes
    } else {
        accepted_allocated
    })
    &&& new_nodes[n].file_count == counts.0
    &&& new_nodes[n].directory_count == counts.1
    &&& new_nodes[n].scan_revision == retained.0
    &&& after.revision_filesystem_id == retained.1
    &&& after.files_scanned == before.files_scanned + counts.0
    &&& after.directories_scanned == before.directories_scanned + counts.1
    &&& after.duplicate_hard_links == before.duplicate_hard_links + (if prev
        is Some {
        1int
    } else {
        0int
    })
    &&& after.observed_logical_bytes == (if replaces {
        sat_add(
            sat_sub(observed_logical as int, prev.unwrap().logical_bytes as int) as int,
            measured.logical_bytes as int,
        )
    } else {
        observed_logical
    })
    &&& after.observed_allocated_bytes == (if replaces {
        sat_add(
            sat_sub(
                observed_allocated as int,
                prev.unwrap().allocated_bytes as int,
            ) as int,
            measured.allocated_bytes as int,
        )
    } else {
        observed_allocated
    })
    &&& after.hard_link_owners@ == (match measured.file_identity {
        Some(identity) => if prev is None || replaces {
            before.hard_link_owners@.insert(
                identity_key(identity),
                HardLinkOwner {
                    node_id: n as usize,
                    logical_bytes: measured.logical_bytes,
                    allocated_bytes: measured.allocated_bytes,
                },
            )
        } else {
            before.hard_link_owners@
        },
        None => before.hard_link_owners@,
    })
    &&& after.skipped_entries == before.skipped_entries
    &&& after.skipped_filesystems == before.skipped_filesystems
    &&& after.skipped_cloud_entries == before.skipped_cloud_entries
}

impl ScanCounters {
    /// Empty counters.
    pub fn new() -> (counters: Self)
        ensures
            counters.files_scanned == 0,
            counters.directories_scanned == 0,
            counters.skipped_entries == 0,
            counters.skipped_filesystems == 0,
            counters.skipped_cloud_entries == 0,
            counters.duplicate_hard_links == 0,
            counters.observed_logical_bytes == 0,
            counters.observed_allocated_bytes == 0,
            counters.hard_link_owners@ == Map::<u128, HardLinkOwner>::empty(),
            counters.revision_filesystem_id is None,
    {
        ScanCounters {
            files_scanned: 0,
            directories_scanned: 0,
            skipped_entries: 0,
            skipped_filesystems: 0,
            skipped_cloud_entries: 0,
            duplicate_hard_links: 0,
            observed_logical_bytes: 0,
            observed_allocated_bytes: 0,
            hard_link_owners: HashMap::new(),
            hard_link_path_left: Vec::new(),
            hard_link_path_right: Vec::new(),
            revision_filesystem_id: None,
        }
    }

    /// The counters stay consistent with the arena: entry counts are bounded
    /// by the number of non-root nodes, and every hard-link owner is a node.
    pub open spec fn inv(self, nodes: Seq<InternalNode>) -> bool {
        &&& self.files_scanned + self.directories_scanned <= nodes.len() - 1
        &&& self.duplicate_hard_links <= nodes.len() - 1
        &&& forall|key: u128| #[trigger]
            self.hard_link_owners@.contains_key(key) ==> self.hard_link_owners@[key].node_id
                < nodes.len()
    }

    /// The owner already recorded for the identity of this entry, if any.
    pub open spec fn previous_owner(self, measured: MeasuredMetadata) -> Option<HardLinkOwner> {
        match measured.file_identity {
            Some(identity) => if self.hard_link_owners@.contains_key(identity_key(identity)) {
                Some(self.hard_link_owners@[identity_key(identity)])
            } else {
                None
            },
            None => None,
        }
    }

    /// Whether a new entry takes the bytes of its hard link over from the
    /// current owner: exactly when its path below the root sorts first.
    pub open spec fn replaces_owner(
        self,
        nodes: Seq<InternalNode>,
        parent: int,
        name: Seq<u8>,
        measured: MeasuredMetadata,
    ) -> bool {
        match self.previous_owner(measured) {
            Some(owner) => path_order(
                relative_path(nodes, parent).push(name),
                relative_path(nodes, owner.node_id as int),
            ) == Order::Less,
            None => false,
        }
    }

    /// What retaining a revision yields: its compact form while all retained
    /// revisions share one filesystem, nothing otherwise.
    pub open spec fn retained(
        filesystem: Option<u64>,
        revision: Option<ScannedFileRevision>,
    ) -> (Option<CompactScannedFileRevision>, Option<u64>) {
        match revision {
            None => (None, filesystem),
            Some(r) => {
                let compact = CompactScannedFileRevision {
                    file_id: r.file_id,
                    modified: r.modified,
                    changed: r.changed,
                };
                match filesystem {
                    Some(id) => if id != r.filesystem_id {
                        (None, filesystem)
                    } else {
                        (Some(compact), filesystem)
                    },
                    None => (Some(compact), Some(r.filesystem_id)),
                }
            },
        }
    }

    /// Retains the compact form of a revision, hoisting the filesystem
    /// identity into the counters; a revision from a second filesystem is
    /// refused so that no compact revision can inherit the wrong identity.
    pub fn retain_scan_revision(&mut self, revision: Option<ScannedFileRevision>) -> (r: Option<
        CompactScannedFileRevision,
    >)
        ensures
            (r, final(self).revision_filesystem_id) == Self::retained(
                old(self).revision_filesystem_id,
                revision,
            ),
            final(self).files_scanned == old(self).files_scanned,
            final(self).directories_scanned == old(self).directories_scanned,
            final(self).skipped_entries == old(self).skipped_entries,
            final(self).skipped_filesystems == old(self).skipped_filesystems,
            final(self).skipped_cloud_entries == old(self).skipped_cloud_entries,
            final(self).duplicate_hard_links == old(self).duplicate_hard_links,
            final(self).observed_logical_bytes == old(self).observed_logical_bytes,
            final(self).observed_allocated_bytes == old(self).observed_allocated_bytes,
            final(self).hard_link_owners@ == old(self).hard_link_owners@,
    {
        let revision = match revision {
            Some(revision) => revision,
            None => return None,
        };
        let (filesystem_id, compact) = revision.compact();
        match self.revision_filesystem_id {
            Some(retained_id) => if retained_id != filesystem_id {
                None
            } else {
                Some(compact)
            },
            None => {
                self.revision_filesystem_id = Some(filesystem_id);
                Some(compact)
            },
        }
    }

    /// Appends an entry under `parent` and accounts for it. A hard link whose
    /// identity already has an owner contributes no bytes unless its path
    /// below the root sorts first, in which case it takes the bytes over from
    /// the previous owner, whose id is returned.
    pub fn push_node(
        &mut self,
        nodes: &mut Vec<InternalNode>,
        parent: usize,
        name: Vec<u8>,
        kind: EntryKind,
        measured: MeasuredMetadata,
    ) -> (r: (usize, Option<usize>))
        requires
            arena_wf(old(nodes)@),
            old(self).inv(old(nodes)@),
            parent < old(nodes)@.len(),
            old(nodes)@.len() < usize::MAX,
        ensures
            node_pushed(*old(self), *final(self), old(nodes)@, final(nodes)@, parent, name@, kind, measured, r),
    {
        let ghost old_nodes = nodes@;
        let ghost old_self = *self;
        let (mut logical_bytes, mut allocated_bytes, file_count, directory_count) = match kind {
            EntryKind::Directory => {
                self.directories_scanned = self.directories_scanned + 1;
                (0u64, 0u64, 0u64, 1u64)
            },
            EntryKind::File => {
                self.files_scanned = self.files_scanned + 1;
                (measured.logical_bytes, measured.allocated_bytes, 1u64, 0u64)
            },
            _ => (0u64, 0u64, 0u64, 0u64),
        };

        let previous_owner: Option<HardLinkOwner> = match measured.file_identity {
            Some(identity) => {
                let key = file_identity_key(identity);
                match self.hard_link_owners.get(&key) {
                    Some(owner) => Some(*owner),
                    None => None,
                }
            },
            None => None,
        };
        assert(previous_owner == old_self.previous_owner(measured));
        if previous_owner.is_some() {
            self.duplicate_hard_links = self.duplicate_hard_links + 1;
            logical_bytes = 0;
            allocated_bytes = 0;
        }

        self.observed_logical_bytes = self.observed_logical_bytes.saturating_add(logical_bytes);
        self.observed_allocated_bytes = self.observed_allocated_bytes.saturating_add(
            allocated_bytes,
        );

        let scan_revision = self.retain_scan_revision(measured.scan_revision);
        let node_id = nodes.len();
        nodes[parent].children.push(node_id);
        nodes.push(
            InternalNode {
                name,
                parent: Some(ParentId::new(parent)),
                children: Vec::new(),
                kind,
                logical_bytes,
                allocated_bytes,
                file_count,
                directory_count,
                scan_revision,
            },
        );
        proof {
            assert forall|i: int| 0 <= i < old_nodes.len() implies #[trigger] pushed_node(
                old_nodes,
                nodes@,
                parent as int,
                i,
            ) by {}
            lemma_push_preserves_wf(old_nodes, nodes@, parent as int);
            lemma_relative_path_after_push(old_nodes, nodes@, parent as int);
        }

        let mut replaced_owner: Option<usize> = None;
        if let Some(identity) = measured.file_identity {
            let key = file_identity_key(identity);
            if let Some(owner) = previous_owner {
                proof {
                    lemma_relative_path_after_push_other(old_nodes, nodes@, parent as int, owner.node_id as int);
                }
                let order = compare_relative_node_paths(
                    nodes,
                    node_id,
                    owner.node_id,
                    &mut self.hard_link_path_left,
                    &mut self.hard_link_path_right,
                );
                if order == Order::Less {
                    let ghost before = nodes@;
                    nodes[owner.node_id].logical_bytes = 0;
                    nodes[owner.node_id].allocated_bytes = 0;
                    nodes[node_id].logical_bytes = measured.logical_bytes;
                    nodes[node_id].allocated_bytes = measured.allocated_bytes;
                    proof {
                        lemma_bytes_update_preserves_wf(before, nodes@);
                    }
                    self.observed_logical_bytes = self.observed_logical_bytes.saturating_sub(
                        owner.logical_bytes,
                    ).saturating_add(measured.logical_bytes);
                    self.observed_allocated_bytes = self.observed_allocated_bytes.saturating_sub(
                        owner.allocated_bytes,
                    ).saturating_add(measured.allocated_bytes);
                    self.hard_link_owners.insert(
                        key,
                        HardLinkOwner {
                            node_id,
                            logical_bytes: measured.logical_bytes,
                            allocated_bytes: measured.allocated_bytes,
                        },
                    );
                    replaced_owner = Some(owner.node_id);
                }
            } else {
                self.hard_link_owners.insert(
                    key,
                    HardLinkOwner {
                        node_id,
                        logical_bytes: measured.logical_bytes,
                        allocated_bytes: measured.allocated_bytes,
                    },
                );
            }
        }
        (node_id, replaced_owner)
    }
}

/// Node `i` has the same name, parent, children and kind in both arenas.
pub open spec fn same_node_shape(a: Seq<InternalNode>, b: Seq<InternalNode>, i: int) -> bool {
    &&& a[i].name@ == b[i].name@
    &&& a[i].parent == b[i].parent
    &&& a[i].children@ == b[i].children@
    &&& a[i].kind == b[i].kind
}

/// Only byte totals changed between two arenas.
pub open spec fn same_shape(a: Seq<InternalNode>, b: Seq<InternalNode>) -> bool {
    &&& a.len() == b.len()
    &&& forall|i: int| 0 <= i < a.len() ==> #[trigger] same_node_shape(a, b, i)
}

/// Node `i` has the same name and parent in both arenas.
pub open spec fn same_path_fields(a: Seq<InternalNode>, b: Seq<InternalNode>, i: int) -> bool {
    &&& a[i].name@ == b[i].name@
    &&& a[i].parent == b[i].parent
}

/// An arena whose shape is unchanged stays well formed.
pub proof fn lemma_same_shape_wf(a: Seq<InternalNode>, b: Seq<InternalNode>)
    requires
        arena_wf(a),
        same_shape(a, b),
    ensures
        arena_wf(b),
{
    lemma_bytes_update_preserves_wf(a, b);
}

proof fn lemma_bytes_update_preserves_wf(a: Seq<InternalNode>, b: Seq<InternalNode>)
    requires
        arena_wf(a),
        same_shape(a, b),
    ensures
        arena_wf(b),
        forall|id: int| relative_path(b, id) == #[trigger] relative_path(a, id),
{
    assert(same_node_shape(a, b, 0));
    assert forall|i: int| 0 < i < b.len() implies #[trigger] parent_links(b, i) by {
        assert(parent_links(a, i));
        assert(same_node_shape(a, b, i));
        let p = parent_of(a[i]);
        assert(same_node_shape(a, b, p));
    }
    assert forall|i: int, k: int|
        0 <= i < b.len() && 0 <= k < b[i].children@.len() implies #[trigger] child_links(
        b,
        i,
        k,
    ) by {
        assert(same_node_shape(a, b, i));
        assert(child_links(a, i, k));
        assert(same_node_shape(a, b, a[i].children@[k] as int));
    }
    assert forall|i: int, k1: int, k2: int|
        0 <= i < b.len() && 0 <= k1 < b[i].children@.len() && 0 <= k2 < b[i].children@.len()
            && k1 != k2 implies #[trigger] b[i].children@[k1] != #[trigger] b[i].children@[k2] by {
        assert(same_node_shape(a, b, i));
    }
    assert forall|id: int| relative_path(b, id) == #[trigger] relative_path(a, id) by {
        lemma_relative_path_same_shape(a, b, id);
    }
}

proof fn lemma_relative_path_same_shape(a: Seq<InternalNode>, b: Seq<InternalNode>, id: int)
    requires
        same_shape(a, b),
    ensures
        relative_path(b, id) == relative_path(a, id),
    decreases id,
{
    if 0 <= id < a.len() {
        assert(same_node_shape(a, b, id));
    }
    if 0 < id < a.len() && 0 <= parent_of(a[id]) < id {
        lemma_relative_path_same_shape(a, b, parent_of(a[id]));
    }
}

/// Relative paths of old nodes are unaffected by extending a list of
/// children, which changes no name or parent.
proof fn lemma_relative_path_frame(a: Seq<InternalNode>, b: Seq<InternalNode>, id: int)
    requires
        a.len() == b.len(),
        forall|i: int| 0 <= i < a.len() ==> #[trigger] same_path_fields(a, b, i),
    ensures
        relative_path(b, id) == relative_path(a, id),
    decreases id,
{
    if 0 <= id < a.len() {
        assert(same_path_fields(a, b, id));
    }
    if 0 < id < a.len() && 0 <= parent_of(a[id]) < id {
        lemma_relative_path_frame(a, b, parent_of(a[id]));
    }
}

proof fn lemma_relative_path_prefix(a: Seq<InternalNode>, b: Seq<InternalNode>, id: int)
    requires
        a.len() <= b.len(),
        0 <= id < a.len(),
        forall|i: int| 0 <= i < a.len() ==> #[trigger] same_path_fields(a, b, i),
    ensures
        relative_path(b, id) == relative_path(a, id),
    decreases id,
{
    assert(same_path_fields(a, b, id));
    if 0 < id && 0 <= parent_of(a[id]) < id {
        lemma_relative_path_prefix(a, b, parent_of(a[id]));
    }
}

/// Node `i` of `b` is node `i` of `a` with, at the parent, one more child.
pub open spec fn pushed_node(a: Seq<InternalNode>, b: Seq<InternalNode>, parent: int, i: int) -> bool {
    &&& b[i].name@ == a[i].name@
    &&& b[i].parent == a[i].parent
    &&& b[i].children@ == (if i == parent {
        a[i].children@.push(a.len() as usize)
    } else {
        a[i].children@
    })
}

proof fn lemma_push_preserves_wf(a: Seq<InternalNode>, b: Seq<InternalNode>, parent: int)
    requires
        arena_wf(a),
        0 <= parent < a.len(),
        a.len() < usize::MAX,
        b.len() == a.len() + 1,
        forall|i: int| 0 <= i < a.len() ==> #[trigger] pushed_node(a, b, parent, i),
        b[a.len() as int].parent is Some,
        parent_of(b[a.len() as int]) == parent,
        b[a.len() as int].children@.len() == 0,
    ensures
        arena_wf(b),
        forall|i: int| 0 <= i < a.len() ==> #[trigger] same_path_fields(a, b, i),
{
    let n = a.len() as int;
    assert forall|i: int| 0 <= i < a.len() implies #[trigger] same_path_fields(a, b, i) by {
        assert(pushed_node(a, b, parent, i));
    }
    assert(pushed_node(a, b, parent, parent));
    assert(pushed_node(a, b, parent, 0));
    assert forall|i: int| 0 < i < b.len() implies #[trigger] parent_links(b, i) by {
        if i < n {
            assert(parent_links(a, i));
            assert(pushed_node(a, b, parent, i));
            let p = parent_of(a[i]);
            assert(pushed_node(a, b, parent, p));
            let k = choose|k: int| 0 <= k < a[p].children@.len() && a[p].children@[k] == i as usize;
            assert(b[p].children@[k] == i as usize);
        } else {
            assert(b[parent].children@[a[parent].children@.len() as int] == n as usize);
        }
    }
    assert forall|i: int, k: int|
        0 <= i < b.len() && 0 <= k < b[i].children@.len() implies #[trigger] child_links(
        b,
        i,
        k,
    ) by {
        if i < n {
            assert(pushed_node(a, b, parent, i));
            if k < a[i].children@.len() {
                assert(child_links(a, i, k));
                assert(b[i].children@[k] == a[i].children@[k]);
                assert(pushed_node(a, b, parent, a[i].children@[k] as int));
            }
        }
    }
    assert forall|i: int, k1: int, k2: int|
        0 <= i < b.len() && 0 <= k1 < b[i].children@.len() && 0 <= k2 < b[i].children@.len()
            && k1 != k2 implies #[trigger] b[i].children@[k1] != #[trigger] b[i].children@[k2] by {
        if i < n {
            assert(pushed_node(a, b, parent, i));
            if i == parent {
                let m = a[i].children@.len() as int;
                if k1 < m && k2 < m {
                    assert(b[i].children@[k1] == a[i].children@[k1]);
                    assert(b[i].children@[k2] == a[i].children@[k2]);
                } else if k1 < m {
                    assert(child_links(a, i, k1));
                } else if k2 < m {
                    assert(child_links(a, i, k2));
                }
            }
        }
    }
}

proof fn lemma_relative_path_after_push(a: Seq<InternalNode>, b: Seq<InternalNode>, parent: int)
    requires
        arena_wf(a),
        0 <= parent < a.len(),
        b.len() == a.len() + 1,
        forall|i: int| 0 <= i < a.len() ==> #[trigger] same_path_fields(a, b, i),
        parent_of(b[a.len() as int]) == parent,
    ensures
        relative_path(b, a.len() as int) == relative_path(a, parent).push(
            b[a.len() as int].name@,
        ),
{
    lemma_relative_path_prefix(a, b, parent);
}

proof fn lemma_relative_path_after_push_other(
    a: Seq<InternalNode>,
    b: Seq<InternalNode>,
    parent: int,
    other: int,
)
    requires
        0 <= other < a.len(),
        b.len() == a.len() + 1,
        forall|i: int| 0 <= i < a.len() ==> #[trigger] same_path_fields(a, b, i),
    ensures
        relative_path(b, other) == relative_path(a, other),
{
    lemma_relative_path_prefix(a, b, other);
}

/// One byte count of a node: allocated or logical.
pub open spec fn node_bytes_of(node: InternalNode, allocated: bool) -> int {
    if allocated {
        node.allocated_bytes as int
    } else {
        node.logical_bytes as int
    }
}

/// One byte count of a hard-link owner record: allocated or logical.
pub open spec fn owner_bytes_of(owner: HardLinkOwner, allocated: bool) -> int {
    if allocated {
        owner.allocated_bytes as int
    } else {
        owner.logical_bytes as int
    }
}

/// The sum of one byte count over nodes.
pub open spec fn byte_total(nodes: Seq<InternalNode>, allocated: bool) -> int
    decreases nodes.len(),
{
    if nodes.len() == 0 {
        0
    } else {
        byte_total(nodes.drop_last(), allocated) + node_bytes_of(nodes.last(), allocated)
    }
}

/// The counters account exactly for the arena: each observed total is the
/// sum over the nodes, every hard-link owner record names a distinct node
/// that carries exactly the recorded bytes.
pub open spec fn totals_consistent(counters: ScanCounters, nodes: Seq<InternalNode>) -> bool {
    &&& counters.observed_logical_bytes == byte_total(nodes, false)
    &&& counters.observed_allocated_bytes == byte_total(nodes, true)
    &&& forall|key: u128| #[trigger]
        counters.hard_link_owners@.contains_key(key) ==> {
            let owner = counters.hard_link_owners@[key];
            &&& owner.node_id < nodes.len()
            &&& nodes[owner.node_id as int].logical_bytes == owner.logical_bytes
            &&& nodes[owner.node_id as int].allocated_bytes == owner.allocated_bytes
        }
    &&& forall|k1: u128, k2: u128|
        #[trigger] counters.hard_link_owners@.contains_key(k1)
            && #[trigger] counters.hard_link_owners@.contains_key(k2) && k1 != k2
            ==> counters.hard_link_owners@[k1].node_id != counters.hard_link_owners@[k2].node_id
}

proof fn lemma_byte_total_bounds(nodes: Seq<InternalNode>, allocated: bool, j: int)
    requires
        0 <= j < nodes.len(),
    ensures
        0 <= node_bytes_of(nodes[j], allocated) <= byte_total(nodes, allocated),
    decreases nodes.len(),
{
    lemma_byte_total_nonnegative(nodes.drop_last(), allocated);
    if j < nodes.len() - 1 {
        lemma_byte_total_bounds(nodes.drop_last(), allocated, j);
    }
}

proof fn lemma_byte_total_nonnegative(nodes: Seq<InternalNode>, allocated: bool)
    ensures
        byte_total(nodes, allocated) >= 0,
    decreases nodes.len(),
{
    if nodes.len() > 0 {
        lemma_byte_total_nonnegative(nodes.drop_last(), allocated);
    }
}

proof fn lemma_byte_total_update(a: Seq<InternalNode>, b: Seq<InternalNode>, allocated: bool, j: int)
    requires
        a.len() == b.len(),
        forall|i: int| 0 <= i < a.len() && i != j ==> node_bytes_of(#[trigger] b[i], allocated)
            == node_bytes_of(a[i], allocated),
    ensures
        0 <= j < a.len() ==> byte_total(b, allocated) == byte_total(a, allocated) - node_bytes_of(
            a[j],
            allocated,
        ) + node_bytes_of(b[j], allocated),
        !(0 <= j < a.len()) ==> byte_total(b, allocated) == byte_total(a, allocated),
    decreases a.len(),
{
    if a.len() > 0 {
        assert forall|i: int| 0 <= i < a.drop_last().len() && i != j implies node_bytes_of(
            #[trigger] b.drop_last()[i],
            allocated,
        ) == node_bytes_of(a.drop_last()[i], allocated) by {
            assert(b.drop_last()[i] == b[i] && a.drop_last()[i] == a[i]);
        }
        lemma_byte_total_update(a.drop_last(), b.drop_last(), allocated, j);
    }
}

/// Appending entries keeps the counters exactly accounting for the arena:
/// the observed totals stay the sums of the nodes' bytes, and each
/// hard-link owner record still names a distinct node carrying its bytes.
/// It holds for entries whose identity, if any, is a file's, as long as the
/// totals do not saturate.
pub proof fn lemma_push_keeps_totals(
    before: ScanCounters,
    after: ScanCounters,
    old_nodes: Seq<InternalNode>,
    new_nodes: Seq<InternalNode>,
    parent: usize,
    name: Seq<u8>,
    kind: EntryKind,
    measured: MeasuredMetadata,
    r: (usize, Option<usize>),
)
    requires
        totals_consistent(before, old_nodes),
        node_pushed(before, after, old_nodes, new_nodes, parent, name, kind, measured, r),
        measured.file_identity is Some ==> kind == EntryKind::File,
        byte_total(old_nodes, false) + measured.logical_bytes <= u64::MAX,
        byte_total(old_nodes, true) + measured.allocated_bytes <= u64::MAX,
    ensures
        totals_consistent(after, new_nodes),
{
    let n = old_nodes.len() as int;
    let prev = before.previous_owner(measured);
    let replaces = before.replaces_owner(old_nodes, parent as int, name, measured);
    let j: int = if replaces {
        prev.unwrap().node_id as int
    } else {
        -1
    };
    let prefix = new_nodes.take(n);
    assert(new_nodes.drop_last() =~= prefix);
    lemma_byte_total_nonnegative(old_nodes, false);
    lemma_byte_total_nonnegative(old_nodes, true);
    if replaces {
        let key = identity_key(measured.file_identity.unwrap());
        assert(before.hard_link_owners@.contains_key(key));
        lemma_byte_total_bounds(old_nodes, false, j);
        lemma_byte_total_bounds(old_nodes, true, j);
    }
    assert forall|allocated: bool| byte_total(prefix, allocated) == byte_total(old_nodes, allocated)
        - (if replaces {
        node_bytes_of(old_nodes[j], allocated)
    } else {
        0
    }) by {
        assert forall|i: int| 0 <= i < old_nodes.len() && i != j implies node_bytes_of(
            #[trigger] prefix[i],
            allocated,
        ) == node_bytes_of(old_nodes[i], allocated) by {
            assert(prefix[i] == new_nodes[i]);
            assert(new_nodes[i].name == old_nodes[i].name);
        }
        lemma_byte_total_update(old_nodes, prefix, allocated, j);
        if replaces {
            assert(prefix[j] == new_nodes[j]);
            assert(new_nodes[j].name == old_nodes[j].name);
            assert(node_bytes_of(prefix[j], allocated) == 0);
        }
    }
    assert(byte_total(new_nodes, false) == byte_total(prefix, false) + node_bytes_of(
        new_nodes[n],
        false,
    ));
    assert(byte_total(new_nodes, true) == byte_total(prefix, true) + node_bytes_of(
        new_nodes[n],
        true,
    ));
    assert forall|key: u128| #[trigger] after.hard_link_owners@.contains_key(key) implies {
        let owner = after.hard_link_owners@[key];
        &&& owner.node_id < new_nodes.len()
        &&& new_nodes[owner.node_id as int].logical_bytes == owner.logical_bytes
        &&& new_nodes[owner.node_id as int].allocated_bytes == owner.allocated_bytes
    } by {
        let owner = after.hard_link_owners@[key];
        let inserted = measured.file_identity is Some && (prev is None || replaces) && key
            == identity_key(measured.file_identity.unwrap());
        if inserted {
            assert(owner.node_id as int == n);
        } else {
            assert(before.hard_link_owners@.contains_key(key));
            assert(before.hard_link_owners@[key] == owner);
            let id = owner.node_id as int;
            assert(new_nodes[id].name == old_nodes[id].name);
            if replaces {
                let pkey = identity_key(measured.file_identity.unwrap());
                assert(key != pkey);
                assert(before.hard_link_owners@.contains_key(pkey));
            }
        }
    }
    assert forall|k1: u128, k2: u128|
        #[trigger] after.hard_link_owners@.contains_key(k1)
            && #[trigger] after.hard_link_owners@.contains_key(k2) && k1 != k2
            implies after.hard_link_owners@[k1].node_id != after.hard_link_owners@[k2].node_id by {
        if after.hard_link_owners@[k1].node_id as int != n && after.hard_link_owners@[k2].node_id as int
            != n {
            assert(before.hard_link_owners@.contains_key(k1));
            assert(before.hard_link_owners@.contains_key(k2));
        }
    }
}

/// Empty counters account exactly for an arena holding only a root without
/// bytes.
pub proof fn lemma_fresh_totals(counters: ScanCounters, root: InternalNode)
    requires
        counters.observed_logical_bytes == 0,
        counters.observed_allocated_bytes == 0,
        counters.hard_link_owners@ == Map::<u128, HardLinkOwner>::empty(),
        root.logical_bytes == 0,
        root.allocated_bytes == 0,
    ensures
        totals_consistent(counters, seq![root]),
{
    let nodes = seq![root];
    assert(nodes.drop_last() =~= Seq::<InternalNode>::empty());
    assert(nodes.last() == root);
    assert(byte_total(nodes.drop_last(), false) == 0);
    assert(byte_total(nodes.drop_last(), true) == 0);
    assert(byte_total(nodes, false) == 0);
    assert(byte_total(nodes, true) == 0);
}

/// How many entries were pushed with a file identity.
pub open spec fn identity_count(ids: Seq<Option<u128>>) -> nat
    decreases ids.len(),
{
    if ids.len() == 0 {
        0
    } else {
        identity_count(ids.drop_last()) + if ids.last() is Some {
            1nat
        } else {
            0nat
        }
    }
}

/// The identity key an entry is pushed with, if it has one.
pub open spec fn pushed_key(measured: MeasuredMetadata) -> Option<u128> {
    match measured.file_identity {
        Some(identity) => Some(identity_key(identity)),
        None => None,
    }
}

/// Hard links are accounted to their least path. `ids` gives, node by node,
/// the identity key each entry was pushed with. Every key pushed has an owner
/// record; the owner is a node pushed with that key whose path below the
/// root sorts first, the earliest on equal paths; every other node pushed
/// with that key carries no bytes; and the duplicates counted are the
/// entries pushed with a key less the distinct keys.
pub open spec fn least_path_owners(
    counters: ScanCounters,
    nodes: Seq<InternalNode>,
    ids: Seq<Option<u128>>,
) -> bool {
    let owners = counters.hard_link_owners@;
    &&& ids.len() == nodes.len()
    &&& owners.dom().finite()
    &&& counters.duplicate_hard_links + owners.dom().len() == identity_count(ids)
    &&& forall|j: int|
        0 <= j < ids.len() && (#[trigger] ids[j]) is Some ==> owners.contains_key(ids[j].unwrap())
    &&& forall|key: u128| #[trigger]
        owners.contains_key(key) ==> {
            let o = owners[key].node_id as int;
            &&& 0 <= o < nodes.len()
            &&& ids[o] == Some(key)
            &&& forall|j: int|
                0 <= j < nodes.len() && j != o && #[trigger] ids[j] == Some(key) ==> {
                    &&& nodes[j].logical_bytes == 0
                    &&& nodes[j].allocated_bytes == 0
                    &&& (path_order(relative_path(nodes, o), relative_path(nodes, j)) == Order::Less
                        || (path_order(relative_path(nodes, o), relative_path(nodes, j))
                        == Order::Equal && o < j))
                }
        }
}

/// Empty counters account for an arena holding only the root, which has no
/// identity.
pub proof fn lemma_fresh_least_path_owners(counters: ScanCounters, root: InternalNode)
    requires
        counters.duplicate_hard_links == 0,
        counters.hard_link_owners@ == Map::<u128, HardLinkOwner>::empty(),
    ensures
        least_path_owners(counters, seq![root], seq![None::<u128>]),
{
    let ids = seq![None::<u128>];
    assert(ids.drop_last() =~= Seq::<Option<u128>>::empty());
    assert(identity_count(ids.drop_last()) == 0);
    assert(ids.last() == None::<u128>);
    assert(identity_count(ids) == 0);
    assert(counters.hard_link_owners@.dom() =~= Set::<u128>::empty());
}

/// Appending an entry keeps hard links accounted to their least path: with
/// its identity key, if any, added to the record of keys, only the node with
/// the least path below the root, the earliest on equal paths, keeps the
/// bytes of each identity, and each entry pushed with an identity that
/// already had an owner counts as one duplicate.
pub proof fn lemma_push_keeps_least_path_owners(
    before: ScanCounters,
    after: ScanCounters,
    old_nodes: Seq<InternalNode>,
    new_nodes: Seq<InternalNode>,
    parent: usize,
    name: Seq<u8>,
    kind: EntryKind,
    measured: MeasuredMetadata,
    r: (usize, Option<usize>),
    ids: Seq<Option<u128>>,
)
    requires
        arena_wf(old_nodes),
        parent < old_nodes.len(),
        least_path_owners(before, old_nodes, ids),
        node_pushed(before, after, old_nodes, new_nodes, parent, name, kind, measured, r),
    ensures
        least_path_owners(after, new_nodes, ids.push(pushed_key(measured))),
{
    let n = old_nodes.len() as int;
    let ids2 = ids.push(pushed_key(measured));
    let owners = before.hard_link_owners@;
    let owners2 = after.hard_link_owners@;
    let prev = before.previous_owner(measured);
    let replaces = before.replaces_owner(old_nodes, parent as int, name, measured);
    assert(ids2.drop_last() =~= ids);
    assert(ids2[n] == pushed_key(measured));
    assert forall|i: int| 0 <= i < n implies #[trigger] same_path_fields(old_nodes, new_nodes, i) by {
        assert(new_nodes[i].name == old_nodes[i].name);
    }
    assert forall|i: int| 0 <= i < n implies #[trigger] relative_path(new_nodes, i) == relative_path(
        old_nodes,
        i,
    ) by {
        lemma_relative_path_after_push_other(old_nodes, new_nodes, parent as int, i);
    }
    lemma_relative_path_after_push(old_nodes, new_nodes, parent as int);
    assert(relative_path(new_nodes, n) == relative_path(old_nodes, parent as int).push(name));
    match measured.file_identity {
        None => {
            assert(owners2 == owners);
            assert(prev is None);
            assert forall|key: u128| #[trigger] owners2.contains_key(key) implies {
                let o = owners2[key].node_id as int;
                &&& 0 <= o < new_nodes.len()
                &&& ids2[o] == Some(key)
                &&& forall|j: int|
                    0 <= j < new_nodes.len() && j != o && #[trigger] ids2[j] == Some(key) ==> {
                        &&& new_nodes[j].logical_bytes == 0
                        &&& new_nodes[j].allocated_bytes == 0
                        &&& (path_order(relative_path(new_nodes, o), relative_path(new_nodes, j))
                            == Order::Less || (path_order(
                            relative_path(new_nodes, o),
                            relative_path(new_nodes, j),
                        ) == Order::Equal && o < j))
                    }
            } by {
                let o = owners[key].node_id as int;
                assert(ids[o] == Some(key));
                assert(ids2[o] == ids[o]);
                assert forall|j: int|
                    0 <= j < new_nodes.len() && j != o && #[trigger] ids2[j] == Some(key) implies {
                        &&& new_nodes[j].logical_bytes == 0
                        &&& new_nodes[j].allocated_bytes == 0
                        &&& (path_order(relative_path(new_nodes, o), relative_path(new_nodes, j))
                            == Order::Less || (path_order(
                            relative_path(new_nodes, o),
                            relative_path(new_nodes, j),
                        ) == Order::Equal && o < j))
                    } by {
                    assert(j < n);
                    assert(ids2[j] == ids[j]);
                    assert(new_nodes[j].name == old_nodes[j].name);
                    assert(relative_path(new_nodes, o) == relative_path(old_nodes, o));
                    assert(relative_path(new_nodes, j) == relative_path(old_nodes, j));
                }
            }
            assert forall|j: int| 0 <= j < ids2.len() && (#[trigger] ids2[j]) is Some implies owners2.contains_key(
                ids2[j].unwrap(),
            ) by {
                assert(j < n);
                assert(ids2[j] == ids[j]);
            }
        },
        Some(identity) => {
            let kk = identity_key(identity);
            assert(ids2[n] == Some(kk));
            if prev is None {
                assert(!owners.contains_key(kk));
                assert(owners2 == owners.insert(
                    kk,
                    HardLinkOwner {
                        node_id: n as usize,
                        logical_bytes: measured.logical_bytes,
                        allocated_bytes: measured.allocated_bytes,
                    },
                ));
                assert(owners2.dom() =~= owners.dom().insert(kk));
                assert(after.duplicate_hard_links == before.duplicate_hard_links);
                assert forall|key: u128| #[trigger] owners2.contains_key(key) implies {
                    let o = owners2[key].node_id as int;
                    &&& 0 <= o < new_nodes.len()
                    &&& ids2[o] == Some(key)
                    &&& forall|j: int|
                        0 <= j < new_nodes.len() && j != o && #[trigger] ids2[j] == Some(key) ==> {
                            &&& new_nodes[j].logical_bytes == 0
                            &&& new_nodes[j].allocated_bytes == 0
                            &&& (path_order(relative_path(new_nodes, o), relative_path(new_nodes, j))
                                == Order::Less || (path_order(
                                relative_path(new_nodes, o),
                                relative_path(new_nodes, j),
                            ) == Order::Equal && o < j))
                        }
                } by {
                    if key == kk {
                        assert forall|j: int|
                            0 <= j < new_nodes.len() && j != n && #[trigger] ids2[j] == Some(key) implies false by {
                            assert(ids2[j] == ids[j]);
                            assert(owners.contains_key(ids[j].unwrap()));
                        }
                    } else {
                        let o = owners[key].node_id as int;
                        assert(ids2[o] == ids[o]);
                        assert forall|j: int|
                            0 <= j < new_nodes.len() && j != o && #[trigger] ids2[j] == Some(key) implies {
                                &&& new_nodes[j].logical_bytes == 0
                                &&& new_nodes[j].allocated_bytes == 0
                                &&& (path_order(relative_path(new_nodes, o), relative_path(new_nodes, j))
                                    == Order::Less || (path_order(
                                    relative_path(new_nodes, o),
                                    relative_path(new_nodes, j),
                                ) == Order::Equal && o < j))
                            } by {
                            assert(j < n);
                            assert(ids2[j] == ids[j]);
                            assert(relative_path(new_nodes, o) == relative_path(old_nodes, o));
                            assert(relative_path(new_nodes, j) == relative_path(old_nodes, j));
                        }
                    }
                }
            } else {
                let p = prev.unwrap().node_id as int;
                assert(owners.contains_key(kk));
                assert(owners2.dom() =~= owners.dom());
                assert(after.duplicate_hard_links == before.duplicate_hard_links + 1);
                assert(ids[p] == Some(kk));
                assert(relative_path(new_nodes, p) == relative_path(old_nodes, p));
                if !replaces {
                    crate::text::lemma_path_order_flip(relative_path(new_nodes, n), relative_path(new_nodes, p));
                    assert(owners2 == owners);
                }
                assert forall|key: u128| #[trigger] owners2.contains_key(key) implies {
                    let o = owners2[key].node_id as int;
                    &&& 0 <= o < new_nodes.len()
                    &&& ids2[o] == Some(key)
                    &&& forall|j: int|
                        0 <= j < new_nodes.len() && j != o && #[trigger] ids2[j] == Some(key) ==> {
                            &&& new_nodes[j].logical_bytes == 0
                            &&& new_nodes[j].allocated_bytes == 0
                            &&& (path_order(relative_path(new_nodes, o), relative_path(new_nodes, j))
                                == Order::Less || (path_order(
                                relative_path(new_nodes, o),
                                relative_path(new_nodes, j),
                            ) == Order::Equal && o < j))
                        }
                } by {
                    if key == kk && replaces {
                        assert(owners2[key].node_id == n);
                        assert forall|j: int|
                            0 <= j < new_nodes.len() && j != n && #[trigger] ids2[j] == Some(key) implies {
                                &&& new_nodes[j].logical_bytes == 0
                                &&& new_nodes[j].allocated_bytes == 0
                                &&& path_order(relative_path(new_nodes, n), relative_path(new_nodes, j))
                                    == Order::Less
                            } by {
                            assert(ids2[j] == ids[j]);
                            assert(relative_path(new_nodes, j) == relative_path(old_nodes, j));
                            if j != p {
                                crate::text::lemma_path_order_transitive(
                                    relative_path(new_nodes, n),
                                    relative_path(new_nodes, p),
                                    relative_path(new_nodes, j),
                                );
                            }
                        }
                    } else {
                        let o = owners[key].node_id as int;
                        assert(owners2[key] == owners[key]);
                        assert(ids2[o] == ids[o]);
                        assert(relative_path(new_nodes, o) == relative_path(old_nodes, o));
                        assert forall|j: int|
                            0 <= j < new_nodes.len() && j != o && #[trigger] ids2[j] == Some(key) implies {
                                &&& new_nodes[j].logical_bytes == 0
                                &&& new_nodes[j].allocated_bytes == 0
                                &&& (path_order(relative_path(new_nodes, o), relative_path(new_nodes, j))
                                    == Order::Less || (path_order(
                                    relative_path(new_nodes, o),
                                    relative_path(new_nodes, j),
                                ) == Order::Equal && o < j))
                            } by {
                            if j < n {
                                assert(ids2[j] == ids[j]);
                                assert(relative_path(new_nodes, j) == relative_path(old_nodes, j));
                            } else {
                                assert(key == kk);
                                assert(o == p);
                            }
                        }
                    }
                }
            }
            assert forall|j: int| 0 <= j < ids2.len() && (#[trigger] ids2[j]) is Some implies owners2.contains_key(
                ids2[j].unwrap(),
            ) by {
                if j < n {
                    assert(ids2[j] == ids[j]);
                }
            }
        },
    }
}

} // verus!
