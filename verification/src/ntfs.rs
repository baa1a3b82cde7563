//! Assembling a scan tree from an NTFS volume index: every record, taken in
//! an order that puts parents first, becomes a node below the node of its
//! parent reference, and the other names of hard-linked files are placed
//! where the volume lists them.
use vstd::prelude::*;
use std::collections::HashMap;
use std::sync::atomic::AtomicBool;
use crate::arena::{InternalNode, MeasuredMetadata, arena_wf, node_pushed, parent_of, sat_add};
use crate::snapshot::bytes_equal;
use crate::cancel::cancel_requested;
use crate::mft::Record;
use crate::types::EntryKind;
use crate::walk::TreeBuilder;
use crate::winfs::{attribute_kind, spec_attribute_kind, wtf8, wtf8_name};

verus! {

broadcast use vstd::std_specs::hash::group_hash_axioms;

/// The cancellation flag is read before every this many arena nodes.
pub const CANCELLATION_CHECK_INTERVAL_ENTRIES: usize = 2048;

/// `ERROR_INVALID_FUNCTION`.
pub const ERROR_INVALID_FUNCTION: u32 = 1;
/// `ERROR_ACCESS_DENIED`.
pub const ERROR_ACCESS_DENIED: u32 = 5;
/// `ERROR_NOT_SUPPORTED`.
pub const ERROR_NOT_SUPPORTED: u32 = 50;
/// `ERROR_INVALID_PARAMETER`.
pub const ERROR_INVALID_PARAMETER: u32 = 87;
/// `ERROR_JOURNAL_NOT_ACTIVE`.
pub const ERROR_JOURNAL_NOT_ACTIVE: u32 = 1179;

/// The operating-system errors after which the volume index cannot serve
/// this scan and another backend should: access denied, an unsupported or
/// invalid request, or an inactive change journal.
pub open spec fn spec_unavailable_code(code: Option<u32>) -> bool {
    match code {
        Some(c) => c == ERROR_ACCESS_DENIED || c == ERROR_INVALID_FUNCTION || c
            == ERROR_INVALID_PARAMETER || c == ERROR_JOURNAL_NOT_ACTIVE || c
            == ERROR_NOT_SUPPORTED,
        None => false,
    }
}

/// Tells whether an operating-system error code means the volume index is
/// unavailable rather than failed.
pub fn is_unavailable_code(code: Option<u32>) -> (unavailable: bool)
    ensures
        unavailable == spec_unavailable_code(code),
{
    match code {
        Some(c) => c == ERROR_ACCESS_DENIED || c == ERROR_INVALID_FUNCTION || c
            == ERROR_INVALID_PARAMETER || c == ERROR_JOURNAL_NOT_ACTIVE || c
            == ERROR_NOT_SUPPORTED,
        None => false,
    }
}

/// A UTF-16 unit is the ASCII letter `upper` in either case.
pub open spec fn ascii_letter_either_case(unit: u16, upper: u16) -> bool {
    unit == upper || unit == upper + 32
}

/// The filesystem name a volume reports, read up to its first NUL, is
/// `NTFS` in any ASCII case. Any other unit, an unpaired surrogate included,
/// decodes to a character that is not one of these letters.
pub open spec fn spec_is_ntfs_name(units: Seq<u16>) -> bool {
    let name = crate::compression::before_first_nul(units);
    &&& name.len() == 4
    &&& ascii_letter_either_case(name[0], 0x4e)
    &&& ascii_letter_either_case(name[1], 0x54)
    &&& ascii_letter_either_case(name[2], 0x46)
    &&& ascii_letter_either_case(name[3], 0x53)
}

/// Tells whether a volume's filesystem name buffer names NTFS.
pub fn is_ntfs_name(units: &Vec<u16>) -> (ntfs: bool)
    ensures
        ntfs == spec_is_ntfs_name(units@),
{
    let name = crate::compression::units_before_nul(units);
    name.len() == 4 && (name[0] == 0x4e || name[0] == 0x6e) && (name[1] == 0x54 || name[1]
        == 0x74) && (name[2] == 0x46 || name[2] == 0x66) && (name[3] == 0x53 || name[3] == 0x73)
}

/// Why a native scan stopped: the backend cannot serve this root, so another
/// one should, or it failed with a message.
#[derive(Debug)]
pub enum NativeScanError {
    Unavailable,
    Fatal(String),
}

/// The node of each reference once the first `k` ordered records are placed:
/// the root reference at node 0, the record at position `j` at node
/// `first + j`, a later record winning over an earlier one.
pub open spec fn placed_references(
    records: Seq<Record>,
    ordered: Seq<usize>,
    root_reference: u64,
    first: int,
    k: int,
) -> Map<u64, usize>
    decreases k,
{
    if k <= 0 {
        Map::empty().insert(root_reference, 0usize)
    } else {
        placed_references(records, ordered, root_reference, first, k - 1).insert(
            records[ordered[k - 1] as int].reference,
            (first + k - 1) as usize,
        )
    }
}

/// The parent of the record at position `k` has a node when it is placed.
pub open spec fn parent_placed(
    records: Seq<Record>,
    ordered: Seq<usize>,
    root_reference: u64,
    first: int,
    k: int,
) -> bool {
    placed_references(records, ordered, root_reference, first, k).contains_key(
        records[ordered[k] as int].parent_reference,
    )
}

/// The files among the first `k` ordered records, each as its record index
/// and its node.
pub open spec fn placed_files(records: Seq<Record>, ordered: Seq<usize>, first: int, k: int) -> Seq<
    (usize, usize),
>
    decreases k,
{
    if k <= 0 {
        Seq::empty()
    } else {
        let before = placed_files(records, ordered, first, k - 1);
        if spec_attribute_kind(records[ordered[k - 1] as int].attributes) == EntryKind::File {
            before.push((ordered[k - 1], (first + k - 1) as usize))
        } else {
            before
        }
    }
}

/// How many of the first `k` ordered records are folders.
pub open spec fn placed_directories(records: Seq<Record>, ordered: Seq<usize>, k: int) -> int
    decreases k,
{
    if k <= 0 {
        0
    } else {
        placed_directories(records, ordered, k - 1) + if spec_attribute_kind(
            records[ordered[k - 1] as int].attributes,
        ) == EntryKind::Directory {
            1int
        } else {
            0int
        }
    }
}

/// Node `first + k` is the record at position `k`: its name, its kind, no
/// bytes yet, below the node of its parent reference.
pub open spec fn record_placed(
    nodes: Seq<InternalNode>,
    records: Seq<Record>,
    ordered: Seq<usize>,
    root_reference: u64,
    first: int,
    k: int,
) -> bool {
    let record = records[ordered[k] as int];
    let node = nodes[first + k];
    &&& node.name@ == wtf8(record.name@)
    &&& node.kind == spec_attribute_kind(record.attributes)
    &&& node.logical_bytes == 0
    &&& node.allocated_bytes == 0
    &&& node.parent is Some
    &&& parent_of(node) == placed_references(records, ordered, root_reference, first, k)[
        record.parent_reference]
}

/// Node `i` keeps its name, parent, kind and bytes.
pub open spec fn node_kept(before: Seq<InternalNode>, after: Seq<InternalNode>, i: int) -> bool {
    &&& after[i].name@ == before[i].name@
    &&& after[i].parent == before[i].parent
    &&& after[i].kind == before[i].kind
    &&& after[i].logical_bytes == before[i].logical_bytes
    &&& after[i].allocated_bytes == before[i].allocated_bytes
}

proof fn lemma_placed_nodes_exist(
    records: Seq<Record>,
    ordered: Seq<usize>,
    root_reference: u64,
    first: int,
    k: int,
)
    requires
        first >= 1,
        k >= 0,
        first + k <= usize::MAX,
    ensures
        forall|reference: u64|
            #[trigger] placed_references(records, ordered, root_reference, first, k).contains_key(
                reference,
            ) ==> placed_references(records, ordered, root_reference, first, k)[reference]
                < first + k,
    decreases k,
{
    if k > 0 {
        lemma_placed_nodes_exist(records, ordered, root_reference, first, k - 1);
        let before = placed_references(records, ordered, root_reference, first, k - 1);
        let added = records[ordered[k - 1] as int].reference;
        assert forall|reference: u64|
            #[trigger] placed_references(records, ordered, root_reference, first, k).contains_key(
                reference,
            ) implies placed_references(records, ordered, root_reference, first, k)[reference]
            < first + k by {
            if reference != added {
                assert(before.contains_key(reference));
            }
        }
    }
}

/// Places the ordered records of a volume index below the tree's existing
/// nodes, the root reference standing for node 0, and lists the files with
/// their nodes for measuring. The cancellation flag is read whenever the
/// arena holds a multiple of 2048 nodes. A record whose parent reference has
/// no node yet makes the index unusable for this scan.
#[verifier::rlimit(40)]
pub fn index_volume_records(
    builder: &mut TreeBuilder,
    records: &Vec<Record>,
    ordered: &Vec<usize>,
    root_reference: u64,
    cancel: &AtomicBool,
) -> (r: Result<Vec<(usize, usize)>, NativeScanError>)
    requires
        old(builder).wf(),
        forall|k: int| 0 <= k < ordered@.len() ==> #[trigger] ordered@[k] < records@.len(),
        old(builder).spec_nodes().len() + ordered@.len() < usize::MAX,
    ensures
        final(builder).wf(),
        ({
            let first = old(builder).spec_nodes().len() as int;
            let n = ordered@.len() as int;
            match r {
                Ok(files) => {
                    &&& forall|k: int|
                        0 <= k < n ==> #[trigger] parent_placed(
                            records@,
                            ordered@,
                            root_reference,
                            first,
                            k,
                        )
                    &&& final(builder).spec_nodes().len() == first + n
                    &&& forall|k: int|
                        0 <= k < n ==> #[trigger] record_placed(
                            final(builder).spec_nodes(),
                            records@,
                            ordered@,
                            root_reference,
                            first,
                            k,
                        )
                    &&& forall|i: int|
                        0 <= i < first ==> #[trigger] node_kept(
                            old(builder).spec_nodes(),
                            final(builder).spec_nodes(),
                            i,
                        )
                    &&& files@ == placed_files(records@, ordered@, first, n)
                    &&& final(builder).spec_counters().files_scanned
                        == old(builder).spec_counters().files_scanned + files@.len()
                    &&& final(builder).spec_counters().directories_scanned
                        == old(builder).spec_counters().directories_scanned + placed_directories(
                        records@,
                        ordered@,
                        n,
                    )
                    &&& final(builder).spec_counters().observed_logical_bytes
                        == old(builder).spec_counters().observed_logical_bytes
                    &&& final(builder).spec_counters().observed_allocated_bytes
                        == old(builder).spec_counters().observed_allocated_bytes
                    &&& final(builder).spec_counters().skipped_entries
                        == old(builder).spec_counters().skipped_entries
                    &&& final(builder).spec_counters().duplicate_hard_links
                        == old(builder).spec_counters().duplicate_hard_links
                    &&& final(builder).spec_counters().hard_link_owners@ == old(
                        builder,
                    ).spec_counters().hard_link_owners@
                    &&& final(builder).spec_counters().skipped_filesystems
                        == old(builder).spec_counters().skipped_filesystems
                    &&& final(builder).spec_counters().skipped_cloud_entries
                        == old(builder).spec_counters().skipped_cloud_entries
                    &&& final(builder).spec_counters().revision_filesystem_id == old(
                        builder,
                    ).spec_counters().revision_filesystem_id
                    &&& final(builder).spec_partial().candidates@ == old(
                        builder,
                    ).spec_partial().candidates@
                    &&& final(builder).spec_ancestors() == old(builder).spec_ancestors()
                    &&& final(builder).spec_root_filesystem() == old(
                        builder,
                    ).spec_root_filesystem()
                },
                Err(NativeScanError::Unavailable) => exists|k: int|
                    0 <= k < n && !#[trigger] parent_placed(
                        records@,
                        ordered@,
                        root_reference,
                        first,
                        k,
                    ) && forall|j: int|
                        0 <= j < k ==> #[trigger] parent_placed(
                            records@,
                            ordered@,
                            root_reference,
                            first,
                            j,
                        ),
                Err(NativeScanError::Fatal(message)) => {
                    &&& message@ == "Scan cancelled."@
                    &&& exists|k: int|
                        #![trigger placed_references(records@, ordered@, root_reference, first, k)]
                        0 <= k < n && (first + k) % 2048 == 0 && forall|j: int|
                            0 <= j < k ==> #[trigger] parent_placed(
                                records@,
                                ordered@,
                                root_reference,
                                first,
                                j,
                            )
                },
            }
        }),
{
    let first = builder.node_count();
    proof {
        builder.lemma_wf_arena();
    }
    let ghost start = builder.spec_nodes();
    let ghost start_counters = builder.spec_counters();
    let ghost start_partial = builder.spec_partial();
    let ghost rs = records@;
    let ghost os = ordered@;
    let mut node_by_reference: HashMap<u64, usize> = HashMap::with_capacity(ordered.len() + 1);
    node_by_reference.insert(root_reference, 0);
    let mut file_nodes: Vec<(usize, usize)> = Vec::new();
    let mut index: usize = 0;
    proof {
        assert(node_by_reference@ =~= placed_references(rs, os, root_reference, first as int, 0));
    }
    while index < ordered.len()
        invariant
            builder.wf(),
            0 <= index <= os.len(),
            rs == records@,
            os == ordered@,
            forall|k: int| 0 <= k < os.len() ==> #[trigger] os[k] < rs.len(),
            start == old(builder).spec_nodes(),
            start_counters == old(builder).spec_counters(),
            start_partial == old(builder).spec_partial(),
            first == start.len(),
            first >= 1,
            first + os.len() < usize::MAX,
            builder.spec_nodes().len() == first + index,
            node_by_reference@ == placed_references(
                rs,
                os,
                root_reference,
                first as int,
                index as int,
            ),
            forall|k: int|
                0 <= k < index ==> #[trigger] parent_placed(
                    rs,
                    os,
                    root_reference,
                    first as int,
                    k,
                ),
            forall|k: int|
                0 <= k < index ==> #[trigger] record_placed(
                    builder.spec_nodes(),
                    rs,
                    os,
                    root_reference,
                    first as int,
                    k,
                ),
            forall|i: int| 0 <= i < first ==> #[trigger] node_kept(start, builder.spec_nodes(), i),
            file_nodes@ == placed_files(rs, os, first as int, index as int),
            builder.spec_counters().files_scanned == start_counters.files_scanned
                + file_nodes@.len(),
            builder.spec_counters().directories_scanned == start_counters.directories_scanned
                + placed_directories(rs, os, index as int),
            builder.spec_counters().observed_logical_bytes
                == start_counters.observed_logical_bytes,
            builder.spec_counters().observed_allocated_bytes
                == start_counters.observed_allocated_bytes,
            builder.spec_counters().skipped_entries == start_counters.skipped_entries,
            builder.spec_counters().duplicate_hard_links == start_counters.duplicate_hard_links,
            builder.spec_counters().hard_link_owners@ == start_counters.hard_link_owners@,
            builder.spec_counters().skipped_filesystems == start_counters.skipped_filesystems,
            builder.spec_counters().skipped_cloud_entries == start_counters.skipped_cloud_entries,
            builder.spec_counters().revision_filesystem_id
                == start_counters.revision_filesystem_id,
            builder.spec_partial().candidates@ == start_partial.candidates@,
            builder.spec_ancestors() == old(builder).spec_ancestors(),
            builder.spec_root_filesystem() == old(builder).spec_root_filesystem(),
        decreases os.len() - index,
    {
        if builder.node_count() % CANCELLATION_CHECK_INTERVAL_ENTRIES == 0 && cancel_requested(
            cancel,
        ) {
            proof {
                let f = old(builder).spec_nodes().len() as int;
                assert(f == first);
                assert(placed_references(records@, ordered@, root_reference, f, index as int)
                    == node_by_reference@);
                assert((f + index) % 2048 == 0);
                assert(forall|j: int|
                    0 <= j < index ==> #[trigger] parent_placed(
                        records@,
                        ordered@,
                        root_reference,
                        f,
                        j,
                    ));
            }
            return Err(NativeScanError::Fatal("Scan cancelled.".to_string()));
        }
        let record_index = ordered[index];
        let record = &records[record_index];
        let parent = match node_by_reference.get(&record.parent_reference) {
            Some(node) => *node,
            None => {
                proof {
                    let f = old(builder).spec_nodes().len() as int;
                    assert(f == first);
                    assert(!parent_placed(records@, ordered@, root_reference, f, index as int));
                    assert(forall|j: int|
                        0 <= j < index ==> #[trigger] parent_placed(
                            records@,
                            ordered@,
                            root_reference,
                            f,
                            j,
                        ));
                }
                return Err(NativeScanError::Unavailable);
            },
        };
        proof {
            lemma_placed_nodes_exist(rs, os, root_reference, first as int, index as int);
            assert(parent_placed(rs, os, root_reference, first as int, index as int));
        }
        let kind = attribute_kind(record.attributes);
        let name = wtf8_name(&record.name);
        let ghost name_view = name@;
        let ghost before = builder.spec_nodes();
        let ghost before_counters = builder.spec_counters();
        let measured = MeasuredMetadata {
            logical_bytes: 0,
            allocated_bytes: 0,
            filesystem_id: None,
            file_identity: None,
            scan_revision: None,
            metadata_error: false,
        };
        let node_id = builder.add_child(parent, name, kind, measured);
        node_by_reference.insert(record.reference, node_id);
        if matches!(kind, EntryKind::File) {
            file_nodes.push((record_index, node_id));
        }
        proof {
            let after = builder.spec_nodes();
            let pushed = choose|r: (usize, Option<usize>)|
                r.0 == node_id && #[trigger] node_pushed(
                    before_counters,
                    builder.spec_counters(),
                    before,
                    after,
                    parent,
                    name_view,
                    kind,
                    measured,
                    r,
                );
            assert(node_pushed(
                before_counters,
                builder.spec_counters(),
                before,
                after,
                parent,
                name_view,
                kind,
                measured,
                pushed,
            ));
            assert(before_counters.previous_owner(measured) is None);
            assert(record_placed(after, rs, os, root_reference, first as int, index as int));
            assert forall|k: int| 0 <= k < index + 1 implies #[trigger] record_placed(
                after,
                rs,
                os,
                root_reference,
                first as int,
                k,
            ) by {
                if k < index {
                    assert(record_placed(before, rs, os, root_reference, first as int, k));
                }
            }
            assert forall|i: int| 0 <= i < first implies #[trigger] node_kept(
                start,
                after,
                i,
            ) by {
                assert(node_kept(start, before, i));
            }
        }
        index = index + 1;
    }
    Ok(file_nodes)
}

/// `\` or `/`, which separate the components of a Windows path.
pub open spec fn is_path_separator(unit: u16) -> bool {
    unit == 0x5c || unit == 0x2f
}

/// A piece between separators that names an entry: not empty, `.` or `..`.
pub open spec fn normal_component(piece: Seq<u16>) -> bool {
    &&& piece.len() > 0
    &&& piece != seq![0x2eu16]
    &&& piece != seq![0x2eu16, 0x2eu16]
}

/// The piece, as a list of one component when it names an entry.
pub open spec fn kept_piece(piece: Seq<u16>) -> Seq<Seq<u16>> {
    if normal_component(piece) {
        seq![piece]
    } else {
        Seq::empty()
    }
}

/// The components of a volume-relative link name that carries no drive
/// prefix, read up to its first NUL, given the piece already begun.
pub open spec fn link_components(units: Seq<u16>, piece: Seq<u16>) -> Seq<Seq<u16>>
    decreases units.len(),
{
    if units.len() == 0 || units[0] == 0 {
        kept_piece(piece)
    } else if is_path_separator(units[0]) {
        kept_piece(piece) + link_components(units.skip(1), Seq::empty())
    } else {
        link_components(units.skip(1), piece.push(units[0]))
    }
}

/// The views of a list of UTF-16 strings.
pub open spec fn unit_strings(strings: Seq<Vec<u16>>) -> Seq<Seq<u16>> {
    strings.map_values(|string: Vec<u16>| string@)
}

fn is_normal_component(piece: &Vec<u16>) -> (normal: bool)
    ensures
        normal == normal_component(piece@),
{
    let len = piece.len();
    if len == 0 {
        return false;
    }
    if len == 1 && piece[0] == 0x2e {
        assert(piece@ =~= seq![0x2eu16]);
        return false;
    }
    if len == 2 && piece[0] == 0x2e && piece[1] == 0x2e {
        assert(piece@ =~= seq![0x2eu16, 0x2eu16]);
        return false;
    }
    proof {
        if piece@ == seq![0x2eu16] {
            assert(piece@[0] == 0x2eu16);
        }
        if piece@ == seq![0x2eu16, 0x2eu16] {
            assert(piece@[0] == 0x2eu16 && piece@[1] == 0x2eu16);
        }
    }
    true
}

/// Splits the volume-relative name of a hard link, as the volume reports
/// it in a NUL-terminated buffer, into the components that name entries.
pub fn link_name_components(buffer: &Vec<u16>) -> (components: Vec<Vec<u16>>)
    ensures
        unit_strings(components@) == link_components(buffer@, Seq::empty()),
{
    let mut components: Vec<Vec<u16>> = Vec::new();
    let mut piece: Vec<u16> = Vec::new();
    let mut index: usize = 0;
    proof {
        assert(buffer@.skip(0) =~= buffer@);
        assert(unit_strings(components@) =~= Seq::<Seq<u16>>::empty());
        assert(piece@ =~= Seq::<u16>::empty());
        assert(Seq::<Seq<u16>>::empty() + link_components(buffer@, Seq::empty()) =~= link_components(
            buffer@,
            Seq::empty(),
        ));
    }
    while index < buffer.len() && buffer[index] != 0
        invariant
            0 <= index <= buffer@.len(),
            unit_strings(components@) + link_components(buffer@.skip(index as int), piece@)
                == link_components(buffer@, Seq::empty()),
        decreases buffer@.len() - index,
    {
        let ghost rest = buffer@.skip(index as int);
        let ghost before = unit_strings(components@);
        let ghost old_piece = piece@;
        let unit = buffer[index];
        proof {
            assert(rest[0] == unit);
            assert(rest.skip(1) =~= buffer@.skip(index + 1));
        }
        if unit == 0x5c || unit == 0x2f {
            if is_normal_component(&piece) {
                components.push(piece);
                proof {
                    assert(unit_strings(components@) =~= before + kept_piece(old_piece));
                }
            } else {
                proof {
                    assert(unit_strings(components@) =~= before + kept_piece(old_piece));
                }
            }
            piece = Vec::new();
            proof {
                assert(piece@ =~= Seq::<u16>::empty());
                assert(link_components(rest, old_piece) == kept_piece(old_piece) + link_components(
                    rest.skip(1),
                    Seq::empty(),
                ));
                assert(unit_strings(components@) + link_components(
                    buffer@.skip(index + 1),
                    piece@,
                ) =~= before + link_components(rest, old_piece));
            }
        } else {
            piece.push(unit);
            proof {
                assert(link_components(rest, old_piece) == link_components(
                    rest.skip(1),
                    old_piece.push(unit),
                ));
            }
        }
        index = index + 1;
    }
    proof {
        assert(link_components(buffer@.skip(index as int), piece@) == kept_piece(piece@));
    }
    let ghost before = unit_strings(components@);
    if is_normal_component(&piece) {
        let ghost kept = piece@;
        components.push(piece);
        proof {
            assert(unit_strings(components@) =~= before + seq![kept]);
        }
    } else {
        proof {
            assert(before + kept_piece(piece@) =~= before);
        }
    }
    components
}

/// The views of a list of byte strings.
pub open spec fn byte_strings(strings: Seq<Vec<u8>>) -> Seq<Seq<u8>> {
    strings.map_values(|string: Vec<u8>| string@)
}

/// The views of a list of link names, each a list of components.
pub open spec fn link_paths_view(paths: Seq<Vec<Vec<u8>>>) -> Seq<Seq<Seq<u8>>> {
    paths.map_values(|path: Vec<Vec<u8>>| byte_strings(path@))
}

/// The first of `children`, from position `k` on, that is a folder named
/// `name`.
pub open spec fn folder_child_from(
    nodes: Seq<InternalNode>,
    children: Seq<usize>,
    name: Seq<u8>,
    k: int,
) -> Option<usize>
    decreases children.len() - k,
{
    if k < 0 || k >= children.len() {
        None
    } else if nodes[children[k] as int].kind == EntryKind::Directory && nodes[children[
        k] as int].name@ == name {
        Some(children[k])
    } else {
        folder_child_from(nodes, children, name, k + 1)
    }
}

/// The folder reached from node `from` by following `path`, one folder name
/// at a time, the first matching child at each step.
pub open spec fn walk_folders(nodes: Seq<InternalNode>, from: usize, path: Seq<Seq<u8>>) -> Option<
    usize,
>
    decreases path.len(),
{
    if path.len() == 0 {
        Some(from)
    } else {
        match folder_child_from(nodes, nodes[from as int].children@, path[0], 0) {
            Some(child) => walk_folders(nodes, child, path.skip(1)),
            None => None,
        }
    }
}

/// The folder that would hold a link name: the one its components but the
/// last lead to from the root. A name without components has none.
pub open spec fn link_parent(nodes: Seq<InternalNode>, path: Seq<Seq<u8>>) -> Option<usize> {
    if path.len() == 0 {
        None
    } else {
        walk_folders(nodes, 0, path.drop_last())
    }
}

/// Some child of `parent`, of any kind, is named `name`.
pub open spec fn child_named(nodes: Seq<InternalNode>, parent: usize, name: Seq<u8>) -> bool {
    exists|k: int|
        0 <= k < nodes[parent as int].children@.len() && #[trigger] nodes[nodes[parent as int].children@[
            k] as int].name@ == name
}

/// Finds the first child of `parent` that is a folder named `name`.
fn find_folder_child(nodes: &Vec<InternalNode>, parent: usize, name: &Vec<u8>) -> (child: Option<
    usize,
>)
    requires
        arena_wf(nodes@),
        parent < nodes@.len(),
    ensures
        child == folder_child_from(nodes@, nodes@[parent as int].children@, name@, 0),
        child matches Some(c) ==> c < nodes@.len(),
{
    let children = &nodes[parent].children;
    let mut k: usize = 0;
    while k < children.len()
        invariant
            arena_wf(nodes@),
            parent < nodes@.len(),
            children@ == nodes@[parent as int].children@,
            0 <= k <= children@.len(),
            folder_child_from(nodes@, children@, name@, 0) == folder_child_from(
                nodes@,
                children@,
                name@,
                k as int,
            ),
        decreases children@.len() - k,
    {
        let child = children[k];
        proof {
            assert(crate::arena::child_links(nodes@, parent as int, k as int));
        }
        if matches!(nodes[child].kind, EntryKind::Directory) && bytes_equal(
            nodes[child].name.as_slice(),
            name.as_slice(),
        ) {
            return Some(child);
        }
        k = k + 1;
    }
    None
}

/// Finds the folder that would hold a link name, following its components
/// from the root through folders only.
pub fn resolve_link_parent(nodes: &Vec<InternalNode>, path: &Vec<Vec<u8>>) -> (parent: Option<usize>)
    requires
        arena_wf(nodes@),
    ensures
        parent == link_parent(nodes@, byte_strings(path@)),
        parent matches Some(p) ==> p < nodes@.len(),
{
    if path.len() == 0 {
        return None;
    }
    let last = path.len() - 1;
    let ghost prefix = byte_strings(path@).drop_last();
    let mut parent: usize = 0;
    let mut depth: usize = 0;
    proof {
        assert(prefix.skip(0) =~= prefix);
    }
    while depth < last
        invariant
            arena_wf(nodes@),
            last + 1 == path@.len(),
            prefix == byte_strings(path@).drop_last(),
            0 <= depth <= last,
            parent < nodes@.len(),
            walk_folders(nodes@, 0, prefix) == walk_folders(nodes@, parent, prefix.skip(
                depth as int,
            )),
        decreases last - depth,
    {
        let ghost rest = prefix.skip(depth as int);
        proof {
            assert(rest[0] == path@[depth as int]@);
            assert(rest.skip(1) =~= prefix.skip(depth + 1));
        }
        match find_folder_child(nodes, parent, &path[depth]) {
            Some(child) => {
                parent = child;
            },
            None => {
                return None;
            },
        }
        depth = depth + 1;
    }
    proof {
        assert(prefix.skip(depth as int) =~= Seq::<Seq<u8>>::empty());
    }
    Some(parent)
}

/// Tells whether some child of `parent` is named `name`.
pub fn has_child_named(nodes: &Vec<InternalNode>, parent: usize, name: &Vec<u8>) -> (named: bool)
    requires
        arena_wf(nodes@),
        parent < nodes@.len(),
    ensures
        named == child_named(nodes@, parent, name@),
{
    let children = &nodes[parent].children;
    let mut k: usize = 0;
    while k < children.len()
        invariant
            arena_wf(nodes@),
            parent < nodes@.len(),
            children@ == nodes@[parent as int].children@,
            0 <= k <= children@.len(),
            forall|j: int| 0 <= j < k ==> #[trigger] nodes@[children@[j] as int].name@ != name@,
        decreases children@.len() - k,
    {
        let child = children[k];
        proof {
            assert(crate::arena::child_links(nodes@, parent as int, k as int));
        }
        if bytes_equal(nodes[child].name.as_slice(), name.as_slice()) {
            return true;
        }
        k = k + 1;
    }
    false
}

/// A measured file with more than one name, whose other names are still to
/// be found.
#[derive(Clone, Copy, Debug)]
pub struct HardLinkCandidate {
    pub node_id: usize,
    pub measured: MeasuredMetadata,
    pub link_count: u32,
}

/// What the first `k` names of a hard-linked file do to a tree: the
/// (folder, name) pairs to add, and how many names resolved. A name seen
/// before is passed over, as is one whose folders are not in the tree; one
/// already present below its folder resolves without being added.
pub open spec fn link_outcome(nodes: Seq<InternalNode>, paths: Seq<Seq<Seq<u8>>>, k: int) -> (Seq<
    (usize, Seq<u8>),
>, int)
    decreases k,
{
    if k <= 0 {
        (Seq::empty(), 0)
    } else {
        let before = link_outcome(nodes, paths, k - 1);
        let path = paths[k - 1];
        if paths.take(k - 1).contains(path) {
            before
        } else {
            match link_parent(nodes, path) {
                None => before,
                Some(parent) => {
                    let entry = (parent, path.last());
                    if child_named(nodes, parent, path.last()) || before.0.contains(entry) {
                        (before.0, before.1 + 1)
                    } else {
                        (before.0.push(entry), before.1 + 1)
                    }
                },
            }
        }
    }
}

/// The views of planned (folder, name) pairs.
pub open spec fn planned_view(plan: Seq<(usize, Vec<u8>)>) -> Seq<(usize, Seq<u8>)> {
    plan.map_values(|entry: (usize, Vec<u8>)| (entry.0, entry.1@))
}

fn same_link_path(a: &Vec<Vec<u8>>, b: &Vec<Vec<u8>>) -> (same: bool)
    ensures
        same == (byte_strings(a@) == byte_strings(b@)),
{
    if a.len() != b.len() {
        proof {
            assert(byte_strings(a@).len() != byte_strings(b@).len());
        }
        return false;
    }
    let same = crate::roots::segment_lists_equal(a, b, a.len());
    proof {
        assert(a@.map_values(|s: Vec<u8>| s@).take(a@.len() as int) =~= byte_strings(a@));
        assert(b@.map_values(|s: Vec<u8>| s@).take(b@.len() as int) =~= byte_strings(b@));
    }
    same
}

fn copy_name(name: &Vec<u8>) -> (copy: Vec<u8>)
    ensures
        copy@ == name@,
{
    let copy = name.clone();
    proof {
        assert(copy@ =~= name@);
    }
    copy
}

fn planned_already(plan: &Vec<(usize, Vec<u8>)>, parent: usize, name: &Vec<u8>) -> (found: bool)
    ensures
        found == planned_view(plan@).contains((parent, name@)),
{
    let mut k: usize = 0;
    while k < plan.len()
        invariant
            0 <= k <= plan@.len(),
            forall|j: int| 0 <= j < k ==> #[trigger] planned_view(plan@)[j] != (parent, name@),
        decreases plan@.len() - k,
    {
        if plan[k].0 == parent && bytes_equal(plan[k].1.as_slice(), name.as_slice()) {
            proof {
                assert(planned_view(plan@)[k as int] == (parent, name@));
            }
            return true;
        }
        k = k + 1;
    }
    false
}

/// Decides, from the tree as it stands, which names of a hard-linked file
/// to add and below which folders, and counts the names that resolve,
/// saturating at `u32::MAX`.
pub fn plan_link_names(nodes: &Vec<InternalNode>, paths: &Vec<Vec<Vec<u8>>>) -> (plan: (
    Vec<(usize, Vec<u8>)>,
    u32,
))
    requires
        arena_wf(nodes@),
    ensures
        ({
            let outcome = link_outcome(nodes@, link_paths_view(paths@), paths@.len() as int);
            &&& planned_view(plan.0@) == outcome.0
            &&& plan.1 == if outcome.1 > u32::MAX {
                u32::MAX as int
            } else {
                outcome.1
            }
        }),
        forall|m: int| 0 <= m < plan.0@.len() ==> #[trigger] plan.0@[m].0 < nodes@.len(),
        plan.0@.len() <= paths@.len(),
{
    let ghost views = link_paths_view(paths@);
    let mut plan: Vec<(usize, Vec<u8>)> = Vec::new();
    let mut resolved: u32 = 0;
    let mut index: usize = 0;
    while index < paths.len()
        invariant
            arena_wf(nodes@),
            views == link_paths_view(paths@),
            0 <= index <= paths@.len(),
            planned_view(plan@) == link_outcome(nodes@, views, index as int).0,
            resolved == if link_outcome(nodes@, views, index as int).1 > u32::MAX {
                u32::MAX as int
            } else {
                link_outcome(nodes@, views, index as int).1
            },
            forall|m: int| 0 <= m < plan@.len() ==> #[trigger] plan@[m].0 < nodes@.len(),
            plan@.len() <= index,
        decreases paths@.len() - index,
    {
        let path = &paths[index];
        let ghost path_view = views[index as int];
        proof {
            assert(path_view == byte_strings(path@));
        }
        let mut seen = false;
        let mut j: usize = 0;
        while j < index
            invariant
                0 <= j <= index < paths@.len(),
                views == link_paths_view(paths@),
                path_view == views[index as int],
                path == paths@[index as int],
                seen == views.take(index as int).take(j as int).contains(path_view),
            decreases index - j,
        {
            let same = same_link_path(&paths[j], path);
            proof {
                let before = views.take(index as int).take(j as int);
                let after = views.take(index as int).take(j + 1);
                assert(after =~= before.push(views[j as int]));
                assert(views[j as int] == byte_strings(paths@[j as int]@));
                if before.contains(path_view) {
                    let w = choose|w: int| 0 <= w < before.len() && before[w] == path_view;
                    assert(after[w] == path_view);
                }
                if same {
                    assert(after[j as int] == path_view);
                }
                if after.contains(path_view) {
                    let w = choose|w: int| 0 <= w < after.len() && after[w] == path_view;
                    if w < j {
                        assert(before[w] == path_view);
                    }
                }
            }
            seen = seen || same;
            j = j + 1;
        }
        proof {
            assert(views.take(index as int).take(index as int) =~= views.take(index as int));
            assert(views.take(index + 1).take(index as int) =~= views.take(index as int));
        }
        if !seen {
            match resolve_link_parent(nodes, path) {
                Some(parent) => {
                    let name = &path[path.len() - 1];
                    proof {
                        assert(path_view.last() == name@);
                    }
                    if has_child_named(nodes, parent, name) || planned_already(
                        &plan,
                        parent,
                        name,
                    ) {
                    } else {
                        let ghost before = planned_view(plan@);
                        plan.push((parent, copy_name(name)));
                        proof {
                            assert(planned_view(plan@) =~= before.push((parent, name@)));
                        }
                    }
                    resolved = resolved.saturating_add(1);
                },
                None => {},
            }
        }
        index = index + 1;
    }
    (plan, resolved)
}

/// Node `first + m` is the `m`-th added name: a file below its folder.
pub open spec fn link_placed(
    nodes: Seq<InternalNode>,
    first: int,
    added: Seq<(usize, Seq<u8>)>,
    m: int,
) -> bool {
    let node = nodes[first + m];
    &&& node.name@ == added[m].1
    &&& node.kind == EntryKind::File
    &&& node.parent is Some
    &&& parent_of(node) == added[m].0
}

/// Node `i` keeps its name, parent and kind.
pub open spec fn shape_kept(before: Seq<InternalNode>, after: Seq<InternalNode>, i: int) -> bool {
    &&& after[i].name@ == before[i].name@
    &&& after[i].parent == before[i].parent
    &&& after[i].kind == before[i].kind
}

/// Places the other names of a hard-linked file, given the names the
/// volume lists for it as lists of components: each name that resolves to
/// a folder of the tree and is not there yet becomes a file node carrying
/// the file's measurement, which the hard-link accounting charges once. When
/// the names that resolved differ from the file's link count, the file
/// counts as skipped.
pub fn place_link_names(
    builder: &mut TreeBuilder,
    candidate: &HardLinkCandidate,
    paths: &Vec<Vec<Vec<u8>>>,
)
    requires
        old(builder).wf(),
        old(builder).spec_nodes().len() + paths@.len() < usize::MAX,
    ensures
        final(builder).wf(),
        ({
            let first = old(builder).spec_nodes().len() as int;
            let outcome = link_outcome(
                old(builder).spec_nodes(),
                link_paths_view(paths@),
                paths@.len() as int,
            );
            let resolved = if outcome.1 > u32::MAX {
                u32::MAX as int
            } else {
                outcome.1
            };
            &&& final(builder).spec_nodes().len() == first + outcome.0.len()
            &&& forall|m: int|
                0 <= m < outcome.0.len() ==> #[trigger] link_placed(
                    final(builder).spec_nodes(),
                    first,
                    outcome.0,
                    m,
                )
            &&& forall|i: int|
                0 <= i < first ==> #[trigger] shape_kept(
                    old(builder).spec_nodes(),
                    final(builder).spec_nodes(),
                    i,
                )
            &&& final(builder).spec_counters().files_scanned
                == old(builder).spec_counters().files_scanned + outcome.0.len()
            &&& final(builder).spec_counters().directories_scanned
                == old(builder).spec_counters().directories_scanned
            &&& final(builder).spec_counters().skipped_filesystems
                == old(builder).spec_counters().skipped_filesystems
            &&& final(builder).spec_counters().skipped_cloud_entries
                == old(builder).spec_counters().skipped_cloud_entries
            &&& final(builder).spec_ancestors() == old(builder).spec_ancestors()
            &&& final(builder).spec_root_filesystem() == old(builder).spec_root_filesystem()
            &&& final(builder).spec_counters().skipped_entries == if resolved
                != candidate.link_count {
                sat_add(old(builder).spec_counters().skipped_entries as int, 1)
            } else {
                old(builder).spec_counters().skipped_entries
            }
        }),
{
    let ghost start = builder.spec_nodes();
    let ghost start_counters = builder.spec_counters();
    proof {
        builder.lemma_wf_arena();
    }
    let (plan, resolved) = plan_link_names(builder.nodes(), paths);
    let ghost added = planned_view(plan@);
    let mut m: usize = 0;
    while m < plan.len()
        invariant
            builder.wf(),
            0 <= m <= plan@.len(),
            plan@.len() <= paths@.len(),
            start.len() + paths@.len() < usize::MAX,
            added == planned_view(plan@),
            forall|k: int| 0 <= k < plan@.len() ==> #[trigger] plan@[k].0 < start.len(),
            builder.spec_nodes().len() == start.len() + m,
            forall|k: int|
                0 <= k < m ==> #[trigger] link_placed(
                    builder.spec_nodes(),
                    start.len() as int,
                    added,
                    k,
                ),
            forall|i: int| 0 <= i < start.len() ==> #[trigger] shape_kept(start, builder.spec_nodes(), i),
            builder.spec_counters().files_scanned == start_counters.files_scanned + m,
            builder.spec_counters().directories_scanned == start_counters.directories_scanned,
            builder.spec_counters().skipped_entries == start_counters.skipped_entries,
            builder.spec_counters().skipped_filesystems == start_counters.skipped_filesystems,
            builder.spec_counters().skipped_cloud_entries == start_counters.skipped_cloud_entries,
            builder.spec_ancestors() == old(builder).spec_ancestors(),
            builder.spec_root_filesystem() == old(builder).spec_root_filesystem(),
        decreases plan@.len() - m,
    {
        let parent = plan[m].0;
        let name = copy_name(&plan[m].1);
        let ghost before = builder.spec_nodes();
        let ghost name_view = name@;
        let ghost before_counters = builder.spec_counters();
        let node_id = builder.add_child(parent, name, EntryKind::File, candidate.measured);
        proof {
            let after = builder.spec_nodes();
            let pushed = choose|r: (usize, Option<usize>)|
                r.0 == node_id && #[trigger] node_pushed(
                    before_counters,
                    builder.spec_counters(),
                    before,
                    after,
                    parent,
                    name_view,
                    EntryKind::File,
                    candidate.measured,
                    r,
                );
            assert(node_pushed(
                before_counters,
                builder.spec_counters(),
                before,
                after,
                parent,
                name_view,
                EntryKind::File,
                candidate.measured,
                pushed,
            ));
            assert(added[m as int] == (parent, name_view));
            assert(after[start.len() + m].name@ == name_view);
            assert(after[start.len() + m].kind == EntryKind::File);
            assert(parent_of(after[start.len() + m]) == parent);
            assert(link_placed(after, start.len() as int, added, m as int));
            assert forall|k: int| 0 <= k < m + 1 implies #[trigger] link_placed(
                after,
                start.len() as int,
                added,
                k,
            ) by {
                if k < m {
                    assert(link_placed(before, start.len() as int, added, k));
                    assert(after[start.len() + k].name == before[start.len() + k].name);
                }
            }
            assert forall|i: int| 0 <= i < start.len() implies #[trigger] shape_kept(
                start,
                after,
                i,
            ) by {
                assert(shape_kept(start, before, i));
            }
        }
        m = m + 1;
    }
    if resolved != candidate.link_count {
        builder.skip_unreadable();
    }
}

} // verus!
