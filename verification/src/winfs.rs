//! The decisions of the Windows traversals: what file attributes and reparse
//! tags make an entry, which entries would recall cloud data, how a batch of
//! a handle-relative folder listing is read, and how many arena slots an
//! NTFS volume scan needs.
use vstd::prelude::*;
use crate::arena::{MeasuredMetadata, ScanCounters, node_pushed};
use crate::mft::{le32, read_le16, read_le32, utf16_units};
use crate::ranking::partial_observed;
use crate::statx::NativeStep;
use crate::types::EntryKind;
use crate::walk::{TreeBuilder, bump};

verus! {

/// `FILE_ATTRIBUTE_DIRECTORY`.
pub const FILE_ATTRIBUTE_DIRECTORY: u32 = 0x10;
/// `FILE_ATTRIBUTE_REPARSE_POINT`.
pub const FILE_ATTRIBUTE_REPARSE_POINT: u32 = 0x400;
/// `FILE_ATTRIBUTE_OFFLINE`.
pub const FILE_ATTRIBUTE_OFFLINE: u32 = 0x1000;
/// `FILE_ATTRIBUTE_RECALL_ON_OPEN`, meaningful only in folder listings.
pub const FILE_ATTRIBUTE_RECALL_ON_OPEN: u32 = 0x40000;
/// `FILE_ATTRIBUTE_RECALL_ON_DATA_ACCESS`.
pub const FILE_ATTRIBUTE_RECALL_ON_DATA_ACCESS: u32 = 0x400000;
/// `IO_REPARSE_TAG_CLOUD`.
pub const IO_REPARSE_TAG_CLOUD: u32 = 0x9000001a;
/// `IO_REPARSE_TAG_CLOUD_MASK`: the bits that vary among cloud tags.
pub const IO_REPARSE_TAG_CLOUD_MASK: u32 = 0xf000;
/// The length of the fixed part of a folder listing record.
pub const DIRECTORY_RECORD_BYTES: usize = 64;

/// Whether reading an entry's data would recall it from the cloud.
pub open spec fn spec_needs_recall(attributes: u32) -> bool {
    attributes & (FILE_ATTRIBUTE_OFFLINE | FILE_ATTRIBUTE_RECALL_ON_DATA_ACCESS) != 0
}

/// Reports whether reading an entry's data would recall it from the cloud.
pub fn needs_recall(attributes: u32) -> (recall: bool)
    ensures
        recall == spec_needs_recall(attributes),
{
    attributes & (FILE_ATTRIBUTE_OFFLINE | FILE_ATTRIBUTE_RECALL_ON_DATA_ACCESS) != 0
}

/// Whether a listed entry would be recalled: in a folder listing the
/// recall-on-open bit counts too.
pub fn enumeration_needs_recall(attributes: u32) -> (recall: bool)
    ensures
        recall == (spec_needs_recall(attributes) || attributes & FILE_ATTRIBUTE_RECALL_ON_OPEN
            != 0),
{
    needs_recall(attributes) || attributes & FILE_ATTRIBUTE_RECALL_ON_OPEN != 0
}

/// Whether a reparse tag is one of the cloud files tags.
pub open spec fn spec_is_cloud_tag(tag: u32) -> bool {
    tag & !IO_REPARSE_TAG_CLOUD_MASK == IO_REPARSE_TAG_CLOUD
}

/// Reports whether a reparse tag is one of the cloud files tags.
pub fn is_cloud_tag(tag: u32) -> (cloud: bool)
    ensures
        cloud == spec_is_cloud_tag(tag),
{
    tag & !IO_REPARSE_TAG_CLOUD_MASK == IO_REPARSE_TAG_CLOUD
}

/// The kind of an opened entry: a reparse point other than a cloud
/// placeholder is a link, never followed; otherwise a folder or a file.
pub fn classify(attributes: u32, tag: u32) -> (kind: EntryKind)
    ensures
        kind == (if attributes & FILE_ATTRIBUTE_REPARSE_POINT != 0 && !spec_is_cloud_tag(tag) {
            EntryKind::Symlink
        } else if attributes & FILE_ATTRIBUTE_DIRECTORY != 0 {
            EntryKind::Directory
        } else {
            EntryKind::File
        }),
{
    if attributes & FILE_ATTRIBUTE_REPARSE_POINT != 0 && !is_cloud_tag(tag) {
        EntryKind::Symlink
    } else if attributes & FILE_ATTRIBUTE_DIRECTORY != 0 {
        EntryKind::Directory
    } else {
        EntryKind::File
    }
}

/// The kind of a volume index record: every reparse point, a folder's
/// included, is a link.
pub open spec fn spec_attribute_kind(attributes: u32) -> EntryKind {
    if attributes & FILE_ATTRIBUTE_REPARSE_POINT != 0 {
        EntryKind::Symlink
    } else if attributes & FILE_ATTRIBUTE_DIRECTORY != 0 {
        EntryKind::Directory
    } else {
        EntryKind::File
    }
}

/// Tells the kind of a volume index record from its attributes.
pub fn attribute_kind(attributes: u32) -> (kind: EntryKind)
    ensures
        kind == spec_attribute_kind(attributes),
{
    if attributes & FILE_ATTRIBUTE_REPARSE_POINT != 0 {
        EntryKind::Symlink
    } else if attributes & FILE_ATTRIBUTE_DIRECTORY != 0 {
        EntryKind::Directory
    } else {
        EntryKind::File
    }
}

/// One entry of a folder listing batch.
#[derive(Clone, Debug)]
pub struct ListedEntry {
    pub name: Vec<u16>,
    pub attributes: u32,
}

/// The code units a name may not contain: NUL, `/`, `:` and `\`.
pub open spec fn forbidden_unit(unit: u16) -> bool {
    unit == 0 || unit == 47 || unit == 58 || unit == 92
}

/// The names that stand for the folder itself and its parent.
pub open spec fn is_dot_units(name: Seq<u16>) -> bool {
    name == seq![46u16] || name == seq![46u16, 46u16]
}

/// The entries of a listing batch from `offset` on, or `None` when a record
/// is malformed. Each record has a 64-byte fixed part with the offset of the
/// next record first, the attributes at 56 and the name length at 60; the
/// name is a nonempty, even number of bytes after the fixed part, in the
/// record, holding no NUL or separator; the next record lies after the name,
/// inside the batch, 8-byte aligned, and zero ends the batch. The folder's
/// own names are dropped.
pub open spec fn spec_listed_entries(bytes: Seq<u8>, offset: int) -> Option<Seq<(Seq<u16>, u32)>>
    decreases bytes.len() - offset,
{
    if offset < 0 || offset > bytes.len() || bytes.len() - offset < DIRECTORY_RECORD_BYTES {
        None
    } else {
        let next = le32(bytes, offset);
        let length = le32(bytes, offset + 60);
        let end = DIRECTORY_RECORD_BYTES + length;
        let available = bytes.len() - offset;
        if length == 0 || length % 2 != 0 || end > available || (next != 0 && (next < end || next
            % 8 != 0 || next >= available)) {
            None
        } else {
            let name = utf16_units(bytes.subrange(offset + 64, offset + end));
            if exists|i: int| 0 <= i < name.len() && #[trigger] forbidden_unit(name[i]) {
                None
            } else {
                let here = if is_dot_units(name) {
                    Seq::<(Seq<u16>, u32)>::empty()
                } else {
                    seq![(name, le32(bytes, offset + 56) as u32)]
                };
                if next == 0 {
                    Some(here)
                } else {
                    match spec_listed_entries(bytes, offset + next) {
                        None => None,
                        Some(rest) => Some(here + rest),
                    }
                }
            }
        }
    }
}

/// What listed entries hold.
pub open spec fn listed_views(entries: Seq<ListedEntry>) -> Seq<(Seq<u16>, u32)> {
    entries.map_values(|entry: ListedEntry| (entry.name@, entry.attributes))
}

fn read_units(bytes: &[u8], start: usize, length: usize) -> (units: Vec<u16>)
    requires
        start + length <= bytes@.len(),
    ensures
        units@ == utf16_units(bytes@.subrange(start as int, (start + length) as int)),
{
    let total = bytes.len();
    let ghost names = bytes@.subrange(start as int, (start + length) as int);
    let mut units: Vec<u16> = Vec::new();
    let mut unit: usize = 0;
    while unit < length / 2
        invariant
            0 <= unit <= length / 2,
            start + length <= bytes@.len(),
            bytes@.len() == total,
            names == bytes@.subrange(start as int, (start + length) as int),
            units@ == utf16_units(names).take(unit as int),
        decreases length / 2 - unit,
    {
        let value = read_le16(bytes, start + 2 * unit);
        proof {
            assert(names[2 * unit as int] == bytes@[start + 2 * unit as int]);
            assert(names[2 * unit as int + 1] == bytes@[start + 2 * unit as int + 1]);
        }
        units.push(value);
        unit = unit + 1;
        proof {
            assert(units@ =~= utf16_units(names).take(unit as int));
        }
    }
    proof {
        assert(utf16_units(names).take((length / 2) as int) =~= utf16_units(names));
    }
    units
}

fn has_forbidden_unit(name: &Vec<u16>) -> (found: bool)
    ensures
        found == exists|i: int| 0 <= i < name@.len() && #[trigger] forbidden_unit(name@[i]),
{
    let mut index: usize = 0;
    while index < name.len()
        invariant
            0 <= index <= name@.len(),
            forall|i: int| 0 <= i < index ==> !#[trigger] forbidden_unit(name@[i]),
        decreases name@.len() - index,
    {
        let unit = name[index];
        if unit == 0 || unit == 47 || unit == 58 || unit == 92 {
            assert(forbidden_unit(name@[index as int]));
            return true;
        }
        index = index + 1;
    }
    false
}

fn dot_units(name: &Vec<u16>) -> (dot: bool)
    ensures
        dot == is_dot_units(name@),
{
    let dot = (name.len() == 1 && name[0] == 46u16) || (name.len() == 2 && name[0] == 46u16
        && name[1] == 46u16);
    proof {
        if name.len() == 1 && name[0] == 46u16 {
            assert(name@ =~= seq![46u16]);
        }
        if name.len() == 2 && name[0] == 46u16 && name[1] == 46u16 {
            assert(name@ =~= seq![46u16, 46u16]);
        }
    }
    dot
}

/// Reads one batch of a handle-relative folder listing; any malformed
/// record fails the whole batch.
#[verifier::rlimit(30)]
pub fn parse_listing(bytes: &[u8]) -> (r: Result<Vec<ListedEntry>, String>)
    ensures
        match spec_listed_entries(bytes@, 0) {
            Some(views) => r matches Ok(entries) && listed_views(entries@) == views,
            None => r matches Err(message) && message@ == "Invalid Windows directory record"@,
        },
{
    let mut entries: Vec<ListedEntry> = Vec::new();
    let mut offset: usize = 0;
    loop
        invariant
            offset <= bytes@.len(),
            spec_listed_entries(bytes@, 0) == match spec_listed_entries(bytes@, offset as int) {
                Some(rest) => Some(listed_views(entries@) + rest),
                None => None::<Seq<(Seq<u16>, u32)>>,
            },
        decreases bytes@.len() - offset,
    {
        let available = bytes.len() - offset;
        if available < DIRECTORY_RECORD_BYTES {
            return Err("Invalid Windows directory record".to_string());
        }
        let next = read_le32(bytes, offset) as usize;
        let length = read_le32(bytes, offset + 60) as usize;
        if length == 0 || length % 2 != 0 || length > available - DIRECTORY_RECORD_BYTES {
            return Err("Invalid Windows directory record".to_string());
        }
        let end = DIRECTORY_RECORD_BYTES + length;
        if next != 0 && (next < end || next % 8 != 0 || next >= available) {
            return Err("Invalid Windows directory record".to_string());
        }
        let name = read_units(bytes, offset + 64, length);
        if has_forbidden_unit(&name) {
            return Err("Invalid Windows directory record".to_string());
        }
        let attributes = read_le32(bytes, offset + 56);
        let ghost before = entries@;
        let ghost here = if is_dot_units(name@) {
            Seq::<(Seq<u16>, u32)>::empty()
        } else {
            seq![(name@, attributes)]
        };
        if !dot_units(&name) {
            entries.push(ListedEntry { name, attributes });
        }
        proof {
            assert(listed_views(entries@) =~= listed_views(before) + here);
        }
        if next == 0 {
            proof {
                assert(spec_listed_entries(bytes@, offset as int) == Some(here));
            }
            return Ok(entries);
        }
        proof {
            let following = spec_listed_entries(bytes@, offset + next);
            if let Some(rest) = following {
                assert(listed_views(before) + (here + rest) =~= listed_views(entries@) + rest);
            }
        }
        offset = offset + next;
    }
}

/// The arena slots an NTFS volume scan reserves: the root and every listed
/// entry, or the reason they cannot be counted.
pub fn arena_capacity(entries: usize) -> (r: Result<usize, String>)
    ensures
        entries < usize::MAX ==> r == Ok::<usize, String>((entries + 1) as usize),
        entries == usize::MAX ==> (r matches Err(message) && message@
            == "The NTFS index contains too many entries."@),
{
    if entries == usize::MAX {
        return Err("The NTFS index contains too many entries.".to_string());
    }
    Ok(entries + 1)
}

/// The extra names a file's hard links add beyond its first.
pub open spec fn alias_total(link_counts: Seq<u32>) -> int
    decreases link_counts.len(),
{
    if link_counts.len() == 0 {
        0
    } else {
        alias_total(link_counts.drop_last()) + if link_counts.last() > 0 {
            link_counts.last() - 1
        } else {
            0
        }
    }
}

proof fn lemma_alias_total_grows(link_counts: Seq<u32>, at: int)
    requires
        0 <= at <= link_counts.len(),
    ensures
        alias_total(link_counts.take(at)) <= alias_total(link_counts),
    decreases link_counts.len() - at,
{
    if at < link_counts.len() {
        lemma_alias_total_grows(link_counts, at + 1);
        assert(link_counts.take(at + 1).drop_last() =~= link_counts.take(at));
    } else {
        assert(link_counts.take(at) =~= link_counts);
    }
}

/// The arena slots that the other names of hard-linked files need, or the
/// reason they cannot be counted.
pub fn hard_link_alias_count(link_counts: &Vec<u32>) -> (r: Result<usize, String>)
    ensures
        alias_total(link_counts@) <= usize::MAX ==> r == Ok::<usize, String>(
            alias_total(link_counts@) as usize,
        ),
        alias_total(link_counts@) > usize::MAX ==> (r matches Err(message) && message@
            == "The NTFS hard-link index contains too many names."@),
{
    let mut total: usize = 0;
    let mut index: usize = 0;
    while index < link_counts.len()
        invariant
            0 <= index <= link_counts@.len(),
            total == alias_total(link_counts@.take(index as int)),
        decreases link_counts@.len() - index,
    {
        proof {
            assert(link_counts@.take(index as int + 1).drop_last() =~= link_counts@.take(
                index as int,
            ));
        }
        let count = link_counts[index];
        let extra: usize = if count > 0 {
            (count - 1) as usize
        } else {
            0
        };
        if total > usize::MAX - extra {
            proof {
                lemma_alias_total_grows(link_counts@, index as int + 1);
            }
            return Err("The NTFS hard-link index contains too many names.".to_string());
        }
        total = total + extra;
        index = index + 1;
    }
    proof {
        assert(link_counts@.take(index as int) =~= link_counts@);
    }
    Ok(total)
}

/// A leading surrogate.
pub open spec fn is_high_surrogate(unit: u16) -> bool {
    0xd800 <= unit < 0xdc00
}

/// A trailing surrogate.
pub open spec fn is_low_surrogate(unit: u16) -> bool {
    0xdc00 <= unit < 0xe000
}

/// The generalized UTF-8 bytes of a code point, surrogates included.
pub open spec fn code_point_bytes(c: int) -> Seq<u8> {
    if c < 0x80 {
        seq![c as u8]
    } else if c < 0x800 {
        seq![(0xc0 + c / 64) as u8, (0x80 + c % 64) as u8]
    } else if c < 0x10000 {
        seq![(0xe0 + c / 4096) as u8, (0x80 + (c / 64) % 64) as u8, (0x80 + c % 64) as u8]
    } else {
        seq![
            (0xf0 + c / 262144) as u8,
            (0x80 + (c / 4096) % 64) as u8,
            (0x80 + (c / 64) % 64) as u8,
            (0x80 + c % 64) as u8,
        ]
    }
}

/// The WTF-8 bytes of a UTF-16 name: a surrogate pair is one supplementary
/// code point, and an unpaired surrogate is kept as its own code point.
pub open spec fn wtf8(units: Seq<u16>) -> Seq<u8>
    decreases units.len(),
{
    if units.len() == 0 {
        Seq::empty()
    } else if units.len() >= 2 && is_high_surrogate(units[0]) && is_low_surrogate(units[1]) {
        code_point_bytes(0x10000 + (units[0] - 0xd800) * 1024 + (units[1] - 0xdc00)) + wtf8(
            units.skip(2),
        )
    } else {
        code_point_bytes(units[0] as int) + wtf8(units.skip(1))
    }
}

fn push_code_point(out: &mut Vec<u8>, c: u32)
    requires
        c < 0x110000,
    ensures
        final(out)@ == old(out)@ + code_point_bytes(c as int),
{
    let ghost before = out@;
    if c < 0x80 {
        out.push(c as u8);
    } else if c < 0x800 {
        out.push((0xc0 + c / 64) as u8);
        out.push((0x80 + c % 64) as u8);
    } else if c < 0x10000 {
        out.push((0xe0 + c / 4096) as u8);
        out.push((0x80 + (c / 64) % 64) as u8);
        out.push((0x80 + c % 64) as u8);
    } else {
        out.push((0xf0 + c / 262144) as u8);
        out.push((0x80 + (c / 4096) % 64) as u8);
        out.push((0x80 + (c / 64) % 64) as u8);
        out.push((0x80 + c % 64) as u8);
    }
    proof {
        assert(out@ =~= before + code_point_bytes(c as int));
    }
}

/// Encodes a UTF-16 name as the WTF-8 bytes the scan tree keeps.
pub fn wtf8_name(units: &Vec<u16>) -> (name: Vec<u8>)
    ensures
        name@ == wtf8(units@),
{
    let mut out: Vec<u8> = Vec::new();
    let mut index: usize = 0;
    proof {
        assert(units@.skip(0) =~= units@);
    }
    while index < units.len()
        invariant
            0 <= index <= units@.len(),
            out@ + wtf8(units@.skip(index as int)) == wtf8(units@),
        decreases units@.len() - index,
    {
        let ghost rest = units@.skip(index as int);
        let unit = units[index];
        if index + 1 < units.len() && 0xd800 <= unit && unit < 0xdc00 && 0xdc00 <= units[index + 1]
            && units[index + 1] < 0xe000 {
            let low = units[index + 1];
            let c: u32 = 0x10000 + ((unit - 0xd800) as u32) * 1024 + ((low - 0xdc00) as u32);
            proof {
                assert(rest[0] == unit && rest[1] == low);
                assert(rest.skip(2) =~= units@.skip(index + 2));
            }
            let ghost before = out@;
            push_code_point(&mut out, c);
            proof {
                assert(out@ + wtf8(units@.skip(index + 2)) =~= before + wtf8(rest));
            }
            index = index + 2;
        } else {
            proof {
                assert(rest[0] == unit);
                assert(rest.skip(1) =~= units@.skip(index + 1));
            }
            let ghost before = out@;
            push_code_point(&mut out, unit as u32);
            proof {
                assert(out@ + wtf8(units@.skip(index + 1)) =~= before + wtf8(rest));
            }
            index = index + 1;
        }
    }
    proof {
        assert(units@.skip(index as int) =~= Seq::<u16>::empty());
        assert(out@ + Seq::<u8>::empty() =~= out@);
    }
    out
}

/// What opening one listed entry of a handle-relative traversal found.
#[derive(Clone, Copy, Debug)]
pub enum LocalOutcome {
    /// Reading the entry would recall it from the cloud.
    Cloud,
    /// The entry could not be opened or measured.
    Unreadable,
    /// The entry was measured; a folder's listing handle may have failed to
    /// open.
    Inspected { kind: EntryKind, measured: MeasuredMetadata, listing_opened: bool },
}

/// The metadata a handle-relative entry is kept with: a folder whose listing
/// could not be opened is a measurement failure; identities are dropped
/// where hard links cannot be deduplicated and for folders, and folders keep
/// no revision.
pub open spec fn local_measured(
    kind: EntryKind,
    measured: MeasuredMetadata,
    listing_opened: bool,
    deduplicate: bool,
) -> MeasuredMetadata {
    let is_dir = kind == EntryKind::Directory;
    MeasuredMetadata {
        file_identity: if !deduplicate || is_dir {
            None
        } else {
            measured.file_identity
        },
        scan_revision: if is_dir {
            None
        } else {
            measured.scan_revision
        },
        metadata_error: measured.metadata_error || (is_dir && !listing_opened),
        ..measured
    }
}

/// Whether an entry lies on a filesystem other than the root's, both known.
pub open spec fn on_other_filesystem(root_filesystem: Option<u64>, filesystem: Option<u64>) -> bool {
    match (root_filesystem, filesystem) {
        (Some(root), Some(child)) => root != child,
        _ => false,
    }
}

/// Ingests one entry of a handle-relative traversal under its folder: a
/// cloud entry and an unreadable one are counted; a measurement failure is
/// counted; an entry on another filesystem is counted and left out; any
/// other entry joins the tree, and a folder whose listing opened is read.
#[verifier::rlimit(30)]
pub fn ingest_local(
    tree: &mut TreeBuilder,
    parent: usize,
    name: Vec<u8>,
    outcome: LocalOutcome,
    root_filesystem: Option<u64>,
    deduplicate: bool,
) -> (step: NativeStep)
    requires
        old(tree).wf(),
        parent < old(tree).spec_nodes().len(),
        old(tree).spec_nodes().len() < usize::MAX,
    ensures
        final(tree).wf(),
        final(tree).spec_ancestors() == old(tree).spec_ancestors(),
        final(tree).spec_root_filesystem() == old(tree).spec_root_filesystem(),
        outcome is Cloud ==> {
            &&& step == NativeStep::Cloud
            &&& final(tree).spec_counters() == (ScanCounters {
                skipped_cloud_entries: bump(old(tree).spec_counters().skipped_cloud_entries, true),
                ..old(tree).spec_counters()
            })
            &&& final(tree).spec_nodes() == old(tree).spec_nodes()
            &&& final(tree).spec_partial() == old(tree).spec_partial()
        },
        outcome is Unreadable ==> {
            &&& step == NativeStep::Skipped
            &&& final(tree).spec_counters() == (ScanCounters {
                skipped_entries: bump(old(tree).spec_counters().skipped_entries, true),
                ..old(tree).spec_counters()
            })
            &&& final(tree).spec_nodes() == old(tree).spec_nodes()
            &&& final(tree).spec_partial() == old(tree).spec_partial()
        },
        outcome matches LocalOutcome::Inspected { kind, measured, listing_opened } ==> {
            let kept = local_measured(kind, measured, listing_opened, deduplicate);
            let counted = ScanCounters {
                skipped_entries: bump(old(tree).spec_counters().skipped_entries, kept.metadata_error),
                ..old(tree).spec_counters()
            };
            let n = old(tree).spec_nodes().len() as usize;
            if on_other_filesystem(root_filesystem, measured.filesystem_id) {
                &&& step == NativeStep::OtherFilesystem
                &&& final(tree).spec_counters() == (ScanCounters {
                    skipped_filesystems: bump(counted.skipped_filesystems, true),
                    ..counted
                })
                &&& final(tree).spec_nodes() == old(tree).spec_nodes()
                &&& final(tree).spec_partial() == old(tree).spec_partial()
            } else {
                &&& step == (if kind == EntryKind::Directory && listing_opened {
                    NativeStep::Descend(n)
                } else {
                    NativeStep::Added(n)
                })
                &&& exists|r: (usize, Option<usize>)|
                    r.0 == n && #[trigger] node_pushed(
                        counted,
                        final(tree).spec_counters(),
                        old(tree).spec_nodes(),
                        final(tree).spec_nodes(),
                        parent,
                        name@,
                        kind,
                        kept,
                        r,
                    )
                &&& partial_observed(
                    old(tree).spec_partial(),
                    final(tree).spec_partial(),
                    final(tree).spec_nodes(),
                    n,
                )
            }
        },
{
    match outcome {
        LocalOutcome::Cloud => {
            tree.skip_cloud_entry();
            NativeStep::Cloud
        },
        LocalOutcome::Unreadable => {
            tree.skip_unreadable();
            NativeStep::Skipped
        },
        LocalOutcome::Inspected { kind, measured, listing_opened } => {
            let is_dir = kind == EntryKind::Directory;
            let kept = MeasuredMetadata {
                file_identity: if !deduplicate || is_dir {
                    None
                } else {
                    measured.file_identity
                },
                scan_revision: if is_dir {
                    None
                } else {
                    measured.scan_revision
                },
                metadata_error: measured.metadata_error || (is_dir && !listing_opened),
                ..measured
            };
            if kept.metadata_error {
                tree.skip_unreadable();
            }
            let other = match (root_filesystem, measured.filesystem_id) {
                (Some(root), Some(child)) => root != child,
                _ => false,
            };
            if other {
                tree.skip_other_filesystem();
                return NativeStep::OtherFilesystem;
            }
            let node_id = tree.add_child(parent, name, kind, kept);
            if is_dir && listing_opened {
                NativeStep::Descend(node_id)
            } else {
                NativeStep::Added(node_id)
            }
        },
    }
}

} // verus!
