use std::sync::atomic::AtomicBool;

use cepa::arena::MeasuredMetadata;
use cepa::mft::{subtree_order, Record};
use cepa::ntfs::{
    has_child_named, index_volume_records, is_ntfs_name, is_unavailable_code, link_name_components, place_link_names, plan_link_names,
    resolve_link_parent, HardLinkCandidate, NativeScanError,
};
use cepa::types::EntryKind;
use cepa::walk::TreeBuilder;
use cepa::winfs::FILE_ATTRIBUTE_DIRECTORY;

fn record(reference: u64, parent_reference: u64, attributes: u32, name: &str) -> Record {
    Record {
        reference,
        parent_reference,
        attributes,
        name: name.encode_utf16().collect(),
    }
}

fn unmeasured() -> MeasuredMetadata {
    MeasuredMetadata {
        logical_bytes: 0,
        allocated_bytes: 0,
        filesystem_id: None,
        file_identity: None,
        scan_revision: None,
        metadata_error: false,
    }
}

fn units(text: &str) -> Vec<u16> {
    text.encode_utf16().collect()
}

fn path(components: &[&str]) -> Vec<Vec<u8>> {
    components.iter().map(|component| component.as_bytes().to_vec()).collect()
}

#[test]
fn normalizes_volume_relative_hard_link_names() {
    let mut buffer = units(r"\cepa-validation\beta\hardlink.bin");
    buffer.push(0);

    assert_eq!(
        link_name_components(&buffer),
        vec![units("cepa-validation"), units("beta"), units("hardlink.bin")]
    );
}

#[test]
fn link_names_stop_at_nul_and_drop_relative_components() {
    let mut buffer = units(r"\a\\.\b/..\c");
    buffer.push(0);
    buffer.extend(units(r"\ignored"));
    assert_eq!(
        link_name_components(&buffer),
        vec![units("a"), units("b"), units("c")]
    );
    assert!(link_name_components(&units(r"\")).is_empty());
    assert_eq!(link_name_components(&units("last")), vec![units("last")]);
}

#[test]
fn places_index_records_below_their_parents_and_lists_files() {
    let root_reference = 5;
    let records = vec![
        record(12, 5, 0, "g.txt"),
        record(11, 10, 0, "f.txt"),
        record(10, 5, FILE_ATTRIBUTE_DIRECTORY, "folder"),
    ];
    let ordered = subtree_order(&records, root_reference).expect("parents resolve");
    assert_eq!(ordered, vec![2, 1, 0]);

    let mut tree = TreeBuilder::new(b"C:".to_vec(), None);
    let files = index_volume_records(
        &mut tree,
        &records,
        &ordered,
        root_reference,
        &AtomicBool::new(false),
    )
    .unwrap_or_else(|_| panic!("the index is complete"));
    assert_eq!(files, vec![(1, 2), (0, 3)]);

    let (nodes, counters) = tree.into_parts();
    assert_eq!(nodes.len(), 4);
    assert_eq!(nodes[1].name, b"folder".to_vec());
    assert!(matches!(nodes[1].kind, EntryKind::Directory));
    assert_eq!(nodes[1].parent_id(), Some(0));
    assert_eq!(nodes[2].name, b"f.txt".to_vec());
    assert_eq!(nodes[2].parent_id(), Some(1));
    assert_eq!(nodes[3].name, b"g.txt".to_vec());
    assert_eq!(nodes[3].parent_id(), Some(0));
    assert_eq!(counters.files_scanned, 2);
    assert_eq!(counters.directories_scanned, 1);
}

#[test]
fn an_unplaced_parent_makes_the_index_unavailable() {
    let records = vec![record(11, 10, 0, "orphan.txt")];
    let mut tree = TreeBuilder::new(b"C:".to_vec(), None);
    let result = index_volume_records(&mut tree, &records, &vec![0], 5, &AtomicBool::new(false));
    assert!(matches!(result, Err(NativeScanError::Unavailable)));
}

#[test]
fn index_placement_reads_cancellation_at_the_check_interval() {
    let records = (0..2100_u64)
        .map(|index| record(100 + index, 5, 0, &format!("file-{index}")))
        .collect::<Vec<_>>();
    let ordered = (0..records.len()).collect::<Vec<_>>();

    let mut tree = TreeBuilder::new(b"C:".to_vec(), None);
    let result = index_volume_records(&mut tree, &records, &ordered, 5, &AtomicBool::new(true));
    match result {
        Err(NativeScanError::Fatal(message)) => assert_eq!(message, "Scan cancelled."),
        _ => panic!("placement must observe cancellation"),
    }
    assert_eq!(tree.node_count(), 2048);

    let mut short = TreeBuilder::new(b"C:".to_vec(), None);
    let few = index_volume_records(&mut short, &records, &vec![0, 1], 5, &AtomicBool::new(true));
    assert!(matches!(few, Ok(files) if files == vec![(0, 1), (1, 2)]));
}

fn linked_tree() -> TreeBuilder {
    let mut tree = TreeBuilder::new(b"C:".to_vec(), None);
    let folder = tree.add_child(0, b"a".to_vec(), EntryKind::Directory, unmeasured());
    tree.add_child(folder, b"x".to_vec(), EntryKind::File, unmeasured());
    tree.add_child(0, b"b".to_vec(), EntryKind::File, unmeasured());
    tree
}

#[test]
fn link_parents_are_found_through_folders_only() {
    let tree = linked_tree();
    let nodes = tree.nodes();
    assert_eq!(resolve_link_parent(nodes, &path(&["a", "y"])), Some(1));
    assert_eq!(resolve_link_parent(nodes, &path(&["top.bin"])), Some(0));
    assert_eq!(resolve_link_parent(nodes, &path(&["b", "y"])), None);
    assert_eq!(resolve_link_parent(nodes, &path(&["missing", "y"])), None);
    assert_eq!(resolve_link_parent(nodes, &Vec::new()), None);
    assert!(has_child_named(nodes, 1, &b"x".to_vec()));
    assert!(!has_child_named(nodes, 1, &b"y".to_vec()));
}

#[test]
fn plans_each_new_link_name_once() {
    let tree = linked_tree();
    let paths = vec![
        path(&["a", "x"]),
        path(&["a", "y"]),
        path(&["a", "y"]),
        path(&["b", "z"]),
        path(&["c.bin"]),
    ];
    let (plan, resolved) = plan_link_names(tree.nodes(), &paths);
    assert_eq!(plan, vec![(1, b"y".to_vec()), (0, b"c.bin".to_vec())]);
    assert_eq!(resolved, 3);
}

#[test]
fn places_link_names_and_counts_unresolved_files_as_skipped() {
    let mut tree = linked_tree();
    let candidate = HardLinkCandidate {
        node_id: 2,
        measured: unmeasured(),
        link_count: 3,
    };
    let paths = vec![path(&["a", "x"]), path(&["a", "y"]), path(&["a", "y"]), path(&["b", "z"])];
    place_link_names(&mut tree, &candidate, &paths);

    let (nodes, counters) = tree.into_parts();
    assert_eq!(nodes.len(), 5);
    assert_eq!(nodes[4].name, b"y".to_vec());
    assert_eq!(nodes[4].parent_id(), Some(1));
    assert!(matches!(nodes[4].kind, EntryKind::File));
    assert_eq!(counters.skipped_entries, 1);
    assert_eq!(counters.files_scanned, 3);

    let mut complete = linked_tree();
    let candidate = HardLinkCandidate { link_count: 2, ..candidate };
    place_link_names(&mut complete, &candidate, &vec![path(&["a", "x"]), path(&["a", "w"])]);
    let (nodes, counters) = complete.into_parts();
    assert_eq!(nodes.len(), 5);
    assert_eq!(counters.skipped_entries, 0);
}

#[test]
fn volume_index_errors_that_defer_to_another_backend() {
    for code in [1, 5, 50, 87, 1179] {
        assert!(is_unavailable_code(Some(code)));
    }
    assert!(!is_unavailable_code(Some(2)));
    assert!(!is_unavailable_code(None));
}

#[test]
fn recognizes_ntfs_names_in_any_ascii_case() {
    let mut name = units("NTFS");
    name.extend([0, 0]);
    assert!(is_ntfs_name(&name));
    assert!(is_ntfs_name(&units("ntFs")));
    assert!(!is_ntfs_name(&units("FAT32")));
    assert!(!is_ntfs_name(&units("NTFSX")));
    assert!(!is_ntfs_name(&vec![0xD800, b'T' as u16, b'F' as u16, b'S' as u16]));
}
