use cepa::arena::{FileIdentity, MeasuredMetadata};
use cepa::types::{EntryKind, ScanPhase};
use cepa::walk::{MeasurementStep, TreeBuilder};
use cepa::statx::NativeStep;
use cepa::winfs::{
    ingest_local, wtf8_name, LocalOutcome, arena_capacity, attribute_kind, classify, enumeration_needs_recall, hard_link_alias_count,
    is_cloud_tag, needs_recall, parse_listing, FILE_ATTRIBUTE_DIRECTORY, FILE_ATTRIBUTE_OFFLINE,
    FILE_ATTRIBUTE_RECALL_ON_DATA_ACCESS, FILE_ATTRIBUTE_RECALL_ON_OPEN, FILE_ATTRIBUTE_REPARSE_POINT,
    IO_REPARSE_TAG_CLOUD,
};

fn record(name: &[u16]) -> Vec<u8> {
    let mut bytes = vec![0; 64];
    bytes[60..64].copy_from_slice(&((name.len() * 2) as u32).to_le_bytes());
    for word in name {
        bytes.extend(word.to_le_bytes());
    }
    bytes
}

#[test]
fn parses_counted_utf16_and_rejects_malformed_directory_batches() {
    let bytes = record(&[0xD800, b'x' as u16]);
    assert_eq!(parse_listing(&bytes).unwrap()[0].name, vec![0xD800, b'x' as u16]);
    assert!(parse_listing(&bytes[..bytes.len() - 1]).is_err());
    let mut invalid = bytes.clone();
    invalid[0..4].copy_from_slice(&8_u32.to_le_bytes());
    assert!(parse_listing(&invalid).is_err());
    let mut invalid = bytes;
    invalid[60..64].copy_from_slice(&u32::MAX.to_le_bytes());
    assert!(parse_listing(&invalid).is_err());
    assert!(parse_listing(&record(&[b'.' as u16])).unwrap().is_empty());
    assert!(parse_listing(&record(&[b'a' as u16, b'\\' as u16, b'b' as u16])).is_err());
}

#[test]
fn follows_aligned_next_offsets_through_a_batch() {
    let mut first = record(&[b'a' as u16]);
    first.resize(72, 0);
    first[0..4].copy_from_slice(&72_u32.to_le_bytes());
    first[56..60].copy_from_slice(&FILE_ATTRIBUTE_DIRECTORY.to_le_bytes());
    let mut bytes = first;
    bytes.extend(record(&[b'b' as u16, b'c' as u16]));
    let entries = parse_listing(&bytes).unwrap();
    assert_eq!(entries.len(), 2);
    assert_eq!(entries[0].name, vec![b'a' as u16]);
    assert_eq!(entries[0].attributes, FILE_ATTRIBUTE_DIRECTORY);
    assert_eq!(entries[1].name, vec![b'b' as u16, b'c' as u16]);
    assert_eq!(
        parse_listing(&[]).unwrap_err(),
        "Invalid Windows directory record"
    );
}

#[test]
fn treats_directory_reparse_points_as_links() {
    assert!(matches!(
        attribute_kind(FILE_ATTRIBUTE_DIRECTORY | FILE_ATTRIBUTE_REPARSE_POINT),
        EntryKind::Symlink
    ));
    assert!(matches!(
        attribute_kind(FILE_ATTRIBUTE_DIRECTORY),
        EntryKind::Directory
    ));
}

#[test]
fn cloud_placeholders_are_not_links_and_offline_data_needs_recall() {
    assert!(is_cloud_tag(IO_REPARSE_TAG_CLOUD));
    assert!(is_cloud_tag(IO_REPARSE_TAG_CLOUD | 0x3000));
    assert!(!is_cloud_tag(0xA000000C));
    assert_eq!(
        classify(FILE_ATTRIBUTE_REPARSE_POINT, IO_REPARSE_TAG_CLOUD),
        EntryKind::File
    );
    assert_eq!(
        classify(FILE_ATTRIBUTE_REPARSE_POINT | FILE_ATTRIBUTE_DIRECTORY, 0xA000000C),
        EntryKind::Symlink
    );
    assert!(needs_recall(FILE_ATTRIBUTE_OFFLINE));
    assert!(!needs_recall(FILE_ATTRIBUTE_RECALL_ON_OPEN));
    assert!(enumeration_needs_recall(FILE_ATTRIBUTE_RECALL_ON_OPEN));
}

#[test]
fn rejects_an_unrepresentable_ntfs_node_count() {
    assert_eq!(
        arena_capacity(usize::MAX).unwrap_err(),
        "The NTFS index contains too many entries."
    );
    assert_eq!(arena_capacity(17), Ok(18));
}

#[test]
fn counts_the_extra_names_of_hard_linked_files() {
    assert_eq!(hard_link_alias_count(&vec![3, 2, 1, 0]), Ok(3));
    let many = vec![u32::MAX; 1 << 20];
    assert_eq!(
        hard_link_alias_count(&many),
        Ok((u32::MAX as usize - 1) * (1 << 20))
    );
}

fn unmeasured() -> MeasuredMetadata {
    MeasuredMetadata {
        logical_bytes: 0,
        allocated_bytes: 0,
        filesystem_id: None,
        file_identity: None,
        scan_revision: None,
        metadata_error: false,
    }
}

#[test]
fn streams_file_measurements_into_prebuilt_nodes() {
    let mut tree = TreeBuilder::new(b"C:".to_vec(), None);
    let node_id = tree.add_child(0, b"shared.bin".to_vec(), EntryKind::File, unmeasured());
    let identity = FileIdentity(7, 11);

    let step = tree.apply_measurement(
        node_id,
        MeasuredMetadata {
            logical_bytes: 4_096,
            allocated_bytes: 8_192,
            filesystem_id: Some(7),
            file_identity: Some(identity),
            scan_revision: None,
            metadata_error: false,
        },
        2,
    );

    let ranked = tree.progress(ScanPhase::Scanning, String::new(), 0).largest_items.len();
    let (nodes, counters) = tree.into_parts();
    assert_eq!(nodes[node_id].logical_bytes, 4_096);
    assert_eq!(nodes[node_id].allocated_bytes, 8_192);
    assert_eq!(counters.observed_logical_bytes, 4_096);
    assert_eq!(counters.observed_allocated_bytes, 8_192);
    assert_eq!(counters.hard_link_owners.len(), 1);
    assert_eq!(ranked, 1);
    assert_eq!(step, MeasurementStep::Linked);
}

#[test]
fn records_failed_streamed_measurements_without_ranking_them() {
    let mut tree = TreeBuilder::new(b"C:".to_vec(), None);
    let node_id = tree.add_child(0, b"unavailable.bin".to_vec(), EntryKind::File, unmeasured());

    let step = tree.apply_measurement(
        node_id,
        MeasuredMetadata { metadata_error: true, ..unmeasured() },
        0,
    );

    let ranked = tree.progress(ScanPhase::Scanning, String::new(), 0).largest_items.len();
    let (nodes, counters) = tree.into_parts();
    assert_eq!(counters.skipped_entries, 1);
    assert_eq!(nodes[node_id].logical_bytes, 0);
    assert_eq!(ranked, 0);
    assert_eq!(step, MeasurementStep::Skipped);
}

#[test]
fn windows_names_keep_paired_and_unpaired_surrogates() {
    let text = "aé€😀";
    let units: Vec<u16> = text.encode_utf16().collect();
    assert_eq!(wtf8_name(&units), text.as_bytes().to_vec());
    assert_eq!(wtf8_name(&vec![0xD800]), vec![0xED, 0xA0, 0x80]);
    assert_eq!(wtf8_name(&vec![0xDC00, b'x' as u16]), vec![0xED, 0xB0, 0x80, b'x']);
    assert_eq!(wtf8_name(&vec![]), Vec::<u8>::new());
}

#[test]
fn handle_relative_entries_are_counted_and_kept_by_the_library() {
    let mut tree = TreeBuilder::new(b"C:".to_vec(), Some(7));
    let file = MeasuredMetadata {
        logical_bytes: 10,
        allocated_bytes: 4096,
        filesystem_id: Some(7),
        file_identity: Some(FileIdentity(7, 3)),
        scan_revision: None,
        metadata_error: false,
    };
    assert_eq!(
        ingest_local(&mut tree, 0, b"cloud".to_vec(), LocalOutcome::Cloud, Some(7), true),
        NativeStep::Cloud
    );
    assert_eq!(
        ingest_local(&mut tree, 0, b"denied".to_vec(), LocalOutcome::Unreadable, Some(7), true),
        NativeStep::Skipped
    );
    let other = MeasuredMetadata { filesystem_id: Some(8), ..file };
    assert_eq!(
        ingest_local(
            &mut tree,
            0,
            b"mounted".to_vec(),
            LocalOutcome::Inspected { kind: EntryKind::Directory, measured: other, listing_opened: true },
            Some(7),
            true,
        ),
        NativeStep::OtherFilesystem
    );
    assert_eq!(
        ingest_local(
            &mut tree,
            0,
            b"folder".to_vec(),
            LocalOutcome::Inspected { kind: EntryKind::Directory, measured: file, listing_opened: true },
            Some(7),
            true,
        ),
        NativeStep::Descend(1)
    );
    assert_eq!(
        ingest_local(
            &mut tree,
            0,
            b"locked".to_vec(),
            LocalOutcome::Inspected { kind: EntryKind::Directory, measured: file, listing_opened: false },
            Some(7),
            true,
        ),
        NativeStep::Added(2)
    );
    assert_eq!(
        ingest_local(
            &mut tree,
            1,
            b"data.bin".to_vec(),
            LocalOutcome::Inspected { kind: EntryKind::File, measured: file, listing_opened: false },
            Some(7),
            false,
        ),
        NativeStep::Added(3)
    );
    let (nodes, counters) = tree.into_parts();
    assert_eq!(nodes.len(), 4);
    assert_eq!(counters.skipped_cloud_entries, 1);
    assert_eq!(counters.skipped_entries, 2);
    assert_eq!(counters.skipped_filesystems, 1);
    assert_eq!(counters.observed_allocated_bytes, 4096);
    assert!(counters.hard_link_owners.is_empty());
}

/// Windows attribute bits that carry pin intent and extended attributes,
/// none of which asks for data to be recalled.
const FILE_ATTRIBUTE_PINNED: u32 = 0x80000;
const FILE_ATTRIBUTE_UNPINNED: u32 = 0x100000;
const FILE_ATTRIBUTE_EA: u32 = 0x40000;

#[test]
fn distinguishes_recall_from_pin_intent_and_extended_attributes() {
    for flag in [FILE_ATTRIBUTE_OFFLINE, FILE_ATTRIBUTE_RECALL_ON_DATA_ACCESS] {
        assert!(needs_recall(flag));
        assert!(enumeration_needs_recall(flag | FILE_ATTRIBUTE_DIRECTORY));
    }
    for flag in [
        FILE_ATTRIBUTE_PINNED,
        FILE_ATTRIBUTE_UNPINNED,
        FILE_ATTRIBUTE_REPARSE_POINT,
        FILE_ATTRIBUTE_EA,
    ] {
        assert!(!needs_recall(flag));
    }
    assert!(enumeration_needs_recall(FILE_ATTRIBUTE_RECALL_ON_OPEN));
    for variant in 0..=15 {
        let tag = IO_REPARSE_TAG_CLOUD | (variant << 12);
        assert_eq!(classify(FILE_ATTRIBUTE_REPARSE_POINT, tag), EntryKind::File);
        assert_eq!(
            classify(FILE_ATTRIBUTE_REPARSE_POINT | FILE_ATTRIBUTE_DIRECTORY, tag),
            EntryKind::Directory
        );
    }
    assert_eq!(
        classify(FILE_ATTRIBUTE_REPARSE_POINT | FILE_ATTRIBUTE_DIRECTORY, 0xA0000003),
        EntryKind::Symlink
    );
}
