use cepa::darwin::{
    ingest_darwin, read_failure_step, DirectoryReadFailure, parse_entries, DARWIN_EDEADLK, REQUESTED_COMMON_ATTRIBUTES,
    REQUESTED_DIRECTORY_ATTRIBUTES, REQUESTED_FILE_ATTRIBUTES, ATTR_CMN_FLAGS, SF_DATALESS, VDIR,
    VREG,
};
use cepa::statx::{
    device_id, ingest_statx, mode_kind, statx_entry, DirectoryIdentity, NativeStep, StatxFields,
    STATX_REQUEST,
};
use cepa::types::EntryKind;
use cepa::walk::TreeBuilder;

// A packed getattrlistbulk record, including the variable folder and file
// attribute groups.
fn entry_record(name: &str, directory: bool, flags: u32, error: u32) -> Vec<u8> {
    let mut record = vec![0; 4];
    for word in [
        REQUESTED_COMMON_ATTRIBUTES,
        0,
        REQUESTED_DIRECTORY_ATTRIBUTES,
        REQUESTED_FILE_ATTRIBUTES,
        0,
        error,
    ] {
        record.extend(word.to_le_bytes());
    }
    let reference = record.len();
    record.extend([0; 8]);
    record.extend(1_i32.to_le_bytes());
    record.extend(if directory { VDIR } else { VREG }.to_le_bytes());
    record.extend([0; 32]);
    record.extend(flags.to_le_bytes());
    record.extend(42_u64.to_le_bytes());
    if directory {
        record.extend(0_u32.to_le_bytes());
    } else {
        record.extend(1_u32.to_le_bytes());
        record.extend(123_i64.to_le_bytes());
        record.extend(4096_i64.to_le_bytes());
    }
    let offset = (record.len() - reference) as i32;
    record[reference..reference + 4].copy_from_slice(&offset.to_le_bytes());
    record[reference + 4..reference + 8].copy_from_slice(&((name.len() + 1) as u32).to_le_bytes());
    record.extend(name.as_bytes());
    record.push(0);
    let len = record.len() as u32;
    record[..4].copy_from_slice(&len.to_le_bytes());
    record
}

#[test]
fn excludes_cloud_records_before_retention_and_scheduling() {
    let entries: Vec<_> = [
        ("cloud.epub", true, SF_DATALESS, 0),
        ("cloud.pdf", false, SF_DATALESS, 0),
        ("evicted-during-read", true, 0, DARWIN_EDEADLK),
        ("denied", true, 0, 13),
        ("downloaded.pdf", false, 0, 0),
        ("Google Drive", true, 0, 0),
    ]
    .into_iter()
    .map(|(name, dir, flags, error)| {
        parse_entries(&entry_record(name, dir, flags, error), 1)
            .unwrap()
            .remove(0)
    })
    .collect();
    let mut tree = TreeBuilder::new(b"fixture".to_vec(), None);
    let mut pending = Vec::new();
    for entry in entries {
        if let NativeStep::Descend(node_id) = ingest_darwin(&mut tree, 0, entry) {
            pending.push(node_id);
        }
    }
    let (nodes, counters) = tree.into_parts();
    assert_eq!(counters.skipped_cloud_entries, 3);
    assert_eq!(counters.skipped_entries, 1);
    assert_eq!(nodes.len(), 3);
    assert_eq!(pending.len(), 1);
    let path = format!(
        "/fixture/{}",
        String::from_utf8(nodes[pending[0]].name.clone()).unwrap()
    );
    assert_eq!(path, "/fixture/Google Drive");
    assert_eq!(counters.observed_logical_bytes, 123);
    assert_eq!(counters.observed_allocated_bytes, 4096);
}

#[test]
fn ignores_unreturned_dataless_flags() {
    let mut record = entry_record("local", true, SF_DATALESS, 0);
    let common = REQUESTED_COMMON_ATTRIBUTES & !ATTR_CMN_FLAGS;
    record[4..8].copy_from_slice(&common.to_le_bytes());
    assert!(!parse_entries(&record, 1).unwrap()[0].dataless);
}

#[test]
fn rejects_truncated_attribute_records() {
    let error = parse_entries(&4_u32.to_le_bytes(), 1)
        .expect_err("a length-only record must be rejected");

    assert_eq!(
        error,
        "getattrlistbulk returned a truncated attribute record"
    );
}

#[test]
fn parses_a_file_record_with_sizes_identity_and_name() {
    let record = entry_record("report.pdf", false, 0, 0);
    let mut buffer = record.clone();
    buffer.extend(entry_record("folder", true, 0, 0));
    let entries = parse_entries(&buffer, 2).unwrap();
    assert_eq!(entries.len(), 2);
    assert_eq!(entries[0].name, b"report.pdf".to_vec());
    assert_eq!(entries[0].kind, EntryKind::File);
    assert_eq!(entries[0].measured.logical_bytes, 123);
    assert_eq!(entries[0].measured.allocated_bytes, 4096);
    assert_eq!(entries[0].measured.filesystem_id, Some(1));
    assert_eq!(entries[0].measured.file_identity, None);
    assert_eq!(entries[1].kind, EntryKind::Directory);
    assert!(entries[1].can_enforce_mount_boundary);
    assert!(!entries[1].mount_point);
}

#[test]
fn rejects_records_that_overrun_the_listing_or_reference_no_name() {
    let mut record = entry_record("x", false, 0, 0);
    let too_long = (record.len() as u32 + 1).to_le_bytes();
    record[..4].copy_from_slice(&too_long);
    assert_eq!(
        parse_entries(&record, 1).unwrap_err(),
        "getattrlistbulk returned an invalid record length"
    );

    let mut record = entry_record("x", false, 0, 0);
    record[28..32].copy_from_slice(&(-100_i32).to_le_bytes());
    assert_eq!(
        parse_entries(&record, 1).unwrap_err(),
        "getattrlistbulk returned an invalid name offset"
    );

    let mut record = entry_record("x", false, 0, 0);
    record[32..36].copy_from_slice(&1000_u32.to_le_bytes());
    assert_eq!(
        parse_entries(&record, 1).unwrap_err(),
        "getattrlistbulk returned an invalid name length"
    );

    let record = entry_record("", false, 0, 0);
    assert_eq!(
        parse_entries(&record, 1).unwrap_err(),
        "getattrlistbulk returned an empty entry name"
    );
}

#[test]
fn maps_linux_file_types_without_following_links() {
    assert!(matches!(mode_kind(0o100644), EntryKind::File));
    assert!(matches!(mode_kind(0o040755), EntryKind::Directory));
    assert!(matches!(mode_kind(0o120777), EntryKind::Symlink));
    assert!(matches!(mode_kind(0o140755), EntryKind::Other));
}

fn fields_of(stat: &rustix::fs::Statx) -> StatxFields {
    StatxFields {
        mask: stat.stx_mask,
        mode: stat.stx_mode,
        size: stat.stx_size,
        blocks: stat.stx_blocks,
        link_count: stat.stx_nlink,
        inode: stat.stx_ino,
        device_major: stat.stx_dev_major,
        device_minor: stat.stx_dev_minor,
        mount_id: stat.stx_mnt_id,
        modified_seconds: stat.stx_mtime.tv_sec,
        modified_nanoseconds: stat.stx_mtime.tv_nsec,
        changed_seconds: stat.stx_ctime.tv_sec,
        changed_nanoseconds: stat.stx_ctime.tv_nsec,
    }
}

#[test]
fn device_identity_keeps_major_and_minor_components() {
    let temp = tempfile::tempdir().expect("create fixture directory");
    let stat = rustix::fs::statx(
        rustix::fs::CWD,
        temp.path(),
        rustix::fs::AtFlags::SYMLINK_NOFOLLOW,
        rustix::fs::StatxFlags::BASIC_STATS | rustix::fs::StatxFlags::MNT_ID,
    )
    .expect("stat fixture directory");
    assert_eq!(
        device_id(&fields_of(&stat)),
        (u64::from(stat.stx_dev_major) << 32) | u64::from(stat.stx_dev_minor)
    );
}

fn folder_fields(mount_id: u64) -> StatxFields {
    StatxFields {
        mask: STATX_REQUEST,
        mode: 0o040755,
        size: 4096,
        blocks: 8,
        link_count: 2,
        inode: 7,
        device_major: 8,
        device_minor: 1,
        mount_id,
        modified_seconds: 1,
        modified_nanoseconds: 0,
        changed_seconds: 1,
        changed_nanoseconds: 0,
    }
}

#[test]
fn statx_entries_schedule_only_folders_on_the_root_mount() {
    let same = statx_entry(b"inner".to_vec(), true, 5, Some(folder_fields(5)));
    assert_eq!(
        same.directory_identity,
        Some(DirectoryIdentity { device_major: 8, device_minor: 1, inode: 7, mount_id: 5 })
    );
    assert!(!same.mount_boundary);
    assert_eq!(same.measured.filesystem_id, Some((8u64 << 32) | 1));
    assert!(same.directory_identity.unwrap().matches(&folder_fields(5)));
    assert!(!same.directory_identity.unwrap().matches(&folder_fields(6)));

    let other = statx_entry(b"mnt".to_vec(), true, 5, Some(folder_fields(9)));
    assert!(other.mount_boundary);
    assert_eq!(other.directory_identity, None);

    let failed = statx_entry(b"gone".to_vec(), false, 5, None);
    assert_eq!(failed.kind, EntryKind::Other);
    assert!(failed.measured.metadata_error);

    let mut tree = TreeBuilder::new(b"root".to_vec(), None);
    assert_eq!(ingest_statx(&mut tree, 0, same), NativeStep::Descend(1));
    assert_eq!(ingest_statx(&mut tree, 0, other), NativeStep::Added(2));
    assert_eq!(ingest_statx(&mut tree, 0, failed), NativeStep::Skipped);
    let file = StatxFields { mode: 0o100644, size: 1000, link_count: 1, ..folder_fields(5) };
    let file = statx_entry(b"data".to_vec(), false, 5, Some(file));
    assert_eq!(file.measured.logical_bytes, 1000);
    assert_eq!(file.measured.allocated_bytes, 4096);
    assert_eq!(ingest_statx(&mut tree, 1, file), NativeStep::Added(3));
    let (nodes, counters) = tree.into_parts();
    assert_eq!(nodes.len(), 4);
    assert_eq!(counters.skipped_filesystems, 1);
    assert_eq!(counters.skipped_entries, 1);
    assert_eq!(counters.observed_logical_bytes, 1000);
}

#[test]
fn large_listings_are_recognized_by_their_regular_files() {
    let file = parse_entries(&entry_record("f", false, 0, 0), 1).unwrap().remove(0);
    let folder = parse_entries(&entry_record("d", true, 0, 0), 1).unwrap().remove(0);
    let mut entries = vec![folder; 300];
    entries.extend(vec![file.clone(); 255]);
    assert!(!cepa::darwin::contains_large_file_batch(&entries));
    entries.push(file);
    assert!(cepa::darwin::contains_large_file_batch(&entries));
}

#[test]
fn failed_folder_reads_are_counted_or_stop_the_scan() {
    let mut tree = TreeBuilder::new(b"root".to_vec(), Some(1));
    assert_eq!(read_failure_step(&mut tree, DirectoryReadFailure::MaterializationBlocked), Ok(()));
    assert_eq!(read_failure_step(&mut tree, DirectoryReadFailure::Io), Ok(()));
    assert_eq!(read_failure_step(&mut tree, DirectoryReadFailure::Io), Ok(()));
    assert_eq!(
        read_failure_step(&mut tree, DirectoryReadFailure::Parse("bad record".to_string())),
        Err("bad record".to_string())
    );
    assert_eq!(
        read_failure_step(&mut tree, DirectoryReadFailure::Cancelled),
        Err("Scan cancelled.".to_string())
    );
    let (nodes, counters) = tree.into_parts();
    assert_eq!(nodes.len(), 1);
    assert_eq!(counters.skipped_cloud_entries, 1);
    assert_eq!(counters.skipped_entries, 2);
}
