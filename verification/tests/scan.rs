use cepa::aggregate::aggregate_nodes;
use cepa::dispatch::{after_native_stop, first_traversal, Platform, Traversal};
use cepa::ntfs::NativeScanError;
use cepa::arena::{FileIdentity, MeasuredMetadata};
use cepa::snapshot::ScanSnapshot;
use cepa::types::{chart_item_count, ChartItem, EntryKind, ScanBackend, ScanPhase, SizeMetric};
use cepa::walk::{
    measure_unix_metadata, UnixMetadata, scan_output, IngestStep, ScanOutput, ScanSemantics, ScanTimings, TreeBuilder, WalkEntry,
};
use std::sync::atomic::AtomicBool;

fn measured(bytes: u64) -> MeasuredMetadata {
    MeasuredMetadata {
        logical_bytes: bytes,
        allocated_bytes: bytes,
        filesystem_id: Some(1),
        file_identity: None,
        scan_revision: None,
        metadata_error: false,
    }
}

fn file(depth: usize, name: &str, bytes: u64) -> WalkEntry {
    WalkEntry {
        depth,
        name: name.as_bytes().to_vec(),
        is_dir: false,
        is_symlink: false,
        is_file: true,
        metadata: Some(measured(bytes)),
        read_children_error: false,
    }
}

fn folder(depth: usize, name: &str) -> WalkEntry {
    WalkEntry {
        depth,
        name: name.as_bytes().to_vec(),
        is_dir: true,
        is_symlink: false,
        is_file: false,
        metadata: Some(measured(0)),
        read_children_error: false,
    }
}

fn finish(builder: TreeBuilder, root_path: &str) -> ScanOutput {
    let (mut nodes, counters) = builder.into_parts();
    let cancel = AtomicBool::new(false);
    aggregate_nodes(&mut nodes, &cancel, &mut |_| {}).expect("aggregate tree");
    scan_output(
        root_path.as_bytes().to_vec(),
        nodes,
        &counters,
        false,
        "jwalk",
        ScanSemantics {
            allocated_size_is_estimate: false,
            hard_link_deduplication_supported: true,
            same_filesystem_enforced: true,
        },
        ScanTimings {
            traversal_us: 1,
            aggregation_us: 2,
            indexing_us: 3,
            elapsed_ms: 4,
        },
    )
}

fn build(root_path: &str, entries: Vec<WalkEntry>) -> ScanOutput {
    let mut builder = TreeBuilder::new(b"root".to_vec(), Some(1));
    for entry in entries {
        let step = builder.ingest(entry);
        assert!(!matches!(step, IngestStep::MissingParent));
    }
    finish(builder, root_path)
}

#[test]
fn scans_and_aggregates_a_directory_tree() {
    let output = build(
        "/fixture/root",
        vec![
            folder(0, "root"),
            folder(1, "docs"),
            file(2, "a.txt", 10),
            file(2, "b.txt", 20),
            folder(1, "empty"),
            file(1, "top.bin", 5),
        ],
    );
    assert_eq!(output.result.logical_bytes, 35);
    assert_eq!(output.result.allocated_bytes, 35);
    assert_eq!(output.result.file_count, 3);
    assert_eq!(output.result.directory_count, 2);
    assert_eq!(output.result.display_name, "root");
    assert_eq!(output.result.root, "/fixture/root");
    assert_eq!(output.result.backend, "jwalk");

    let view = output.snapshot.directory_view(1, 0).expect("root view");
    assert_eq!(view.total_items, 3);
    assert_eq!(view.suppressed_items, 1, "an empty folder holds no allocated bytes");
    assert_eq!(
        view.items.iter().map(|item| item.name.as_str()).collect::<Vec<_>>(),
        ["docs", "top.bin"]
    );
    assert_eq!(view.items[0].logical_bytes, 30);
    assert_eq!(view.items[0].file_count, 2);
    assert_eq!(view.breadcrumbs.len(), 1);
}

#[test]
fn reconstructs_deep_paths_and_breadcrumbs_from_node_ids() {
    let output = build(
        "/fixture/root",
        vec![folder(1, "a"), folder(2, "b"), file(3, "c.txt", 1)],
    );
    let snapshot = &output.snapshot;
    assert_eq!(snapshot.node_path(3), b"/fixture/root/a/b/c.txt".to_vec());
    let crumbs = snapshot.breadcrumbs(3);
    assert_eq!(
        crumbs.iter().map(|crumb| crumb.name.as_str()).collect::<Vec<_>>(),
        ["root", "a", "b", "c.txt"]
    );
    assert_eq!(
        crumbs.iter().map(|crumb| crumb.id).collect::<Vec<_>>(),
        [0, 1, 2, 3]
    );
    let target = snapshot.compression_target(3).expect("file target");
    assert_eq!(target.path, b"/fixture/root/a/b/c.txt".to_vec());
    assert_eq!(target.kind, EntryKind::File);
    assert!(snapshot.compression_target(4).is_err());
}

#[test]
fn bounds_large_directory_views() {
    let mut entries = Vec::new();
    for index in 0..=500 {
        entries.push(file(1, &format!("file-{index:04}.bin"), 1));
    }
    let output = build("/fixture", entries);
    let view = output.snapshot.directory_view(1, 0).expect("build root view");

    assert_eq!(view.total_items, 501);
    assert_eq!(view.items.len(), 500);
    assert!(view.items_truncated);
    assert_eq!(view.items.last().expect("last listed item").name, "file-0499.bin");
    assert_eq!(view.chart_items.len(), 17);
    assert!(view.chart_items.last().expect("aggregate item").id.is_none());
    assert_eq!(view.chart_items.last().unwrap().name, "485 more items");
    assert_eq!(
        view.chart_items.iter().map(|item| item.logical_bytes).sum::<u64>(),
        output.result.logical_bytes
    );
}

fn assert_chart_children_cover_parent(item: &ChartItem) {
    if item.children.is_empty() {
        return;
    }
    assert_eq!(
        item.children.iter().map(|child| child.logical_bytes).sum::<u64>(),
        item.logical_bytes
    );
    for child in &item.children {
        assert_chart_children_cover_parent(child);
    }
}

#[test]
fn globally_bounds_deep_chart_views_without_losing_accounted_bytes() {
    const BRANCHES: usize = 17;
    let mut entries = Vec::new();
    for outer in 0..BRANCHES {
        entries.push(folder(1, &format!("outer-{outer:02}")));
        for middle in 0..BRANCHES {
            entries.push(folder(2, &format!("middle-{middle:02}")));
            for inner in 0..BRANCHES {
                entries.push(file(3, &format!("inner-{inner:02}"), 1));
            }
        }
    }
    let output = build("/fixture", entries);
    let view = output.snapshot.directory_view(1, 0).expect("build bounded deep view");
    let chart_items = view.chart_items.iter().map(chart_item_count).sum::<usize>();

    assert_eq!(chart_items, 512);
    assert_eq!(view.chart_items.len(), 17);
    assert_eq!(
        view.chart_items.iter().map(|item| item.logical_bytes).sum::<u64>(),
        (BRANCHES * BRANCHES * BRANCHES) as u64
    );
    for item in &view.chart_items {
        assert_chart_children_cover_parent(item);
    }
}

#[test]
fn files_cannot_be_opened_as_folders_and_links_are_not_revealed() {
    let mut link = file(1, "link", 0);
    link.is_file = false;
    link.is_symlink = true;
    let output = build("/fixture", vec![file(1, "data.bin", 3), link]);
    let snapshot = &output.snapshot;
    assert_eq!(
        snapshot.directory_view(1, 1).err(),
        Some("Only folders can be opened in the scan map.".to_string())
    );
    assert_eq!(
        snapshot.directory_view(1, 9).err(),
        Some("That item is not part of this scan.".to_string())
    );
    assert_eq!(
        snapshot.reveal_path(2).err(),
        Some("Symbolic links cannot be revealed without following their target.".to_string())
    );
    assert_eq!(snapshot.reveal_path(1), Ok(b"/fixture/data.bin".to_vec()));
}

#[test]
fn searches_all_direct_children_before_bounding_results() {
    let mut entries = Vec::new();
    for index in 0..600 {
        entries.push(file(1, &format!("Match-{index:03}.txt"), index as u64 + 1));
    }
    entries.push(file(1, "other.txt", 10_000));
    let output = build("/fixture", entries);
    let cancel = AtomicBool::new(false);
    let result = output
        .snapshot
        .search_directory(3, 0, SizeMetric::Allocated, "  match ", &cancel)
        .expect("search folder");
    assert_eq!(result.total_matches, 600);
    assert!(result.items_truncated);
    assert_eq!(result.items.len(), 500);
    assert_eq!(result.query, "match");
    assert_eq!(result.items[0].name, "Match-599.txt");
    assert_eq!(result.items[499].name, "Match-100.txt");
}

#[test]
fn search_refuses_unusable_requests() {
    let output = build("/fixture", vec![file(1, "a.txt", 1)]);
    let snapshot: &ScanSnapshot = &output.snapshot;
    let cancel = AtomicBool::new(false);
    assert_eq!(
        snapshot.search_directory(1, 1, SizeMetric::Logical, "a", &cancel).err(),
        Some("Only folders can be searched.".to_string())
    );
    assert_eq!(
        snapshot.search_directory(1, 0, SizeMetric::Logical, "   ", &cancel).err(),
        Some("Enter a file or folder name to search for.".to_string())
    );
    let long = "x".repeat(129);
    assert_eq!(
        snapshot.search_directory(1, 0, SizeMetric::Logical, &long, &cancel).err(),
        Some("Search terms are limited to 128 characters.".to_string())
    );
    let raised = AtomicBool::new(true);
    assert_eq!(
        snapshot.search_directory(1, 0, SizeMetric::Logical, "a", &raised).err(),
        Some("Folder search cancelled.".to_string())
    );
}

#[test]
fn applies_a_native_volume_name_without_changing_the_scan_root() {
    let mut output = build("/fixture/root", vec![file(1, "a.txt", 1)]);
    output.set_root_display_name("Archive".to_string());
    let view = output.snapshot.directory_view(7, 0).expect("build renamed root view");

    assert_eq!(output.result.display_name, "Archive");
    assert_eq!(output.result.root, "/fixture/root");
    assert_eq!(view.display_name, "Archive");
    assert_eq!(view.breadcrumbs[0].name, "Archive");
    assert_eq!(view.root, "/fixture/root");
}

#[test]
fn assigns_hard_linked_content_to_the_first_relative_path() {
    let mut builder = TreeBuilder::new(b"root".to_vec(), Some(1));
    let linked = |depth: usize, name: &str| {
        let mut entry = file(depth, name, 100);
        if let Some(metadata) = entry.metadata.as_mut() {
            metadata.file_identity = Some(FileIdentity(1, 42));
        }
        entry
    };
    builder.ingest(folder(1, "z"));
    builder.ingest(linked(2, "copy"));
    builder.ingest(folder(1, "a"));
    builder.ingest(linked(2, "copy"));
    let output = finish(builder, "/fixture");
    assert_eq!(output.result.logical_bytes, 100);
    assert_eq!(output.result.duplicate_hard_links, 1);
    let view = output.snapshot.directory_view(1, 0).expect("root view");
    assert_eq!(view.items[0].name, "a");
    assert_eq!(view.items[0].logical_bytes, 100);
}

#[test]
fn unreadable_entries_and_other_filesystems_are_counted() {
    let mut builder = TreeBuilder::new(b"root".to_vec(), Some(1));
    builder.skip_unreadable();
    let mut unmeasured = file(1, "gone", 1);
    unmeasured.metadata = None;
    assert_eq!(builder.ingest(unmeasured), IngestStep::Skipped);
    let mut mount = folder(1, "mnt");
    mount.metadata.as_mut().unwrap().filesystem_id = Some(2);
    assert_eq!(builder.ingest(mount), IngestStep::Added(1));
    assert_eq!(builder.ingest(file(5, "orphan", 1)), IngestStep::MissingParent);
    let progress = builder.progress(ScanPhase::Scanning, "/fixture".to_string(), 9);
    assert_eq!(progress.skipped_entries, 2);
    assert_eq!(progress.directories_scanned, 1);
    let output = finish(builder, "/fixture");
    assert_eq!(output.result.skipped_entries, 2);
    assert_eq!(output.result.skipped_filesystems, 1);
}

#[test]
fn cancelled_aggregation_reports_the_cancellation() {
    let mut builder = TreeBuilder::new(b"root".to_vec(), None);
    builder.ingest(file(1, "a", 1));
    let (mut nodes, _) = builder.into_parts();
    let cancel = AtomicBool::new(true);
    assert_eq!(
        aggregate_nodes(&mut nodes, &cancel, &mut |_| {}),
        Err("Scan cancelled.".to_string())
    );
}

#[test]
fn treats_btrfs_allocation_metadata_as_an_estimate() {
    assert!(cepa::walk::allocation_is_estimate(libc::BTRFS_SUPER_MAGIC as i64));
    assert!(!cepa::walk::allocation_is_estimate(0));
}

#[test]
fn measures_only_regular_files_and_shares_identity_between_links() {
    let metadata = UnixMetadata {
        length: 1000,
        blocks: 8,
        device: 0x0803,
        inode: 42,
        link_count: 2,
        modified_seconds: 1,
        modified_nanoseconds: 2,
        changed_seconds: 3,
        changed_nanoseconds: 4,
    };
    let file = measure_unix_metadata(metadata, true);
    assert_eq!(file.logical_bytes, 1000);
    assert_eq!(file.allocated_bytes, 4096);
    assert_eq!(file.filesystem_id, Some(0x0803));
    assert_eq!(file.file_identity, Some(FileIdentity(0x0803, 42)));
    let revision = file.scan_revision.expect("a regular file has a revision");
    assert_eq!(revision.filesystem_id, (8u64 << 32) | 3);
    assert_eq!(revision.file_id, 42);
    assert!(!file.metadata_error);

    let folder = measure_unix_metadata(metadata, false);
    assert_eq!(folder.logical_bytes, 0);
    assert_eq!(folder.allocated_bytes, 0);
    assert_eq!(folder.file_identity, None);
    assert!(folder.scan_revision.is_none());

    let single = measure_unix_metadata(UnixMetadata { link_count: 1, blocks: u64::MAX, ..metadata }, true);
    assert_eq!(single.file_identity, None);
    assert_eq!(single.allocated_bytes, u64::MAX);
}

#[test]
fn accounting_identity_excludes_backend_and_timings() {
    let result = build("/fixture", vec![file(1, "file.bin", 1)]).result;
    let mut observed = result.clone();

    observed.backend = "different-backend";
    observed.traversal_us = observed.traversal_us.saturating_add(1);
    observed.elapsed_ms = observed.elapsed_ms.saturating_add(1);
    assert!(result.accounting_mismatches(&observed).is_empty());

    observed.skipped_entries = observed.skipped_entries.saturating_add(1);
    assert_eq!(result.accounting_mismatches(&observed), ["skipped_entries"]);
}

#[test]
fn auto_takes_the_native_traversal_where_one_exists() {
    for platform in [Platform::Linux, Platform::MacOs, Platform::Windows] {
        assert_eq!(first_traversal(ScanBackend::Auto, platform), Ok(Traversal::Native));
        assert_eq!(first_traversal(ScanBackend::Jwalk, platform), Ok(Traversal::Portable));
    }
    assert_eq!(first_traversal(ScanBackend::Auto, Platform::Other), Ok(Traversal::Portable));
    assert_eq!(first_traversal(ScanBackend::Statx, Platform::Linux), Ok(Traversal::Native));
    assert_eq!(
        first_traversal(ScanBackend::Getattrlistbulk, Platform::MacOs),
        Ok(Traversal::Native)
    );
    assert_eq!(first_traversal(ScanBackend::Mft, Platform::Windows), Ok(Traversal::Native));
}

#[test]
fn a_backend_named_on_another_platform_is_refused() {
    assert_eq!(
        first_traversal(ScanBackend::Getattrlistbulk, Platform::Linux),
        Err("getattrlistbulk is only available on macOS.".to_string())
    );
    assert_eq!(
        first_traversal(ScanBackend::Mft, Platform::MacOs),
        Err("MFT traversal is only available on Windows.".to_string())
    );
    assert_eq!(
        first_traversal(ScanBackend::Statx, Platform::Windows),
        Err("statx is only available on Linux.".to_string())
    );
}

#[test]
fn only_auto_falls_back_when_the_native_traversal_is_unavailable() {
    assert_eq!(after_native_stop(ScanBackend::Auto, NativeScanError::Unavailable), Ok(()));
    assert_eq!(
        after_native_stop(ScanBackend::Statx, NativeScanError::Unavailable),
        Err("statx is unavailable on this Linux kernel or runtime.".to_string())
    );
    assert_eq!(
        after_native_stop(ScanBackend::Getattrlistbulk, NativeScanError::Unavailable),
        Err("getattrlistbulk is unavailable for this filesystem.".to_string())
    );
    assert_eq!(
        after_native_stop(ScanBackend::Mft, NativeScanError::Unavailable),
        Err("MFT traversal is unavailable for this Windows volume or process.".to_string())
    );
    assert_eq!(
        after_native_stop(ScanBackend::Auto, NativeScanError::Fatal("Scan cancelled.".to_string())),
        Err("Scan cancelled.".to_string())
    );
}
