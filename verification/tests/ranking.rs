use std::cmp::Ordering;
use std::sync::atomic::AtomicBool;

use cepa::aggregate::{aggregate_nodes, aggregate_nodes_until, compact_child_indexes};
use cepa::arena::{InternalNode, ParentId};
use cepa::ranking::{compare_node_ids_by_metric, wire_id, PartialCandidate, PartialRanking};
use cepa::snapshot::{
    ranked_node_ids_with_clone_limit, show_in_storage_view, ScanSnapshot, MAX_LIST_ITEMS,
    RANKING_BUFFER_MULTIPLIER,
};
use cepa::text::Order;
use cepa::types::{EntryKind, SizeMetric};

fn test_directory_node(name: String, parent: usize, bytes: u64) -> InternalNode {
    InternalNode {
        name: name.into_bytes(),
        parent: Some(ParentId::new(parent)),
        children: Vec::new(),
        kind: EntryKind::Directory,
        logical_bytes: bytes,
        allocated_bytes: bytes,
        file_count: 0,
        directory_count: 1,
        scan_revision: None,
    }
}

fn ordering(order: Order) -> Ordering {
    match order {
        Order::Less => Ordering::Less,
        Order::Equal => Ordering::Equal,
        Order::Greater => Ordering::Greater,
    }
}

fn sort_by_metric(ids: &mut [usize], nodes: &Vec<InternalNode>, metric: SizeMetric) {
    ids.sort_unstable_by(|left, right| {
        ordering(compare_node_ids_by_metric(nodes, *left, *right, metric))
    });
}

#[test]
fn compacts_excess_child_index_capacity() {
    let mut root = InternalNode::root(b"compact-children".to_vec());
    root.children = Vec::with_capacity(32);
    root.children.extend([1, 2]);
    let original_capacity = root.children.capacity();
    compact_child_indexes(&mut root);

    assert_eq!(root.children, [1, 2]);
    assert!(root.children.capacity() < original_capacity);
}

#[test]
fn aggregation_cancellation_precedes_child_index_compaction() {
    let mut root = InternalNode::root(b"cancelled-compaction".to_vec());
    root.children = Vec::with_capacity(32);
    root.children.push(1);
    let original_capacity = root.children.capacity();
    let mut nodes = vec![root, InternalNode::root(b"child".to_vec())];

    let error = aggregate_nodes(&mut nodes, &AtomicBool::new(true), &mut |_| {})
        .expect_err("aggregation must observe cancellation before compacting");

    assert_eq!(error, "Scan cancelled.");
    assert_eq!(nodes[0].children.capacity(), original_capacity);
}

#[test]
fn filters_before_both_ranking_paths_and_rechecks_folder_metric() {
    let mut root = InternalNode::root(b"/fixture".to_vec());
    let mut nodes = vec![InternalNode::root(b"/fixture".to_vec())];
    for index in 0..MAX_LIST_ITEMS - 1 {
        let mut file = test_directory_node(format!("file-{index:04}"), 0, 1);
        file.kind = EntryKind::File;
        nodes.push(file);
    }
    let mut housekeeping = test_directory_node(".DS_Store".into(), 0, 1_000_000);
    housekeeping.kind = EntryKind::File;
    nodes.push(housekeeping);
    nodes.push(test_directory_node("empty".into(), 0, 0));
    let mut sparse = test_directory_node("sparse-folder".into(), 0, 10_000);
    sparse.allocated_bytes = 0;
    let sparse_id = nodes.len();
    nodes.push(sparse);
    // A directory with this name is not a housekeeping file.
    nodes.push(test_directory_node(".DS_Store".into(), 0, 2));
    root.children = (1..nodes.len()).collect();
    nodes[0] = root;
    for metric in [SizeMetric::Allocated, SizeMetric::Logical] {
        let mut expected: Vec<_> = (1..MAX_LIST_ITEMS).collect();
        if metric == SizeMetric::Logical {
            expected.push(sparse_id);
        }
        expected.push(nodes.len() - 1);
        sort_by_metric(&mut expected, &nodes, metric);
        expected.truncate(MAX_LIST_ITEMS);
        for clone_limit in [0, usize::MAX] {
            let ranked = ranked_node_ids_with_clone_limit(
                &nodes[0].children,
                MAX_LIST_ITEMS,
                &nodes,
                metric,
                false,
                clone_limit,
            );
            assert_eq!(ranked, expected);
            assert!(ranked.capacity() <= MAX_LIST_ITEMS * RANKING_BUFFER_MULTIPLIER);
        }
    }
    let snapshot = ScanSnapshot::new(b"/fixture".to_vec(), false, nodes, false, None);
    let allocated = snapshot
        .directory_view_with_metric(1, 0, SizeMetric::Allocated)
        .unwrap();
    assert_eq!(allocated.items.len(), MAX_LIST_ITEMS);
    assert_eq!(allocated.suppressed_items, 3);
    assert!(!allocated.items_truncated);
    let logical = snapshot
        .directory_view_with_metric(1, 0, SizeMetric::Logical)
        .unwrap();
    assert_eq!(logical.items.len(), MAX_LIST_ITEMS);
    assert_eq!(logical.suppressed_items, 2);
    assert!(logical.items_truncated);
    assert_eq!(logical.items[0].id, wire_id(sparse_id));
}

#[test]
fn volume_event_directory_rule_precedes_both_ranking_limits_and_requires_directory_kind() {
    let nodes = vec![
        InternalNode::root(b"/fixture".to_vec()),
        test_directory_node(".fseventsd".into(), 0, 1_000),
        test_directory_node("ordinary".into(), 0, 1),
    ];
    for metric in [SizeMetric::Allocated, SizeMetric::Logical] {
        for clone_limit in [0, usize::MAX] {
            for qualified in [false, true] {
                assert_eq!(
                    ranked_node_ids_with_clone_limit(
                        &vec![1, 2],
                        1,
                        &nodes,
                        metric,
                        qualified,
                        clone_limit
                    ),
                    vec![if qualified { 2 } else { 1 }]
                );
            }
        }
        let mut named_entry = test_directory_node(".fseventsd".into(), 0, 1);
        for kind in [EntryKind::File, EntryKind::Symlink, EntryKind::Other] {
            named_entry.kind = kind;
            assert!(show_in_storage_view(&named_entry, metric, true));
        }
        named_entry.kind = EntryKind::Directory;
        named_entry.name = b".fseventsd.backup".to_vec();
        assert!(show_in_storage_view(&named_entry, metric, true));
    }
}

#[test]
fn chunked_child_ranking_matches_a_complete_sort_with_bounded_capacity() {
    let temp = tempfile::tempdir().expect("create fixture directory");
    let root_name = temp.path().to_string_lossy().as_bytes().to_vec();
    let child_count = MAX_LIST_ITEMS * RANKING_BUFFER_MULTIPLIER * 2 + 17;
    let mut root = InternalNode::root(root_name.clone());
    let mut nodes = Vec::with_capacity(child_count + 1);
    nodes.push(InternalNode::root(root_name.clone()));

    for index in 0..child_count {
        let node_id = nodes.len();
        root.children.push(node_id);
        nodes.push(InternalNode {
            name: format!("item-{:05}.bin", child_count - index).into_bytes(),
            parent: Some(ParentId::new(0)),
            children: Vec::new(),
            kind: EntryKind::File,
            logical_bytes: ((index * 3_571) % 15_000) as u64,
            allocated_bytes: ((index * 7_919) % 10_000) as u64,
            file_count: 1,
            directory_count: 0,
            scan_revision: None,
        });
    }
    nodes[0] = root;

    for metric in [SizeMetric::Allocated, SizeMetric::Logical] {
        let mut expected = nodes[0].children.clone();
        sort_by_metric(&mut expected, &nodes, metric);
        expected.truncate(MAX_LIST_ITEMS);

        let ranked = ranked_node_ids_with_clone_limit(
            &nodes[0].children,
            MAX_LIST_ITEMS,
            &nodes,
            metric,
            false,
            MAX_LIST_ITEMS,
        );
        assert_eq!(ranked, expected);
        assert!(ranked.capacity() <= MAX_LIST_ITEMS * RANKING_BUFFER_MULTIPLIER);
    }
}

#[test]
fn metric_controls_ranking_and_bounded_selection() {
    let temp = tempfile::tempdir().expect("create fixture directory");
    let root_name = temp.path().to_string_lossy().as_bytes().to_vec();
    let mut root = InternalNode::root(root_name.clone());
    let mut nodes = Vec::with_capacity(MAX_LIST_ITEMS + 3);
    nodes.push(InternalNode::root(root_name.clone()));

    for index in 0..=MAX_LIST_ITEMS {
        let node_id = nodes.len();
        root.children.push(node_id);
        nodes.push(InternalNode {
            name: format!("dense-{index:04}.bin").into_bytes(),
            parent: Some(ParentId::new(0)),
            children: Vec::new(),
            kind: EntryKind::File,
            logical_bytes: 10,
            allocated_bytes: 100,
            file_count: 1,
            directory_count: 0,
            scan_revision: None,
        });
    }
    let sparse_id = nodes.len();
    root.children.push(sparse_id);
    nodes.push(InternalNode {
        name: b"sparse.bin".to_vec(),
        parent: Some(ParentId::new(0)),
        children: Vec::new(),
        kind: EntryKind::File,
        logical_bytes: 10_000,
        allocated_bytes: 0,
        file_count: 1,
        directory_count: 0,
        scan_revision: None,
    });
    root.logical_bytes = (MAX_LIST_ITEMS as u64 + 1) * 10 + 10_000;
    root.allocated_bytes = (MAX_LIST_ITEMS as u64 + 1) * 100;
    root.file_count = MAX_LIST_ITEMS as u64 + 2;
    nodes[0] = root;

    let snapshot = ScanSnapshot::new(root_name, false, nodes, false, None);
    let allocated = snapshot
        .directory_view_with_metric(1, 0, SizeMetric::Allocated)
        .expect("build allocated view");
    let logical = snapshot
        .directory_view_with_metric(1, 0, SizeMetric::Logical)
        .expect("build logical view");

    assert!(allocated.items_truncated);
    assert_eq!(allocated.items.len(), MAX_LIST_ITEMS);
    assert!(
        !allocated
            .items
            .iter()
            .any(|item| item.id == wire_id(sparse_id))
    );
    assert_eq!(logical.items[0].id, wire_id(sparse_id));
    assert_eq!(logical.chart_items[0].id, Some(wire_id(sparse_id)));
}

fn unmeasured() -> cepa::arena::MeasuredMetadata {
    cepa::arena::MeasuredMetadata {
        logical_bytes: 0,
        allocated_bytes: 0,
        filesystem_id: None,
        file_identity: None,
        scan_revision: None,
        metadata_error: false,
    }
}

#[test]
fn relative_path_comparison_reuses_scratch_buffers() {
    let mut nodes = vec![InternalNode::root(b"root".to_vec())];
    let mut counters = cepa::arena::ScanCounters::new();
    let alpha = counters
        .push_node(&mut nodes, 0, b"alpha".to_vec(), EntryKind::Directory, unmeasured())
        .0;
    let zeta = counters
        .push_node(&mut nodes, 0, b"zeta".to_vec(), EntryKind::Directory, unmeasured())
        .0;
    let left = counters
        .push_node(&mut nodes, alpha, b"z-last".to_vec(), EntryKind::File, unmeasured())
        .0;
    let right = counters
        .push_node(&mut nodes, zeta, b"a-first".to_vec(), EntryKind::File, unmeasured())
        .0;
    let mut left_scratch = Vec::new();
    let mut right_scratch = Vec::new();

    assert_eq!(
        cepa::arena::compare_relative_node_paths(
            &nodes,
            left,
            right,
            &mut left_scratch,
            &mut right_scratch,
        ),
        Order::Less
    );
    let capacities = (left_scratch.capacity(), right_scratch.capacity());

    assert_eq!(
        cepa::arena::compare_relative_node_paths(
            &nodes,
            right,
            left,
            &mut left_scratch,
            &mut right_scratch,
        ),
        Order::Greater
    );
    assert_eq!(
        (left_scratch.capacity(), right_scratch.capacity()),
        capacities
    );
}

#[test]
fn the_running_ranking_keeps_the_eight_largest_of_twelve_files() {
    let mut ranking = PartialRanking::new();
    for size in 1..=12_u64 {
        ranking.observe(PartialCandidate {
            node_id: size as usize,
            logical_bytes: size,
            allocated_bytes: size,
        });
    }
    assert_eq!(ranking.candidates.len(), 8);
    let mut kept: Vec<u64> = ranking.candidates.iter().map(|c| c.logical_bytes).collect();
    kept.sort_unstable();
    assert_eq!(kept, (5..=12).collect::<Vec<u64>>());
    let worst = ranking.worst_index.expect("a full ranking knows its worst candidate");
    assert_eq!(ranking.candidates[worst].logical_bytes, 5);
}

#[test]
fn aggregation_checkpoints_every_2048_nodes_and_sums_subtrees() {
    let mut root = InternalNode::root(b"checkpoints".to_vec());
    let mut nodes = Vec::new();
    root.children = (1..=5000).collect();
    nodes.push(root);
    for index in 0..5000 {
        nodes.push(test_directory_node(format!("child-{index}"), 0, 3));
    }
    let mut checkpoints = Vec::new();
    aggregate_nodes(&mut nodes, &AtomicBool::new(false), &mut |processed| {
        checkpoints.push(processed)
    })
    .expect("an uncancelled aggregation completes");

    assert_eq!(checkpoints, [0, 2048, 4096]);
    assert_eq!(nodes[0].logical_bytes, 15_000);
    assert_eq!(nodes[0].directory_count, 5001);
    assert_eq!(nodes[1].logical_bytes, 3);
}

#[test]
fn a_stop_before_any_work_leaves_the_tree_untouched() {
    let mut root = InternalNode::root(b"untouched".to_vec());
    root.children = vec![1, 2];
    let mut nodes = vec![
        root,
        test_directory_node("a".into(), 0, 5),
        test_directory_node("b".into(), 0, 7),
    ];
    let error = aggregate_nodes_until(&mut nodes, &|| true, &mut |_| {})
        .expect_err("a stop at the first checkpoint ends the work");
    assert_eq!(error, "Scan cancelled.");
    assert_eq!(nodes[0].logical_bytes, 0);
    assert_eq!(nodes[0].directory_count, 1);

    aggregate_nodes_until(&mut nodes, &|| false, &mut |_| {})
        .expect("without a stop the aggregation completes");
    assert_eq!(nodes[0].logical_bytes, 12);
    assert_eq!(nodes[0].directory_count, 3);
}
