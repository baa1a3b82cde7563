use cepa::arena::MeasuredMetadata;
use cepa::lifecycle::{
    discard_scan_state, CancellableRequests, CompressionPlanState, EstimateState, ScanState,
    SearchState,
};
use cepa::snapshot::ScanSnapshot;
use cepa::types::EntryKind;
use cepa::walk::TreeBuilder;
use std::sync::Arc;
use std::sync::atomic::Ordering;

#[test]
fn estimate_requests_cancel_superseded_work() {
    let mut state = EstimateState::default();
    let (_, first) = state.begin(10);
    let (second_token, second) = state.begin(11);

    assert!(first.load(Ordering::Relaxed));
    assert!(!second.load(Ordering::Relaxed));
    assert!(!state.cancel(10));
    assert!(state.cancel(11));
    assert!(second.load(Ordering::Relaxed));
    state.finish(second_token);
    assert!(!state.cancel(11));
}

#[test]
fn finishing_an_old_estimate_cannot_clear_a_reused_wire_id() {
    let mut state = EstimateState::default();
    let (first_token, first) = state.begin(20);
    let (second_token, second) = state.begin(20);

    assert!(first.load(Ordering::Relaxed));
    state.finish(first_token);
    assert!(state.cancel(20));
    assert!(second.load(Ordering::Relaxed));
    state.finish(second_token);
}

#[test]
fn search_requests_cancel_superseded_and_explicitly_cancelled_work() {
    let mut state = SearchState::default();
    let (_, first) = state.begin(30);
    let (second_token, second) = state.begin(31);

    assert!(first.load(Ordering::Relaxed));
    assert!(!second.load(Ordering::Relaxed));
    assert!(!state.cancel(30));
    assert!(state.cancel(31));
    assert!(second.load(Ordering::Relaxed));
    state.finish(second_token);
    assert!(!state.cancel(31));
}

#[test]
fn failed_plan_preparation_invalidates_only_its_generation() {
    let mut state: CompressionPlanState<()> = CompressionPlanState::default();
    let (failed_id, failed_generation, failed_cancel) = state.begin();

    state.fail(failed_generation);
    assert!(failed_cancel.load(Ordering::Acquire));
    assert!(state.generation() > failed_generation);
    assert!(state.plans.get(failed_id).is_err());

    let (_, current_generation, current_cancel) = state.begin();
    state.fail(failed_generation);
    assert_eq!(state.generation(), current_generation);
    assert!(!current_cancel.load(Ordering::Acquire));
}

#[test]
fn compression_plan_generations_reject_superseded_and_cleared_plans() {
    let mut state: CompressionPlanState<&'static str> = CompressionPlanState::default();
    let (first_id, first_generation, first_cancel) = state.begin();
    let (second_id, second_generation, second_cancel) = state.begin();
    assert!(first_cancel.load(Ordering::Acquire));
    assert!(!second_cancel.load(Ordering::Acquire));

    assert!(state.finish(first_generation, first_id, "first").is_err());
    assert!(state.finish(second_generation, second_id, "second").is_ok());
    assert!(state.plans.get(first_id).is_err());
    let (generation, plan, _) = state.plans.get(second_id).expect("current plan");
    assert_eq!(generation, second_generation);
    assert_eq!(*plan, "second");
    assert!(state.plans.is_current(second_generation, second_id));
    state.clear();
    assert!(state.plans.get(second_id).is_err());
    assert!(second_cancel.load(Ordering::Acquire));
    assert!(!state.plans.is_current(second_generation, second_id));
}

#[test]
fn request_tokens_increase_and_only_the_owner_finishes() {
    let mut requests: CancellableRequests<u8> = CancellableRequests::new();
    let (first, superseded) = requests.begin(5, 1);
    assert_eq!(first, 1);
    assert!(superseded.is_none());
    let (second, superseded) = requests.begin(6, 2);
    assert_eq!(second, 2);
    assert_eq!(superseded, Some(1));
    requests.finish(first);
    assert_eq!(requests.cancel(6), Some(&2));
    requests.finish(second);
    assert!(requests.cancel(6).is_none());
    assert_eq!(requests.cancel_active(), None);
}

#[test]
fn a_new_scan_supersedes_the_running_one() {
    let mut state = ScanState::default();
    let (first_id, first_cancel, released) = state.begin();
    assert!(released.is_none());
    let (second_id, second_cancel, _) = state.begin();
    assert_eq!(second_id, first_id + 1);
    assert!(first_cancel.load(Ordering::Relaxed));
    assert!(!second_cancel.load(Ordering::Relaxed));
    assert!(!state.cancel(first_id));
    assert!(state.cancel(second_id));
    assert!(second_cancel.load(Ordering::Relaxed));
    state.finish(second_id);
    assert!(!state.cancel(second_id));
    assert!(state.snapshot(second_id).is_err());
}

fn payload_snapshot() -> ScanSnapshot {
    let mut tree = TreeBuilder::new(b"fixture".to_vec(), None);
    tree.add_child(
        0,
        b"payload.bin".to_vec(),
        EntryKind::File,
        MeasuredMetadata {
            logical_bytes: 1,
            allocated_bytes: 4096,
            filesystem_id: None,
            file_identity: None,
            scan_revision: None,
            metadata_error: false,
        },
    );
    let (nodes, _) = tree.into_parts();
    ScanSnapshot::new(b"/fixture".to_vec(), false, nodes, false, None)
}

#[test]
fn discarding_a_completed_scan_releases_only_that_snapshot() {
    let mut scans = ScanState::default();
    let (scan_id, _, _) = scans.begin();
    let stale_scan_id = scan_id + 1;
    scans
        .complete(scan_id, payload_snapshot())
        .expect("retain snapshot");
    let retained = scans.snapshot(scan_id).expect("clone retained snapshot");
    let retained_weak = Arc::downgrade(&retained);
    drop(retained);

    let mut estimates = EstimateState::default();
    let (_, estimate_cancel) = estimates.begin(91);
    let mut searches = SearchState::default();
    let (_, search_cancel) = searches.begin(92);
    let mut plans = CompressionPlanState::<()>::default();
    let plan_generation = plans.generation();

    assert_eq!(
        discard_scan_state(stale_scan_id, &mut scans, &mut estimates, &mut searches, &mut plans)
            .expect_err("reject stale discard"),
        "That scan is no longer available."
    );
    assert!(retained_weak.upgrade().is_some());
    assert!(!estimate_cancel.load(Ordering::Relaxed));
    assert!(!search_cancel.load(Ordering::Relaxed));
    assert_eq!(plans.generation(), plan_generation);

    let released = discard_scan_state(scan_id, &mut scans, &mut estimates, &mut searches, &mut plans)
        .expect("discard current scan")
        .expect("detach the retained snapshot");
    assert!(retained_weak.upgrade().is_some());
    assert!(estimate_cancel.load(Ordering::Relaxed));
    assert!(search_cancel.load(Ordering::Relaxed));
    assert!(plans.generation() > plan_generation);
    assert_eq!(
        scans
            .snapshot(scan_id)
            .expect_err("snapshot must be released"),
        "That scan is no longer available."
    );
    assert!(
        discard_scan_state(scan_id, &mut scans, &mut estimates, &mut searches, &mut plans)
            .expect("discarding an absent scan is idempotent")
            .is_none()
    );
    drop(released);
    assert!(retained_weak.upgrade().is_none());
}

#[test]
fn completed_scans_resolve_only_validated_item_paths() {
    let mut state = ScanState::default();
    let (scan_id, _, _) = state.begin();
    let stale_scan_id = scan_id + 1;
    let view = state
        .complete(scan_id, payload_snapshot())
        .expect("retain snapshot");
    let file_id = view
        .items
        .iter()
        .find(|item| item.name == "payload.bin")
        .expect("find fixture file")
        .id;

    assert_eq!(
        state.reveal_path(scan_id, file_id).expect("resolve scanned item"),
        b"/fixture/payload.bin".to_vec()
    );
    assert_eq!(
        state
            .reveal_path(stale_scan_id, file_id)
            .expect_err("reject stale scan"),
        "That scan is no longer available."
    );
    assert_eq!(
        state.root_path(scan_id).expect("resolve completed scan root"),
        b"/fixture".to_vec()
    );
    assert_eq!(
        state
            .root_path(stale_scan_id)
            .expect_err("reject stale scan root"),
        "That scan is no longer available."
    );
    assert_eq!(
        state
            .compression_target(scan_id, file_id)
            .expect("resolve compression target")
            .path,
        b"/fixture/payload.bin".to_vec()
    );
    assert_eq!(
        state
            .compression_target(stale_scan_id, file_id)
            .expect_err("reject stale compression target"),
        "That scan is no longer available."
    );
    assert_eq!(
        state
            .compression_target(scan_id, u64::MAX)
            .expect_err("reject unknown compression target"),
        "That item is not part of this scan."
    );
    assert_eq!(
        state
            .reveal_path(scan_id, u64::MAX)
            .expect_err("reject unknown item"),
        "That item is not part of this scan."
    );
    assert_eq!(
        state
            .directory_view(scan_id, 0, cepa::types::SizeMetric::Logical)
            .expect("view the root")
            .items
            .len(),
        1
    );
}

#[test]
fn starting_a_new_scan_cancels_the_previous_one() {
    let mut state = ScanState::default();
    let (_, first_cancel, first_released) = state.begin();
    let (second_id, second_cancel, second_released) = state.begin();

    assert!(first_released.is_none());
    assert!(second_released.is_none());
    assert!(first_cancel.load(Ordering::Relaxed));
    assert!(!second_cancel.load(Ordering::Relaxed));
    assert!(state.cancel(second_id));
    assert!(second_cancel.load(Ordering::Relaxed));
}
