use cepa::arena::ScanCounters;
use cepa::revision::{
    combine_device_id, pack_unix_timestamp, ScannedFileRevision, UNIX_MAX_SECONDS,
    UNIX_MIN_SECONDS,
};

#[test]
fn unix_timestamp_packing_is_exact_and_bounded() {
    assert_ne!(
        pack_unix_timestamp(-1, 999_999_999),
        pack_unix_timestamp(0, 0)
    );
    assert!(pack_unix_timestamp(UNIX_MIN_SECONDS, 0).is_some());
    assert!(pack_unix_timestamp(UNIX_MAX_SECONDS, 999_999_999).is_some());
    assert!(pack_unix_timestamp(UNIX_MIN_SECONDS - 1, 0).is_none());
    assert!(pack_unix_timestamp(UNIX_MAX_SECONDS + 1, 0).is_none());
    assert!(pack_unix_timestamp(0, -1).is_none());
    assert!(pack_unix_timestamp(0, 1_000_000_000).is_none());
}

#[test]
fn packed_timestamps_keep_seconds_above_nanoseconds() {
    assert_eq!(pack_unix_timestamp(UNIX_MIN_SECONDS, 0), Some(0));
    assert_eq!(pack_unix_timestamp(UNIX_MIN_SECONDS, 5), Some(5));
    assert_eq!(pack_unix_timestamp(UNIX_MIN_SECONDS + 1, 0), Some(1 << 30));
    assert_eq!(pack_unix_timestamp(0, 0), Some((1_u64 << 33) << 30));
}

#[test]
fn retained_revisions_refuse_a_second_filesystem_identity() {
    let mut counters = ScanCounters::new();
    let first = ScannedFileRevision::from_raw_parts(17, 3, 5, 7).expect("build first revision");
    let other_filesystem =
        ScannedFileRevision::from_raw_parts(19, 11, 13, 17).expect("build second revision");

    let retained = counters
        .retain_scan_revision(Some(first))
        .expect("retain first filesystem revision");
    assert_eq!(retained.expand(17), first);
    assert!(
        counters
            .retain_scan_revision(Some(other_filesystem))
            .is_none(),
        "a compact revision must never inherit the wrong filesystem identity"
    );
    assert_eq!(counters.revision_filesystem_id, Some(17));
}

#[test]
fn compacting_a_revision_round_trips_through_its_filesystem() {
    let revision =
        ScannedFileRevision::from_raw_parts(41, 7, 11, 13).expect("build scanner revision");
    let (filesystem_id, compact) = revision.compact();
    assert_eq!(filesystem_id, 41);
    assert_eq!(compact.expand(filesystem_id), revision);
}

#[test]
fn a_zero_file_number_is_no_identity() {
    assert!(ScannedFileRevision::from_raw_parts(1, 0, 2, 3).is_none());
}

#[test]
fn combined_device_ids_distinguish_major_and_minor() {
    assert_ne!(combine_device_id(8, 1), combine_device_id(8, 2));
    assert_ne!(combine_device_id(8, 1), combine_device_id(9, 1));
    assert_eq!(combine_device_id(0, 0), 0);
}

#[test]
fn parent_ids_round_trip_across_the_id_range() {
    for node_id in [0, 1, usize::MAX - 1] {
        assert_eq!(cepa::arena::ParentId::new(node_id).node_id(), node_id);
    }
}
