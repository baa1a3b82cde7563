use cepa::plan::{
    hashed_digest, hashing_may_start, planning_outcome, rebinding_verdict, revalidation_outcome,
    ContentDigest, FileRevision, IntegrityError, PlanValidationStatus,
};
use cepa::revision::ScannedFileRevision;
use cepa::types::ScanBackend;

fn revision(file_id: u64, modified: u64) -> FileRevision {
    FileRevision {
        scanned: ScannedFileRevision { filesystem_id: 41, file_id, modified, changed: modified },
        logical_bytes: 6,
        allocated_bytes: Some(4096),
        link_count: 1,
    }
}

fn digest(byte: u8) -> ContentDigest {
    ContentDigest { bytes: [byte; 32] }
}

#[test]
fn hashing_starts_only_for_a_live_request_on_an_unchanged_file() {
    let expected = revision(7, 1);
    assert!(matches!(hashing_may_start(true, &expected, &expected), Err(IntegrityError::Cancelled)));
    assert!(matches!(
        hashing_may_start(false, &revision(7, 2), &expected),
        Err(IntegrityError::Changed)
    ));
    assert!(hashing_may_start(false, &expected, &expected).is_ok());

    assert!(matches!(
        hashed_digest(digest(1), &expected, &revision(7, 2), false),
        Err(IntegrityError::Changed)
    ));
    assert!(matches!(
        hashed_digest(digest(1), &expected, &expected, true),
        Err(IntegrityError::Cancelled)
    ));
    assert_eq!(hashed_digest(digest(1), &expected, &expected, false).unwrap().bytes, [1; 32]);
}

#[test]
fn a_plan_needs_a_stable_identity_and_a_bound_path() {
    let expected = revision(7, 1);
    assert_eq!(
        planning_outcome(Err(IntegrityError::Cancelled), &expected, &expected, &expected).unwrap_err(),
        "Compression planning was superseded by a newer request."
    );
    assert_eq!(
        planning_outcome(Ok(digest(1)), &revision(7, 2), &expected, &expected).unwrap_err(),
        "The file changed while its compression plan was being prepared; rescan before planning."
    );
    assert_eq!(
        planning_outcome(Ok(digest(1)), &expected, &revision(8, 1), &expected).unwrap_err(),
        "The file path changed while its compression plan was being prepared; rescan before planning."
    );
    assert_eq!(planning_outcome(Ok(digest(1)), &expected, &expected, &expected).unwrap().bytes, [1; 32]);
}

#[test]
fn a_plan_is_valid_only_when_every_binding_and_the_digest_match() {
    let planned = revision(7, 1);
    let valid = revalidation_outcome(3, &planned, &planned, &planned, Ok(digest(1)), &digest(1), &planned);
    assert_eq!(valid.plan_id, 3);
    assert_eq!(valid.status, PlanValidationStatus::Valid);

    let other = revision(8, 1);
    for outcome in [
        revalidation_outcome(3, &other, &planned, &planned, Ok(digest(1)), &digest(1), &planned),
        revalidation_outcome(3, &revision(7, 2), &revision(7, 2), &planned, Ok(digest(1)), &digest(1), &revision(7, 2)),
        revalidation_outcome(3, &planned, &planned, &planned, Ok(digest(2)), &digest(1), &planned),
        revalidation_outcome(3, &planned, &planned, &planned, Ok(digest(1)), &digest(1), &other),
    ] {
        assert_eq!(outcome.status, PlanValidationStatus::Changed);
    }
    let cancelled =
        revalidation_outcome(3, &planned, &planned, &planned, Err(IntegrityError::Cancelled), &digest(1), &planned);
    assert_eq!(cancelled.status, PlanValidationStatus::Unavailable);
    assert_eq!(
        rebinding_verdict(3, &other, &planned).detail,
        "The path changed while its content was being validated; discard this plan and rescan."
    );
}

#[test]
fn unknown_backend_names_are_rejected_with_the_expected_list() {
    assert_eq!(ScanBackend::parse("statx"), Ok(ScanBackend::Statx));
    assert_eq!(
        ScanBackend::parse("ntfs"),
        Err("unknown backend \"ntfs\"; expected auto, jwalk, getattrlistbulk, mft, or statx".to_string())
    );
}
