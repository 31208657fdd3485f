use draw_things_companion::error::{decimal_text, gigabytes, EngineError};
use draw_things_companion::transfer::{
    find_stamp, is_newer, needs_copy, needs_mirror, plan_transfers, report_of,
    is_in_scope, requirement_to_report, tally_outcomes, transfer_step, FileStamp, Outcome, Scope,
    Staleness, StampedFile, Timestamp, TransferAction, TransferEvent, TransferMode,
    TransferReport, TransferRequest, TransferState, TransferTally,
};

const GB: u64 = 1024 * 1024 * 1024;

fn at(secs: i64) -> Option<Timestamp> {
    Some(Timestamp { secs, nanos: 0 })
}

fn stamp(size: u64, secs: i64) -> FileStamp {
    FileStamp { size, modified: at(secs) }
}

fn request(size: u64, destination: Option<FileStamp>, checksum: Option<&str>, mode: TransferMode) -> TransferRequest {
    TransferRequest {
        filename: "model.ckpt".to_string(),
        source: stamp(size, 100),
        destination,
        known_checksum: checksum.map(|s| s.to_string()),
        mode,
    }
}

fn stamped(name: &str, size: u64, secs: i64) -> StampedFile {
    StampedFile { name: name.to_string(), is_file: true, stamp: stamp(size, secs) }
}

#[test]
fn staleness_by_size_and_time() {
    assert!(needs_copy(&stamp(10, 100), &None));
    assert!(!needs_copy(&stamp(10, 100), &Some(stamp(10, 100))));
    assert!(!needs_copy(&stamp(10, 100), &Some(stamp(10, 200))));
    assert!(needs_copy(&stamp(10, 100), &Some(stamp(10, 99))));
    assert!(needs_copy(&stamp(10, 100), &Some(stamp(11, 200))));
    assert!(needs_copy(&stamp(10, 100), &Some(FileStamp { size: 10, modified: None })));
    assert!(!needs_copy(&FileStamp { size: 10, modified: None }, &Some(stamp(10, 1))));
    assert!(needs_mirror(&stamp(10, 100), &None));
    assert!(!needs_mirror(&stamp(10, 100), &Some(stamp(99, 100))));
    assert!(needs_mirror(&stamp(10, 100), &Some(stamp(10, 99))));
    assert!(is_newer(&Some(Timestamp { secs: 5, nanos: 2 }), &Some(Timestamp { secs: 5, nanos: 1 })));
    assert!(!is_newer(&Some(Timestamp { secs: 5, nanos: 1 }), &Some(Timestamp { secs: 5, nanos: 1 })));
    assert!(!is_newer(&Some(Timestamp { secs: 4, nanos: 9 }), &Some(Timestamp { secs: 5, nanos: 1 })));
    assert!(!is_newer(&None, &None));
}

#[test]
fn transfer_of_up_to_date_file_is_skipped() {
    let req = request(10, Some(stamp(10, 100)), None, TransferMode::Sync);
    let (state, action) = transfer_step(&req, TransferState::Start, TransferEvent::Begin);
    assert_eq!(state, TransferState::Finished);
    assert!(matches!(action, TransferAction::Finish(Outcome::Skipped)));
}

#[test]
fn transfer_copies_when_space_suffices() {
    let req = request(100, None, None, TransferMode::Sync);
    let (state, action) = transfer_step(&req, TransferState::Start, TransferEvent::Begin);
    assert_eq!(state, TransferState::AwaitingSpace);
    assert!(matches!(action, TransferAction::QuerySpace));
    let (state, action) = transfer_step(&req, state, TransferEvent::Space(Ok(111)));
    assert_eq!(state, TransferState::AwaitingCopy);
    assert!(matches!(action, TransferAction::Copy));
    let (state, action) = transfer_step(&req, state, TransferEvent::Copied(Ok(())));
    assert_eq!(state, TransferState::Finished);
    assert!(matches!(action, TransferAction::Finish(Outcome::Copied)));
}

#[test]
fn ten_gigabytes_do_not_fit_into_nine() {
    let req = request(10 * GB, None, None, TransferMode::Unconditional);
    let (state, _) = transfer_step(&req, TransferState::Start, TransferEvent::Begin);
    let (state, action) = transfer_step(&req, state, TransferEvent::Space(Ok(9 * GB)));
    assert_eq!(state, TransferState::Finished);
    match action {
        TransferAction::Finish(Outcome::Failed(error)) => {
            match &error {
                EngineError::InsufficientSpace { required, available } => {
                    assert_eq!(*required, 11 * GB);
                    assert_eq!(*available, 9 * GB);
                }
                _ => panic!("the failure must be for lack of space"),
            }
            assert_eq!(
                error.message(),
                "Insufficient disk space. Required: 11.00 GB, Available: 9.00 GB"
            );
        }
        _ => panic!("the transfer must be refused"),
    }
}

#[test]
fn refused_transfer_never_asks_for_a_copy() {
    let req = request(100, None, Some("abc"), TransferMode::Sync);
    let (state, _) = transfer_step(&req, TransferState::Start, TransferEvent::Begin);
    let (state, action) = transfer_step(&req, state, TransferEvent::Space(Ok(110)));
    assert_eq!(state, TransferState::Finished);
    assert!(matches!(
        action,
        TransferAction::Finish(Outcome::Failed(EngineError::InsufficientSpace { required: 110, available: 110 }))
    ));
    let (state, action) = transfer_step(&req, state, TransferEvent::Copied(Ok(())));
    assert_eq!(state, TransferState::Finished);
    assert!(matches!(action, TransferAction::Finish(Outcome::Failed(EngineError::IOFailure(_)))));
}

#[test]
fn corrupt_copy_is_removed_before_the_failure() {
    let req = request(100, None, Some("abc"), TransferMode::Sync);
    let (state, _) = transfer_step(&req, TransferState::Start, TransferEvent::Begin);
    let (state, _) = transfer_step(&req, state, TransferEvent::Space(Ok(1000)));
    let (state, action) = transfer_step(&req, state, TransferEvent::Copied(Ok(())));
    assert_eq!(state, TransferState::AwaitingChecksum);
    assert!(matches!(action, TransferAction::Checksum));
    let (state, action) = transfer_step(&req, state, TransferEvent::Checksum(Ok("abd".to_string())));
    assert_eq!(state, TransferState::AwaitingRemoval);
    assert!(matches!(action, TransferAction::RemoveDestination));
    let (state, action) = transfer_step(&req, state, TransferEvent::Removed(Ok(())));
    assert_eq!(state, TransferState::Finished);
    match action {
        TransferAction::Finish(Outcome::Failed(error)) => {
            assert!(matches!(error, EngineError::IntegrityFailure));
            assert_eq!(error.message(), "Checksum verification failed - copy corrupted");
        }
        _ => panic!("the transfer must fail"),
    }
}

#[test]
fn corrupt_copy_that_cannot_be_removed_is_reported_as_left_behind() {
    let req = request(100, None, Some("abc"), TransferMode::Sync);
    let (state, action) =
        transfer_step(&req, TransferState::AwaitingChecksum, TransferEvent::Checksum(Ok("abd".to_string())));
    assert!(matches!(action, TransferAction::RemoveDestination));
    let (state, action) =
        transfer_step(&req, state, TransferEvent::Removed(Err("Permission denied".to_string())));
    assert_eq!(state, TransferState::Finished);
    match action {
        TransferAction::Finish(Outcome::Failed(error)) => {
            assert!(!matches!(error, EngineError::IntegrityFailure));
            assert_eq!(
                error.message(),
                "I/O failure: corrupt copy could not be removed: Permission denied"
            );
        }
        _ => panic!("the transfer must fail"),
    }
}

#[test]
fn matching_checksum_completes_the_copy() {
    let req = request(100, None, Some("abc"), TransferMode::Sync);
    let (state, action) =
        transfer_step(&req, TransferState::AwaitingChecksum, TransferEvent::Checksum(Ok("abc".to_string())));
    assert_eq!(state, TransferState::Finished);
    assert!(matches!(action, TransferAction::Finish(Outcome::Copied)));
}

#[test]
fn unconditional_copy_conflicts_with_existing_destination() {
    let req = request(100, Some(stamp(1, 1)), None, TransferMode::Unconditional);
    let (state, action) = transfer_step(&req, TransferState::Start, TransferEvent::Begin);
    assert_eq!(state, TransferState::Finished);
    match action {
        TransferAction::Finish(Outcome::Failed(error)) => {
            assert!(matches!(&error, EngineError::Conflict(name) if name == "model.ckpt"));
            assert_eq!(error.message(), "File already exists in stash: model.ckpt");
        }
        _ => panic!("the copy must be refused"),
    }
}

#[test]
fn failures_of_the_system_end_the_transfer() {
    let req = request(100, None, Some("abc"), TransferMode::Sync);
    let (state, action) =
        transfer_step(&req, TransferState::AwaitingSpace, TransferEvent::Space(Err("statfs failed".to_string())));
    assert_eq!(state, TransferState::Finished);
    assert!(matches!(action, TransferAction::Finish(Outcome::Failed(EngineError::IOFailure(m))) if m == "statfs failed"));
    let (state, action) =
        transfer_step(&req, TransferState::AwaitingCopy, TransferEvent::Copied(Err("disk error".to_string())));
    assert_eq!(state, TransferState::Finished);
    assert!(matches!(action, TransferAction::Finish(Outcome::Failed(EngineError::IOFailure(m))) if m == "disk error"));
    let (state, action) =
        transfer_step(&req, TransferState::AwaitingChecksum, TransferEvent::Checksum(Err("read error".to_string())));
    assert_eq!(state, TransferState::Finished);
    assert!(matches!(action, TransferAction::Finish(Outcome::Failed(EngineError::IOFailure(m))) if m == "read error"));
    let (state, action) = transfer_step(&req, TransferState::Start, TransferEvent::Removed(Ok(())));
    assert_eq!(state, TransferState::Finished);
    assert!(matches!(action, TransferAction::Finish(Outcome::Failed(EngineError::IOFailure(_)))));
}

#[test]
fn requirement_includes_the_margin() {
    assert_eq!(requirement_to_report(100), 110);
    assert_eq!(requirement_to_report(5), 5);
    assert_eq!(requirement_to_report(0), 0);
    assert_eq!(requirement_to_report(10 * GB), 11 * GB);
    assert_eq!(requirement_to_report(u64::MAX), u64::MAX);
}

#[test]
fn plan_copies_missing_and_stale_files() {
    let sources = vec![
        stamped("new.ckpt", 10, 100),
        stamped("same.ckpt", 10, 100),
        stamped("bigger.ckpt", 20, 100),
        stamped("newer.ckpt", 10, 300),
        stamped("notes.json", 10, 300),
        stamped("upper.CKPT", 10, 300),
        stamped("m.pt", 10, 300),
        stamped("weights.safetensors", 10, 100),
        stamped("old.pth", 10, 100),
        stamped(".hidden.ckpt", 10, 300),
        stamped("readme.txt", 10, 300),
    ];
    let destinations = vec![
        stamped("same.ckpt", 10, 100),
        stamped("bigger.ckpt", 10, 100),
        stamped("newer.ckpt", 10, 200),
        stamped("old.pth", 10, 100),
    ];
    let plan = plan_transfers(&sources, &destinations, Scope::ModelFiles, Staleness::BySizeOrTime);
    assert_eq!(
        plan.to_copy,
        vec!["new.ckpt", "bigger.ckpt", "newer.ckpt", "upper.CKPT", "m.pt", "weights.safetensors"]
    );
    assert_eq!(plan.skipped, 2);
    let mirror = plan_transfers(&sources, &destinations, Scope::ManifestFiles, Staleness::ByTime);
    assert_eq!(mirror.to_copy, vec!["notes.json"]);
    assert_eq!(mirror.skipped, 0);
    let by_time = plan_transfers(&sources, &destinations, Scope::ModelFiles, Staleness::ByTime);
    assert_eq!(by_time.to_copy, vec!["new.ckpt", "newer.ckpt", "upper.CKPT", "m.pt", "weights.safetensors"]);
    assert_eq!(by_time.skipped, 3);
    assert_eq!(find_stamp(&destinations, "bigger.ckpt").map(|s| s.size), Some(10));
    assert!(find_stamp(&destinations, "new.ckpt").is_none());
}

#[test]
fn model_file_without_destination_is_planned() {
    let plan = plan_transfers(&vec![stamped("m.pt", 1, 1)], &vec![], Scope::ModelFiles, Staleness::BySizeOrTime);
    assert_eq!(plan.to_copy, vec!["m.pt"]);
    assert!(is_in_scope("m.pt", true, Scope::ModelFiles));
    assert!(is_in_scope("M.SafeTensors", true, Scope::ModelFiles));
    assert!(!is_in_scope(".m.pt", true, Scope::ModelFiles));
    assert!(!is_in_scope("custom.json", true, Scope::ModelFiles));
    assert!(is_in_scope("custom.json", true, Scope::ManifestFiles));
    assert!(!is_in_scope("custom.JSON", true, Scope::ManifestFiles));
    assert!(!is_in_scope("m.pt", true, Scope::ManifestFiles));
    assert!(!is_in_scope("m.pt", false, Scope::ModelFiles));
    assert!(!is_in_scope("custom.json", false, Scope::ManifestFiles));
}

#[test]
fn directory_named_like_a_model_is_not_planned() {
    let mut folder = stamped("folder.ckpt", 1, 1);
    folder.is_file = false;
    let mut notes = stamped("notes.json", 1, 1);
    notes.is_file = false;
    let sources = vec![folder, notes, stamped("real.ckpt", 1, 1)];
    let plan = plan_transfers(&sources, &vec![], Scope::ModelFiles, Staleness::BySizeOrTime);
    assert_eq!(plan.to_copy, vec!["real.ckpt"]);
    assert_eq!(plan.skipped, 0);
    let mirror = plan_transfers(&sources, &vec![], Scope::ManifestFiles, Staleness::ByTime);
    assert!(mirror.to_copy.is_empty());
}

#[test]
fn tally_and_report() {
    let outcomes = vec![
        Outcome::Copied,
        Outcome::Skipped,
        Outcome::Failed(EngineError::IntegrityFailure),
        Outcome::Copied,
    ];
    let tally = tally_outcomes(&outcomes);
    assert_eq!(tally, TransferTally { copied: 2, skipped: 1, errors: 1 });
    assert_eq!(report_of(tally), TransferReport::Copied { copied: 2, up_to_date: 1, errors: 1 });
    assert_eq!(
        report_of(TransferTally { copied: 0, skipped: 3, errors: 1 }),
        TransferReport::UpToDate { count: 3 }
    );
    assert_eq!(report_of(TransferTally { copied: 0, skipped: 0, errors: 2 }), TransferReport::NothingFound);
    assert_eq!(tally_outcomes(&vec![]), TransferTally { copied: 0, skipped: 0, errors: 0 });
}

#[test]
fn sizes_in_gigabytes() {
    assert_eq!(gigabytes(0), "0.00 GB");
    assert_eq!(gigabytes(GB), "1.00 GB");
    assert_eq!(gigabytes(GB + GB / 2), "1.50 GB");
    assert_eq!(gigabytes(GB / 100), "0.00 GB");
    assert_eq!(gigabytes(GB / 100 + 1), "0.01 GB");
    assert_eq!(gigabytes(12 * GB + GB / 4), "12.25 GB");
    assert_eq!(gigabytes(u64::MAX), "17179869183.99 GB");
    assert_eq!(decimal_text(0), "0");
    assert_eq!(decimal_text(7), "7");
    assert_eq!(decimal_text(1024), "1024");
    assert_eq!(decimal_text(u64::MAX), "18446744073709551615");
}

#[test]
fn every_error_has_its_wording() {
    assert_eq!(EngineError::NotConfigured("STASH_DIR".to_string()).message(), "STASH_DIR not configured");
    assert_eq!(EngineError::NotFound("a.ckpt".to_string()).message(), "Not found: a.ckpt");
    assert_eq!(EngineError::IOFailure("disk error".to_string()).message(), "I/O failure: disk error");
    assert_eq!(
        EngineError::InsufficientSpace { required: 3 * GB / 2, available: GB / 4 }.message(),
        "Insufficient disk space. Required: 1.50 GB, Available: 0.25 GB"
    );
    assert_eq!(EngineError::IntegrityFailure.message(), "Checksum verification failed - copy corrupted");
    assert_eq!(EngineError::Conflict("a.ckpt".to_string()).message(), "File already exists in stash: a.ckpt");
    assert_eq!(
        EngineError::ManifestParseFailure("unexpected end".to_string()).message(),
        "Manifest could not be read: unexpected end"
    );
    let copy = EngineError::Conflict("a.ckpt".to_string()).duplicate();
    assert!(matches!(copy, EngineError::Conflict(name) if name == "a.ckpt"));
}
