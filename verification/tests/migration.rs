use draw_things_companion::catalog::Catalog;
use draw_things_companion::error::EngineError;
use draw_things_companion::file_ops::ListedEntry;
use draw_things_companion::first_run::{
    copy_json_files, is_stash_empty, join_lines, record_status, transfer_model_files, SyncRun,
    SyncStatus, SyncStep,
};
use draw_things_companion::transfer::{FileStamp, StampedFile, Timestamp};
use draw_things_companion::models::{CkptModel, MacModel, Model, StashModel};
use draw_things_companion::schema::{
    build_migrated_rows, create_initial_schema, migrate_database, migrate_to_v2, migrate_to_v3,
    parse_version, schema_version, Database, LegacyTables, LATEST_VERSION,
};

fn legacy_model(id: i64, filename: &str) -> Model {
    Model {
        id: Some(id),
        filename: filename.to_string(),
        display_name: Some(format!("Name of {}", filename)),
        model_type: "model".to_string(),
        file_size: Some(100 + id),
        checksum: Some(format!("sum{}", id)),
        source_path: Some(format!("/host/{}", filename)),
        created_at: Some("2023-01-01".to_string()),
        updated_at: Some("2023-06-01".to_string()),
    }
}

fn on_host(model_id: i64, order: i32, custom_name: Option<&str>, strength: Option<i32>) -> MacModel {
    MacModel {
        id: Some(model_id * 10),
        model_id,
        display_order: Some(order),
        is_visible: true,
        custom_name: custom_name.map(|s| s.to_string()),
        lora_strength: strength,
    }
}

fn in_stash(model_id: i64) -> StashModel {
    StashModel { id: Some(model_id * 100), model_id, stash_path: "/stash".to_string(), last_synced: None }
}

fn database_at(version: Option<&str>, legacy: Option<LegacyTables>) -> Database {
    let mut catalog = Catalog::new();
    if let Some(v) = version {
        catalog.set_config("schema_version", v);
    }
    Database { catalog, legacy }
}

fn three_models() -> LegacyTables {
    LegacyTables {
        models: vec![legacy_model(1, "a.ckpt"), legacy_model(2, "b.ckpt"), legacy_model(3, "c.ckpt")],
        mac_models: vec![on_host(1, 4, Some("Custom A"), Some(8)), on_host(3, 0, None, None)],
        stash_models: vec![in_stash(1), in_stash(2)],
    }
}

#[test]
fn versions_are_read_from_text() {
    assert_eq!(parse_version("0"), 0);
    assert_eq!(parse_version("3"), 3);
    assert_eq!(parse_version("12"), 12);
    assert_eq!(parse_version("007"), 7);
    assert_eq!(parse_version(""), 0);
    assert_eq!(parse_version("v3"), 0);
    assert_eq!(parse_version("3 "), 0);
    assert_eq!(parse_version("-1"), 0);
    assert_eq!(parse_version("4294967295"), u32::MAX);
    assert_eq!(parse_version("4294967296"), u32::MAX);
    assert_eq!(parse_version("99999999999999999999"), u32::MAX);
    assert_eq!(LATEST_VERSION, 3);
}

#[test]
fn migration_from_version_two_keeps_every_row() {
    let mut db = database_at(Some("2"), Some(three_models()));
    assert_eq!(schema_version(&db.catalog), 2);
    assert!(migrate_database(&mut db).is_ok());
    assert_eq!(db.catalog.model_count(), 3);
    assert!(db.legacy.is_none());
    assert_eq!(schema_version(&db.catalog), LATEST_VERSION);
    assert_eq!(db.catalog.get_config("schema_version"), Some("3".to_string()));

    let a = db.catalog.get_model_by_filename("a.ckpt").unwrap();
    assert_eq!(a.display_name, Some("Custom A".to_string()));
    assert_eq!(a.model_type, "model");
    assert_eq!(a.file_size, Some(101));
    assert_eq!(a.checksum, Some("sum1".to_string()));
    assert_eq!(a.source_path, Some("/host/a.ckpt".to_string()));
    assert!(a.exists_mac_hd);
    assert!(a.exists_stash);
    assert_eq!(a.mac_display_order, Some(4));
    assert_eq!(a.lora_strength, Some(8));
    assert_eq!(a.created_at, Some("2023-01-01".to_string()));
    assert_eq!(a.updated_at, Some("2023-06-01".to_string()));

    let b = db.catalog.get_model_by_filename("b.ckpt").unwrap();
    assert_eq!(b.display_name, Some("Name of b.ckpt".to_string()));
    assert!(!b.exists_mac_hd);
    assert!(b.exists_stash);
    assert_eq!(b.mac_display_order, None);
    assert_eq!(b.lora_strength, None);

    let c = db.catalog.get_model_by_filename("c.ckpt").unwrap();
    assert_eq!(c.display_name, Some("Name of c.ckpt".to_string()));
    assert!(c.exists_mac_hd);
    assert!(!c.exists_stash);
    assert_eq!(c.mac_display_order, Some(0));
}

#[test]
fn model_without_location_rows_migrates_with_flags_unset() {
    let legacy = LegacyTables {
        models: vec![legacy_model(1, "lonely.ckpt"), Model { id: None, ..legacy_model(2, "no_id.ckpt") }],
        mac_models: vec![on_host(2, 1, None, None)],
        stash_models: vec![in_stash(7)],
    };
    let mut db = database_at(Some("2"), Some(legacy));
    assert!(migrate_database(&mut db).is_ok());
    assert_eq!(db.catalog.model_count(), 2);
    for name in ["lonely.ckpt", "no_id.ckpt"] {
        let row = db.catalog.get_model_by_filename(name).unwrap();
        assert!(!row.exists_mac_hd);
        assert!(!row.exists_stash);
        assert_eq!(row.mac_display_order, None);
    }
}

#[test]
fn host_row_without_order_migrates_without_order() {
    let mut unordered = on_host(1, 0, None, Some(5));
    unordered.display_order = None;
    let legacy = LegacyTables {
        models: vec![legacy_model(1, "a.ckpt"), legacy_model(2, "b.ckpt")],
        mac_models: vec![unordered, on_host(2, 0, None, None)],
        stash_models: vec![],
    };
    let mut db = database_at(Some("2"), Some(legacy));
    assert!(migrate_database(&mut db).is_ok());
    let a = db.catalog.get_model_by_filename("a.ckpt").unwrap();
    assert!(a.exists_mac_hd);
    assert_eq!(a.mac_display_order, None);
    assert_eq!(a.lora_strength, Some(5));
    let listed = db.catalog.get_all_models();
    assert_eq!(listed[0].model.filename, "b.ckpt");
    assert_eq!(listed[1].model.filename, "a.ckpt");
}

#[test]
fn fresh_database_runs_every_step() {
    let mut db = database_at(None, None);
    assert_eq!(schema_version(&db.catalog), 0);
    assert!(migrate_database(&mut db).is_ok());
    assert_eq!(schema_version(&db.catalog), 3);
    assert!(db.legacy.is_none());
    assert_eq!(db.catalog.model_count(), 0);
}

#[test]
fn up_to_date_database_is_left_alone() {
    let mut db = database_at(Some("3"), Some(three_models()));
    assert!(migrate_database(&mut db).is_ok());
    assert_eq!(db.catalog.model_count(), 0);
    assert!(db.legacy.is_some());
    assert_eq!(schema_version(&db.catalog), 3);
    let mut newer = database_at(Some("5"), None);
    assert!(migrate_database(&mut newer).is_ok());
    assert_eq!(schema_version(&newer.catalog), 5);
}

#[test]
fn steps_record_their_version() {
    let mut db = database_at(None, None);
    create_initial_schema(&mut db);
    assert_eq!(schema_version(&db.catalog), 1);
    assert!(db.legacy.is_some());
    migrate_to_v2(&mut db);
    assert_eq!(schema_version(&db.catalog), 2);
    assert!(db.legacy.is_some());
    assert!(migrate_to_v3(&mut db).is_ok());
    assert_eq!(schema_version(&db.catalog), 3);
    assert!(db.legacy.is_none());
}

#[test]
fn refused_merge_changes_nothing() {
    let mut legacy = three_models();
    legacy.mac_models.push(on_host(2, 9, None, None));
    legacy.mac_models.push(on_host(2, 10, None, None));
    let mut db = database_at(Some("1"), Some(legacy));
    let outcome = migrate_database(&mut db);
    match outcome {
        Err(EngineError::Conflict(name)) => assert_eq!(name, "b.ckpt"),
        _ => panic!("the merge must be refused"),
    }
    assert_eq!(db.catalog.model_count(), 0);
    assert_eq!(schema_version(&db.catalog), 2);
    let kept = db.legacy.as_ref().unwrap();
    assert_eq!(kept.models.len(), 3);
    assert_eq!(kept.mac_models.len(), 4);
    assert_eq!(kept.stash_models.len(), 2);

    db.legacy.as_mut().unwrap().mac_models.pop();
    assert!(migrate_database(&mut db).is_ok());
    assert_eq!(db.catalog.model_count(), 3);
    assert_eq!(schema_version(&db.catalog), 3);
}

#[test]
fn duplicate_file_names_block_the_merge() {
    let twice = LegacyTables {
        models: vec![legacy_model(1, "a.ckpt"), legacy_model(2, "b.ckpt"), legacy_model(3, "a.ckpt")],
        mac_models: vec![],
        stash_models: vec![],
    };
    let empty = Catalog::new();
    assert_eq!(build_migrated_rows(&empty, &twice).err(), Some("a.ckpt".to_string()));

    let mut taken = Catalog::new();
    taken.insert_or_update_model(&CkptModel {
        filename: "b.ckpt".to_string(),
        display_name: None,
        model_type: "model".to_string(),
        file_size: None,
        checksum: None,
        source_path: None,
        exists_mac_hd: false,
        exists_stash: false,
        mac_display_order: None,
        lora_strength: None,
        created_at: None,
        updated_at: None,
    });
    let once = LegacyTables {
        models: vec![legacy_model(1, "a.ckpt"), legacy_model(2, "b.ckpt")],
        mac_models: vec![],
        stash_models: vec![in_stash(1), in_stash(1)],
    };
    assert_eq!(build_migrated_rows(&taken, &once).err(), Some("a.ckpt".to_string()));
    let fine = LegacyTables { models: vec![legacy_model(1, "a.ckpt")], mac_models: vec![], stash_models: vec![] };
    assert_eq!(build_migrated_rows(&taken, &fine).unwrap().len(), 1);
}

#[test]
fn clean_run_ends_complete() {
    let mut run = SyncRun::begin();
    assert_eq!(run.status, SyncStatus::InProgress);
    let expected = [
        SyncStep::EnsureStash,
        SyncStep::MirrorManifests,
        SyncStep::TransferModels,
        SyncStep::ScanAndImport,
        SyncStep::ResolveRelationships,
    ];
    for step in expected {
        assert_eq!(run.pending, Some(step));
        assert_eq!(run.status, SyncStatus::InProgress);
        run.complete_step(vec![]);
    }
    assert_eq!(run.pending, None);
    assert_eq!(run.status, SyncStatus::Complete);
    run.complete_step(vec!["late".to_string()]);
    assert_eq!(run.status, SyncStatus::Complete);
    assert!(run.errors.is_empty());
}

#[test]
fn failure_of_a_step_does_not_stop_later_steps() {
    let mut run = SyncRun::begin();
    run.complete_step(vec![]);
    run.complete_step(vec!["custom.json: permission denied".to_string()]);
    assert_eq!(run.pending, Some(SyncStep::TransferModels));
    assert_eq!(run.status, SyncStatus::InProgress);
    run.complete_step(vec![]);
    run.complete_step(vec!["a.ckpt: unreadable".to_string(), "b.ckpt: unreadable".to_string()]);
    run.complete_step(vec![]);
    assert_eq!(run.pending, None);
    assert_eq!(run.status, SyncStatus::Error);
    assert_eq!(run.errors.len(), 3);
    assert_eq!(run.errors[0], "custom.json: permission denied");
}

#[test]
fn missing_stash_directory_ends_the_run() {
    let mut run = SyncRun::begin();
    run.complete_step(vec!["cannot create /stash".to_string()]);
    assert_eq!(run.status, SyncStatus::Error);
    assert_eq!(run.pending, None);
    assert_eq!(run.errors, vec!["cannot create /stash"]);
}

#[test]
fn status_is_persisted() {
    let mut catalog = Catalog::new();
    let mut run = SyncRun::begin();
    record_status(&mut catalog, &run);
    assert_eq!(catalog.get_config("INIT_STATUS"), Some("in_progress".to_string()));
    assert_eq!(catalog.get_config("INIT_ERRORS"), Some("".to_string()));
    assert_eq!(catalog.get_config("STASH_EXISTS"), None);
    for _ in 0..5 {
        run.complete_step(vec![]);
    }
    record_status(&mut catalog, &run);
    assert_eq!(catalog.get_config("INIT_STATUS"), Some("complete".to_string()));
    assert_eq!(catalog.get_config("STASH_EXISTS"), Some("true".to_string()));
    assert_eq!(SyncStatus::NotStarted.as_str(), "not_started");
    assert_eq!(SyncStatus::Error.as_str(), "error");
}

#[test]
fn failures_are_persisted_with_the_status() {
    let mut catalog = Catalog::new();
    let mut run = SyncRun::begin();
    run.complete_step(vec![]);
    run.complete_step(vec!["custom.json: permission denied".to_string()]);
    record_status(&mut catalog, &run);
    assert_eq!(catalog.get_config("INIT_STATUS"), Some("in_progress".to_string()));
    assert_eq!(catalog.get_config("INIT_ERRORS"), Some("custom.json: permission denied".to_string()));
    run.complete_step(vec!["a.ckpt: disk full".to_string(), "b.ckpt: disk full".to_string()]);
    run.complete_step(vec![]);
    run.complete_step(vec![]);
    record_status(&mut catalog, &run);
    assert_eq!(catalog.get_config("INIT_STATUS"), Some("error".to_string()));
    assert_eq!(
        catalog.get_config("INIT_ERRORS"),
        Some("custom.json: permission denied\na.ckpt: disk full\nb.ckpt: disk full".to_string())
    );
    assert_eq!(catalog.get_config("STASH_EXISTS"), None);
    assert_eq!(join_lines(&vec![]), "");
    assert_eq!(join_lines(&vec!["one".to_string()]), "one");
    assert_eq!(join_lines(&vec!["".to_string(), "two".to_string()]), "\ntwo");
}

#[test]
fn stash_without_model_files_marks_first_run() {
    let entry = |name: &str, is_file: bool| ListedEntry { name: name.to_string(), is_file };
    assert!(is_stash_empty(&vec![]));
    assert!(is_stash_empty(&vec![
        entry("custom.json", true),
        entry("readme", true),
        entry(".hidden.ckpt", true),
        entry("folder.ckpt", false),
    ]));
    assert!(!is_stash_empty(&vec![entry("custom.json", true), entry("a.ckpt", true)]));
    assert!(!is_stash_empty(&vec![entry("x.CKPT", true)]));
    assert!(!is_stash_empty(&vec![entry("weights.safetensors", true)]));
}

#[test]
fn first_run_plans_by_extension() {
    let file = |name: &str, size: u64, secs: i64| StampedFile {
        name: name.to_string(),
        is_file: true,
        stamp: FileStamp { size, modified: Some(Timestamp { secs, nanos: 0 }) },
    };
    let host = vec![
        file("custom.json", 10, 50),
        file("custom_lora.json", 10, 50),
        file("a.ckpt", 100, 50),
        file("b.ckpt", 100, 50),
        file("c.safetensors", 100, 50),
    ];
    let stash = vec![file("custom.json", 99, 50), file("custom_lora.json", 10, 40), file("a.ckpt", 101, 60)];
    let mirror = copy_json_files(&host, &stash);
    assert_eq!(mirror.to_copy, vec!["custom_lora.json"]);
    assert_eq!(mirror.skipped, 1);
    let transfer = transfer_model_files(&host, &stash);
    assert_eq!(transfer.to_copy, vec!["a.ckpt", "b.ckpt", "c.safetensors"]);
    assert_eq!(transfer.skipped, 0);
}
