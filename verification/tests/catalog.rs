use draw_things_companion::catalog::{Catalog, CatalogError};
use draw_things_companion::commands::{
    add_model_to_mac, copy_model_to_stash, delete_model, get_app_paths, get_config_value,
    get_initialization_status, get_models, import_files, import_model_file, initialize_app,
    mark_in_stash, plan_deletion, remove_model_from_mac, resolve_relationships, scan_mac_models,
    set_config_value, size_to_store, update_model_lora_strength, update_model_name,
    update_models_order, update_stash_dir, AppState, ScannedFile,
};
use draw_things_companion::dt_json::{manifest_or_empty, CustomLora, CustomModel, DrawThingsConfig};
use draw_things_companion::error::EngineError;
use draw_things_companion::models::CkptModel;
use draw_things_companion::registry::ModelTypeRegistry;
use draw_things_companion::transfer::{FileStamp, TransferMode};

fn row(filename: &str, kind: &str) -> CkptModel {
    CkptModel {
        filename: filename.to_string(),
        display_name: None,
        model_type: kind.to_string(),
        file_size: Some(10),
        checksum: None,
        source_path: Some(format!("/host/Models/{}", filename)),
        exists_mac_hd: false,
        exists_stash: false,
        mac_display_order: None,
        lora_strength: None,
        created_at: None,
        updated_at: None,
    }
}

fn found(filename: &str, size: Result<u64, String>) -> ScannedFile {
    ScannedFile { filename: filename.to_string(), path: format!("/host/Models/{}", filename), size }
}

fn state_with(rows: Vec<CkptModel>) -> AppState {
    let mut db = Catalog::new();
    for r in &rows {
        db.insert_or_update_model(r);
    }
    AppState { db, dt_base_dir: None, stash_dir: None }
}

fn names(state: &AppState) -> Vec<String> {
    get_models(None, state).into_iter().map(|r| r.model.filename).collect()
}

fn sample_manifest() -> DrawThingsConfig {
    DrawThingsConfig::from_lists(
        vec![
            CustomModel {
                name: "Flux Dev".to_string(),
                file: "flux.ckpt".to_string(),
                autoencoder: Some("ae.ckpt".to_string()),
                clip_encoder: Some("clip_l.ckpt".to_string()),
                text_encoder: Some("t5.ckpt".to_string()),
                version: None,
            },
            CustomModel {
                name: "Absent".to_string(),
                file: "absent.ckpt".to_string(),
                autoencoder: Some("ae.ckpt".to_string()),
                clip_encoder: None,
                text_encoder: None,
                version: None,
            },
        ],
        vec![CustomLora {
            name: "Detail".to_string(),
            file: "detail_lora.ckpt".to_string(),
            strength: Some(8),
            version: None,
        }],
        vec![],
    )
}

#[test]
fn upsert_inserts_then_updates() {
    let mut catalog = Catalog::new();
    assert_eq!(catalog.model_count(), 0);
    assert!(catalog.get_model_by_filename("a.ckpt").is_none());
    let mut first = row("a.ckpt", "model");
    first.created_at = Some("2024-01-01".to_string());
    catalog.insert_or_update_model(&first);
    assert_eq!(catalog.model_count(), 1);
    assert!(catalog.contains_model("a.ckpt"));
    let mut second = row("a.ckpt", "lora");
    second.display_name = Some("A".to_string());
    second.created_at = Some("2030-01-01".to_string());
    catalog.insert_or_update_model(&second);
    assert_eq!(catalog.model_count(), 1);
    let stored = catalog.get_model_by_filename("a.ckpt").unwrap();
    assert_eq!(stored.model_type, "lora");
    assert_eq!(stored.display_name, Some("A".to_string()));
    assert_eq!(stored.created_at, Some("2024-01-01".to_string()));
}

#[test]
fn reorder_then_list_returns_that_order() {
    let mut state = state_with(vec![row("b.ckpt", "model"), row("a.ckpt", "model")]);
    add_model_to_mac("a.ckpt", 7, &mut state);
    add_model_to_mac("b.ckpt", 3, &mut state);
    assert_eq!(names(&state), vec!["b.ckpt", "a.ckpt"]);
    update_models_order(&vec![("a.ckpt".to_string(), 0), ("b.ckpt".to_string(), 1)], &mut state);
    let listed = get_models(None, &state);
    assert_eq!(listed.len(), 2);
    assert_eq!(listed[0].model.filename, "a.ckpt");
    assert_eq!(listed[0].model.mac_display_order, Some(0));
    assert!(listed[0].is_on_mac);
    assert_eq!(listed[1].model.filename, "b.ckpt");
    assert_eq!(listed[1].model.mac_display_order, Some(1));
    assert!(listed[1].is_on_mac);
}

#[test]
fn listing_puts_entries_without_order_last() {
    let mut state = state_with(vec![
        row("d.ckpt", "model"),
        row("c.ckpt", "lora"),
        row("b.ckpt", "model"),
        row("a.ckpt", "model"),
    ]);
    add_model_to_mac("d.ckpt", 1, &mut state);
    add_model_to_mac("c.ckpt", -5, &mut state);
    state.db.update_display_orders(&vec![("a.ckpt".to_string(), -100)]);
    assert_eq!(names(&state), vec!["c.ckpt", "d.ckpt", "a.ckpt", "b.ckpt"]);
    let loras = get_models(Some("lora"), &state);
    assert_eq!(loras.len(), 1);
    assert_eq!(loras[0].model.filename, "c.ckpt");
    assert!(get_models(Some("vae"), &state).is_empty());
    remove_model_from_mac("c.ckpt", &mut state);
    assert_eq!(names(&state), vec!["d.ckpt", "a.ckpt", "b.ckpt", "c.ckpt"]);
    assert_eq!(state.db.get_model_by_filename("c.ckpt").unwrap().mac_display_order, None);
}

#[test]
fn batch_order_passes_over_unknown_names_and_last_write_wins() {
    let mut state = state_with(vec![row("a.ckpt", "model")]);
    update_models_order(
        &vec![("a.ckpt".to_string(), 4), ("missing.ckpt".to_string(), 1), ("a.ckpt".to_string(), 9)],
        &mut state,
    );
    assert_eq!(state.db.model_count(), 1);
    assert_eq!(state.db.get_model_by_filename("a.ckpt").unwrap().mac_display_order, Some(9));
}

#[test]
fn settings_latest_write_wins() {
    let mut state = state_with(vec![]);
    assert_eq!(get_config_value("STASH_DIR", &state), None);
    set_config_value("STASH_DIR", "/one", &mut state);
    set_config_value("OTHER", "x", &mut state);
    set_config_value("STASH_DIR", "/two", &mut state);
    assert_eq!(get_config_value("STASH_DIR", &state), Some("/two".to_string()));
    assert_eq!(get_config_value("OTHER", &state), Some("x".to_string()));
}

#[test]
fn paths_and_initialization() {
    let mut state = state_with(vec![]);
    let paths = get_app_paths(&state);
    assert_eq!(paths.dt_base_dir, "~/Library/Containers/com.liuliu.draw-things/Data/Documents");
    assert_eq!(paths.stash_dir, None);
    let status = get_initialization_status(&state);
    assert_eq!(status.status, "not_started");
    assert!(!status.stash_exists);
    assert_eq!(status.errors, "");
    set_config_value("INIT_STATUS", "error", &mut state);
    set_config_value("INIT_ERRORS", "a.ckpt: disk full", &mut state);
    let failed = get_initialization_status(&state);
    assert_eq!(failed.status, "error");
    assert_eq!(failed.errors, "a.ckpt: disk full");
    initialize_app("/host", "/stash", &mut state);
    let paths = get_app_paths(&state);
    assert_eq!(paths.dt_base_dir, "/host");
    assert_eq!(paths.stash_dir, Some("/stash".to_string()));
    assert_eq!(get_config_value("DT_BASE_DIR", &state), Some("/host".to_string()));
    assert_eq!(get_config_value("STASH_DIR", &state), Some("/stash".to_string()));
    assert!(get_initialization_status(&state).stash_exists);
    update_stash_dir("/elsewhere", &mut state);
    assert_eq!(get_app_paths(&state).stash_dir, Some("/elsewhere".to_string()));
    assert_eq!(get_config_value("STASH_DIR", &state), Some("/elsewhere".to_string()));
}

#[test]
fn edits_of_one_entry() {
    let mut state = state_with(vec![row("a.ckpt", "lora"), row("b.ckpt", "model")]);
    update_model_name("a.ckpt", "Alpha", &mut state);
    update_model_lora_strength("a.ckpt", 12, &mut state);
    update_model_name("missing.ckpt", "Nobody", &mut state);
    let a = state.db.get_model_by_filename("a.ckpt").unwrap();
    assert_eq!(a.display_name, Some("Alpha".to_string()));
    assert_eq!(a.lora_strength, Some(12));
    let b = state.db.get_model_by_filename("b.ckpt").unwrap();
    assert_eq!(b.display_name, None);
    assert_eq!(state.db.model_count(), 2);
}

#[test]
fn edge_needs_both_endpoints() {
    let mut catalog = Catalog::new();
    catalog.insert_or_update_model(&row("flux.ckpt", "model"));
    assert_eq!(catalog.add_relationship("flux.ckpt", "ae.ckpt"), Err(CatalogError::MissingEndpoint));
    assert_eq!(catalog.add_relationship("ae.ckpt", "flux.ckpt"), Err(CatalogError::MissingEndpoint));
    assert_eq!(catalog.relationship_count(), 0);
    catalog.insert_or_update_model(&row("ae.ckpt", "vae"));
    assert_eq!(catalog.add_relationship("flux.ckpt", "ae.ckpt"), Ok(()));
    assert_eq!(catalog.add_relationship("flux.ckpt", "ae.ckpt"), Ok(()));
    assert_eq!(catalog.relationship_count(), 1);
    assert!(catalog.has_relationship("flux.ckpt", "ae.ckpt"));
    assert!(!catalog.has_relationship("ae.ckpt", "flux.ckpt"));
    let edges = catalog.get_relationships("flux.ckpt");
    assert_eq!(edges.len(), 1);
    assert_eq!(edges[0].child_ckpt_filename, "ae.ckpt");
    assert!(catalog.get_relationships("ae.ckpt").is_empty());
    catalog.delete_relationship("flux.ckpt", "ae.ckpt");
    assert_eq!(catalog.relationship_count(), 0);
}

#[test]
fn deleting_an_entry_removes_its_edges() {
    let mut state = state_with(vec![row("flux.ckpt", "model"), row("ae.ckpt", "vae"), row("sd.ckpt", "model")]);
    state.db.add_relationship("flux.ckpt", "ae.ckpt").unwrap();
    state.db.add_relationship("sd.ckpt", "ae.ckpt").unwrap();
    state.db.add_relationship("sd.ckpt", "flux.ckpt").unwrap();
    delete_model("flux.ckpt", &mut state);
    assert_eq!(state.db.model_count(), 2);
    assert!(!state.db.contains_model("flux.ckpt"));
    assert_eq!(state.db.relationship_count(), 1);
    assert!(state.db.has_relationship("sd.ckpt", "ae.ckpt"));
    delete_model("missing.ckpt", &mut state);
    assert_eq!(state.db.model_count(), 2);
}

#[test]
fn deletion_plan_lists_the_files() {
    let mut state = state_with(vec![row("a.ckpt", "model")]);
    assert!(matches!(plan_deletion("missing.ckpt", true, &state), Err(EngineError::NotFound(_))));
    assert_eq!(plan_deletion("a.ckpt", false, &state).unwrap(), Vec::<String>::new());
    assert_eq!(plan_deletion("a.ckpt", true, &state).unwrap(), vec!["/host/Models/a.ckpt"]);
    mark_in_stash("a.ckpt", &mut state);
    assert!(state.db.get_model_by_filename("a.ckpt").unwrap().exists_stash);
    assert!(matches!(plan_deletion("a.ckpt", true, &state), Err(EngineError::NotConfigured(_))));
    assert_eq!(plan_deletion("a.ckpt", false, &state).unwrap(), Vec::<String>::new());
    state.stash_dir = Some("/stash".to_string());
    assert_eq!(
        plan_deletion("a.ckpt", true, &state).unwrap(),
        vec!["/host/Models/a.ckpt", "/stash/a.ckpt"]
    );
}

#[test]
fn import_creates_then_merges() {
    let mut catalog = Catalog::new();
    let manifest = sample_manifest();
    let registry = ModelTypeRegistry::new();
    let created = import_model_file(&mut catalog, &found("detail_lora.ckpt", Ok(2048)), true, &manifest, &registry);
    assert_eq!(created, Ok(true));
    let stored = catalog.get_model_by_filename("detail_lora.ckpt").unwrap();
    assert_eq!(stored.display_name, Some("Detail".to_string()));
    assert_eq!(stored.model_type, "lora");
    assert_eq!(stored.file_size, Some(2048));
    assert_eq!(stored.checksum, None);
    assert_eq!(stored.source_path, Some("/host/Models/detail_lora.ckpt".to_string()));
    assert!(stored.exists_mac_hd);
    assert!(!stored.exists_stash);
    assert_eq!(stored.mac_display_order, Some(0));
    assert_eq!(stored.lora_strength, Some(8));

    catalog.update_model_display_name("detail_lora.ckpt", "My name");
    catalog.update_mac_hd_status("detail_lora.ckpt", true, Some(5));
    let merged = import_model_file(&mut catalog, &found("detail_lora.ckpt", Err("gone".to_string())), false, &manifest, &registry);
    assert_eq!(merged, Ok(false));
    let stored = catalog.get_model_by_filename("detail_lora.ckpt").unwrap();
    assert_eq!(stored.display_name, Some("My name".to_string()));
    assert_eq!(stored.mac_display_order, Some(5));
    assert!(stored.exists_mac_hd);
    assert!(stored.exists_stash);
    assert_eq!(catalog.model_count(), 1);
}

#[test]
fn import_from_stash_sets_no_order() {
    let mut catalog = Catalog::new();
    let manifest = sample_manifest();
    let registry = ModelTypeRegistry::new();
    assert_eq!(import_model_file(&mut catalog, &found("flux.ckpt", Ok(1)), false, &manifest, &registry), Ok(true));
    let stored = catalog.get_model_by_filename("flux.ckpt").unwrap();
    assert!(!stored.exists_mac_hd);
    assert!(stored.exists_stash);
    assert_eq!(stored.mac_display_order, None);
    assert_eq!(stored.model_type, "model");
    assert_eq!(import_model_file(&mut catalog, &found("flux.ckpt", Ok(1)), true, &manifest, &registry), Ok(false));
    let stored = catalog.get_model_by_filename("flux.ckpt").unwrap();
    assert!(stored.exists_mac_hd);
    assert_eq!(stored.mac_display_order, Some(0));
}

#[test]
fn import_of_unknown_file_uses_registry_then_keywords() {
    let mut catalog = Catalog::new();
    let manifest = DrawThingsConfig::empty();
    let registry = ModelTypeRegistry::load_from_texts(None, None, None, Some("style.pt\n"));
    import_model_file(&mut catalog, &found("style.pt", Ok(1)), true, &manifest, &registry).unwrap();
    import_model_file(&mut catalog, &found("my_lora_v2.safetensors", Ok(1)), true, &manifest, &registry).unwrap();
    import_model_file(&mut catalog, &found("plain.ckpt", Ok(1)), true, &manifest, &registry).unwrap();
    assert_eq!(catalog.get_model_by_filename("style.pt").unwrap().model_type, "embedding");
    assert_eq!(catalog.get_model_by_filename("my_lora_v2.safetensors").unwrap().model_type, "lora");
    assert_eq!(catalog.get_model_by_filename("plain.ckpt").unwrap().model_type, "unknown");
    assert_eq!(catalog.get_model_by_filename("plain.ckpt").unwrap().display_name, None);
}

#[test]
fn manifest_kind_overrides_stored_kind() {
    let mut catalog = Catalog::new();
    let registry = ModelTypeRegistry::new();
    import_model_file(&mut catalog, &found("flux.ckpt", Ok(1)), true, &DrawThingsConfig::empty(), &registry).unwrap();
    assert_eq!(catalog.get_model_by_filename("flux.ckpt").unwrap().model_type, "unknown");
    import_model_file(&mut catalog, &found("flux.ckpt", Ok(1)), true, &sample_manifest(), &registry).unwrap();
    let stored = catalog.get_model_by_filename("flux.ckpt").unwrap();
    assert_eq!(stored.model_type, "model");
    assert_eq!(stored.display_name, Some("Flux Dev".to_string()));
    import_model_file(&mut catalog, &found("flux.ckpt", Ok(1)), true, &DrawThingsConfig::empty(), &registry).unwrap();
    assert_eq!(catalog.get_model_by_filename("flux.ckpt").unwrap().model_type, "model");
}

#[test]
fn unreadable_new_file_is_reported_and_skipped() {
    let mut catalog = Catalog::new();
    let manifest = DrawThingsConfig::empty();
    let registry = ModelTypeRegistry::new();
    let files = vec![
        found("a.ckpt", Ok(1)),
        found("broken.ckpt", Err("Permission denied".to_string())),
        found("b.ckpt", Ok(2)),
    ];
    let result = import_files(&mut catalog, &files, true, &manifest, &registry);
    assert_eq!(result.scanned_count, 3);
    assert_eq!(result.imported_count, 2);
    assert_eq!(result.errors, vec!["/host/Models/broken.ckpt: Permission denied"]);
    assert_eq!(catalog.model_count(), 2);
    assert!(!catalog.contains_model("broken.ckpt"));
}

#[test]
fn second_scan_imports_nothing_and_changes_nothing() {
    let mut catalog = Catalog::new();
    let manifest = sample_manifest();
    let registry = ModelTypeRegistry::new();
    let files = vec![
        found("flux.ckpt", Ok(100)),
        found("ae.ckpt", Ok(5)),
        found("detail_lora.ckpt", Ok(7)),
        found("broken.ckpt", Err("unreadable".to_string())),
        found("flux.ckpt", Ok(100)),
    ];
    let first = scan_mac_models(&mut catalog, &files, &manifest, &registry);
    assert_eq!(first.scanned_count, 5);
    assert_eq!(first.imported_count, 3);
    assert_eq!(first.errors.len(), 1);
    let rows_before: Vec<String> = catalog.get_all_models().iter().map(|r| format!("{:?}", r)).collect();
    let edges_before = catalog.relationship_count();
    let second = scan_mac_models(&mut catalog, &files, &manifest, &registry);
    assert_eq!(second.scanned_count, 5);
    assert_eq!(second.imported_count, 0);
    assert_eq!(second.errors, first.errors);
    let rows_after: Vec<String> = catalog.get_all_models().iter().map(|r| format!("{:?}", r)).collect();
    assert_eq!(rows_before, rows_after);
    assert_eq!(catalog.relationship_count(), edges_before);
}

#[test]
fn edges_are_stored_only_between_entries() {
    let mut catalog = Catalog::new();
    let manifest = sample_manifest();
    let registry = ModelTypeRegistry::new();
    let files = vec![found("flux.ckpt", Ok(1)), found("ae.ckpt", Ok(1)), found("t5.ckpt", Ok(1))];
    scan_mac_models(&mut catalog, &files, &manifest, &registry);
    assert!(catalog.has_relationship("flux.ckpt", "ae.ckpt"));
    assert!(catalog.has_relationship("flux.ckpt", "t5.ckpt"));
    assert!(!catalog.has_relationship("flux.ckpt", "clip_l.ckpt"));
    assert!(!catalog.has_relationship("absent.ckpt", "ae.ckpt"));
    assert_eq!(catalog.relationship_count(), 2);
    catalog.insert_or_update_model(&row("clip_l.ckpt", "clip"));
    resolve_relationships(&mut catalog, &manifest);
    assert!(catalog.has_relationship("flux.ckpt", "clip_l.ckpt"));
    assert_eq!(catalog.relationship_count(), 3);
    resolve_relationships(&mut catalog, &manifest);
    assert_eq!(catalog.relationship_count(), 3);
}

#[test]
fn stored_size_stays_in_range() {
    assert_eq!(size_to_store(0), 0);
    assert_eq!(size_to_store(123), 123);
    assert_eq!(size_to_store(i64::MAX as u64), i64::MAX);
    assert_eq!(size_to_store(u64::MAX), i64::MAX);
}

#[test]
fn copy_to_stash_is_prepared_from_the_entry() {
    let mut with_sum = row("a.ckpt", "model");
    with_sum.checksum = Some("abc".to_string());
    let mut no_path = row("b.ckpt", "model");
    no_path.source_path = None;
    let mut state = state_with(vec![with_sum, no_path]);
    let stamp = FileStamp { size: 10, modified: None };
    assert!(matches!(
        copy_model_to_stash("a.ckpt", Some(stamp), None, &state),
        Err(EngineError::NotConfigured(_))
    ));
    state.stash_dir = Some("/stash".to_string());
    assert!(matches!(
        copy_model_to_stash("missing.ckpt", Some(stamp), None, &state),
        Err(EngineError::NotFound(_))
    ));
    assert!(matches!(copy_model_to_stash("b.ckpt", Some(stamp), None, &state), Err(EngineError::NotFound(_))));
    match copy_model_to_stash("a.ckpt", None, None, &state) {
        Err(EngineError::NotFound(what)) => assert_eq!(what, "/host/Models/a.ckpt"),
        _ => panic!("a missing source file must be reported"),
    }
    let copy = copy_model_to_stash("a.ckpt", Some(stamp), None, &state).unwrap();
    assert_eq!(copy.source_path, "/host/Models/a.ckpt");
    assert_eq!(copy.destination_path, "/stash/a.ckpt");
    assert_eq!(copy.request.mode, TransferMode::Unconditional);
    assert_eq!(copy.request.known_checksum, Some("abc".to_string()));
    assert_eq!(copy.request.source.size, 10);
    assert!(copy.request.destination.is_none());
}

#[test]
fn listing_returns_every_entry_once() {
    let mut state = state_with(vec![row("c.ckpt", "model"), row("a.ckpt", "lora"), row("b.ckpt", "model")]);
    assert_eq!(get_models(None, &state).len(), state.db.model_count());
    add_model_to_mac("b.ckpt", 2, &mut state);
    let listed = state.db.get_all_models();
    assert_eq!(listed.len(), 3);
    assert_eq!(listed[0].model.filename, "b.ckpt");
    assert_eq!(listed[1].model.filename, "a.ckpt");
    assert_eq!(listed[2].model.filename, "c.ckpt");
    assert!(state_with(vec![]).db.get_all_models().is_empty());
}

#[test]
fn file_in_both_locations_gets_one_entry() {
    let mut catalog = Catalog::new();
    let manifest = sample_manifest();
    let registry = ModelTypeRegistry::new();
    let host = vec![found("flux.ckpt", Ok(100)), found("ae.ckpt", Ok(5))];
    let stash = vec![
        found("flux.ckpt", Ok(100)),
        found("only_stash.ckpt", Ok(9)),
        found("bad.ckpt", Err("unreadable".to_string())),
    ];
    let scans = draw_things_companion::first_run::scan_and_import_models(&mut catalog, &host, &stash, &manifest, &registry);
    assert_eq!(scans.host.scanned_count, 2);
    assert_eq!(scans.host.imported_count, 2);
    assert!(scans.host.errors.is_empty());
    assert_eq!(scans.stash.scanned_count, 3);
    assert_eq!(scans.stash.imported_count, 1);
    assert_eq!(scans.stash.errors, vec!["/host/Models/bad.ckpt: unreadable"]);
    assert_eq!(catalog.model_count(), 3);
    let flux = catalog.get_model_by_filename("flux.ckpt").unwrap();
    assert!(flux.exists_mac_hd && flux.exists_stash);
    let only = catalog.get_model_by_filename("only_stash.ckpt").unwrap();
    assert!(!only.exists_mac_hd && only.exists_stash);
    assert_eq!(catalog.all_settings().len(), 0);
    assert_eq!(catalog.all_relationships().len(), 0);
}

#[test]
fn restored_edge_keeps_its_identifier() {
    let mut catalog = Catalog::new();
    catalog.insert_or_update_model(&row("flux.ckpt", "model"));
    catalog.insert_or_update_model(&row("ae.ckpt", "vae"));
    let edge = draw_things_companion::models::CkptRelationship {
        id: Some(17),
        parent_ckpt_filename: "flux.ckpt".to_string(),
        child_ckpt_filename: "ae.ckpt".to_string(),
        created_at: Some("2024-05-05".to_string()),
    };
    assert_eq!(catalog.restore_relationship(edge.clone()), Ok(()));
    assert_eq!(catalog.add_relationship("flux.ckpt", "ae.ckpt"), Ok(()));
    let edges = catalog.all_relationships();
    assert_eq!(edges.len(), 1);
    assert_eq!(edges[0].id, Some(17));
    assert_eq!(edges[0].created_at, Some("2024-05-05".to_string()));
    let dangling = draw_things_companion::models::CkptRelationship {
        id: Some(18),
        parent_ckpt_filename: "flux.ckpt".to_string(),
        child_ckpt_filename: "gone.ckpt".to_string(),
        created_at: None,
    };
    assert_eq!(catalog.restore_relationship(dangling), Err(CatalogError::MissingEndpoint));
    catalog.set_config("A", "1");
    catalog.set_config("B", "2");
    let settings = catalog.all_settings();
    assert_eq!(settings.len(), 2);
    assert_eq!(settings[0].key, "A");
    assert_eq!(settings[1].value, "2");
}

#[test]
fn model_directories_need_configuration() {
    let mut state = state_with(vec![]);
    assert!(matches!(
        draw_things_companion::commands::host_models_dir(&state),
        Err(EngineError::NotConfigured(what)) if what == "DT_BASE_DIR"
    ));
    assert!(matches!(
        draw_things_companion::commands::stash_models_dir(&state),
        Err(EngineError::NotConfigured(what)) if what == "STASH_DIR"
    ));
    state.dt_base_dir = Some("/host/Documents".to_string());
    state.stash_dir = Some("/stash/".to_string());
    assert_eq!(draw_things_companion::commands::host_models_dir(&state).unwrap(), "/host/Documents/Models");
    assert_eq!(draw_things_companion::commands::stash_models_dir(&state).unwrap(), "/stash/Models");
}

#[test]
fn unreadable_manifest_degrades_to_none() {
    let (config, error) = manifest_or_empty(Ok(sample_manifest()));
    assert!(error.is_none());
    assert_eq!(config.get_model_type("flux.ckpt"), Some("model".to_string()));
    let (config, error) = manifest_or_empty(Err("Failed to parse custom.json: EOF".to_string()));
    assert_eq!(config.models.len(), 0);
    assert_eq!(config.get_model_type("flux.ckpt"), None);
    match error {
        Some(error) => {
            assert!(matches!(&error, EngineError::ManifestParseFailure(reason) if reason == "Failed to parse custom.json: EOF"));
            assert_eq!(error.message(), "Manifest could not be read: Failed to parse custom.json: EOF");
        }
        None => panic!("the failure must be reported"),
    }
}

#[test]
fn a_write_that_changes_an_entry_clears_its_time_of_last_change() {
    let mut loaded = row("a.ckpt", "lora");
    loaded.created_at = Some("2024-01-01 10:00:00".to_string());
    loaded.updated_at = Some("2024-02-02 10:00:00".to_string());
    let mut state = state_with(vec![loaded.clone()]);
    let stored = state.db.get_model_by_filename("a.ckpt").unwrap();
    assert_eq!(stored.updated_at, Some("2024-02-02 10:00:00".to_string()));

    state.db.insert_or_update_model(&loaded);
    update_model_lora_strength("missing.ckpt", 3, &mut state);
    let same = state.db.get_model_by_filename("a.ckpt").unwrap();
    assert_eq!(same.updated_at, Some("2024-02-02 10:00:00".to_string()));

    update_model_lora_strength("a.ckpt", 3, &mut state);
    let changed = state.db.get_model_by_filename("a.ckpt").unwrap();
    assert_eq!(changed.lora_strength, Some(3));
    assert_eq!(changed.updated_at, None);
    assert_eq!(changed.created_at, Some("2024-01-01 10:00:00".to_string()));

    let mut again = state_with(vec![loaded.clone()]);
    add_model_to_mac("a.ckpt", 1, &mut again);
    assert_eq!(again.db.get_model_by_filename("a.ckpt").unwrap().updated_at, None);
    let mut renamed = state_with(vec![loaded.clone()]);
    update_model_name("a.ckpt", "A", &mut renamed);
    assert_eq!(renamed.db.get_model_by_filename("a.ckpt").unwrap().updated_at, None);
    let mut stashed = state_with(vec![loaded.clone()]);
    mark_in_stash("a.ckpt", &mut stashed);
    assert_eq!(stashed.db.get_model_by_filename("a.ckpt").unwrap().updated_at, None);
}

#[test]
fn rediscovery_that_changes_nothing_keeps_the_time_of_last_change() {
    let mut loaded = row("plain.ckpt", "unknown");
    loaded.exists_mac_hd = true;
    loaded.updated_at = Some("2024-02-02 10:00:00".to_string());
    let mut catalog = Catalog::new();
    catalog.insert_or_update_model(&loaded);
    let manifest = DrawThingsConfig::empty();
    let registry = ModelTypeRegistry::new();
    import_model_file(&mut catalog, &found("plain.ckpt", Ok(10)), true, &manifest, &registry).unwrap();
    assert_eq!(
        catalog.get_model_by_filename("plain.ckpt").unwrap().updated_at,
        Some("2024-02-02 10:00:00".to_string())
    );
    import_model_file(&mut catalog, &found("plain.ckpt", Ok(10)), false, &manifest, &registry).unwrap();
    let both = catalog.get_model_by_filename("plain.ckpt").unwrap();
    assert!(both.exists_stash);
    assert_eq!(both.updated_at, None);
}
