//! The command surface of the engine: importing scanned files into the
//! catalog, resolving the dependency edges that the manifest names, and the
//! commands that read and change the catalog.

use vstd::prelude::*;
use vstd::string::*;
use crate::catalog::{
    filter_text, is_listing_of, lemma_index_unique, lemma_with_changed, lemma_with_edge,
    lemma_with_model, opt_value, order_views, response_rows, written, Catalog, CatalogView,
};
use crate::env_config::{join_path, joined};
use crate::error::{EngineError, ErrorView};
use crate::first_run::{errors_key, stash_key, status_key};
use crate::transfer::{FileStamp, RequestView, TransferMode, TransferRequest};
use crate::classifier::{classified_kind, classify};
use crate::dt_json::{list_table, CustomModel, DrawThingsConfig};
use crate::kind::{heuristic_kind, ModelKind};
use crate::models::{copy_opt_text, opt_text, CkptModel, CkptModelView, ModelResponse};
use crate::registry::ModelTypeRegistry;
use crate::text::{is_substring, lowercase_of};

verus! {

/// What a scan reports.
#[derive(Debug)]
pub struct ScanResult {
    /// How many files the scan looked at.
    pub scanned_count: usize,
    /// How many of them were new to the catalog.
    pub imported_count: usize,
    /// One line for each file that could not be imported.
    pub errors: Vec<String>,
}

/// How far a run of copies has come.
#[derive(Debug)]
pub struct CopyProgress {
    pub current: usize,
    pub total: usize,
    pub current_file: String,
}

/// A file that a scan found, with what the caller read of it.
pub struct ScannedFile {
    /// The base name, which is the catalog key.
    pub filename: String,
    /// The full path at which the file was found.
    pub path: String,
    /// The size in bytes, or the reason why it could not be read.
    pub size: Result<u64, String>,
}

/// What an import needs to know of a found file, as mathematical values.
pub struct Discovery {
    pub filename: Seq<char>,
    pub path: Seq<char>,
    /// The size to store, absent when it could not be read.
    pub size: Option<i64>,
    /// Whether the file was found on the host rather than in the stash.
    pub from_host: bool,
    /// What the manifest says of the file.
    pub name: Option<Seq<char>>,
    pub manifest_kind: Option<ModelKind>,
    pub order: Option<i32>,
    pub strength: Option<i32>,
    /// The kind that the registry or the keyword rules give.
    pub fallback_kind: ModelKind,
}

/// The size as the catalog stores it; sizes beyond the column's range are
/// held at its largest value.
pub open spec fn stored_size(size: u64) -> i64 {
    if size > i64::MAX {
        i64::MAX
    } else {
        size as i64
    }
}

/// What an import knows of a found file.
pub open spec fn discovery_of(
    file: ScannedFile,
    from_host: bool,
    config: DrawThingsConfig,
    registry: ModelTypeRegistry,
) -> Discovery {
    Discovery {
        filename: file.filename@,
        path: file.path@,
        size: match file.size {
            Ok(size) => Some(stored_size(size)),
            Err(_) => None,
        },
        from_host,
        name: config.display_name_of(file.filename@),
        manifest_kind: config.kind_of(file.filename@),
        order: config.order_of(file.filename@),
        strength: config.strength_of(file.filename@),
        fallback_kind: classified_kind(
            None,
            registry.kind_of(file.filename@),
            lowercase_of(file.filename@),
        ),
    }
}

/// The discoveries of a list of found files.
pub open spec fn discoveries_of(
    files: Seq<ScannedFile>,
    from_host: bool,
    config: DrawThingsConfig,
    registry: ModelTypeRegistry,
) -> Seq<Discovery> {
    files.map_values(|file: ScannedFile| discovery_of(file, from_host, config, registry))
}

/// The entry that a rediscovered file leaves: its location flag is set, the
/// kind follows the manifest where the manifest knows the file, and display
/// name, display order and strength are filled from the manifest only where
/// the entry had none. Nothing that the entry already holds is overwritten
/// but the kind.
pub open spec fn merged_row(existing: CkptModelView, found: Discovery) -> CkptModelView {
    CkptModelView {
        exists_mac_hd: existing.exists_mac_hd || found.from_host,
        exists_stash: existing.exists_stash || !found.from_host,
        mac_display_order: if found.from_host && existing.mac_display_order is None {
            found.order
        } else {
            existing.mac_display_order
        },
        display_name: if existing.display_name is None {
            found.name
        } else {
            existing.display_name
        },
        model_type: match found.manifest_kind {
            Some(kind) => kind.name(),
            None => existing.model_type,
        },
        lora_strength: if existing.lora_strength is None {
            found.strength
        } else {
            existing.lora_strength
        },
        ..existing
    }
}

/// The entry that a file new to the catalog gets.
pub open spec fn new_row(found: Discovery) -> CkptModelView {
    CkptModelView {
        filename: found.filename,
        display_name: found.name,
        model_type: match found.manifest_kind {
            Some(kind) => kind.name(),
            None => found.fallback_kind.name(),
        },
        file_size: found.size,
        checksum: None,
        source_path: Some(found.path),
        exists_mac_hd: found.from_host,
        exists_stash: !found.from_host,
        mac_display_order: if found.from_host {
            found.order
        } else {
            None
        },
        lora_strength: found.strength,
        created_at: None,
        updated_at: None,
    }
}

/// Whether importing the file adds an entry: the catalog has none of that
/// name and the file's size could be read.
pub open spec fn creates(catalog: CatalogView, found: Discovery) -> bool {
    !catalog.has_model(found.filename) && found.size is Some
}

/// Whether importing the file fails: it is new and its size could not be
/// read. The catalog is then left as it is.
pub open spec fn import_fails(catalog: CatalogView, found: Discovery) -> bool {
    !catalog.has_model(found.filename) && found.size is None
}

/// The catalog after one found file was imported.
pub open spec fn import_one(catalog: CatalogView, found: Discovery) -> CatalogView {
    if catalog.has_model(found.filename) {
        catalog.with_changed(found.filename, merged_row(catalog.model(found.filename), found))
    } else if found.size is Some {
        catalog.with_model(new_row(found))
    } else {
        catalog
    }
}

/// The catalog after a list of found files was imported in order.
pub open spec fn import_all(catalog: CatalogView, found: Seq<Discovery>) -> CatalogView
    decreases found.len(),
{
    if found.len() == 0 {
        catalog
    } else {
        import_one(import_all(catalog, found.drop_last()), found.last())
    }
}

/// How many entries importing a list of found files adds.
pub open spec fn created_count(catalog: CatalogView, found: Seq<Discovery>) -> nat
    decreases found.len(),
{
    if found.len() == 0 {
        0
    } else {
        let before = import_all(catalog, found.drop_last());
        created_count(catalog, found.drop_last()) + if creates(before, found.last()) {
            1nat
        } else {
            0nat
        }
    }
}

/// The error line of a file that could not be imported: its path, a colon and
/// the reason.
pub open spec fn error_line(path: Seq<char>, reason: Seq<char>) -> Seq<char> {
    path + ": "@ + reason
}

/// The error lines that importing a list of found files gives, in order.
pub open spec fn import_errors(catalog: CatalogView, files: Seq<ScannedFile>, found: Seq<Discovery>) -> Seq<
    Seq<char>,
>
    decreases found.len(),
{
    if found.len() == 0 || files.len() != found.len() {
        Seq::empty()
    } else {
        let before = import_all(catalog, found.drop_last());
        let earlier = import_errors(catalog, files.drop_last(), found.drop_last());
        if import_fails(before, found.last()) && files.last().size is Err {
            earlier.push(error_line(files.last().path@, files.last().size->Err_0@))
        } else {
            earlier
        }
    }
}

/// Importing keeps the catalog well formed.
pub proof fn lemma_import_one_wf(catalog: CatalogView, found: Discovery)
    requires
        catalog.wf(),
    ensures
        import_one(catalog, found).wf(),
        forall|name: Seq<char>| catalog.has_model(name) ==> import_one(catalog, found).has_model(name),
{
    if catalog.has_model(found.filename) {
        lemma_index_unique(catalog, found.filename, catalog.index_of(found.filename));
        lemma_with_changed(
            catalog,
            found.filename,
            merged_row(catalog.model(found.filename), found),
        );
    } else if found.size is Some {
        lemma_with_model(catalog, new_row(found));
    }
}

/// Importing a list keeps the catalog well formed.
pub proof fn lemma_import_all_wf(catalog: CatalogView, found: Seq<Discovery>)
    requires
        catalog.wf(),
    ensures
        import_all(catalog, found).wf(),
    decreases found.len(),
{
    if found.len() > 0 {
        lemma_import_all_wf(catalog, found.drop_last());
        lemma_import_one_wf(import_all(catalog, found.drop_last()), found.last());
    }
}

/// The size as the catalog stores it.
pub fn size_to_store(size: u64) -> (stored: i64)
    ensures
        stored == stored_size(size),
{
    if size > i64::MAX as u64 {
        i64::MAX
    } else {
        size as i64
    }
}

/// Imports one found file. A file new to the catalog gets an entry with what
/// the manifest says of it and the kind that classification gives; a file
/// that the catalog knows has its location flag set and its empty columns
/// filled. A new file whose size could not be read is refused with the reason
/// and leaves the catalog unchanged. The result says whether an entry was
/// added.
pub fn import_model_file(
    catalog: &mut Catalog,
    file: &ScannedFile,
    from_mac_hd: bool,
    dt_config: &DrawThingsConfig,
    registry: &ModelTypeRegistry,
) -> (outcome: Result<bool, String>)
    requires
        old(catalog).wf(),
    ensures
        final(catalog).wf(),
        final(catalog)@ == import_one(
            old(catalog)@,
            discovery_of(*file, from_mac_hd, *dt_config, *registry),
        ),
        outcome is Err == import_fails(
            old(catalog)@,
            discovery_of(*file, from_mac_hd, *dt_config, *registry),
        ),
        outcome matches Ok(created) ==> created == creates(
            old(catalog)@,
            discovery_of(*file, from_mac_hd, *dt_config, *registry),
        ),
        outcome matches Err(reason) ==> file.size is Err && reason@ == file.size->Err_0@,
{
    let ghost found = discovery_of(*file, from_mac_hd, *dt_config, *registry);
    proof {
        lemma_import_one_wf(catalog@, found);
    }
    let filename: &str = file.filename.as_str();
    let name: Option<String> = dt_config.get_display_name(filename);
    let manifest_kind: Option<ModelKind> = dt_config.lookup_kind(filename);
    let order: Option<i32> = dt_config.get_display_order(filename);
    let strength: Option<i32> = dt_config.get_lora_strength(filename);
    match catalog.get_model_by_filename(filename) {
        Some(existing) => {
            let ghost before = existing@;
            let mut row: CkptModel = existing;
            if from_mac_hd {
                row.exists_mac_hd = true;
                if row.mac_display_order.is_none() {
                    row.mac_display_order = order;
                }
            } else {
                row.exists_stash = true;
            }
            if row.display_name.is_none() {
                row.display_name = name;
            }
            match manifest_kind {
                Some(kind) => {
                    row.model_type = kind.as_str().to_string();
                },
                None => {},
            }
            if row.lora_strength.is_none() {
                row.lora_strength = strength;
            }
            assert(row@ == merged_row(before, found));
            proof {
                let at = catalog@.index_of(found.filename);
                lemma_index_unique(catalog@, found.filename, at);
                lemma_with_model(catalog@, row@);
                assert(catalog@.with_model(row@).models =~= catalog@.with_changed(
                    found.filename,
                    row@,
                ).models);
            }
            catalog.insert_or_update_model(&row);
            Ok(false)
        },
        None => {
            match &file.size {
                Ok(size) => {
                    let kind: ModelKind = match manifest_kind {
                        Some(kind) => kind,
                        None => classify(dt_config, registry, filename),
                    };
                    let row = CkptModel {
                        filename: file.filename.clone(),
                        display_name: name,
                        model_type: kind.as_str().to_string(),
                        file_size: Some(size_to_store(*size)),
                        checksum: None,
                        source_path: Some(file.path.clone()),
                        exists_mac_hd: from_mac_hd,
                        exists_stash: !from_mac_hd,
                        mac_display_order: if from_mac_hd {
                            order
                        } else {
                            None
                        },
                        lora_strength: strength,
                        created_at: None,
                        updated_at: None,
                    };
                    assert(row@ == new_row(found));
                    catalog.insert_or_update_model(&row);
                    Ok(true)
                },
                Err(reason) => Err(reason.clone()),
            }
        },
    }
}

/// Imports a list of found files in order and reports how many were looked
/// at, how many were new to the catalog, and one error line for each file
/// that was refused. A refused file does not stop the scan.
pub fn import_files(
    catalog: &mut Catalog,
    files: &Vec<ScannedFile>,
    from_mac_hd: bool,
    dt_config: &DrawThingsConfig,
    registry: &ModelTypeRegistry,
) -> (result: ScanResult)
    requires
        old(catalog).wf(),
    ensures
        final(catalog).wf(),
        final(catalog)@ == import_all(
            old(catalog)@,
            discoveries_of(files@, from_mac_hd, *dt_config, *registry),
        ),
        result.scanned_count == files.len(),
        result.imported_count == created_count(
            old(catalog)@,
            discoveries_of(files@, from_mac_hd, *dt_config, *registry),
        ),
        result.errors.deep_view() == import_errors(
            old(catalog)@,
            files@,
            discoveries_of(files@, from_mac_hd, *dt_config, *registry),
        ),
{
    let ghost found = discoveries_of(files@, from_mac_hd, *dt_config, *registry);
    let ghost start = catalog@;
    let mut imported: usize = 0;
    let mut errors: Vec<String> = Vec::new();
    let mut at: usize = 0;
    assert(errors.deep_view() =~= Seq::empty());
    while at < files.len()
        invariant
            at <= files.len(),
            found == discoveries_of(files@, from_mac_hd, *dt_config, *registry),
            catalog.wf(),
            catalog@ == import_all(start, found.take(at as int)),
            imported == created_count(start, found.take(at as int)),
            imported <= at,
            errors.deep_view() == import_errors(start, files@.take(at as int), found.take(at as int)),
        decreases files.len() - at,
    {
        proof {
            assert(found.take(at + 1).drop_last() =~= found.take(at as int));
            assert(found.take(at + 1).last() == found[at as int]);
            assert(files@.take(at + 1).drop_last() =~= files@.take(at as int));
            assert(files@.take(at + 1).last() == files@[at as int]);
        }
        let ghost lines = errors.deep_view();
        match import_model_file(catalog, &files[at], from_mac_hd, dt_config, registry) {
            Ok(created) => {
                if created {
                    imported += 1;
                }
            },
            Err(reason) => {
                let line: String = files[at].path.clone().concat(": ").concat(reason.as_str());
                errors.push(line);
                assert(errors.deep_view() =~= lines.push(
                    error_line(files@[at as int].path@, files@[at as int].size->Err_0@),
                ));
            },
        }
        at += 1;
    }
    assert(found.take(at as int) =~= found);
    assert(files@.take(at as int) =~= files@);
    ScanResult { scanned_count: files.len(), imported_count: imported, errors }
}

/// Two found files of the same name carry the same facts from the manifest
/// and were found at the same location.
pub open spec fn agree(a: Discovery, b: Discovery) -> bool {
    a.filename == b.filename ==> a.from_host == b.from_host && a.name == b.name && a.manifest_kind
        == b.manifest_kind && a.order == b.order && a.strength == b.strength
}

/// Importing the file would change nothing: its entry exists and holds what
/// the merge would give it, or it has no entry and cannot get one.
pub open spec fn settled(catalog: CatalogView, found: Discovery) -> bool {
    if catalog.has_model(found.filename) {
        merged_row(catalog.model(found.filename), found) == catalog.model(found.filename)
    } else {
        found.size is None
    }
}

/// Importing a settled file leaves the catalog as it is and adds no entry.
pub proof fn lemma_settled_is_fixed(catalog: CatalogView, found: Discovery)
    requires
        catalog.wf(),
        settled(catalog, found),
    ensures
        import_one(catalog, found) == catalog,
        !creates(catalog, found),
{
    if catalog.has_model(found.filename) {
        assert(import_one(catalog, found).models =~= catalog.models);
    }
}

/// After a file was imported it is settled.
pub proof fn lemma_import_settles(catalog: CatalogView, found: Discovery)
    requires
        catalog.wf(),
    ensures
        settled(import_one(catalog, found), found),
{
    let after = import_one(catalog, found);
    if catalog.has_model(found.filename) {
        let row = merged_row(catalog.model(found.filename), found);
        lemma_index_unique(catalog, found.filename, catalog.index_of(found.filename));
        lemma_with_changed(catalog, found.filename, row);
        let stored = written(catalog.model(found.filename), row);
        assert(after.model(found.filename) == stored);
        assert(merged_row(row, found) == row);
        assert(merged_row(stored, found) == stored);
    } else if found.size is Some {
        lemma_with_model(catalog, new_row(found));
        assert(after.model(found.filename) == new_row(found));
    }
}

/// A settled file stays settled when another file that agrees with it is
/// imported.
pub proof fn lemma_settled_is_kept(catalog: CatalogView, found: Discovery, other: Discovery)
    requires
        catalog.wf(),
        settled(catalog, found),
        agree(found, other),
    ensures
        settled(import_one(catalog, other), found),
{
    let after = import_one(catalog, other);
    if other.filename == found.filename {
        if catalog.has_model(found.filename) {
            assert(merged_row(catalog.model(found.filename), other) == merged_row(
                catalog.model(found.filename),
                found,
            ));
            lemma_settled_is_fixed(catalog, other);
        } else if other.size is Some {
            lemma_with_model(catalog, new_row(other));
            assert(after.model(found.filename) == new_row(other));
        }
    } else {
        if catalog.has_model(other.filename) {
            lemma_index_unique(catalog, other.filename, catalog.index_of(other.filename));
            lemma_with_changed(
                catalog,
                other.filename,
                merged_row(catalog.model(other.filename), other),
            );
        } else if other.size is Some {
            lemma_with_model(catalog, new_row(other));
        }
    }
}

/// After a list of files that agree with each other was imported, each of
/// them is settled.
pub proof fn lemma_import_all_settles(catalog: CatalogView, found: Seq<Discovery>, k: int)
    requires
        catalog.wf(),
        forall|i: int, j: int|
            0 <= i < found.len() && 0 <= j < found.len() ==> agree(
                #[trigger] found[i],
                #[trigger] found[j],
            ),
        0 <= k < found.len(),
    ensures
        settled(import_all(catalog, found), found[k]),
    decreases found.len(),
{
    let front = found.drop_last();
    let before = import_all(catalog, front);
    lemma_import_all_wf(catalog, front);
    if k == found.len() - 1 {
        lemma_import_settles(before, found.last());
    } else {
        assert forall|i: int, j: int| 0 <= i < front.len() && 0 <= j < front.len() implies agree(
            #[trigger] front[i],
            #[trigger] front[j],
        ) by {
            assert(front[i] == found[i]);
            assert(front[j] == found[j]);
        }
        lemma_import_all_settles(catalog, front, k);
        assert(front[k] == found[k]);
        assert(agree(found[k], found[found.len() - 1]));
        lemma_settled_is_kept(before, found[k], found.last());
    }
}

/// Importing files that are all settled changes nothing and adds no entry.
pub proof fn lemma_import_of_settled(catalog: CatalogView, found: Seq<Discovery>)
    requires
        catalog.wf(),
        forall|k: int| 0 <= k < found.len() ==> settled(catalog, #[trigger] found[k]),
    ensures
        import_all(catalog, found) == catalog,
        created_count(catalog, found) == 0,
    decreases found.len(),
{
    if found.len() > 0 {
        let front = found.drop_last();
        assert forall|k: int| 0 <= k < front.len() implies settled(catalog, #[trigger] front[k]) by {
            assert(front[k] == found[k]);
        }
        lemma_import_of_settled(catalog, front);
        assert(settled(catalog, found[found.len() - 1]));
        lemma_settled_is_fixed(catalog, found.last());
    }
}

/// The discoveries of one scan agree with each other.
pub proof fn lemma_discoveries_agree(
    files: Seq<ScannedFile>,
    from_host: bool,
    config: DrawThingsConfig,
    registry: ModelTypeRegistry,
)
    ensures
        forall|i: int, j: int|
            0 <= i < files.len() && 0 <= j < files.len() ==> agree(
                #[trigger] discoveries_of(files, from_host, config, registry)[i],
                #[trigger] discoveries_of(files, from_host, config, registry)[j],
            ),
{
}

/// Importing is idempotent: when the same files are imported a second time,
/// with the same manifest and registry, no entry is added and the catalog
/// stays as the first import left it.
pub proof fn lemma_second_import_changes_nothing(
    catalog: CatalogView,
    files: Seq<ScannedFile>,
    from_host: bool,
    config: DrawThingsConfig,
    registry: ModelTypeRegistry,
)
    requires
        catalog.wf(),
    ensures
        ({
            let found = discoveries_of(files, from_host, config, registry);
            let once = import_all(catalog, found);
            &&& import_all(once, found) == once
            &&& created_count(once, found) == 0
        }),
{
    let found = discoveries_of(files, from_host, config, registry);
    let once = import_all(catalog, found);
    lemma_discoveries_agree(files, from_host, config, registry);
    lemma_import_all_wf(catalog, found);
    assert forall|k: int| 0 <= k < found.len() implies settled(once, #[trigger] found[k]) by {
        lemma_import_all_settles(catalog, found, k);
    }
    lemma_import_of_settled(once, found);
}

/// The catalog after an edge was resolved: it is stored if both its ends are
/// catalog entries and it was not stored before; otherwise nothing changes.
pub open spec fn link(catalog: CatalogView, parent: Seq<char>, child: Seq<char>) -> CatalogView {
    if catalog.has_model(parent) && catalog.has_model(child) {
        catalog.with_edge(parent, child)
    } else {
        catalog
    }
}

/// The catalog after a list of candidate edges was resolved in order.
pub open spec fn link_all(catalog: CatalogView, pairs: Seq<(Seq<char>, Seq<char>)>) -> CatalogView
    decreases pairs.len(),
{
    if pairs.len() == 0 {
        catalog
    } else {
        link(link_all(catalog, pairs.drop_last()), pairs.last().0, pairs.last().1)
    }
}

/// The edges from one parent to each of a list of children.
pub open spec fn pairs_of(parent: Seq<char>, children: Seq<Seq<char>>) -> Seq<(Seq<char>, Seq<char>)> {
    Seq::new(children.len(), |i: int| (parent, children[i]))
}

/// The edges that one main model of the manifest asks for: from its file to
/// each encoder that the encoder table lists for that file.
pub open spec fn edges_of_model(model: CustomModel, table: Map<Seq<char>, Seq<Seq<char>>>) -> Seq<
    (Seq<char>, Seq<char>),
> {
    if table.contains_key(model.file@) {
        pairs_of(model.file@, table[model.file@])
    } else {
        Seq::empty()
    }
}

/// The candidate edges of a manifest: those of its main models, in order.
pub open spec fn candidate_edges(models: Seq<CustomModel>, table: Map<Seq<char>, Seq<Seq<char>>>) -> Seq<
    (Seq<char>, Seq<char>),
>
    decreases models.len(),
{
    if models.len() == 0 {
        Seq::empty()
    } else {
        candidate_edges(models.drop_last(), table) + edges_of_model(models.last(), table)
    }
}

/// Resolving leaves entries and settings alone and keeps the catalog well
/// formed.
pub proof fn lemma_link_all_wf(catalog: CatalogView, pairs: Seq<(Seq<char>, Seq<char>)>)
    requires
        catalog.wf(),
    ensures
        link_all(catalog, pairs).wf(),
        link_all(catalog, pairs).models == catalog.models,
        link_all(catalog, pairs).config == catalog.config,
    decreases pairs.len(),
{
    if pairs.len() > 0 {
        let before = link_all(catalog, pairs.drop_last());
        lemma_link_all_wf(catalog, pairs.drop_last());
        if before.has_model(pairs.last().0) && before.has_model(pairs.last().1) {
            lemma_with_edge(before, pairs.last().0, pairs.last().1);
        }
    }
}

/// Resolving two lists one after the other is resolving their concatenation.
pub proof fn lemma_link_all_concat(
    catalog: CatalogView,
    first: Seq<(Seq<char>, Seq<char>)>,
    second: Seq<(Seq<char>, Seq<char>)>,
)
    ensures
        link_all(catalog, first + second) == link_all(link_all(catalog, first), second),
    decreases second.len(),
{
    if second.len() == 0 {
        assert(first + second =~= first);
    } else {
        assert((first + second).drop_last() =~= first + second.drop_last());
        assert((first + second).last() == second.last());
        lemma_link_all_concat(catalog, first, second.drop_last());
    }
}

/// Relationship filtering: after resolution an edge is stored if and only if
/// it was stored before or it is a candidate whose parent and child are both
/// catalog entries. A candidate with an absent end is never stored.
pub proof fn lemma_resolution_filters(
    catalog: CatalogView,
    pairs: Seq<(Seq<char>, Seq<char>)>,
    parent: Seq<char>,
    child: Seq<char>,
)
    requires
        catalog.wf(),
    ensures
        link_all(catalog, pairs).has_edge(parent, child) <==> catalog.has_edge(parent, child) || (
        pairs.contains((parent, child)) && catalog.has_model(parent) && catalog.has_model(child)),
    decreases pairs.len(),
{
    if pairs.len() > 0 {
        let front = pairs.drop_last();
        let before = link_all(catalog, front);
        let last = pairs.last();
        lemma_resolution_filters(catalog, front, parent, child);
        lemma_link_all_wf(catalog, front);
        if before.has_model(last.0) && before.has_model(last.1) {
            lemma_with_edge(before, last.0, last.1);
        }
        if front.contains((parent, child)) {
            let i = choose|i: int| 0 <= i < front.len() && front[i] == (parent, child);
            assert(pairs[i] == (parent, child));
        }
        if pairs.contains((parent, child)) {
            let i = choose|i: int| 0 <= i < pairs.len() && pairs[i] == (parent, child);
            if i < front.len() {
                assert(front[i] == (parent, child));
            }
        }
        assert(pairs[pairs.len() - 1] == last);
    }
}

/// Resolving the first `k` of the candidates again, after all of them were
/// resolved, changes nothing.
proof fn lemma_relink_prefix(catalog: CatalogView, pairs: Seq<(Seq<char>, Seq<char>)>, k: int)
    requires
        catalog.wf(),
        0 <= k <= pairs.len(),
    ensures
        link_all(link_all(catalog, pairs), pairs.take(k)) == link_all(catalog, pairs),
    decreases k,
{
    let linked = link_all(catalog, pairs);
    lemma_link_all_wf(catalog, pairs);
    if k == 0 {
        assert(pairs.take(0) =~= Seq::empty());
    } else {
        lemma_relink_prefix(catalog, pairs, k - 1);
        assert(pairs.take(k).drop_last() =~= pairs.take(k - 1));
        let pair = pairs[k - 1];
        assert(pairs.take(k).last() == pair);
        if linked.has_model(pair.0) && linked.has_model(pair.1) {
            lemma_resolution_filters(catalog, pairs, pair.0, pair.1);
            assert(pairs.contains(pair));
        }
    }
}

/// Resolution is idempotent: resolving the same candidates a second time
/// stores no further edge.
pub proof fn lemma_second_resolution_changes_nothing(
    catalog: CatalogView,
    pairs: Seq<(Seq<char>, Seq<char>)>,
)
    requires
        catalog.wf(),
    ensures
        link_all(link_all(catalog, pairs), pairs) == link_all(catalog, pairs),
{
    lemma_relink_prefix(catalog, pairs, pairs.len() as int);
    assert(pairs.take(pairs.len() as int) =~= pairs);
}

/// Whether a file is settled depends on the catalog's entries alone.
proof fn lemma_settled_by_entries(a: CatalogView, b: CatalogView, found: Discovery)
    requires
        a.models == b.models,
        settled(a, found),
    ensures
        settled(b, found),
{
    if b.has_model(found.filename) {
        assert(a.models[b.index_of(found.filename)].filename == found.filename);
    }
    if a.has_model(found.filename) {
        assert(b.models[a.index_of(found.filename)].filename == found.filename);
    }
}

/// The catalog after a scan of the host: the found files are imported, then
/// the manifest's candidate edges are resolved.
pub open spec fn after_scan(
    catalog: CatalogView,
    files: Seq<ScannedFile>,
    config: DrawThingsConfig,
    registry: ModelTypeRegistry,
) -> CatalogView {
    link_all(
        import_all(catalog, discoveries_of(files, true, config, registry)),
        candidate_edges(config.models@, list_table(config.main_model_to_encoders@)),
    )
}

/// Idempotence: a second scan of an unchanged directory, with the same
/// manifest and registry, imports nothing and leaves the catalog, entries and
/// edges alike, as the first scan left it.
pub proof fn lemma_second_scan_changes_nothing(
    catalog: CatalogView,
    files: Seq<ScannedFile>,
    config: DrawThingsConfig,
    registry: ModelTypeRegistry,
)
    requires
        catalog.wf(),
    ensures
        after_scan(after_scan(catalog, files, config, registry), files, config, registry)
            == after_scan(catalog, files, config, registry),
        created_count(
            after_scan(catalog, files, config, registry),
            discoveries_of(files, true, config, registry),
        ) == 0,
{
    let found = discoveries_of(files, true, config, registry);
    let pairs = candidate_edges(config.models@, list_table(config.main_model_to_encoders@));
    let imported = import_all(catalog, found);
    let scanned = link_all(imported, pairs);
    lemma_discoveries_agree(files, true, config, registry);
    lemma_import_all_wf(catalog, found);
    lemma_link_all_wf(imported, pairs);
    assert forall|k: int| 0 <= k < found.len() implies settled(scanned, #[trigger] found[k]) by {
        lemma_import_all_settles(catalog, found, k);
        lemma_settled_by_entries(imported, scanned, found[k]);
    }
    lemma_import_of_settled(scanned, found);
    lemma_second_resolution_changes_nothing(imported, pairs);
}

/// The entry of a file that a scan of the host found, that the catalog did
/// not hold, and of which neither manifest nor registry knows anything.
pub open spec fn unknown_file_row(file: ScannedFile) -> CkptModelView {
    CkptModelView {
        filename: file.filename@,
        display_name: None,
        model_type: heuristic_kind(lowercase_of(file.filename@)).name(),
        file_size: Some(stored_size(file.size->Ok_0)),
        checksum: None,
        source_path: Some(file.path@),
        exists_mac_hd: true,
        exists_stash: false,
        mac_display_order: None,
        lora_strength: None,
        created_at: None,
        updated_at: None,
    }
}

/// A scan of the host that finds one readable file, new to the catalog and
/// unknown to manifest and registry, adds exactly one entry: the file's, with
/// the kind that the keyword rules give its lowercased name, without display
/// name, shown on the host and not in the stash; it counts one file scanned
/// and one imported and reports no error. A name whose lowercase form
/// mentions "lora" gets the kind "lora".
pub proof fn lemma_scan_of_unknown_file(
    catalog: CatalogView,
    file: ScannedFile,
    config: DrawThingsConfig,
    registry: ModelTypeRegistry,
)
    requires
        catalog.wf(),
        !catalog.has_model(file.filename@),
        config.knows_nothing(),
        registry.kind_of(file.filename@) is None,
        file.size is Ok,
    ensures
        after_scan(catalog, seq![file], config, registry) == (CatalogView {
            models: catalog.models.push(unknown_file_row(file)),
            ..catalog
        }),
        created_count(catalog, discoveries_of(seq![file], true, config, registry)) == 1,
        import_errors(catalog, seq![file], discoveries_of(seq![file], true, config, registry))
            == Seq::<Seq<char>>::empty(),
        is_substring("lora"@, lowercase_of(file.filename@)) ==> unknown_file_row(file).model_type
            == "lora"@,
{
    let files = seq![file];
    let found = discoveries_of(files, true, config, registry);
    let first = discovery_of(file, true, config, registry);
    assert(found.len() == 1 && found[0] == first);
    assert(found.drop_last() =~= Seq::<Discovery>::empty());
    assert(found.last() == first);
    assert(files.drop_last() =~= Seq::<ScannedFile>::empty());
    assert(import_all(catalog, found.drop_last()) == catalog);
    assert(created_count(catalog, found.drop_last()) == 0);
    assert(import_errors(catalog, files.drop_last(), found.drop_last())
        =~= Seq::<Seq<char>>::empty());
    assert(!import_fails(catalog, first));
    assert(files.len() == found.len());
    assert(new_row(first) == unknown_file_row(file));
    let imported = import_all(catalog, found);
    assert(imported == catalog.with_model(unknown_file_row(file)));
    assert(candidate_edges(config.models@, list_table(config.main_model_to_encoders@))
        =~= Seq::<(Seq<char>, Seq<char>)>::empty());
}

/// Resolves the dependency edges that the manifest names: for each main model
/// and each of its encoders the edge is stored if both files are catalog
/// entries, and passed over without an error if one of them is not.
pub fn resolve_relationships(catalog: &mut Catalog, dt_config: &DrawThingsConfig)
    requires
        old(catalog).wf(),
    ensures
        final(catalog).wf(),
        final(catalog)@ == link_all(
            old(catalog)@,
            candidate_edges(dt_config.models@, list_table(dt_config.main_model_to_encoders@)),
        ),
{
    let ghost table = list_table(dt_config.main_model_to_encoders@);
    let ghost start = catalog@;
    let mut at: usize = 0;
    while at < dt_config.models.len()
        invariant
            at <= dt_config.models.len(),
            table == list_table(dt_config.main_model_to_encoders@),
            catalog.wf(),
            catalog@ == link_all(start, candidate_edges(dt_config.models@.take(at as int), table)),
        decreases dt_config.models.len() - at,
    {
        let ghost done = candidate_edges(dt_config.models@.take(at as int), table);
        let ghost own = edges_of_model(dt_config.models@[at as int], table);
        let ghost outer = catalog@;
        proof {
            assert(dt_config.models@.take(at + 1).drop_last() =~= dt_config.models@.take(at as int));
            assert(dt_config.models@.take(at + 1).last() == dt_config.models@[at as int]);
            lemma_link_all_concat(start, done, own);
        }
        let parent: &str = dt_config.models[at].file.as_str();
        match dt_config.get_model_encoders(parent) {
            Some(children) => {
                let mut next: usize = 0;
                while next < children.len()
                    invariant
                        next <= children.len(),
                        own == pairs_of(parent@, children.deep_view()),
                        catalog.wf(),
                        catalog@ == link_all(outer, own.take(next as int)),
                    decreases children.len() - next,
                {
                    proof {
                        assert(own.take(next + 1).drop_last() =~= own.take(next as int));
                        assert(own.take(next + 1).last() == (parent@, children[next as int]@));
                    }
                    let child: &str = children[next].as_str();
                    if catalog.contains_model(parent) && catalog.contains_model(child) {
                        let added = catalog.add_relationship(parent, child);
                        assert(added is Ok);
                    }
                    next += 1;
                }
                assert(own.take(next as int) =~= own);
            },
            None => {},
        }
        at += 1;
    }
    assert(dt_config.models@.take(at as int) =~= dt_config.models@);
}

/// Scans the host: imports the found files, then resolves the manifest's
/// dependency edges among the entries that now exist.
pub fn scan_mac_models(
    catalog: &mut Catalog,
    files: &Vec<ScannedFile>,
    dt_config: &DrawThingsConfig,
    registry: &ModelTypeRegistry,
) -> (result: ScanResult)
    requires
        old(catalog).wf(),
    ensures
        final(catalog).wf(),
        final(catalog)@ == after_scan(old(catalog)@, files@, *dt_config, *registry),
        result.scanned_count == files.len(),
        result.imported_count == created_count(
            old(catalog)@,
            discoveries_of(files@, true, *dt_config, *registry),
        ),
        result.errors.deep_view() == import_errors(
            old(catalog)@,
            files@,
            discoveries_of(files@, true, *dt_config, *registry),
        ),
{
    let result: ScanResult = import_files(catalog, files, true, dt_config, registry);
    resolve_relationships(catalog, dt_config);
    result
}

/// What every command works on: the catalog store and the two configured
/// directories.
pub struct AppState {
    pub db: Catalog,
    pub dt_base_dir: Option<String>,
    pub stash_dir: Option<String>,
}

/// The status of the first run as the interactive side polls it.
#[derive(Debug)]
pub struct InitializationStatus {
    /// One of "not_started", "in_progress", "complete" and "error".
    pub status: String,
    pub stash_exists: bool,
    /// The messages of the failures that the run recorded, one per line;
    /// empty while there are none.
    pub errors: String,
}

/// The two configured directories.
#[derive(Debug)]
pub struct AppPaths {
    pub dt_base_dir: String,
    pub stash_dir: Option<String>,
}

/// The host directory that is assumed while none is configured.
pub open spec fn default_host_dir() -> Seq<char> {
    "~/Library/Containers/com.liuliu.draw-things/Data/Documents"@
}

/// The value of a setting.
pub fn get_config_value(key: &str, state: &AppState) -> (value: Option<String>)
    requires
        state.db.wf(),
    ensures
        opt_value(value) == state.db@.config_value(key@),
{
    state.db.get_config(key)
}

/// Stores a setting.
pub fn set_config_value(key: &str, value: &str, state: &mut AppState)
    requires
        old(state).db.wf(),
    ensures
        final(state).db.wf(),
        final(state).db@ == old(state).db@.with_config(key@, value@),
        final(state).dt_base_dir == old(state).dt_base_dir,
        final(state).stash_dir == old(state).stash_dir,
{
    state.db.set_config(key, value);
}

/// The status of the first run: what is persisted under the status key, or
/// "not_started" when nothing is; whether the stash is recorded as set up;
/// and the failure messages that the run persisted.
pub fn get_initialization_status(state: &AppState) -> (status: InitializationStatus)
    requires
        state.db.wf(),
    ensures
        status.status@ == (match state.db@.config_value(status_key()) {
            Some(text) => text,
            None => "not_started"@,
        }),
        status.stash_exists == (state.db@.config_value(stash_key()) == Some("true"@)),
        status.errors@ == (match state.db@.config_value(errors_key()) {
            Some(text) => text,
            None => Seq::<char>::empty(),
        }),
{
    let errors: String = match state.db.get_config("INIT_ERRORS") {
        Some(text) => text,
        None => String::new(),
    };
    let status: String = match state.db.get_config("INIT_STATUS") {
        Some(text) => text,
        None => "not_started".to_string(),
    };
    let stash_exists: bool = match state.db.get_config("STASH_EXISTS") {
        Some(text) => text == "true".to_string(),
        None => false,
    };
    InitializationStatus { status, stash_exists, errors }
}

/// The configured directories; the host directory defaults to the host
/// application's documents.
pub fn get_app_paths(state: &AppState) -> (paths: AppPaths)
    ensures
        paths.dt_base_dir@ == (match state.dt_base_dir {
            Some(dir) => dir@,
            None => default_host_dir(),
        }),
        opt_text(paths.stash_dir) == opt_text(state.stash_dir),
{
    let dt_base_dir: String = match &state.dt_base_dir {
        Some(dir) => dir.clone(),
        None => "~/Library/Containers/com.liuliu.draw-things/Data/Documents".to_string(),
    };
    AppPaths { dt_base_dir, stash_dir: copy_opt_text(&state.stash_dir) }
}

/// Sets the stash directory, in the state and in the settings. The caller
/// creates the directory.
pub fn update_stash_dir(new_stash_dir: &str, state: &mut AppState)
    requires
        old(state).db.wf(),
    ensures
        final(state).db.wf(),
        opt_text(final(state).stash_dir) == Some(new_stash_dir@),
        final(state).dt_base_dir == old(state).dt_base_dir,
        final(state).db@ == old(state).db@.with_config("STASH_DIR"@, new_stash_dir@),
{
    state.stash_dir = Some(new_stash_dir.to_owned());
    state.db.set_config("STASH_DIR", new_stash_dir);
}

/// First-time setup: stores both directories in the state and in the
/// settings and records that the stash is set up. The caller creates the
/// stash directory.
pub fn initialize_app(dt_base_dir: &str, stash_dir: &str, state: &mut AppState)
    requires
        old(state).db.wf(),
    ensures
        final(state).db.wf(),
        opt_text(final(state).dt_base_dir) == Some(dt_base_dir@),
        opt_text(final(state).stash_dir) == Some(stash_dir@),
        final(state).db@ == old(state).db@.with_config(stash_key(), "true"@).with_config(
            "DT_BASE_DIR"@,
            dt_base_dir@,
        ).with_config("STASH_DIR"@, stash_dir@),
{
    state.dt_base_dir = Some(dt_base_dir.to_owned());
    state.stash_dir = Some(stash_dir.to_owned());
    state.db.set_config("STASH_EXISTS", "true");
    state.db.set_config("DT_BASE_DIR", dt_base_dir);
    state.db.set_config("STASH_DIR", stash_dir);
}

/// The directory below a base directory in which the model files lie.
pub open spec fn models_dir_of(base: Seq<char>) -> Seq<char> {
    joined(base, "Models"@)
}

/// The directory of the host's model files, or the error that the host
/// directory is not configured.
pub fn host_models_dir(state: &AppState) -> (dir: Result<String, EngineError>)
    ensures
        match state.dt_base_dir {
            Some(base) => dir matches Ok(path) && path@ == models_dir_of(base@),
            None => dir matches Err(error) && error@ == ErrorView::NotConfigured("DT_BASE_DIR"@),
        },
{
    match &state.dt_base_dir {
        Some(base) => Ok(join_path(base.as_str(), "Models")),
        None => Err(EngineError::NotConfigured("DT_BASE_DIR".to_string())),
    }
}

/// The directory of the stash's model files, or the error that the stash
/// directory is not configured.
pub fn stash_models_dir(state: &AppState) -> (dir: Result<String, EngineError>)
    ensures
        match state.stash_dir {
            Some(base) => dir matches Ok(path) && path@ == models_dir_of(base@),
            None => dir matches Err(error) && error@ == ErrorView::NotConfigured("STASH_DIR"@),
        },
{
    match &state.stash_dir {
        Some(base) => Ok(join_path(base.as_str(), "Models")),
        None => Err(EngineError::NotConfigured("STASH_DIR".to_string())),
    }
}

/// Lists the entries in display order, all of them or those of one kind.
pub fn get_models(model_type: Option<&str>, state: &AppState) -> (models: Vec<ModelResponse>)
    requires
        state.db.wf(),
    ensures
        is_listing_of(state.db@.models, filter_text(model_type), response_rows(models@)),
        forall|i: int|
            0 <= i < models.len() ==> (#[trigger] models[i]).is_on_mac
                == models[i].model.exists_mac_hd,
        model_type is None ==> models.len() == state.db@.models.len(),
{
    state.db.list_models(model_type)
}

/// Shows an entry on the host at the given place of the display order.
pub fn add_model_to_mac(model_id: &str, display_order: i32, state: &mut AppState)
    requires
        old(state).db.wf(),
    ensures
        final(state).db.wf(),
        final(state).db@ == old(state).db@.with_host_status(model_id@, true, Some(display_order)),
{
    state.db.update_mac_hd_status(model_id, true, Some(display_order));
}

/// Takes an entry off the host; it loses its place in the display order.
pub fn remove_model_from_mac(model_id: &str, state: &mut AppState)
    requires
        old(state).db.wf(),
    ensures
        final(state).db.wf(),
        final(state).db@ == old(state).db@.with_host_status(model_id@, false, None),
{
    state.db.update_mac_hd_status(model_id, false, None);
}

/// Applies a batch of display orders as one unit.
pub fn update_models_order(updates: &Vec<(String, i32)>, state: &mut AppState)
    requires
        old(state).db.wf(),
    ensures
        final(state).db.wf(),
        final(state).db@ == old(state).db@.with_orders(order_views(updates@)),
{
    state.db.update_display_orders(updates);
}

/// Sets the display name of an entry.
pub fn update_model_name(filename: &str, display_name: &str, state: &mut AppState)
    requires
        old(state).db.wf(),
    ensures
        final(state).db.wf(),
        final(state).db@ == old(state).db@.with_display_name(filename@, display_name@),
{
    state.db.update_model_display_name(filename, display_name);
}

/// Sets the strength of an entry, in tenths.
pub fn update_model_lora_strength(filename: &str, strength: i32, state: &mut AppState)
    requires
        old(state).db.wf(),
    ensures
        final(state).db.wf(),
        final(state).db@ == old(state).db@.with_strength(filename@, strength),
{
    state.db.update_lora_strength(filename, strength);
}

/// Why a copy to the stash cannot begin, if it cannot: the stash directory
/// is not configured, the catalog has no such entry, the entry has no source
/// path, or the source file does not exist.
pub open spec fn copy_refusal(
    stash_dir: Option<Seq<char>>,
    catalog: CatalogView,
    filename: Seq<char>,
    source: Option<FileStamp>,
) -> Option<ErrorView> {
    if stash_dir is None {
        Some(ErrorView::NotConfigured("STASH_DIR"@))
    } else if !catalog.has_model(filename) {
        Some(ErrorView::NotFound(filename))
    } else if catalog.model(filename).source_path is None {
        Some(ErrorView::NotFound("source path of "@ + filename))
    } else if source is None {
        Some(ErrorView::NotFound(catalog.model(filename).source_path->0))
    } else {
        None
    }
}

/// A copy to the stash that may begin: where to copy from and to, and the
/// transfer to drive.
pub struct StashCopy {
    pub source_path: String,
    pub destination_path: String,
    pub request: TransferRequest,
}

/// Prepares the copy of an entry's file into the stash. `source` is what the
/// caller read of the file at the entry's source path, `destination` what it
/// read of the file of that name in the stash; each is `None` if the file
/// does not exist. The copy is unconditional: a destination that exists makes
/// the transfer end in a conflict.
pub fn copy_model_to_stash(
    filename: &str,
    source: Option<FileStamp>,
    destination: Option<FileStamp>,
    state: &AppState,
) -> (prepared: Result<StashCopy, EngineError>)
    requires
        state.db.wf(),
    ensures
        match copy_refusal(opt_text(state.stash_dir), state.db@, filename@, source) {
            Some(error) => prepared matches Err(e) && e@ == error,
            None => prepared matches Ok(copy) && copy.request@ == (RequestView {
                filename: filename@,
                source: source->0,
                destination,
                known_checksum: state.db@.model(filename@).checksum,
                mode: TransferMode::Unconditional,
            }) && copy.source_path@ == state.db@.model(filename@).source_path->0
                && copy.destination_path@ == joined(state.stash_dir->0@, filename@),
        },
{
    let stash_dir: &String = match &state.stash_dir {
        Some(dir) => dir,
        None => {
            return Err(EngineError::NotConfigured("STASH_DIR".to_string()));
        },
    };
    let model: CkptModel = match state.db.get_model_by_filename(filename) {
        Some(model) => model,
        None => {
            return Err(EngineError::NotFound(filename.to_owned()));
        },
    };
    let source_path: String = match model.source_path {
        Some(path) => path,
        None => {
            return Err(EngineError::NotFound("source path of ".to_string().concat(filename)));
        },
    };
    let stamp: FileStamp = match source {
        Some(stamp) => stamp,
        None => {
            return Err(EngineError::NotFound(source_path));
        },
    };
    Ok(
        StashCopy {
            source_path,
            destination_path: join_path(stash_dir.as_str(), filename),
            request: TransferRequest {
                filename: filename.to_owned(),
                source: stamp,
                destination,
                known_checksum: model.checksum,
                mode: TransferMode::Unconditional,
            },
        },
    )
}

/// Records that an entry's file is now in the stash.
pub fn mark_in_stash(filename: &str, state: &mut AppState)
    requires
        old(state).db.wf(),
    ensures
        final(state).db.wf(),
        final(state).db@ == old(state).db@.with_changed(
            filename@,
            CkptModelView { exists_stash: true, ..old(state).db@.model(filename@) },
        ),
{
    match state.db.get_model_by_filename(filename) {
        Some(model) => {
            let mut row: CkptModel = model;
            row.exists_stash = true;
            proof {
                let at = state.db@.index_of(filename@);
                lemma_index_unique(state.db@, filename@, at);
                lemma_with_model(state.db@, row@);
                assert(state.db@.with_model(row@).models =~= state.db@.with_changed(
                    filename@,
                    row@,
                ).models);
            }
            state.db.insert_or_update_model(&row);
        },
        None => {},
    }
}

/// The files to delete when an entry is deleted with its files: the file at
/// its source path, and its copy in the stash if it has one.
pub open spec fn files_of(row: CkptModelView, stash_dir: Option<Seq<char>>) -> Seq<Seq<char>> {
    let first: Seq<Seq<char>> = match row.source_path {
        Some(path) => seq![path],
        None => Seq::empty(),
    };
    match stash_dir {
        Some(dir) => if row.exists_stash {
            first.push(joined(dir, row.filename))
        } else {
            first
        },
        None => first,
    }
}

/// Why a deletion is refused, if it is: the catalog has no such entry, or the
/// files are to be deleted as well, the entry has a copy in the stash, and
/// the stash directory is not configured.
pub open spec fn deletion_refusal(
    catalog: CatalogView,
    filename: Seq<char>,
    delete_files: bool,
    stash_dir: Option<Seq<char>>,
) -> Option<ErrorView> {
    if !catalog.has_model(filename) {
        Some(ErrorView::NotFound(filename))
    } else if delete_files && catalog.model(filename).exists_stash && stash_dir is None {
        Some(ErrorView::NotConfigured("STASH_DIR"@))
    } else {
        None
    }
}

/// Plans the deletion of an entry: returns the paths of the files that the
/// caller is to delete first, where they exist, which is none unless
/// `delete_files` is set. The catalog is not changed; once the files are
/// gone, [`delete_model`] removes the entry.
pub fn plan_deletion(model_id: &str, delete_files: bool, state: &AppState) -> (plan: Result<
    Vec<String>,
    EngineError,
>)
    requires
        state.db.wf(),
    ensures
        match deletion_refusal(state.db@, model_id@, delete_files, opt_text(state.stash_dir)) {
            Some(error) => plan matches Err(e) && e@ == error,
            None => plan matches Ok(paths) && paths.deep_view() == (if delete_files {
                files_of(state.db@.model(model_id@), opt_text(state.stash_dir))
            } else {
                Seq::empty()
            }),
        },
{
    let model: CkptModel = match state.db.get_model_by_filename(model_id) {
        Some(model) => model,
        None => {
            return Err(EngineError::NotFound(model_id.to_owned()));
        },
    };
    let mut paths: Vec<String> = Vec::new();
    assert(paths.deep_view() =~= Seq::empty());
    if delete_files {
        match &model.source_path {
            Some(path) => {
                paths.push(path.clone());
                assert(paths.deep_view() =~= seq![path@]);
            },
            None => {},
        }
        if model.exists_stash {
            match &state.stash_dir {
                Some(dir) => {
                    let ghost before = paths.deep_view();
                    let in_stash: String = join_path(dir.as_str(), model_id);
                    paths.push(in_stash);
                    assert(paths.deep_view() =~= before.push(joined(dir@, model_id@)));
                },
                None => {
                    return Err(EngineError::NotConfigured("STASH_DIR".to_string()));
                },
            }
        }
    }
    Ok(paths)
}

/// Deletes an entry and the edges that touch it. The files are the caller's
/// to delete.
pub fn delete_model(model_id: &str, state: &mut AppState)
    requires
        old(state).db.wf(),
    ensures
        final(state).db.wf(),
        final(state).db@ == old(state).db@.without_model(model_id@),
{
    state.db.delete_model(model_id);
}

} // verus!
