//! The migration runner: brings a database from any earlier schema version to
//! the current one, merging the legacy tables into the catalog.

use vstd::prelude::*;
use vstd::string::*;
use crate::catalog::{can_append, lemma_append_models, lemma_with_config, Catalog, CatalogView};
use crate::error::{EngineError, ErrorView};
use crate::models::{
    copy_opt_text, model_views, opt_text, CkptModel, CkptModelView, MacModel, Model, StashModel,
};
use crate::text::chars_of;

verus! {

/// The latest schema version.
pub const LATEST_VERSION: u32 = 3;

/// The legacy tables: the flat model table and its two location tables.
pub struct LegacyTables {
    pub models: Vec<Model>,
    pub mac_models: Vec<MacModel>,
    pub stash_models: Vec<StashModel>,
}

/// A database: the catalog with its settings and, while they exist, the
/// legacy tables.
pub struct Database {
    pub catalog: Catalog,
    pub legacy: Option<LegacyTables>,
}

/// The setting that holds the schema version.
pub open spec fn version_key() -> Seq<char> {
    "schema_version"@
}

/// Whether a character is a decimal digit.
pub open spec fn is_digit(c: char) -> bool {
    '0' <= c && c <= '9'
}

/// The value of a decimal digit.
pub open spec fn digit_value(c: char) -> nat {
    if c == '1' {
        1
    } else if c == '2' {
        2
    } else if c == '3' {
        3
    } else if c == '4' {
        4
    } else if c == '5' {
        5
    } else if c == '6' {
        6
    } else if c == '7' {
        7
    } else if c == '8' {
        8
    } else if c == '9' {
        9
    } else {
        0
    }
}

/// The number that a text of decimal digits writes.
pub open spec fn decimal_value(text: Seq<char>) -> nat
    decreases text.len(),
{
    if text.len() == 0 {
        0
    } else {
        decimal_value(text.drop_last()) * 10 + digit_value(text.last())
    }
}

/// Whether a text is made of decimal digits, at least one.
pub open spec fn is_number(text: Seq<char>) -> bool {
    text.len() > 0 && forall|i: int| 0 <= i < text.len() ==> is_digit(#[trigger] text[i])
}

/// The version that a stored text stands for: its number, or 0 when it is
/// not a number.
pub open spec fn version_of(text: Seq<char>) -> nat {
    if is_number(text) {
        decimal_value(text)
    } else {
        0
    }
}

/// The schema version of a catalog: what its settings store under the version
/// key, or 0 when they store nothing.
pub open spec fn stored_version(catalog: CatalogView) -> nat {
    match catalog.config_value(version_key()) {
        Some(text) => version_of(text),
        None => 0,
    }
}

/// The value of a decimal digit, or `None` for another character.
fn digit_of(c: char) -> (digit: Option<u32>)
    ensures
        digit is Some == is_digit(c),
        digit matches Some(d) ==> d == digit_value(c) && d < 10,
{
    if c == '0' {
        Some(0)
    } else if c == '1' {
        Some(1)
    } else if c == '2' {
        Some(2)
    } else if c == '3' {
        Some(3)
    } else if c == '4' {
        Some(4)
    } else if c == '5' {
        Some(5)
    } else if c == '6' {
        Some(6)
    } else if c == '7' {
        Some(7)
    } else if c == '8' {
        Some(8)
    } else if c == '9' {
        Some(9)
    } else {
        None
    }
}

/// Reads a stored version. Versions beyond the range of the result are
/// reported as its largest value.
pub fn parse_version(text: &str) -> (version: u32)
    ensures
        version == (if version_of(text@) > u32::MAX {
            u32::MAX as nat
        } else {
            version_of(text@)
        }),
{
    let chars: Vec<char> = chars_of(text);
    if chars.len() == 0 {
        return 0;
    }
    let mut value: u32 = 0;
    let mut at: usize = 0;
    while at < chars.len()
        invariant
            at <= chars.len(),
            chars@ == text@,
            forall|i: int| 0 <= i < at ==> is_digit(#[trigger] text@[i]),
            value == (if decimal_value(text@.take(at as int)) > u32::MAX {
                u32::MAX as nat
            } else {
                decimal_value(text@.take(at as int))
            }),
        decreases chars.len() - at,
    {
        proof {
            assert(text@.take(at + 1).drop_last() =~= text@.take(at as int));
            assert(text@.take(at + 1).last() == text@[at as int]);
        }
        match digit_of(chars[at]) {
            Some(digit) => {
                value = match value.checked_mul(10) {
                    Some(tens) => match tens.checked_add(digit) {
                        Some(sum) => sum,
                        None => u32::MAX,
                    },
                    None => u32::MAX,
                };
            },
            None => {
                return 0;
            },
        }
        at += 1;
    }
    assert(text@.take(at as int) =~= text@);
    value
}

/// The first row of the host table that belongs to a model.
pub open spec fn first_mac(id: Option<i64>, rows: Seq<MacModel>) -> Option<MacModel>
    decreases rows.len(),
{
    if rows.len() == 0 {
        None
    } else if id == Some(rows.first().model_id) {
        Some(rows.first())
    } else {
        first_mac(id, rows.drop_first())
    }
}

/// The number of rows of the host table that belong to a model.
pub open spec fn mac_count(id: Option<i64>, rows: Seq<MacModel>) -> nat
    decreases rows.len(),
{
    if rows.len() == 0 {
        0
    } else {
        mac_count(id, rows.drop_first()) + if id == Some(rows.first().model_id) {
            1nat
        } else {
            0nat
        }
    }
}

/// Whether some row of the stash table belongs to a model.
pub open spec fn stash_count(id: Option<i64>, rows: Seq<StashModel>) -> nat
    decreases rows.len(),
{
    if rows.len() == 0 {
        0
    } else {
        stash_count(id, rows.drop_first()) + if id == Some(rows.first().model_id) {
            1nat
        } else {
            0nat
        }
    }
}

/// The catalog entry that a legacy model becomes. The row of the host table,
/// if the model has one, gives the host flag, the display order, the
/// strength, and the display name where it holds a custom name; a host row
/// without a display order leaves the entry without one, so that it is
/// listed last. A row of the stash table gives the stash flag. A model with
/// neither migrates with both flags unset.
pub open spec fn migrated_row(model: Model, mac: Option<MacModel>, in_stash: bool) -> CkptModelView {
    CkptModelView {
        filename: model.filename@,
        display_name: match mac {
            Some(row) => if row.custom_name is Some {
                opt_text(row.custom_name)
            } else {
                opt_text(model.display_name)
            },
            None => opt_text(model.display_name),
        },
        model_type: model.model_type@,
        file_size: model.file_size,
        checksum: opt_text(model.checksum),
        source_path: opt_text(model.source_path),
        exists_mac_hd: mac is Some,
        exists_stash: in_stash,
        mac_display_order: match mac {
            Some(row) => row.display_order,
            None => None,
        },
        lora_strength: match mac {
            Some(row) => row.lora_strength,
            None => None,
        },
        created_at: opt_text(model.created_at),
        updated_at: opt_text(model.updated_at),
    }
}

/// The catalog entries that the legacy tables become, one per legacy model,
/// in the order of the flat table.
pub open spec fn migrated_rows(legacy: LegacyTables) -> Seq<CkptModelView> {
    Seq::new(
        legacy.models@.len(),
        |i: int|
            migrated_row(
                legacy.models@[i],
                first_mac(legacy.models@[i].id, legacy.mac_models@),
                stash_count(legacy.models@[i].id, legacy.stash_models@) > 0,
            ),
    )
}

/// Whether the legacy model at a position cannot be merged: it joins with
/// more than one row of a location table, or its file name is that of a
/// catalog entry or of an earlier legacy model. Two rows would then claim one
/// file name.
pub open spec fn blocks(catalog: CatalogView, legacy: LegacyTables, at: int) -> bool {
    let model = legacy.models@[at];
    ||| mac_count(model.id, legacy.mac_models@) > 1
    ||| stash_count(model.id, legacy.stash_models@) > 1
    ||| catalog.has_model(model.filename@)
    ||| exists|k: int| 0 <= k < at && (#[trigger] legacy.models@[k]).filename@ == model.filename@
}

/// Whether the legacy tables can be merged into the catalog: no legacy model
/// blocks. Otherwise the merge is refused as a whole.
pub open spec fn can_migrate(catalog: CatalogView, legacy: LegacyTables) -> bool {
    forall|i: int| 0 <= i < legacy.models@.len() ==> !#[trigger] blocks(catalog, legacy, i)
}

/// The position of the first legacy model that blocks.
pub open spec fn is_first_blocked(catalog: CatalogView, legacy: LegacyTables, at: int) -> bool {
    &&& 0 <= at < legacy.models@.len()
    &&& blocks(catalog, legacy, at)
    &&& forall|k: int| 0 <= k < at ==> !#[trigger] blocks(catalog, legacy, k)
}

/// Legacy tables that can be merged give entries that can be added.
pub proof fn lemma_can_migrate_appends(catalog: CatalogView, legacy: LegacyTables)
    requires
        can_migrate(catalog, legacy),
    ensures
        can_append(catalog, migrated_rows(legacy)),
        migrated_rows(legacy).len() == legacy.models@.len(),
{
    let rows = migrated_rows(legacy);
    assert forall|i: int, j: int| 0 <= i < j < rows.len() implies (#[trigger] rows[i]).filename != (
    #[trigger] rows[j]).filename by {
        assert(!blocks(catalog, legacy, j));
        assert(legacy.models@[i].filename@ == rows[i].filename);
    }
    assert forall|i: int| 0 <= i < rows.len() implies !catalog.has_model(
        (#[trigger] rows[i]).filename,
    ) by {
        assert(!blocks(catalog, legacy, i));
    }
}

/// Finds the first row of the host table that belongs to a model and tells
/// whether there are several.
fn find_mac(id: Option<i64>, rows: &Vec<MacModel>) -> (found: (Option<usize>, bool))
    ensures
        match found.0 {
            Some(at) => at < rows.len() && first_mac(id, rows@) == Some(rows@[at as int]),
            None => first_mac(id, rows@) is None,
        },
        found.1 == (mac_count(id, rows@) > 1),
{
    let mut first: Option<usize> = None;
    let mut several: bool = false;
    let mut at: usize = rows.len();
    assert(rows@.skip(at as int).len() == 0);
    while at > 0
        invariant
            at <= rows.len(),
            match first {
                Some(f) => at <= f < rows.len() && first_mac(id, rows@.skip(at as int)) == Some(
                    rows@[f as int],
                ),
                None => first_mac(id, rows@.skip(at as int)) is None,
            },
            first is None <==> mac_count(id, rows@.skip(at as int)) == 0,
            several == (mac_count(id, rows@.skip(at as int)) > 1),
        decreases at,
    {
        at -= 1;
        proof {
            assert(rows@.skip(at as int).first() == rows@[at as int]);
            assert(rows@.skip(at as int).drop_first() =~= rows@.skip(at + 1));
        }
        let belongs: bool = match id {
            Some(id) => rows[at].model_id == id,
            None => false,
        };
        if belongs {
            if first.is_some() {
                several = true;
            }
            first = Some(at);
        }
    }
    assert(rows@.skip(0) =~= rows@);
    (first, several)
}

/// Counts the rows of the stash table that belong to a model, up to two.
fn count_stash(id: Option<i64>, rows: &Vec<StashModel>) -> (count: usize)
    ensures
        count <= 2,
        count == 0 <==> stash_count(id, rows@) == 0,
        count == 1 <==> stash_count(id, rows@) == 1,
{
    let mut count: usize = 0;
    let mut at: usize = rows.len();
    assert(rows@.skip(at as int).len() == 0);
    while at > 0
        invariant
            at <= rows.len(),
            count <= 2,
            count == 0 <==> stash_count(id, rows@.skip(at as int)) == 0,
            count == 1 <==> stash_count(id, rows@.skip(at as int)) == 1,
        decreases at,
    {
        at -= 1;
        proof {
            assert(rows@.skip(at as int).first() == rows@[at as int]);
            assert(rows@.skip(at as int).drop_first() =~= rows@.skip(at + 1));
        }
        let belongs: bool = match id {
            Some(id) => rows[at].model_id == id,
            None => false,
        };
        if belongs && count < 2 {
            count += 1;
        }
    }
    assert(rows@.skip(0) =~= rows@);
    count
}

/// Builds the catalog entry of a legacy model.
fn migrate_row(model: &Model, mac: Option<&MacModel>, in_stash: bool) -> (row: CkptModel)
    ensures
        row@ == migrated_row(
            *model,
            match mac {
                Some(m) => Some(*m),
                None => None,
            },
            in_stash,
        ),
{
    let display_name: Option<String> = match mac {
        Some(m) => if m.custom_name.is_some() {
            copy_opt_text(&m.custom_name)
        } else {
            copy_opt_text(&model.display_name)
        },
        None => copy_opt_text(&model.display_name),
    };
    CkptModel {
        filename: model.filename.clone(),
        display_name,
        model_type: model.model_type.clone(),
        file_size: model.file_size,
        checksum: copy_opt_text(&model.checksum),
        source_path: copy_opt_text(&model.source_path),
        exists_mac_hd: mac.is_some(),
        exists_stash: in_stash,
        mac_display_order: match mac {
            Some(m) => m.display_order,
            None => None,
        },
        lora_strength: match mac {
            Some(m) => m.lora_strength,
            None => None,
        },
        created_at: copy_opt_text(&model.created_at),
        updated_at: copy_opt_text(&model.updated_at),
    }
}

/// Builds the entries that the legacy tables become, or names the file of
/// the first legacy model that blocks the merge.
pub fn build_migrated_rows(catalog: &Catalog, legacy: &LegacyTables) -> (built: Result<
    Vec<CkptModel>,
    String,
>)
    ensures
        built is Ok == can_migrate(catalog@, *legacy),
        built matches Ok(rows) ==> model_views(rows@) == migrated_rows(*legacy),
        built matches Err(name) ==> exists|at: int|
            is_first_blocked(catalog@, *legacy, at) && name@ == (
            #[trigger] legacy.models@[at]).filename@,
{
    let mut rows: Vec<CkptModel> = Vec::new();
    let mut at: usize = 0;
    assert(model_views(rows@) =~= migrated_rows(*legacy).take(0));
    while at < legacy.models.len()
        invariant
            at <= legacy.models.len(),
            model_views(rows@) == migrated_rows(*legacy).take(at as int),
            forall|k: int| 0 <= k < at ==> !#[trigger] blocks(catalog@, *legacy, k),
        decreases legacy.models.len() - at,
    {
        let model: &Model = &legacy.models[at];
        let mac = find_mac(model.id, &legacy.mac_models);
        let stashed: usize = count_stash(model.id, &legacy.stash_models);
        let mut taken: bool = catalog.contains_model(model.filename.as_str());
        let mut k: usize = 0;
        while k < at && !taken
            invariant
                k <= at,
                at < legacy.models.len(),
                !taken ==> !catalog@.has_model(legacy.models@[at as int].filename@),
                !taken ==> forall|j: int|
                    0 <= j < k ==> (#[trigger] legacy.models@[j]).filename@
                        != legacy.models@[at as int].filename@,
                taken ==> blocks(catalog@, *legacy, at as int),
            decreases at - k + (if taken { 0int } else { 1int }),
        {
            if legacy.models[k].filename == legacy.models[at].filename {
                taken = true;
            } else {
                k += 1;
            }
        }
        if mac.1 || stashed > 1 || taken {
            assert(blocks(catalog@, *legacy, at as int));
            assert(is_first_blocked(catalog@, *legacy, at as int));
            return Err(model.filename.clone());
        }
        assert(!blocks(catalog@, *legacy, at as int));
        let row: CkptModel = match mac.0 {
            Some(m) => migrate_row(model, Some(&legacy.mac_models[m]), stashed > 0),
            None => migrate_row(model, None, stashed > 0),
        };
        let ghost before = model_views(rows@);
        rows.push(row);
        assert(model_views(rows@) =~= before.push(migrated_rows(*legacy)[at as int]));
        assert(migrated_rows(*legacy).take(at + 1) =~= migrated_rows(*legacy).take(at as int).push(
            migrated_rows(*legacy)[at as int],
        ));
        at += 1;
    }
    assert(migrated_rows(*legacy).take(at as int) =~= migrated_rows(*legacy));
    Ok(rows)
}

/// The entries that a merge adds: those of the legacy tables, or none when
/// there are no legacy tables.
pub open spec fn rows_to_merge(legacy: Option<LegacyTables>) -> Seq<CkptModelView> {
    match legacy {
        Some(tables) => migrated_rows(tables),
        None => Seq::empty(),
    }
}

/// Whether the merge of the legacy tables, if there are any, is possible.
pub open spec fn merge_allowed(catalog: CatalogView, legacy: Option<LegacyTables>) -> bool {
    match legacy {
        Some(tables) => can_migrate(catalog, tables),
        None => true,
    }
}

/// The catalog after the steps before the merge, for a database that was at
/// `version`: each step that the version does not cover records its number.
pub open spec fn before_merge(catalog: CatalogView, version: nat) -> CatalogView {
    let first = if version < 1 {
        catalog.with_config(version_key(), "1"@)
    } else {
        catalog
    };
    if version < 2 {
        first.with_config(version_key(), "2"@)
    } else {
        first
    }
}

/// The catalog after the merge: the legacy rows are added as entries and the
/// latest version is recorded.
pub open spec fn after_merge(catalog: CatalogView, legacy: Option<LegacyTables>) -> CatalogView {
    (CatalogView { models: catalog.models + rows_to_merge(legacy), ..catalog }).with_config(
        version_key(),
        "3"@,
    )
}

/// The texts "1", "2" and "3" stand for the versions 1, 2 and 3.
pub proof fn lemma_version_texts()
    ensures
        version_of("1"@) == 1,
        version_of("2"@) == 2,
        version_of("3"@) == 3,
{
    reveal_strlit("1");
    reveal_strlit("2");
    reveal_strlit("3");
    reveal_with_fuel(decimal_value, 3);
    assert("1"@.drop_last() =~= Seq::<char>::empty());
    assert("2"@.drop_last() =~= Seq::<char>::empty());
    assert("3"@.drop_last() =~= Seq::<char>::empty());
}

/// The schema version that the database records.
pub fn schema_version(catalog: &Catalog) -> (version: u32)
    requires
        catalog.wf(),
    ensures
        version == (if stored_version(catalog@) > u32::MAX {
            u32::MAX as nat
        } else {
            stored_version(catalog@)
        }),
{
    match catalog.get_config("schema_version") {
        Some(text) => parse_version(text.as_str()),
        None => 0,
    }
}

/// The first step: creates the foundational tables where they do not exist
/// and records version 1.
pub fn create_initial_schema(db: &mut Database)
    requires
        old(db).catalog.wf(),
    ensures
        final(db).catalog.wf(),
        final(db).catalog@ == old(db).catalog@.with_config(version_key(), "1"@),
        old(db).legacy is Some ==> final(db).legacy == old(db).legacy,
        old(db).legacy is None ==> final(db).legacy is Some && rows_to_merge(final(db).legacy)
            == Seq::<CkptModelView>::empty() && merge_allowed(
            final(db).catalog@,
            final(db).legacy,
        ),
{
    if db.legacy.is_none() {
        db.legacy = Some(
            LegacyTables { models: Vec::new(), mac_models: Vec::new(), stash_models: Vec::new() },
        );
        assert(rows_to_merge(db.legacy) =~= Seq::<CkptModelView>::empty());
    }
    db.catalog.set_config("schema_version", "1");
}

/// The second step: a compatibility marker that changes no table and records
/// version 2.
pub fn migrate_to_v2(db: &mut Database)
    requires
        old(db).catalog.wf(),
    ensures
        final(db).catalog.wf(),
        final(db).catalog@ == old(db).catalog@.with_config(version_key(), "2"@),
        final(db).legacy == old(db).legacy,
{
    db.catalog.set_config("schema_version", "2");
}

/// The third step: merges the legacy tables, if there are any, into the
/// catalog, drops them and records version 3. The step is all or nothing:
/// when a legacy model blocks the merge, the step fails with a conflict that
/// names the model's file, nothing is changed and the version is not
/// advanced, so that the legacy tables are intact for another attempt.
pub fn migrate_to_v3(db: &mut Database) -> (outcome: Result<(), EngineError>)
    requires
        old(db).catalog.wf(),
    ensures
        final(db).catalog.wf(),
        outcome is Ok == merge_allowed(old(db).catalog@, old(db).legacy),
        outcome is Ok ==> final(db).catalog@ == after_merge(old(db).catalog@, old(db).legacy)
            && final(db).legacy is None,
        outcome matches Err(error) ==> final(db).catalog@ == old(db).catalog@ && final(db).legacy
            == old(db).legacy && exists|at: int|
            is_first_blocked(old(db).catalog@, old(db).legacy->0, at) && error@
                == ErrorView::Conflict((#[trigger] old(db).legacy->0.models@[at]).filename@),
{
    let built: Option<Result<Vec<CkptModel>, String>> = match &db.legacy {
        Some(tables) => Some(build_migrated_rows(&db.catalog, tables)),
        None => None,
    };
    match built {
        Some(Ok(rows)) => {
            proof {
                lemma_can_migrate_appends(db.catalog@, db.legacy->0);
            }
            db.catalog.append_models(rows);
            db.legacy = None;
        },
        Some(Err(name)) => {
            return Err(EngineError::Conflict(name));
        },
        None => {
            assert(db.catalog@.models + rows_to_merge(db.legacy) =~= db.catalog@.models);
        },
    }
    db.catalog.set_config("schema_version", "3");
    Ok(())
}

/// Brings the database to the latest schema version. Each step runs only if
/// the recorded version does not cover it; a database without a recorded
/// version is at version 0. A database that is up to date is left as it is.
///
/// On success the latest version is recorded, no legacy tables remain, and
/// the catalog holds its earlier entries followed by one entry per legacy
/// model. When the merge is refused the database stays as the earlier steps
/// left it, with its legacy tables, and the version is not advanced to 3.
pub fn migrate_database(db: &mut Database) -> (outcome: Result<(), EngineError>)
    requires
        old(db).catalog.wf(),
    ensures
        final(db).catalog.wf(),
        stored_version(old(db).catalog@) >= 3 ==> outcome is Ok && final(db).catalog@
            == old(db).catalog@ && final(db).legacy == old(db).legacy,
        stored_version(old(db).catalog@) < 3 ==> (outcome is Ok == merge_allowed(
            old(db).catalog@,
            old(db).legacy,
        )),
        stored_version(old(db).catalog@) < 3 && outcome is Ok ==> final(db).catalog@ == after_merge(
            before_merge(old(db).catalog@, stored_version(old(db).catalog@)),
            old(db).legacy,
        ) && final(db).legacy is None && stored_version(final(db).catalog@) == 3
            && final(db).catalog@.models.len() == old(db).catalog@.models.len() + rows_to_merge(
            old(db).legacy,
        ).len(),
        outcome matches Err(error) ==> final(db).catalog@ == before_merge(
            old(db).catalog@,
            stored_version(old(db).catalog@),
        ) && final(db).legacy == old(db).legacy && stored_version(final(db).catalog@) < 3
            && exists|at: int|
            is_first_blocked(old(db).catalog@, old(db).legacy->0, at) && error@
                == ErrorView::Conflict((#[trigger] old(db).legacy->0.models@[at]).filename@),
{
    let version: u32 = schema_version(&db.catalog);
    let ghost start = db.catalog@;
    let ghost recorded = stored_version(start);
    proof {
        lemma_version_texts();
        lemma_with_config(start, version_key(), "1"@);
        lemma_with_config(start, version_key(), "2"@);
        if recorded < 1 {
            lemma_with_config(start.with_config(version_key(), "1"@), version_key(), "2"@);
        }
    }
    if version < 1 {
        create_initial_schema(db);
    }
    if version < 2 {
        migrate_to_v2(db);
    }
    if version < 3 {
        let ghost ready = db.catalog@;
        let ghost tables = db.legacy;
        proof {
            assert(ready == before_merge(start, recorded));
            assert(ready.models == start.models);
            assert(rows_to_merge(tables) == rows_to_merge(old(db).legacy));
            lemma_same_models_same_blocks(start, ready, tables);
        }
        let outcome = migrate_to_v3(db);
        proof {
            if outcome is Ok {
                if tables is Some {
                    lemma_can_migrate_appends(ready, tables->0);
                    lemma_append_models(ready, rows_to_merge(tables));
                } else {
                    assert(ready.models + rows_to_merge(tables) =~= ready.models);
                }
                lemma_with_config(
                    CatalogView { models: ready.models + rows_to_merge(tables), ..ready },
                    version_key(),
                    "3"@,
                );
            } else {
                if recorded >= 2 {
                    assert(ready == start);
                }
            }
        }
        return outcome;
    }
    Ok(())
}

/// Whether a legacy model blocks depends on the catalog's entries alone.
pub proof fn lemma_same_models_same_blocks(
    a: CatalogView,
    b: CatalogView,
    legacy: Option<LegacyTables>,
)
    requires
        a.models == b.models,
    ensures
        merge_allowed(a, legacy) == merge_allowed(b, legacy),
        legacy is Some ==> forall|at: int|
            is_first_blocked(a, legacy->0, at) == is_first_blocked(b, legacy->0, at),
{
    if legacy is Some {
        let tables = legacy->0;
        assert forall|name: Seq<char>| a.has_model(name) == b.has_model(name) by {
            if a.has_model(name) {
                assert(b.models[a.index_of(name)].filename == name);
            }
            if b.has_model(name) {
                assert(a.models[b.index_of(name)].filename == name);
            }
        }
        assert forall|i: int| blocks(a, tables, i) == blocks(b, tables, i) by {}
    }
}

/// Migration loses no row: a database at version 2 whose catalog is empty and
/// whose legacy tables hold `N` models that can be merged has, after the
/// merge, exactly `N` catalog entries and records the latest version.
pub proof fn lemma_migration_keeps_every_row(catalog: CatalogView, legacy: LegacyTables)
    requires
        catalog.wf(),
        stored_version(catalog) == 2,
        catalog.models.len() == 0,
        can_migrate(catalog, legacy),
    ensures
        after_merge(before_merge(catalog, 2), Some(legacy)).models.len() == legacy.models@.len(),
        after_merge(before_merge(catalog, 2), Some(legacy)).models == migrated_rows(legacy),
        stored_version(after_merge(before_merge(catalog, 2), Some(legacy))) == LATEST_VERSION,
        after_merge(before_merge(catalog, 2), Some(legacy)).wf(),
{
    lemma_version_texts();
    lemma_can_migrate_appends(catalog, legacy);
    lemma_append_models(catalog, migrated_rows(legacy));
    let merged = CatalogView { models: catalog.models + migrated_rows(legacy), ..catalog };
    assert(merged.models =~= migrated_rows(legacy));
    lemma_with_config(merged, version_key(), "3"@);
}

} // verus!
