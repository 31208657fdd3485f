//! The rows that the catalog store holds, in its current shape and in the
//! legacy shape that a migration reads.

use vstd::prelude::*;

verus! {

/// The text of an optional string.
pub open spec fn opt_text(value: Option<String>) -> Option<Seq<char>> {
    match value {
        Some(text) => Some(text@),
        None => None,
    }
}

/// A copy of an optional string.
pub fn copy_opt_text(value: &Option<String>) -> (copy: Option<String>)
    ensures
        copy == *value,
{
    match value {
        Some(text) => Some(text.clone()),
        None => None,
    }
}

/// A row of the legacy flat model table.
#[derive(Debug, Clone)]
pub struct Model {
    pub id: Option<i64>,
    pub filename: String,
    pub display_name: Option<String>,
    pub model_type: String,
    pub file_size: Option<i64>,
    pub checksum: Option<String>,
    pub source_path: Option<String>,
    pub created_at: Option<String>,
    pub updated_at: Option<String>,
}

/// A row of the legacy table of models shown on the host. The display order
/// may be absent; the strength is held in tenths.
#[derive(Debug, Clone)]
pub struct MacModel {
    pub id: Option<i64>,
    pub model_id: i64,
    pub display_order: Option<i32>,
    pub is_visible: bool,
    pub custom_name: Option<String>,
    pub lora_strength: Option<i32>,
}

/// A row of the legacy table of models kept in the stash.
#[derive(Debug, Clone)]
pub struct StashModel {
    pub id: Option<i64>,
    pub model_id: i64,
    pub stash_path: String,
    pub last_synced: Option<String>,
}

/// A persistent setting.
#[derive(Debug, Clone)]
pub struct Config {
    pub key: String,
    pub value: String,
    pub updated_at: Option<String>,
}

/// A catalog entry, keyed by its file name.
#[derive(Debug, Clone)]
pub struct CkptModel {
    pub filename: String,
    pub display_name: Option<String>,
    pub model_type: String,
    pub file_size: Option<i64>,
    pub checksum: Option<String>,
    pub source_path: Option<String>,
    pub exists_mac_hd: bool,
    pub exists_stash: bool,
    pub mac_display_order: Option<i32>,
    pub lora_strength: Option<i32>,
    pub created_at: Option<String>,
    pub updated_at: Option<String>,
}

/// A dependency edge from a main model to one of its encoders.
#[derive(Debug, Clone)]
pub struct CkptRelationship {
    pub id: Option<i64>,
    pub parent_ckpt_filename: String,
    pub child_ckpt_filename: String,
    pub created_at: Option<String>,
}

/// A catalog entry as a listing returns it.
#[derive(Debug, Clone)]
pub struct ModelResponse {
    pub model: CkptModel,
    pub is_on_mac: bool,
}

/// What a catalog entry holds, as mathematical values.
pub struct CkptModelView {
    pub filename: Seq<char>,
    pub display_name: Option<Seq<char>>,
    pub model_type: Seq<char>,
    pub file_size: Option<i64>,
    pub checksum: Option<Seq<char>>,
    pub source_path: Option<Seq<char>>,
    pub exists_mac_hd: bool,
    pub exists_stash: bool,
    pub mac_display_order: Option<i32>,
    pub lora_strength: Option<i32>,
    pub created_at: Option<Seq<char>>,
    pub updated_at: Option<Seq<char>>,
}

/// What a dependency edge holds, as mathematical values.
pub struct RelationshipView {
    pub id: Option<i64>,
    pub parent: Seq<char>,
    pub child: Seq<char>,
    pub created_at: Option<Seq<char>>,
}

/// What a setting holds, as mathematical values.
pub struct ConfigView {
    pub key: Seq<char>,
    pub value: Seq<char>,
    pub updated_at: Option<Seq<char>>,
}

impl View for CkptModel {
    type V = CkptModelView;

    open spec fn view(&self) -> CkptModelView {
        CkptModelView {
            filename: self.filename@,
            display_name: opt_text(self.display_name),
            model_type: self.model_type@,
            file_size: self.file_size,
            checksum: opt_text(self.checksum),
            source_path: opt_text(self.source_path),
            exists_mac_hd: self.exists_mac_hd,
            exists_stash: self.exists_stash,
            mac_display_order: self.mac_display_order,
            lora_strength: self.lora_strength,
            created_at: opt_text(self.created_at),
            updated_at: opt_text(self.updated_at),
        }
    }
}

impl View for CkptRelationship {
    type V = RelationshipView;

    open spec fn view(&self) -> RelationshipView {
        RelationshipView {
            id: self.id,
            parent: self.parent_ckpt_filename@,
            child: self.child_ckpt_filename@,
            created_at: opt_text(self.created_at),
        }
    }
}

impl View for Config {
    type V = ConfigView;

    open spec fn view(&self) -> ConfigView {
        ConfigView { key: self.key@, value: self.value@, updated_at: opt_text(self.updated_at) }
    }
}

impl CkptModel {
    /// A copy of the entry.
    pub fn duplicate(&self) -> (copy: CkptModel)
        ensures
            copy == *self,
    {
        CkptModel {
            filename: self.filename.clone(),
            display_name: copy_opt_text(&self.display_name),
            model_type: self.model_type.clone(),
            file_size: self.file_size,
            checksum: copy_opt_text(&self.checksum),
            source_path: copy_opt_text(&self.source_path),
            exists_mac_hd: self.exists_mac_hd,
            exists_stash: self.exists_stash,
            mac_display_order: self.mac_display_order,
            lora_strength: self.lora_strength,
            created_at: copy_opt_text(&self.created_at),
            updated_at: copy_opt_text(&self.updated_at),
        }
    }
}

impl CkptRelationship {
    /// A copy of the edge.
    pub fn duplicate(&self) -> (copy: CkptRelationship)
        ensures
            copy == *self,
    {
        CkptRelationship {
            id: self.id,
            parent_ckpt_filename: self.parent_ckpt_filename.clone(),
            child_ckpt_filename: self.child_ckpt_filename.clone(),
            created_at: copy_opt_text(&self.created_at),
        }
    }
}

/// The views of a list of catalog entries.
pub open spec fn model_views(rows: Seq<CkptModel>) -> Seq<CkptModelView> {
    rows.map_values(|row: CkptModel| row@)
}

/// The views of a list of edges.
pub open spec fn relationship_views(rows: Seq<CkptRelationship>) -> Seq<RelationshipView> {
    rows.map_values(|row: CkptRelationship| row@)
}

/// The views of a list of settings.
pub open spec fn config_views(rows: Seq<Config>) -> Seq<ConfigView> {
    rows.map_values(|row: Config| row@)
}

} // verus!
