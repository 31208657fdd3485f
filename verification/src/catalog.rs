//! The catalog store: entries keyed by file name, dependency edges between
//! them, and a flat table of settings.
//!
//! The store is held in memory. Its content is described by a
//! [`CatalogView`], and every operation says how it changes that view.

use vstd::prelude::*;
use crate::models::{
    config_views, copy_opt_text, model_views, opt_text, relationship_views, CkptModel,
    CkptModelView, CkptRelationship, Config, ConfigView, ModelResponse, RelationshipView,
};
use crate::order::{
    is_listed, key_lt, key_views, lemma_order_of_distinct_keys, listed, sorted_order, SortKey,
};
use crate::text::chars_of;

verus! {

/// The content of a catalog as mathematical values.
pub struct CatalogView {
    pub models: Seq<CkptModelView>,
    pub relationships: Seq<RelationshipView>,
    pub config: Seq<ConfigView>,
}

/// Whether an edge has the given file name at one of its ends.
pub open spec fn touches(edge: RelationshipView, filename: Seq<char>) -> bool {
    edge.parent == filename || edge.child == filename
}

/// The edges of a list that do not touch a file name, in their order.
pub open spec fn edges_without(edges: Seq<RelationshipView>, filename: Seq<char>) -> Seq<
    RelationshipView,
>
    decreases edges.len(),
{
    if edges.len() == 0 {
        edges
    } else if touches(edges.last(), filename) {
        edges_without(edges.drop_last(), filename)
    } else {
        edges_without(edges.drop_last(), filename).push(edges.last())
    }
}

/// The edges of a list other than the one from `parent` to `child`.
pub open spec fn edges_except(
    edges: Seq<RelationshipView>,
    parent: Seq<char>,
    child: Seq<char>,
) -> Seq<RelationshipView>
    decreases edges.len(),
{
    if edges.len() == 0 {
        edges
    } else if edges.last().parent == parent && edges.last().child == child {
        edges_except(edges.drop_last(), parent, child)
    } else {
        edges_except(edges.drop_last(), parent, child).push(edges.last())
    }
}

/// The edges of a list that start at `parent`, in their order.
pub open spec fn edges_from(edges: Seq<RelationshipView>, parent: Seq<char>) -> Seq<
    RelationshipView,
>
    decreases edges.len(),
{
    if edges.len() == 0 {
        edges
    } else if edges.last().parent == parent {
        edges_from(edges.drop_last(), parent).push(edges.last())
    } else {
        edges_from(edges.drop_last(), parent)
    }
}

/// What an entry holds apart from the time of its last change.
pub open spec fn content_of(row: CkptModelView) -> CkptModelView {
    CkptModelView { updated_at: None, ..row }
}

/// The entry that a write of `new` leaves in place of `old`. A write that
/// changes anything clears the time of the last change, for the store to
/// assign it anew when it next writes the entry; a write that changes nothing
/// leaves the entry, with its time, as it was.
pub open spec fn written(old: CkptModelView, new: CkptModelView) -> CkptModelView {
    if content_of(new) == content_of(old) {
        old
    } else {
        content_of(new)
    }
}

impl CatalogView {
    /// The catalog without content.
    pub open spec fn empty() -> CatalogView {
        CatalogView { models: Seq::empty(), relationships: Seq::empty(), config: Seq::empty() }
    }

    /// Whether an entry with the file name exists.
    pub open spec fn has_model(self, filename: Seq<char>) -> bool {
        exists|i: int| 0 <= i < self.models.len() && (#[trigger] self.models[i]).filename == filename
    }

    /// The position of the entry with the file name, where one exists.
    pub open spec fn index_of(self, filename: Seq<char>) -> int {
        choose|i: int| 0 <= i < self.models.len() && (#[trigger] self.models[i]).filename == filename
    }

    /// The entry with the file name, where one exists.
    pub open spec fn model(self, filename: Seq<char>) -> CkptModelView {
        self.models[self.index_of(filename)]
    }

    /// Whether the edge from `parent` to `child` is stored.
    pub open spec fn has_edge(self, parent: Seq<char>, child: Seq<char>) -> bool {
        exists|i: int|
            0 <= i < self.relationships.len() && (#[trigger] self.relationships[i]).parent == parent
                && self.relationships[i].child == child
    }

    /// Whether a setting with the key exists.
    pub open spec fn has_config(self, key: Seq<char>) -> bool {
        exists|i: int| 0 <= i < self.config.len() && (#[trigger] self.config[i]).key == key
    }

    /// The position of the setting with the key, where one exists.
    pub open spec fn config_index(self, key: Seq<char>) -> int {
        choose|i: int| 0 <= i < self.config.len() && (#[trigger] self.config[i]).key == key
    }

    /// The value stored under a key, if any.
    pub open spec fn config_value(self, key: Seq<char>) -> Option<Seq<char>> {
        if self.has_config(key) {
            Some(self.config[self.config_index(key)].value)
        } else {
            None
        }
    }

    /// The invariant of the store: file names identify entries, an edge is
    /// stored once and both its ends are entries, a key has one setting.
    pub open spec fn wf(self) -> bool {
        &&& forall|i: int, j: int|
            0 <= i < j < self.models.len() ==> (#[trigger] self.models[i]).filename
                != (#[trigger] self.models[j]).filename
        &&& forall|i: int, j: int|
            0 <= i < j < self.relationships.len() ==> !((#[trigger] self.relationships[i]).parent
                == (#[trigger] self.relationships[j]).parent && self.relationships[i].child
                == self.relationships[j].child)
        &&& forall|i: int|
            0 <= i < self.relationships.len() ==> self.has_model(
                (#[trigger] self.relationships[i]).parent,
            ) && self.has_model(self.relationships[i].child)
        &&& forall|i: int, j: int|
            0 <= i < j < self.config.len() ==> (#[trigger] self.config[i]).key
                != (#[trigger] self.config[j]).key
    }

    /// The catalog after an entry was written: a new entry is appended as it
    /// is given; an existing one takes every column of `row` but keeps its
    /// creation time, and its time of last change is cleared if anything
    /// changed (see [`written`]).
    pub open spec fn with_model(self, row: CkptModelView) -> CatalogView {
        if self.has_model(row.filename) {
            let at = self.index_of(row.filename);
            CatalogView {
                models: self.models.update(
                    at,
                    written(
                        self.models[at],
                        CkptModelView { created_at: self.models[at].created_at, ..row },
                    ),
                ),
                ..self
            }
        } else {
            CatalogView { models: self.models.push(row), ..self }
        }
    }

    /// The catalog after the entry with the file name, if there is one, was
    /// written as `row`, which has the same file name: the entry holds what
    /// `row` holds, and its time of last change is cleared if anything
    /// changed (see [`written`]).
    pub open spec fn with_changed(self, filename: Seq<char>, row: CkptModelView) -> CatalogView {
        if self.has_model(filename) {
            let at = self.index_of(filename);
            CatalogView { models: self.models.update(at, written(self.models[at], row)), ..self }
        } else {
            self
        }
    }

    /// The catalog after the host flag and the display order of an entry were
    /// set. Without such an entry nothing changes.
    pub open spec fn with_host_status(
        self,
        filename: Seq<char>,
        on_host: bool,
        order: Option<i32>,
    ) -> CatalogView {
        self.with_changed(
            filename,
            CkptModelView {
                exists_mac_hd: on_host,
                mac_display_order: order,
                ..self.model(filename)
            },
        )
    }

    /// The catalog after the display order of an entry was set.
    pub open spec fn with_order(self, filename: Seq<char>, order: i32) -> CatalogView {
        self.with_changed(
            filename,
            CkptModelView { mac_display_order: Some(order), ..self.model(filename) },
        )
    }

    /// The catalog after a batch of display orders was applied in sequence.
    pub open spec fn with_orders(self, orders: Seq<(Seq<char>, i32)>) -> CatalogView
        decreases orders.len(),
    {
        if orders.len() == 0 {
            self
        } else {
            self.with_orders(orders.drop_last()).with_order(orders.last().0, orders.last().1)
        }
    }

    /// The catalog after the display name of an entry was set.
    pub open spec fn with_display_name(self, filename: Seq<char>, name: Seq<char>) -> CatalogView {
        self.with_changed(
            filename,
            CkptModelView { display_name: Some(name), ..self.model(filename) },
        )
    }

    /// The catalog after the strength of an entry was set.
    pub open spec fn with_strength(self, filename: Seq<char>, strength: i32) -> CatalogView {
        self.with_changed(
            filename,
            CkptModelView { lora_strength: Some(strength), ..self.model(filename) },
        )
    }

    /// The catalog after an entry was deleted, together with every edge that
    /// touched it.
    pub open spec fn without_model(self, filename: Seq<char>) -> CatalogView {
        if self.has_model(filename) {
            CatalogView {
                models: self.models.remove(self.index_of(filename)),
                relationships: edges_without(self.relationships, filename),
                config: self.config,
            }
        } else {
            self
        }
    }

    /// The catalog after a setting was written: latest write wins. The time of
    /// the setting's last change is left for the store to assign.
    pub open spec fn with_config(self, key: Seq<char>, value: Seq<char>) -> CatalogView {
        let row = ConfigView { key, value, updated_at: None };
        if self.has_config(key) {
            CatalogView { config: self.config.update(self.config_index(key), row), ..self }
        } else {
            CatalogView { config: self.config.push(row), ..self }
        }
    }

    /// The catalog after an edge was stored as the given row, if no edge
    /// between the same two files was stored before.
    pub open spec fn with_edge_row(self, row: RelationshipView) -> CatalogView {
        if self.has_edge(row.parent, row.child) {
            self
        } else {
            CatalogView { relationships: self.relationships.push(row), ..self }
        }
    }

    /// The catalog after the edge from `parent` to `child` was stored, if it
    /// was not stored before.
    pub open spec fn with_edge(self, parent: Seq<char>, child: Seq<char>) -> CatalogView {
        self.with_edge_row(RelationshipView { id: None, parent, child, created_at: None })
    }

    /// The catalog after the edge from `parent` to `child` was removed.
    pub open spec fn without_edge(self, parent: Seq<char>, child: Seq<char>) -> CatalogView {
        CatalogView { relationships: edges_except(self.relationships, parent, child), ..self }
    }
}

/// Why a catalog operation was refused.
#[derive(Debug, Clone, Copy, PartialEq, Eq, Structural)]
pub enum CatalogError {
    /// An edge was to be stored whose parent or child is no catalog entry.
    MissingEndpoint,
}

/// Whether two optional texts are the same.
fn same_opt_text(a: &Option<String>, b: &Option<String>) -> (same: bool)
    ensures
        same == (opt_text(*a) == opt_text(*b)),
{
    match a {
        Some(x) => match b {
            Some(y) => *x == *y,
            None => false,
        },
        None => b.is_none(),
    }
}

/// Whether two optional numbers are the same.
fn same_opt_i64(a: Option<i64>, b: Option<i64>) -> (same: bool)
    ensures
        same == (a == b),
{
    match a {
        Some(x) => match b {
            Some(y) => x == y,
            None => false,
        },
        None => b.is_none(),
    }
}

/// Whether two optional numbers are the same.
fn same_opt_i32(a: Option<i32>, b: Option<i32>) -> (same: bool)
    ensures
        same == (a == b),
{
    match a {
        Some(x) => match b {
            Some(y) => x == y,
            None => false,
        },
        None => b.is_none(),
    }
}

/// Whether two entries hold the same apart from the time of their last
/// change.
fn same_content(a: &CkptModel, b: &CkptModel) -> (same: bool)
    ensures
        same == (content_of(a@) == content_of(b@)),
{
    a.filename == b.filename && same_opt_text(&a.display_name, &b.display_name) && a.model_type
        == b.model_type && same_opt_i64(a.file_size, b.file_size) && same_opt_text(
        &a.checksum,
        &b.checksum,
    ) && same_opt_text(&a.source_path, &b.source_path) && a.exists_mac_hd == b.exists_mac_hd
        && a.exists_stash == b.exists_stash && same_opt_i32(
        a.mac_display_order,
        b.mac_display_order,
    ) && same_opt_i32(a.lora_strength, b.lora_strength) && same_opt_text(
        &a.created_at,
        &b.created_at,
    )
}

/// The catalog store.
pub struct Catalog {
    models: Vec<CkptModel>,
    relationships: Vec<CkptRelationship>,
    config: Vec<Config>,
}

impl View for Catalog {
    type V = CatalogView;

    closed spec fn view(&self) -> CatalogView {
        CatalogView {
            models: model_views(self.models@),
            relationships: relationship_views(self.relationships@),
            config: config_views(self.config@),
        }
    }
}

/// Removing the edges that touch a name keeps only stored edges, none of
/// which touches the name.
pub proof fn lemma_edges_without(edges: Seq<RelationshipView>, filename: Seq<char>)
    ensures
        forall|k: int|
            0 <= k < edges_without(edges, filename).len() ==> !touches(
                #[trigger] edges_without(edges, filename)[k],
                filename,
            ) && edges.contains(edges_without(edges, filename)[k]),
        forall|i: int|
            0 <= i < edges.len() && !touches(#[trigger] edges[i], filename) ==> edges_without(
                edges,
                filename,
            ).contains(edges[i]),
        edges_without(edges, filename).len() <= edges.len(),
    decreases edges.len(),
{
    if edges.len() > 0 {
        let front = edges.drop_last();
        let kept = edges_without(front, filename);
        let all = edges_without(edges, filename);
        lemma_edges_without(front, filename);
        assert forall|k: int| 0 <= k < all.len() implies !touches(#[trigger] all[k], filename)
            && edges.contains(all[k]) by {
            if k < kept.len() {
                assert(all[k] == kept[k]);
                let i = choose|i: int| 0 <= i < front.len() && front[i] == kept[k];
                assert(edges[i] == all[k]);
            } else {
                assert(all[k] == edges.last());
                assert(edges[edges.len() - 1] == all[k]);
            }
        }
        assert forall|i: int| 0 <= i < edges.len() && !touches(
            #[trigger] edges[i],
            filename,
        ) implies all.contains(edges[i]) by {
            if i < front.len() {
                assert(front[i] == edges[i]);
                let k = choose|k: int| 0 <= k < kept.len() && kept[k] == front[i];
                assert(all[k] == edges[i]);
            } else {
                assert(all[all.len() - 1] == edges[i]);
            }
        }
    }
}

/// Removing the edges that touch a name keeps the others distinct.
pub proof fn lemma_edges_without_distinct(edges: Seq<RelationshipView>, filename: Seq<char>)
    requires
        forall|i: int, j: int|
            0 <= i < j < edges.len() ==> !((#[trigger] edges[i]).parent == (#[trigger] edges[j]).parent
                && edges[i].child == edges[j].child),
    ensures
        forall|i: int, j: int|
            0 <= i < j < edges_without(edges, filename).len() ==> !((#[trigger] edges_without(
                edges,
                filename,
            )[i]).parent == (#[trigger] edges_without(edges, filename)[j]).parent && edges_without(
                edges,
                filename,
            )[i].child == edges_without(edges, filename)[j].child),
    decreases edges.len(),
{
    if edges.len() > 0 {
        let front = edges.drop_last();
        let kept = edges_without(front, filename);
        let all = edges_without(edges, filename);
        assert forall|i: int, j: int| 0 <= i < j < front.len() implies !((#[trigger] front[i]).parent
            == (#[trigger] front[j]).parent && front[i].child == front[j].child) by {
            assert(front[i] == edges[i]);
            assert(front[j] == edges[j]);
        }
        lemma_edges_without_distinct(front, filename);
        lemma_edges_without(front, filename);
        assert forall|i: int, j: int| 0 <= i < j < all.len() implies !((#[trigger] all[i]).parent
            == (#[trigger] all[j]).parent && all[i].child == all[j].child) by {
            if j < kept.len() {
                assert(all[i] == kept[i]);
                assert(all[j] == kept[j]);
            } else {
                assert(all[i] == kept[i]);
                let k = choose|k: int| 0 <= k < front.len() && front[k] == kept[i];
                assert(edges[k] == kept[i]);
                assert(all[j] == edges[edges.len() - 1]);
            }
        }
    }
}

/// Removing one edge keeps only stored edges other than that one.
pub proof fn lemma_edges_except(edges: Seq<RelationshipView>, parent: Seq<char>, child: Seq<char>)
    ensures
        forall|k: int|
            0 <= k < edges_except(edges, parent, child).len() ==> !((#[trigger] edges_except(
                edges,
                parent,
                child,
            )[k]).parent == parent && edges_except(edges, parent, child)[k].child == child)
                && edges.contains(edges_except(edges, parent, child)[k]),
    decreases edges.len(),
{
    if edges.len() > 0 {
        let front = edges.drop_last();
        let kept = edges_except(front, parent, child);
        let all = edges_except(edges, parent, child);
        lemma_edges_except(front, parent, child);
        assert forall|k: int| 0 <= k < all.len() implies !((#[trigger] all[k]).parent == parent
            && all[k].child == child) && edges.contains(all[k]) by {
            if k < kept.len() {
                assert(all[k] == kept[k]);
                let i = choose|i: int| 0 <= i < front.len() && front[i] == kept[k];
                assert(edges[i] == all[k]);
            } else {
                assert(edges[edges.len() - 1] == all[k]);
            }
        }
    }
}

/// Removing one edge keeps the others distinct.
pub proof fn lemma_edges_except_distinct(
    edges: Seq<RelationshipView>,
    parent: Seq<char>,
    child: Seq<char>,
)
    requires
        forall|i: int, j: int|
            0 <= i < j < edges.len() ==> !((#[trigger] edges[i]).parent == (#[trigger] edges[j]).parent
                && edges[i].child == edges[j].child),
    ensures
        forall|i: int, j: int|
            0 <= i < j < edges_except(edges, parent, child).len() ==> !((#[trigger] edges_except(
                edges,
                parent,
                child,
            )[i]).parent == (#[trigger] edges_except(edges, parent, child)[j]).parent
                && edges_except(edges, parent, child)[i].child == edges_except(
                edges,
                parent,
                child,
            )[j].child),
    decreases edges.len(),
{
    if edges.len() > 0 {
        let front = edges.drop_last();
        let kept = edges_except(front, parent, child);
        let all = edges_except(edges, parent, child);
        assert forall|i: int, j: int| 0 <= i < j < front.len() implies !((#[trigger] front[i]).parent
            == (#[trigger] front[j]).parent && front[i].child == front[j].child) by {
            assert(front[i] == edges[i]);
            assert(front[j] == edges[j]);
        }
        lemma_edges_except_distinct(front, parent, child);
        lemma_edges_except(front, parent, child);
        assert forall|i: int, j: int| 0 <= i < j < all.len() implies !((#[trigger] all[i]).parent
            == (#[trigger] all[j]).parent && all[i].child == all[j].child) by {
            if j < kept.len() {
                assert(all[i] == kept[i]);
                assert(all[j] == kept[j]);
            } else {
                assert(all[i] == kept[i]);
                let k = choose|k: int| 0 <= k < front.len() && front[k] == kept[i];
                assert(edges[k] == kept[i]);
                assert(all[j] == edges[edges.len() - 1]);
            }
        }
    }
}

/// Referential integrity: in a well-formed catalog every stored edge joins two
/// catalog entries; an edge to or from an absent file is never stored.
pub proof fn lemma_edges_join_entries(catalog: CatalogView, parent: Seq<char>, child: Seq<char>)
    requires
        catalog.wf(),
        catalog.has_edge(parent, child),
    ensures
        catalog.has_model(parent),
        catalog.has_model(child),
{
    let at = choose|i: int|
        0 <= i < catalog.relationships.len() && (#[trigger] catalog.relationships[i]).parent
            == parent && catalog.relationships[i].child == child;
    assert(catalog.has_model(catalog.relationships[at].parent));
}

/// In a well-formed catalog the entry with a file name is at one position.
pub proof fn lemma_index_unique(catalog: CatalogView, filename: Seq<char>, at: int)
    requires
        catalog.wf(),
        0 <= at < catalog.models.len(),
        catalog.models[at].filename == filename,
    ensures
        catalog.has_model(filename),
        catalog.index_of(filename) == at,
        catalog.model(filename) == catalog.models[at],
{
    let chosen = catalog.index_of(filename);
    if chosen < at {
        assert(catalog.models[chosen].filename != catalog.models[at].filename);
    } else if at < chosen {
        assert(catalog.models[at].filename != catalog.models[chosen].filename);
    }
}

/// In a well-formed catalog the setting with a key is at one position.
pub proof fn lemma_config_index_unique(catalog: CatalogView, key: Seq<char>, at: int)
    requires
        catalog.wf(),
        0 <= at < catalog.config.len(),
        catalog.config[at].key == key,
    ensures
        catalog.has_config(key),
        catalog.config_index(key) == at,
{
    let chosen = catalog.config_index(key);
    if chosen < at {
        assert(catalog.config[chosen].key != catalog.config[at].key);
    } else if at < chosen {
        assert(catalog.config[at].key != catalog.config[chosen].key);
    }
}

/// Replacing an entry by one of the same file name keeps the catalog well
/// formed and keeps which file names have entries.
pub proof fn lemma_with_changed(catalog: CatalogView, filename: Seq<char>, row: CkptModelView)
    requires
        catalog.wf(),
        row.filename == filename,
    ensures
        catalog.with_changed(filename, row).wf(),
        forall|name: Seq<char>|
            catalog.with_changed(filename, row).has_model(name) == catalog.has_model(name),
        catalog.has_model(filename) ==> catalog.with_changed(filename, row).model(filename)
            == written(catalog.model(filename), row),
        forall|name: Seq<char>|
            name != filename && catalog.has_model(name) ==> catalog.with_changed(
                filename,
                row,
            ).model(name) == catalog.model(name),
{
    let after = catalog.with_changed(filename, row);
    if catalog.has_model(filename) {
        let at = catalog.index_of(filename);
        assert forall|name: Seq<char>| after.has_model(name) == catalog.has_model(name) by {
            if catalog.has_model(name) {
                let i = catalog.index_of(name);
                assert(after.models[i].filename == name);
            }
            if after.has_model(name) {
                let i = after.index_of(name);
                assert(catalog.models[i].filename == name);
            }
        }
        assert forall|i: int, j: int| 0 <= i < j < after.models.len() implies (
        #[trigger] after.models[i]).filename != (#[trigger] after.models[j]).filename by {
            assert(catalog.models[i].filename == after.models[i].filename);
            assert(catalog.models[j].filename == after.models[j].filename);
        }
        assert forall|i: int| 0 <= i < after.relationships.len() implies after.has_model(
            (#[trigger] after.relationships[i]).parent,
        ) && after.has_model(after.relationships[i].child) by {
            assert(catalog.has_model(catalog.relationships[i].parent));
        }
        assert(after.wf());
        lemma_index_unique(after, filename, at);
        assert forall|name: Seq<char>| name != filename && catalog.has_model(name) implies after.model(
            name,
        ) == catalog.model(name) by {
            let i = catalog.index_of(name);
            assert(after.models[i] == catalog.models[i]);
            lemma_index_unique(after, name, i);
        }
    }
}

/// Writing an entry keeps the catalog well formed.
pub proof fn lemma_with_model(catalog: CatalogView, row: CkptModelView)
    requires
        catalog.wf(),
    ensures
        catalog.with_model(row).wf(),
        catalog.with_model(row).has_model(row.filename),
        forall|name: Seq<char>|
            catalog.has_model(name) ==> catalog.with_model(row).has_model(name),
        forall|name: Seq<char>|
            name != row.filename ==> catalog.with_model(row).has_model(name) == catalog.has_model(
                name,
            ),
        forall|name: Seq<char>|
            name != row.filename && catalog.has_model(name) ==> catalog.with_model(row).model(name)
                == catalog.model(name),
        catalog.with_model(row).model(row.filename) == (if catalog.has_model(row.filename) {
            written(
                catalog.model(row.filename),
                CkptModelView { created_at: catalog.model(row.filename).created_at, ..row },
            )
        } else {
            row
        }),
{
    let after = catalog.with_model(row);
    if catalog.has_model(row.filename) {
        let at = catalog.index_of(row.filename);
        let kept = CkptModelView { created_at: catalog.models[at].created_at, ..row };
        assert(after == catalog.with_changed(row.filename, kept));
        lemma_with_changed(catalog, row.filename, kept);
    } else {
        let n = catalog.models.len() as int;
        assert(after.models[n].filename == row.filename);
        assert forall|name: Seq<char>| catalog.has_model(name) implies after.has_model(name) by {
            let i = catalog.index_of(name);
            assert(after.models[i].filename == name);
        }
        assert forall|name: Seq<char>| name != row.filename implies after.has_model(name)
            == catalog.has_model(name) by {
            if after.has_model(name) {
                let i = after.index_of(name);
                assert(catalog.models[i].filename == name);
            }
        }
        assert forall|i: int, j: int| 0 <= i < j < after.models.len() implies (
        #[trigger] after.models[i]).filename != (#[trigger] after.models[j]).filename by {
            assert(catalog.models[i] == after.models[i]);
            if j < n {
                assert(catalog.models[j] == after.models[j]);
            }
        }
        assert forall|i: int| 0 <= i < after.relationships.len() implies after.has_model(
            (#[trigger] after.relationships[i]).parent,
        ) && after.has_model(after.relationships[i].child) by {
            assert(catalog.has_model(catalog.relationships[i].parent));
        }
        assert(after.wf());
        lemma_index_unique(after, row.filename, n);
        assert forall|name: Seq<char>| name != row.filename && catalog.has_model(name) implies after.model(
            name,
        ) == catalog.model(name) by {
            let i = catalog.index_of(name);
            assert(after.models[i] == catalog.models[i]);
            lemma_index_unique(after, name, i);
        }
    }
}

/// Applying a batch of display orders keeps the catalog well formed and keeps
/// which file names have entries.
pub proof fn lemma_with_orders(catalog: CatalogView, orders: Seq<(Seq<char>, i32)>)
    requires
        catalog.wf(),
    ensures
        catalog.with_orders(orders).wf(),
        forall|name: Seq<char>| catalog.with_orders(orders).has_model(name) == catalog.has_model(name),
        catalog.with_orders(orders).relationships == catalog.relationships,
        catalog.with_orders(orders).config == catalog.config,
        catalog.with_orders(orders).models.len() == catalog.models.len(),
    decreases orders.len(),
{
    if orders.len() > 0 {
        let before = catalog.with_orders(orders.drop_last());
        lemma_with_orders(catalog, orders.drop_last());
        let name = orders.last().0;
        if before.has_model(name) {
            lemma_with_changed(
                before,
                name,
                CkptModelView { mac_display_order: Some(orders.last().1), ..before.model(name) },
            );
        }
    }
}

/// Deleting an entry keeps the catalog well formed.
pub proof fn lemma_without_model(catalog: CatalogView, filename: Seq<char>)
    requires
        catalog.wf(),
    ensures
        catalog.without_model(filename).wf(),
        !catalog.without_model(filename).has_model(filename),
        forall|name: Seq<char>|
            name != filename ==> catalog.without_model(filename).has_model(name) == catalog.has_model(
                name,
            ),
{
    let after = catalog.without_model(filename);
    if catalog.has_model(filename) {
        let at = catalog.index_of(filename);
        assert forall|i: int| 0 <= i < after.models.len() implies #[trigger] after.models[i] == (
        if i < at {
            catalog.models[i]
        } else {
            catalog.models[i + 1]
        }) by {}
        assert forall|i: int, j: int| 0 <= i < j < after.models.len() implies (
        #[trigger] after.models[i]).filename != (#[trigger] after.models[j]).filename by {
            let oi = if i < at { i } else { i + 1 };
            let oj = if j < at { j } else { j + 1 };
            assert(catalog.models[oi].filename != catalog.models[oj].filename);
        }
        assert(!after.has_model(filename)) by {
            if after.has_model(filename) {
                let i = after.index_of(filename);
                let oi = if i < at { i } else { i + 1 };
                lemma_index_unique(catalog, filename, oi);
            }
        }
        assert forall|name: Seq<char>| name != filename implies after.has_model(name)
            == catalog.has_model(name) by {
            if catalog.has_model(name) {
                let i = catalog.index_of(name);
                let ni = if i < at { i } else { i - 1 };
                assert(after.models[ni].filename == name);
            }
            if after.has_model(name) {
                let i = after.index_of(name);
                let oi = if i < at { i } else { i + 1 };
                assert(catalog.models[oi].filename == name);
            }
        }
        lemma_edges_without(catalog.relationships, filename);
        lemma_edges_without_distinct(catalog.relationships, filename);
        assert forall|i: int| 0 <= i < after.relationships.len() implies after.has_model(
            (#[trigger] after.relationships[i]).parent,
        ) && after.has_model(after.relationships[i].child) by {
            let edge = after.relationships[i];
            assert(catalog.relationships.contains(edge));
            let k = choose|k: int|
                0 <= k < catalog.relationships.len() && catalog.relationships[k] == edge;
            assert(catalog.has_model(catalog.relationships[k].parent));
        }
    }
}

/// Writing a setting keeps the catalog well formed and is read back.
pub proof fn lemma_with_config(catalog: CatalogView, key: Seq<char>, value: Seq<char>)
    requires
        catalog.wf(),
    ensures
        catalog.with_config(key, value).wf(),
        catalog.with_config(key, value).config_value(key) == Some(value),
        forall|other: Seq<char>|
            other != key ==> catalog.with_config(key, value).config_value(other)
                == catalog.config_value(other),
{
    let after = catalog.with_config(key, value);
    let at = if catalog.has_config(key) {
        catalog.config_index(key)
    } else {
        catalog.config.len() as int
    };
    assert(after.config[at].key == key);
    assert forall|i: int, j: int| 0 <= i < j < after.config.len() implies (
    #[trigger] after.config[i]).key != (#[trigger] after.config[j]).key by {
        if catalog.has_config(key) {
            assert(catalog.config[i].key == after.config[i].key);
            assert(catalog.config[j].key == after.config[j].key);
        } else {
            assert(catalog.config[i] == after.config[i]);
            if j < catalog.config.len() {
                assert(catalog.config[j] == after.config[j]);
            }
        }
    }
    assert forall|i: int| 0 <= i < after.relationships.len() implies after.has_model(
        (#[trigger] after.relationships[i]).parent,
    ) && after.has_model(after.relationships[i].child) by {
        assert(catalog.has_model(catalog.relationships[i].parent));
        assert(catalog.has_model(catalog.relationships[i].child));
        let p = catalog.index_of(catalog.relationships[i].parent);
        let c = catalog.index_of(catalog.relationships[i].child);
        assert(after.models[p] == catalog.models[p]);
        assert(after.models[c] == catalog.models[c]);
    }
    assert(after.wf());
    lemma_config_index_unique(after, key, at);
    assert forall|other: Seq<char>| other != key implies after.config_value(other)
        == catalog.config_value(other) by {
        if catalog.has_config(other) {
            let i = catalog.config_index(other);
            assert(after.config[i] == catalog.config[i]);
            lemma_config_index_unique(after, other, i);
        }
        if after.has_config(other) {
            let i = after.config_index(other);
            assert(catalog.config[i] == after.config[i]);
            lemma_config_index_unique(catalog, other, i);
        }
    }
}

/// Storing an edge between two entries keeps the catalog well formed.
pub proof fn lemma_with_edge(catalog: CatalogView, parent: Seq<char>, child: Seq<char>)
    requires
        catalog.wf(),
        catalog.has_model(parent),
        catalog.has_model(child),
    ensures
        catalog.with_edge(parent, child).wf(),
        catalog.with_edge(parent, child).has_edge(parent, child),
        forall|p: Seq<char>, c: Seq<char>|
            catalog.with_edge(parent, child).has_edge(p, c) == (catalog.has_edge(p, c) || (p
                == parent && c == child)),
{
    lemma_with_edge_row(
        catalog,
        RelationshipView { id: None, parent, child, created_at: None },
    );
}

/// Storing an edge row between two entries keeps the catalog well formed.
pub proof fn lemma_with_edge_row(catalog: CatalogView, row: RelationshipView)
    requires
        catalog.wf(),
        catalog.has_model(row.parent),
        catalog.has_model(row.child),
    ensures
        catalog.with_edge_row(row).wf(),
        catalog.with_edge_row(row).has_edge(row.parent, row.child),
        forall|p: Seq<char>, c: Seq<char>|
            catalog.with_edge_row(row).has_edge(p, c) == (catalog.has_edge(p, c) || (p
                == row.parent && c == row.child)),
{
    let parent = row.parent;
    let child = row.child;
    let after = catalog.with_edge_row(row);
    if !catalog.has_edge(parent, child) {
        let n = catalog.relationships.len() as int;
        assert(after.relationships[n].parent == parent && after.relationships[n].child == child);
        assert forall|i: int, j: int| 0 <= i < j < after.relationships.len() implies !((
        #[trigger] after.relationships[i]).parent == (#[trigger] after.relationships[j]).parent
            && after.relationships[i].child == after.relationships[j].child) by {
            assert(after.relationships[i] == catalog.relationships[i]);
            if j < n {
                assert(after.relationships[j] == catalog.relationships[j]);
            }
        }
        assert forall|i: int| 0 <= i < after.relationships.len() implies after.has_model(
            (#[trigger] after.relationships[i]).parent,
        ) && after.has_model(after.relationships[i].child) by {
            if i < n {
                assert(after.relationships[i] == catalog.relationships[i]);
            }
        }
        assert forall|p: Seq<char>, c: Seq<char>| after.has_edge(p, c) == (catalog.has_edge(p, c)
            || (p == parent && c == child)) by {
            if catalog.has_edge(p, c) {
                let i = choose|i: int|
                    0 <= i < catalog.relationships.len() && (#[trigger] catalog.relationships[i]).parent
                        == p && catalog.relationships[i].child == c;
                assert(after.relationships[i].parent == p);
            }
            if after.has_edge(p, c) {
                let i = choose|i: int|
                    0 <= i < after.relationships.len() && (#[trigger] after.relationships[i]).parent
                        == p && after.relationships[i].child == c;
                if i < n {
                    assert(catalog.relationships[i].parent == p);
                }
            }
        }
    }
}

/// Removing an edge keeps the catalog well formed.
pub proof fn lemma_without_edge(catalog: CatalogView, parent: Seq<char>, child: Seq<char>)
    requires
        catalog.wf(),
    ensures
        catalog.without_edge(parent, child).wf(),
        !catalog.without_edge(parent, child).has_edge(parent, child),
{
    let after = catalog.without_edge(parent, child);
    lemma_edges_except(catalog.relationships, parent, child);
    lemma_edges_except_distinct(catalog.relationships, parent, child);
    assert forall|i: int| 0 <= i < after.relationships.len() implies after.has_model(
        (#[trigger] after.relationships[i]).parent,
    ) && after.has_model(after.relationships[i].child) by {
        let edge = after.relationships[i];
        assert(catalog.relationships.contains(edge));
        let k = choose|k: int|
            0 <= k < catalog.relationships.len() && catalog.relationships[k] == edge;
        assert(catalog.has_model(catalog.relationships[k].parent));
    }
}

impl Catalog {
    /// Whether the store satisfies its invariant.
    pub open spec fn wf(&self) -> bool {
        self@.wf()
    }

    /// An empty store.
    pub fn new() -> (catalog: Catalog)
        ensures
            catalog@ == CatalogView::empty(),
            catalog.wf(),
    {
        let catalog = Catalog { models: Vec::new(), relationships: Vec::new(), config: Vec::new() };
        assert(catalog@.models =~= Seq::empty());
        assert(catalog@.relationships =~= Seq::empty());
        assert(catalog@.config =~= Seq::empty());
        catalog
    }

    /// The number of entries.
    pub fn model_count(&self) -> (count: usize)
        ensures
            count == self@.models.len(),
    {
        self.models.len()
    }

    /// The number of edges.
    pub fn relationship_count(&self) -> (count: usize)
        ensures
            count == self@.relationships.len(),
    {
        self.relationships.len()
    }

    /// The position of the entry with the file name.
    fn position(&self, filename: &str) -> (found: Option<usize>)
        ensures
            match found {
                Some(at) => at < self@.models.len() && self@.models[at as int].filename
                    == filename@,
                None => !self@.has_model(filename@),
            },
    {
        let wanted: String = filename.to_owned();
        let mut at: usize = 0;
        while at < self.models.len()
            invariant
                at <= self.models.len(),
                wanted@ == filename@,
                forall|i: int| 0 <= i < at ==> (#[trigger] self@.models[i]).filename != filename@,
            decreases self.models.len() - at,
        {
            if self.models[at].filename == wanted {
                return Some(at);
            }
            at += 1;
        }
        None
    }

    /// The position of the setting with the key.
    fn config_position(&self, key: &str) -> (found: Option<usize>)
        ensures
            match found {
                Some(at) => at < self@.config.len() && self@.config[at as int].key == key@,
                None => !self@.has_config(key@),
            },
    {
        let wanted: String = key.to_owned();
        let mut at: usize = 0;
        while at < self.config.len()
            invariant
                at <= self.config.len(),
                wanted@ == key@,
                forall|i: int| 0 <= i < at ==> (#[trigger] self@.config[i]).key != key@,
            decreases self.config.len() - at,
        {
            if self.config[at].key == wanted {
                return Some(at);
            }
            at += 1;
        }
        None
    }

    /// Whether an entry with the file name exists.
    pub fn contains_model(&self, filename: &str) -> (present: bool)
        ensures
            present == self@.has_model(filename@),
    {
        self.position(filename).is_some()
    }

    /// The entry with the file name, if there is one.
    pub fn get_model_by_filename(&self, filename: &str) -> (found: Option<CkptModel>)
        requires
            self.wf(),
        ensures
            found is Some == self@.has_model(filename@),
            found matches Some(row) ==> row@ == self@.model(filename@),
    {
        match self.position(filename) {
            Some(at) => {
                proof {
                    lemma_index_unique(self@, filename@, at as int);
                }
                Some(self.models[at].duplicate())
            },
            None => None,
        }
    }

    /// Writes an entry under its file name. A new entry is added as given; an
    /// existing one takes every column of `model` except its creation time.
    /// If the write changes the entry, its time of last change is cleared and
    /// the store assigns it anew when it writes the entry; if it changes
    /// nothing, the entry keeps its time.
    ///
    /// This is the write of an explicit action and replaces what the entry
    /// held, its display name included. What a scan infers of a file goes
    /// through the import, which fills empty columns only.
    pub fn insert_or_update_model(&mut self, model: &CkptModel)
        requires
            old(self).wf(),
        ensures
            final(self)@ == old(self)@.with_model(model@),
            final(self).wf(),
    {
        proof {
            lemma_with_model(self@, model@);
        }
        match self.position(model.filename.as_str()) {
            Some(at) => {
                proof {
                    lemma_index_unique(self@, model@.filename, at as int);
                }
                let mut row: CkptModel = model.duplicate();
                row.created_at = copy_opt_text(&self.models[at].created_at);
                self.replace_at(at, row);
                assert(self@.models =~= old(self)@.with_model(model@).models);
            },
            None => {
                self.models.push(model.duplicate());
                assert(self@.models =~= old(self)@.with_model(model@).models);
            },
        }
    }

    /// Replaces the entry at a position by one of the same file name.
    fn replace_at(&mut self, at: usize, row: CkptModel)
        requires
            old(self).wf(),
            at < old(self)@.models.len(),
            row@.filename == old(self)@.models[at as int].filename,
        ensures
            final(self)@ == old(self)@.with_changed(row@.filename, row@),
            final(self).wf(),
    {
        proof {
            lemma_index_unique(self@, row@.filename, at as int);
            lemma_with_changed(self@, row@.filename, row@);
        }
        if !same_content(&self.models[at], &row) {
            let mut changed: CkptModel = row;
            changed.updated_at = None;
            self.models.set(at, changed);
        }
        assert(self@.models =~= old(self)@.with_changed(row@.filename, row@).models);
    }

    /// Sets the host flag and the display order of an entry. Without an entry
    /// of that file name nothing changes.
    pub fn update_mac_hd_status(&mut self, filename: &str, is_on_mac: bool, display_order: Option<i32>)
        requires
            old(self).wf(),
        ensures
            final(self)@ == old(self)@.with_host_status(filename@, is_on_mac, display_order),
            final(self).wf(),
    {
        match self.position(filename) {
            Some(at) => {
                proof {
                    lemma_index_unique(self@, filename@, at as int);
                }
                let mut row: CkptModel = self.models[at].duplicate();
                row.exists_mac_hd = is_on_mac;
                row.mac_display_order = display_order;
                self.replace_at(at, row);
            },
            None => {},
        }
    }

    /// Sets the display order of an entry, if it exists.
    fn set_order(&mut self, filename: &str, order: i32)
        requires
            old(self).wf(),
        ensures
            final(self)@ == old(self)@.with_order(filename@, order),
            final(self).wf(),
    {
        match self.position(filename) {
            Some(at) => {
                proof {
                    lemma_index_unique(self@, filename@, at as int);
                }
                let mut row: CkptModel = self.models[at].duplicate();
                row.mac_display_order = Some(order);
                self.replace_at(at, row);
            },
            None => {},
        }
    }

    /// Applies a batch of display orders as one unit, in the order given.
    /// Names without an entry are passed over.
    pub fn update_display_orders(&mut self, orders: &Vec<(String, i32)>)
        requires
            old(self).wf(),
        ensures
            final(self)@ == old(self)@.with_orders(order_views(orders@)),
            final(self).wf(),
    {
        let ghost all = order_views(orders@);
        let mut at: usize = 0;
        while at < orders.len()
            invariant
                at <= orders.len(),
                all == order_views(orders@),
                self.wf(),
                self@ == old(self)@.with_orders(all.take(at as int)),
            decreases orders.len() - at,
        {
            proof {
                assert(all.take(at + 1).drop_last() =~= all.take(at as int));
                assert(all.take(at + 1).last() == all[at as int]);
            }
            self.set_order(orders[at].0.as_str(), orders[at].1);
            at += 1;
        }
        assert(all.take(at as int) =~= all);
    }

    /// Sets the display name of an entry, if it exists.
    pub fn update_model_display_name(&mut self, filename: &str, display_name: &str)
        requires
            old(self).wf(),
        ensures
            final(self)@ == old(self)@.with_display_name(filename@, display_name@),
            final(self).wf(),
    {
        match self.position(filename) {
            Some(at) => {
                proof {
                    lemma_index_unique(self@, filename@, at as int);
                }
                let mut row: CkptModel = self.models[at].duplicate();
                row.display_name = Some(display_name.to_owned());
                self.replace_at(at, row);
            },
            None => {},
        }
    }

    /// Sets the strength of an entry, in tenths, if the entry exists.
    pub fn update_lora_strength(&mut self, filename: &str, strength: i32)
        requires
            old(self).wf(),
        ensures
            final(self)@ == old(self)@.with_strength(filename@, strength),
            final(self).wf(),
    {
        match self.position(filename) {
            Some(at) => {
                proof {
                    lemma_index_unique(self@, filename@, at as int);
                }
                let mut row: CkptModel = self.models[at].duplicate();
                row.lora_strength = Some(strength);
                self.replace_at(at, row);
            },
            None => {},
        }
    }

    /// Deletes the entry with the file name and every edge that touches it.
    /// The files on disk are not the store's concern.
    pub fn delete_model(&mut self, filename: &str)
        requires
            old(self).wf(),
        ensures
            final(self)@ == old(self)@.without_model(filename@),
            final(self).wf(),
    {
        proof {
            lemma_without_model(self@, filename@);
        }
        match self.position(filename) {
            Some(at) => {
                proof {
                    lemma_index_unique(self@, filename@, at as int);
                }
                self.models.remove(at);
                let wanted: String = filename.to_owned();
                let ghost edges = old(self)@.relationships;
                let mut kept: Vec<CkptRelationship> = Vec::new();
                let mut next: usize = 0;
                while next < self.relationships.len()
                    invariant
                        next <= self.relationships.len(),
                        wanted@ == filename@,
                        edges == relationship_views(self.relationships@),
                        relationship_views(kept@) == edges_without(edges.take(next as int), filename@),
                    decreases self.relationships.len() - next,
                {
                    proof {
                        assert(edges.take(next + 1).drop_last() =~= edges.take(next as int));
                        assert(edges.take(next + 1).last() == edges[next as int]);
                    }
                    let edge: &CkptRelationship = &self.relationships[next];
                    if !(edge.parent_ckpt_filename == wanted || edge.child_ckpt_filename == wanted) {
                        let ghost before = relationship_views(kept@);
                        kept.push(edge.duplicate());
                        assert(relationship_views(kept@) =~= before.push(edges[next as int]));
                    }
                    next += 1;
                }
                assert(edges.take(next as int) =~= edges);
                self.relationships = kept;
                assert(self@.models =~= old(self)@.without_model(filename@).models);
            },
            None => {},
        }
    }

    /// The value stored under a key, if any.
    pub fn get_config(&self, key: &str) -> (value: Option<String>)
        requires
            self.wf(),
        ensures
            opt_value(value) == self@.config_value(key@),
    {
        match self.config_position(key) {
            Some(at) => {
                proof {
                    lemma_config_index_unique(self@, key@, at as int);
                }
                Some(self.config[at].value.clone())
            },
            None => None,
        }
    }

    /// Stores a value under a key; the latest write wins.
    pub fn set_config(&mut self, key: &str, value: &str)
        requires
            old(self).wf(),
        ensures
            final(self)@ == old(self)@.with_config(key@, value@),
            final(self).wf(),
            final(self)@.config_value(key@) == Some(value@),
    {
        proof {
            lemma_with_config(self@, key@, value@);
        }
        let row = Config { key: key.to_owned(), value: value.to_owned(), updated_at: None };
        match self.config_position(key) {
            Some(at) => {
                proof {
                    lemma_config_index_unique(self@, key@, at as int);
                }
                self.config.set(at, row);
                assert(self@.config =~= old(self)@.with_config(key@, value@).config);
            },
            None => {
                self.config.push(row);
                assert(self@.config =~= old(self)@.with_config(key@, value@).config);
            },
        }
    }

    /// Whether the edge from `parent` to `child` is stored.
    pub fn has_relationship(&self, parent: &str, child: &str) -> (present: bool)
        ensures
            present == self@.has_edge(parent@, child@),
    {
        let from: String = parent.to_owned();
        let to: String = child.to_owned();
        let mut at: usize = 0;
        while at < self.relationships.len()
            invariant
                at <= self.relationships.len(),
                from@ == parent@,
                to@ == child@,
                forall|i: int|
                    0 <= i < at ==> !((#[trigger] self@.relationships[i]).parent == parent@
                        && self@.relationships[i].child == child@),
            decreases self.relationships.len() - at,
        {
            if self.relationships[at].parent_ckpt_filename == from
                && self.relationships[at].child_ckpt_filename == to {
                assert(self@.relationships[at as int].parent == parent@);
                return true;
            }
            at += 1;
        }
        false
    }

    /// Stores an edge as the given row, with its identifier and creation
    /// time, unless an edge between the same two files is stored already.
    /// Both ends must be catalog entries: otherwise the edge is refused and
    /// nothing changes.
    pub fn restore_relationship(&mut self, edge: CkptRelationship) -> (outcome: Result<
        (),
        CatalogError,
    >)
        requires
            old(self).wf(),
        ensures
            final(self).wf(),
            outcome is Ok == (old(self)@.has_model(edge@.parent) && old(self)@.has_model(
                edge@.child,
            )),
            outcome is Ok ==> final(self)@ == old(self)@.with_edge_row(edge@),
            outcome is Err ==> final(self)@ == old(self)@ && outcome == Err::<(), CatalogError>(
                CatalogError::MissingEndpoint,
            ),
    {
        if !self.contains_model(edge.parent_ckpt_filename.as_str()) || !self.contains_model(
            edge.child_ckpt_filename.as_str(),
        ) {
            return Err(CatalogError::MissingEndpoint);
        }
        proof {
            lemma_with_edge_row(self@, edge@);
        }
        if !self.has_relationship(
            edge.parent_ckpt_filename.as_str(),
            edge.child_ckpt_filename.as_str(),
        ) {
            self.relationships.push(edge);
            assert(self@.relationships =~= old(self)@.with_edge_row(edge@).relationships);
        }
        Ok(())
    }

    /// Stores the edge from `parent` to `child` unless it is stored already.
    /// Both ends must be catalog entries: otherwise the edge is refused and
    /// nothing changes.
    pub fn add_relationship(&mut self, parent: &str, child: &str) -> (outcome: Result<
        (),
        CatalogError,
    >)
        requires
            old(self).wf(),
        ensures
            final(self).wf(),
            outcome is Ok == (old(self)@.has_model(parent@) && old(self)@.has_model(child@)),
            outcome is Ok ==> final(self)@ == old(self)@.with_edge(parent@, child@),
            outcome is Err ==> final(self)@ == old(self)@ && outcome == Err::<(), CatalogError>(
                CatalogError::MissingEndpoint,
            ),
    {
        self.restore_relationship(
            CkptRelationship {
                id: None,
                parent_ckpt_filename: parent.to_owned(),
                child_ckpt_filename: child.to_owned(),
                created_at: None,
            },
        )
    }

    /// All edges, in the order in which they were stored.
    pub fn all_relationships(&self) -> (edges: Vec<CkptRelationship>)
        ensures
            relationship_views(edges@) == self@.relationships,
    {
        let mut edges: Vec<CkptRelationship> = Vec::new();
        let mut next: usize = 0;
        while next < self.relationships.len()
            invariant
                next <= self.relationships.len(),
                relationship_views(edges@) == self@.relationships.take(next as int),
            decreases self.relationships.len() - next,
        {
            let ghost before = relationship_views(edges@);
            edges.push(self.relationships[next].duplicate());
            assert(relationship_views(edges@) =~= before.push(self@.relationships[next as int]));
            assert(self@.relationships.take(next + 1) =~= self@.relationships.take(
                next as int,
            ).push(self@.relationships[next as int]));
            next += 1;
        }
        assert(self@.relationships.take(next as int) =~= self@.relationships);
        edges
    }

    /// All settings, in the order in which their keys were first written.
    pub fn all_settings(&self) -> (settings: Vec<Config>)
        ensures
            config_views(settings@) == self@.config,
    {
        let mut settings: Vec<Config> = Vec::new();
        let mut next: usize = 0;
        while next < self.config.len()
            invariant
                next <= self.config.len(),
                config_views(settings@) == self@.config.take(next as int),
            decreases self.config.len() - next,
        {
            let ghost before = config_views(settings@);
            let row: &Config = &self.config[next];
            settings.push(
                Config {
                    key: row.key.clone(),
                    value: row.value.clone(),
                    updated_at: copy_opt_text(&row.updated_at),
                },
            );
            assert(config_views(settings@) =~= before.push(self@.config[next as int]));
            assert(self@.config.take(next + 1) =~= self@.config.take(next as int).push(
                self@.config[next as int],
            ));
            next += 1;
        }
        assert(self@.config.take(next as int) =~= self@.config);
        settings
    }

    /// The edges that start at `parent_filename`, in the order in which they
    /// were stored.
    pub fn get_relationships(&self, parent_filename: &str) -> (edges: Vec<CkptRelationship>)
        ensures
            relationship_views(edges@) == edges_from(self@.relationships, parent_filename@),
    {
        let wanted: String = parent_filename.to_owned();
        let ghost all = self@.relationships;
        let mut edges: Vec<CkptRelationship> = Vec::new();
        let mut next: usize = 0;
        while next < self.relationships.len()
            invariant
                next <= self.relationships.len(),
                wanted@ == parent_filename@,
                all == self@.relationships,
                relationship_views(edges@) == edges_from(all.take(next as int), parent_filename@),
            decreases self.relationships.len() - next,
        {
            proof {
                assert(all.take(next + 1).drop_last() =~= all.take(next as int));
                assert(all.take(next + 1).last() == all[next as int]);
            }
            if self.relationships[next].parent_ckpt_filename == wanted {
                let ghost before = relationship_views(edges@);
                edges.push(self.relationships[next].duplicate());
                assert(relationship_views(edges@) =~= before.push(all[next as int]));
            }
            next += 1;
        }
        assert(all.take(next as int) =~= all);
        edges
    }

    /// Removes the edge from `parent` to `child`, if it is stored.
    pub fn delete_relationship(&mut self, parent: &str, child: &str)
        requires
            old(self).wf(),
        ensures
            final(self)@ == old(self)@.without_edge(parent@, child@),
            final(self).wf(),
    {
        proof {
            lemma_without_edge(self@, parent@, child@);
        }
        let from: String = parent.to_owned();
        let to: String = child.to_owned();
        let ghost all = self@.relationships;
        let mut kept: Vec<CkptRelationship> = Vec::new();
        let mut next: usize = 0;
        while next < self.relationships.len()
            invariant
                next <= self.relationships.len(),
                from@ == parent@,
                to@ == child@,
                self@ == old(self)@,
                all == self@.relationships,
                relationship_views(kept@) == edges_except(all.take(next as int), parent@, child@),
            decreases self.relationships.len() - next,
        {
            proof {
                assert(all.take(next + 1).drop_last() =~= all.take(next as int));
                assert(all.take(next + 1).last() == all[next as int]);
            }
            let edge: &CkptRelationship = &self.relationships[next];
            if !(edge.parent_ckpt_filename == from && edge.child_ckpt_filename == to) {
                let ghost before = relationship_views(kept@);
                kept.push(edge.duplicate());
                assert(relationship_views(kept@) =~= before.push(all[next as int]));
            }
            next += 1;
        }
        assert(all.take(next as int) =~= all);
        self.relationships = kept;
    }
}

/// The text of an optional value.
pub open spec fn opt_value(value: Option<String>) -> Option<Seq<char>> {
    match value {
        Some(text) => Some(text@),
        None => None,
    }
}

/// A batch of display orders as mathematical values.
pub open spec fn order_views(orders: Seq<(String, i32)>) -> Seq<(Seq<char>, i32)> {
    orders.map_values(|o: (String, i32)| (o.0@, o.1))
}

/// The rank of an entry in a listing: entries shown on the host come first,
/// by their display order; entries without an order or not on the host come
/// last.
pub open spec fn listing_rank(row: CkptModelView) -> int {
    if row.exists_mac_hd && row.mac_display_order is Some {
        row.mac_display_order->0 as int + 0x8000_0000
    } else {
        0x1_0000_0000
    }
}

/// What a listing orders an entry by: its rank, then its file name.
pub open spec fn listing_key(row: CkptModelView) -> (int, Seq<char>) {
    (listing_rank(row), row.filename)
}

/// Whether an entry passes a filter on its kind. Without a filter every entry
/// passes.
pub open spec fn passes_filter(row: CkptModelView, filter: Option<Seq<char>>) -> bool {
    filter matches Some(kind) ==> row.model_type == kind
}

/// The entries that a list of responses carries.
pub open spec fn response_rows(responses: Seq<ModelResponse>) -> Seq<CkptModelView> {
    responses.map_values(|r: ModelResponse| r.model@)
}

/// `rows` is the listing of `models` under a filter: exactly the entries that
/// pass the filter, in strictly increasing order of their listing key.
pub open spec fn is_listing_of(
    models: Seq<CkptModelView>,
    filter: Option<Seq<char>>,
    rows: Seq<CkptModelView>,
) -> bool {
    &&& forall|i: int, j: int|
        0 <= i < j < rows.len() ==> key_lt(
            listing_key(#[trigger] rows[i]),
            listing_key(#[trigger] rows[j]),
        )
    &&& forall|i: int|
        0 <= i < rows.len() ==> models.contains(#[trigger] rows[i]) && passes_filter(
            rows[i],
            filter,
        )
    &&& forall|k: int|
        0 <= k < models.len() && passes_filter(#[trigger] models[k], filter) ==> rows.contains(
            models[k],
        )
}

/// Display order decides a listing: of two listed entries that are shown on
/// the host, the one with the smaller display order comes first; and an entry
/// shown on the host with a display order comes before every entry without.
pub proof fn lemma_listing_follows_display_order(
    models: Seq<CkptModelView>,
    filter: Option<Seq<char>>,
    rows: Seq<CkptModelView>,
    i: int,
    j: int,
)
    requires
        is_listing_of(models, filter, rows),
        0 <= i < rows.len(),
        0 <= j < rows.len(),
        listing_rank(rows[i]) < listing_rank(rows[j]),
    ensures
        i < j,
{
    if j < i {
        assert(key_lt(listing_key(rows[j]), listing_key(rows[i])));
    }
}

impl Catalog {
    /// The sort key of the entry at a position.
    fn key_at(&self, at: usize) -> (key: SortKey)
        requires
            at < self@.models.len(),
        ensures
            key@ == listing_key(self@.models[at as int]),
    {
        let row: &CkptModel = &self.models[at];
        let rank: u64 = match row.mac_display_order {
            Some(order) => {
                if row.exists_mac_hd {
                    (order as i64 + 0x8000_0000) as u64
                } else {
                    0x1_0000_0000
                }
            },
            None => 0x1_0000_0000,
        };
        SortKey { rank, name: chars_of(row.filename.as_str()) }
    }

    /// Lists the entries, those shown on the host first in their display
    /// order, the others after them, and by file name where that leaves a
    /// choice. With a filter only entries of that kind are listed.
    #[verifier::loop_isolation(false)]
    pub fn list_models(&self, kind_filter: Option<&str>) -> (responses: Vec<ModelResponse>)
        requires
            self.wf(),
        ensures
            is_listing_of(self@.models, filter_text(kind_filter), response_rows(responses@)),
            forall|i: int|
                0 <= i < responses.len() ==> (#[trigger] responses[i]).is_on_mac
                    == responses[i].model.exists_mac_hd,
            responses.len() <= self@.models.len(),
            kind_filter is None ==> responses.len() == self@.models.len(),
    {
        let ghost models = self@.models;
        let ghost filter = filter_text(kind_filter);
        let mut keys: Vec<SortKey> = Vec::new();
        let mut at: usize = 0;
        while at < self.models.len()
            invariant
                at <= self.models.len(),
                keys.len() == at,
                forall|i: int| 0 <= i < at ==> #[trigger] key_views(keys@)[i] == listing_key(models[i]),
            decreases self.models.len() - at,
        {
            let ghost before = key_views(keys@);
            keys.push(self.key_at(at));
            assert forall|i: int| 0 <= i < at + 1 implies #[trigger] key_views(keys@)[i]
                == listing_key(models[i]) by {
                if i < at {
                    assert(key_views(keys@)[i] == before[i]);
                }
            }
            at += 1;
        }
        let ghost views = key_views(keys@);
        let order: Vec<usize> = sorted_order(&keys);
        proof {
            assert forall|a: int, b: int| 0 <= a < b < views.len() implies #[trigger] views[a]
                != #[trigger] views[b] by {
                assert(models[a].filename != models[b].filename);
            }
            lemma_order_of_distinct_keys(views, order@);
        }
        let wanted: Option<String> = match kind_filter {
            Some(kind) => Some(kind.to_owned()),
            None => None,
        };
        let mut responses: Vec<ModelResponse> = Vec::new();
        let ghost mut source: Seq<int> = Seq::empty();
        let mut j: usize = 0;
        while j < order.len()
            invariant
                j <= order.len(),
                source.len() == responses.len(),
                responses.len() <= j,
                wanted is None ==> responses.len() == j,
                forall|i: int| 0 <= i < source.len() ==> 0 <= #[trigger] source[i] < j,
                forall|a: int, b: int|
                    0 <= a < b < source.len() ==> #[trigger] source[a] < #[trigger] source[b],
                response_rows(responses@) == Seq::new(
                    source.len(),
                    |i: int| models[order@[source[i]] as int],
                ),
                forall|i: int|
                    0 <= i < responses.len() ==> passes_filter(
                        #[trigger] response_rows(responses@)[i],
                        filter,
                    ),
                forall|p: int|
                    0 <= p < j && passes_filter(models[(#[trigger] order[p]) as int], filter)
                        ==> response_rows(responses@).contains(models[order[p] as int]),
                forall|i: int|
                    0 <= i < responses.len() ==> (#[trigger] responses[i]).is_on_mac
                        == responses[i].model.exists_mac_hd,
            decreases order.len() - j,
        {
            let slot: usize = order[j];
            let row: &CkptModel = &self.models[slot];
            let passes: bool = match &wanted {
                Some(kind) => row.model_type == *kind,
                None => true,
            };
            if passes {
                let ghost before = response_rows(responses@);
                let ghost old_responses = responses@;
                let copy: CkptModel = row.duplicate();
                let on_host: bool = copy.exists_mac_hd;
                responses.push(ModelResponse { model: copy, is_on_mac: on_host });
                proof {
                    let old_source = source;
                    source = source.push(j as int);
                    assert(response_rows(responses@) =~= before.push(models[slot as int]));
                    assert(passes_filter(models[slot as int], filter));
                    assert(Seq::new(source.len(), |i: int| models[order@[source[i]] as int])
                        =~= Seq::new(
                        old_source.len(),
                        |i: int| models[order@[old_source[i]] as int],
                    ).push(models[slot as int]));
                    assert forall|i: int| 0 <= i < responses.len() implies passes_filter(
                        #[trigger] response_rows(responses@)[i],
                        filter,
                    ) by {
                        if i < before.len() {
                            assert(response_rows(responses@)[i] == before[i]);
                        }
                    }
                    assert forall|p: int|
                        0 <= p < j + 1 && passes_filter(
                            models[(#[trigger] order[p]) as int],
                            filter,
                        ) implies response_rows(responses@).contains(models[order[p] as int]) by {
                        if p < j {
                            let i = choose|i: int|
                                0 <= i < before.len() && before[i] == models[order[p] as int];
                            assert(response_rows(responses@)[i] == models[order[p] as int]);
                        } else {
                            assert(response_rows(responses@)[before.len() as int]
                                == models[order[p] as int]);
                        }
                    }
                    assert forall|i: int| 0 <= i < responses.len() implies (
                    #[trigger] responses[i]).is_on_mac == responses[i].model.exists_mac_hd by {
                        if i < old_responses.len() {
                            assert(responses[i] == old_responses[i]);
                        }
                    }
                }
            }
            j += 1;
        }
        proof {
            let rows = response_rows(responses@);
            assert forall|i: int| 0 <= i < rows.len() implies #[trigger] rows[i]
                == models[order[source[i]] as int] by {}
            assert forall|a: int, b: int| 0 <= a < b < rows.len() implies key_lt(
                listing_key(#[trigger] rows[a]),
                listing_key(#[trigger] rows[b]),
            ) by {
                assert(key_lt(listed(views, order@, source[a]), listed(views, order@, source[b])));
                assert(views[order[source[a]] as int] == listing_key(models[order[source[a]] as int]));
                assert(views[order[source[b]] as int] == listing_key(models[order[source[b]] as int]));
            }
            assert forall|i: int| 0 <= i < rows.len() implies models.contains(#[trigger] rows[i])
                && passes_filter(rows[i], filter) by {
                assert(models[order[source[i]] as int] == rows[i]);
            }
            assert forall|k: int|
                0 <= k < models.len() && passes_filter(
                    #[trigger] models[k],
                    filter,
                ) implies rows.contains(models[k]) by {
                assert(is_listed(views, order@, k));
                let p = choose|p: int|
                    0 <= p < order.len() && #[trigger] listed(views, order@, p) == views[k];
                let held = order[p] as int;
                assert(views[held] == listing_key(models[held]));
                assert(views[k] == listing_key(models[k]));
                if held < k {
                    assert(models[held].filename != models[k].filename);
                } else if k < held {
                    assert(models[k].filename != models[held].filename);
                }
                assert(held == k);
            }
        }
        responses
    }

    /// Lists all entries in display order.
    pub fn get_all_models(&self) -> (responses: Vec<ModelResponse>)
        requires
            self.wf(),
        ensures
            is_listing_of(self@.models, None, response_rows(responses@)),
            forall|i: int|
                0 <= i < responses.len() ==> (#[trigger] responses[i]).is_on_mac
                    == responses[i].model.exists_mac_hd,
            responses.len() == self@.models.len(),
    {
        self.list_models(None)
    }
}

/// The text of an optional kind filter.
pub open spec fn filter_text(filter: Option<&str>) -> Option<Seq<char>> {
    match filter {
        Some(kind) => Some(kind@),
        None => None,
    }
}

/// Whether the file names of a list of entries differ from each other and
/// from those of the catalog, so that all of them can be added.
pub open spec fn can_append(catalog: CatalogView, rows: Seq<CkptModelView>) -> bool {
    &&& forall|i: int, j: int|
        0 <= i < j < rows.len() ==> (#[trigger] rows[i]).filename != (#[trigger] rows[j]).filename
    &&& forall|i: int| 0 <= i < rows.len() ==> !catalog.has_model((#[trigger] rows[i]).filename)
}

/// Adding entries with new file names keeps the catalog well formed.
pub proof fn lemma_append_models(catalog: CatalogView, rows: Seq<CkptModelView>)
    requires
        catalog.wf(),
        can_append(catalog, rows),
    ensures
        (CatalogView { models: catalog.models + rows, ..catalog }).wf(),
{
    let after = CatalogView { models: catalog.models + rows, ..catalog };
    let n = catalog.models.len() as int;
    assert forall|i: int, j: int| 0 <= i < j < after.models.len() implies (
    #[trigger] after.models[i]).filename != (#[trigger] after.models[j]).filename by {
        if j < n {
            assert(after.models[i] == catalog.models[i]);
            assert(after.models[j] == catalog.models[j]);
        } else if i < n {
            assert(after.models[i] == catalog.models[i]);
            assert(after.models[j] == rows[j - n]);
            assert(!catalog.has_model(rows[j - n].filename));
        } else {
            assert(after.models[i] == rows[i - n]);
            assert(after.models[j] == rows[j - n]);
        }
    }
    assert forall|i: int| 0 <= i < after.relationships.len() implies after.has_model(
        (#[trigger] after.relationships[i]).parent,
    ) && after.has_model(after.relationships[i].child) by {
        let p = catalog.index_of(catalog.relationships[i].parent);
        let c = catalog.index_of(catalog.relationships[i].child);
        assert(catalog.has_model(catalog.relationships[i].parent));
        assert(catalog.has_model(catalog.relationships[i].child));
        assert(after.models[p] == catalog.models[p]);
        assert(after.models[c] == catalog.models[c]);
    }
}

impl Catalog {
    /// Adds entries whose file names are new to the catalog and differ from
    /// each other.
    pub(crate) fn append_models(&mut self, rows: Vec<CkptModel>)
        requires
            old(self).wf(),
            can_append(old(self)@, model_views(rows@)),
        ensures
            final(self).wf(),
            final(self)@ == (CatalogView {
                models: old(self)@.models + model_views(rows@),
                ..old(self)@
            }),
    {
        proof {
            lemma_append_models(self@, model_views(rows@));
        }
        let mut rows = rows;
        let ghost added = model_views(rows@);
        self.models.append(&mut rows);
        assert(self@.models =~= old(self)@.models + added);
    }
}

} // verus!
