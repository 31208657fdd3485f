//! Classification of a file by the manifest, the registry and, last, the
//! keyword rules.

use vstd::prelude::*;
use crate::dt_json::DrawThingsConfig;
use crate::kind::{heuristic_kind, kind_of_lowercase, ModelKind};
use crate::registry::ModelTypeRegistry;
use crate::text::{lowercase_of, to_lowercase};

verus! {

/// The kind of a file given what the manifest and the registry say of it and
/// its lowercased name: the manifest decides if it knows the file, else the
/// registry, else the keyword rules, which answer "unknown" when no keyword
/// occurs.
pub open spec fn classified_kind(
    manifest: Option<ModelKind>,
    registry: Option<ModelKind>,
    lower: Seq<char>,
) -> ModelKind {
    match manifest {
        Some(kind) => kind,
        None => match registry {
            Some(kind) => kind,
            None => heuristic_kind(lower),
        },
    }
}

/// Classifies a file from the answers of the manifest and the registry and
/// from its lowercased name.
pub fn classify_resolved(
    manifest: Option<ModelKind>,
    registry: Option<ModelKind>,
    lower: &str,
) -> (kind: ModelKind)
    ensures
        kind == classified_kind(manifest, registry, lower@),
{
    match manifest {
        Some(kind) => kind,
        None => match registry {
            Some(kind) => kind,
            None => kind_of_lowercase(lower),
        },
    }
}

/// Classifies a file name. The result depends on nothing but the manifest's
/// kind table, the registry's lists and the file name.
pub fn classify(
    config: &DrawThingsConfig,
    registry: &ModelTypeRegistry,
    filename: &str,
) -> (kind: ModelKind)
    ensures
        kind == classified_kind(
            config.kind_of(filename@),
            registry.kind_of(filename@),
            lowercase_of(filename@),
        ),
{
    let manifest: Option<ModelKind> = config.lookup_kind(filename);
    let listed: Option<ModelKind> = registry.lookup(filename);
    let lower: String = to_lowercase(filename);
    classify_resolved(manifest, listed, lower.as_str())
}

/// Classification is a function of the manifest's kind table, the registry's
/// lists and the file name: two manifests and two registries that agree on
/// these give a file the same kind.
pub proof fn lemma_classification_is_determined(
    config_a: DrawThingsConfig,
    registry_a: ModelTypeRegistry,
    config_b: DrawThingsConfig,
    registry_b: ModelTypeRegistry,
    filename: Seq<char>,
)
    requires
        config_a.file_to_model_type@ == config_b.file_to_model_type@,
        registry_a.main_models@ == registry_b.main_models@,
        registry_a.loras@ == registry_b.loras@,
        registry_a.controlnets@ == registry_b.controlnets@,
        registry_a.embeddings@ == registry_b.embeddings@,
    ensures
        classified_kind(
            config_a.kind_of(filename),
            registry_a.kind_of(filename),
            lowercase_of(filename),
        ) == classified_kind(
            config_b.kind_of(filename),
            registry_b.kind_of(filename),
            lowercase_of(filename),
        ),
{
}

} // verus!
