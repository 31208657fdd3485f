//! The kinds a model file can have and the keyword rules that guess a kind
//! from a file name.

use vstd::prelude::*;
use crate::text::{contains_text, is_substring, lowercase_of, to_lowercase};

verus! {

/// The categorical tag of a catalog entry.
#[derive(Clone, Copy, Debug, PartialEq, Eq, Structural)]
pub enum ModelKind {
    Model,
    Lora,
    Control,
    Clip,
    Text,
    Vae,
    FaceRestorer,
    Upscaler,
    Embedding,
    Unknown,
}

impl ModelKind {
    /// The name under which the kind is stored in the catalog.
    pub open spec fn name(self) -> Seq<char> {
        match self {
            ModelKind::Model => "model"@,
            ModelKind::Lora => "lora"@,
            ModelKind::Control => "control"@,
            ModelKind::Clip => "clip"@,
            ModelKind::Text => "text"@,
            ModelKind::Vae => "vae"@,
            ModelKind::FaceRestorer => "face_restorer"@,
            ModelKind::Upscaler => "upscaler"@,
            ModelKind::Embedding => "embedding"@,
            ModelKind::Unknown => "unknown"@,
        }
    }

    /// The stored name of the kind.
    pub fn as_str(self) -> (name: &'static str)
        ensures
            name@ == self.name(),
    {
        match self {
            ModelKind::Model => "model",
            ModelKind::Lora => "lora",
            ModelKind::Control => "control",
            ModelKind::Clip => "clip",
            ModelKind::Text => "text",
            ModelKind::Vae => "vae",
            ModelKind::FaceRestorer => "face_restorer",
            ModelKind::Upscaler => "upscaler",
            ModelKind::Embedding => "embedding",
            ModelKind::Unknown => "unknown",
        }
    }
}

/// The kind that the keyword rules give to an already lowercased file name.
///
/// The rules are tried in this order and the first that matches decides, so a
/// name that mentions both "clip" and "vae" is a clip encoder.
pub open spec fn heuristic_kind(lower: Seq<char>) -> ModelKind {
    if is_substring("lora"@, lower) || is_substring("lycoris"@, lower) {
        ModelKind::Lora
    } else if is_substring("control"@, lower) || is_substring("t2i"@, lower) {
        ModelKind::Control
    } else if is_substring("clip"@, lower) || is_substring("vit"@, lower) || is_substring(
        "vision_model"@,
        lower,
    ) {
        ModelKind::Clip
    } else if is_substring("text_encoder"@, lower) || is_substring("t5"@, lower) {
        ModelKind::Text
    } else if is_substring("vae"@, lower) || is_substring("autoencoder"@, lower) {
        ModelKind::Vae
    } else if is_substring("face"@, lower) || is_substring("gfpgan"@, lower) || is_substring(
        "restoreformer"@,
        lower,
    ) {
        ModelKind::FaceRestorer
    } else if is_substring("upscale"@, lower) || is_substring("esrgan"@, lower) || is_substring(
        "realesrgan"@,
        lower,
    ) {
        ModelKind::Upscaler
    } else {
        ModelKind::Unknown
    }
}

/// Applies the keyword rules to a file name that is already lowercase.
pub fn kind_of_lowercase(lower: &str) -> (kind: ModelKind)
    ensures
        kind == heuristic_kind(lower@),
{
    if contains_text(lower, "lora") || contains_text(lower, "lycoris") {
        ModelKind::Lora
    } else if contains_text(lower, "control") || contains_text(lower, "t2i") {
        ModelKind::Control
    } else if contains_text(lower, "clip") || contains_text(lower, "vit") || contains_text(
        lower,
        "vision_model",
    ) {
        ModelKind::Clip
    } else if contains_text(lower, "text_encoder") || contains_text(lower, "t5") {
        ModelKind::Text
    } else if contains_text(lower, "vae") || contains_text(lower, "autoencoder") {
        ModelKind::Vae
    } else if contains_text(lower, "face") || contains_text(lower, "gfpgan") || contains_text(
        lower,
        "restoreformer",
    ) {
        ModelKind::FaceRestorer
    } else if contains_text(lower, "upscale") || contains_text(lower, "esrgan") || contains_text(
        lower,
        "realesrgan",
    ) {
        ModelKind::Upscaler
    } else {
        ModelKind::Unknown
    }
}

/// Guesses the kind of a file from its name alone: the name is lowercased and
/// the keyword rules of [`heuristic_kind`] are applied.
pub fn detect_model_kind(filename: &str) -> (kind: ModelKind)
    ensures
        kind == heuristic_kind(lowercase_of(filename@)),
{
    let lower: String = to_lowercase(filename);
    kind_of_lowercase(lower.as_str())
}

/// The stored name of the kind that [`detect_model_kind`] gives.
pub fn detect_model_type(filename: &str) -> (kind: String)
    ensures
        kind@ == heuristic_kind(lowercase_of(filename@)).name(),
{
    detect_model_kind(filename).as_str().to_string()
}

/// The kind that a first-time import gives a file when neither the manifest
/// nor the registry knows it: the stored name of the kind that the keyword
/// rules of [`heuristic_kind`] give its lowercased name. There is one rule
/// table, and this is it.
pub fn determine_model_type(filename: &str) -> (kind: String)
    ensures
        kind@ == heuristic_kind(lowercase_of(filename@)).name(),
{
    detect_model_type(filename)
}

} // verus!
