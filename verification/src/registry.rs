//! The registry of known file names per kind, filled from plain-text lists
//! with one file name per line.

use vstd::prelude::*;
use vstd::string::*;
use vstd::hash_set::StringHashSet;
use crate::kind::ModelKind;
use crate::text::{chars_of, find_line_end, find_trim_end, find_trim_start, line_end, trimmed_range};

verus! {

/// Where the lists of known file names can be fetched, one address per kind.
#[derive(Debug, Clone)]
pub struct GithubModelTypes {
    pub models: Option<String>,
    pub loras: Option<String>,
    pub controlnets: Option<String>,
    pub embeddings: Option<String>,
}

/// The file names known for each kind.
pub struct ModelTypeRegistry {
    pub main_models: StringHashSet,
    pub loras: StringHashSet,
    pub controlnets: StringHashSet,
    pub embeddings: StringHashSet,
}

/// Whether a trimmed line of a list names a file: it is neither empty nor a
/// comment, which starts with `#`.
pub open spec fn names_a_file(line: Seq<char>) -> bool {
    line.len() > 0 && line[0] != '#'
}

/// The file names listed in `text` from position `from` on: each line,
/// trimmed of white space, that is neither empty nor a comment. Lines are
/// separated by line feeds.
pub open spec fn listed_names(text: Seq<char>, from: int) -> Set<Seq<char>>
    decreases text.len() - from,
{
    if from >= text.len() || from < 0 {
        Set::empty()
    } else {
        let end = line_end(text, from);
        let line = trimmed_range(text, from, end);
        let rest = if from <= end < text.len() {
            listed_names(text, end + 1)
        } else {
            Set::empty()
        };
        if names_a_file(line) {
            rest.insert(line)
        } else {
            rest
        }
    }
}

/// The kind under which the four sets list a file name, if any. A name listed
/// under several kinds has the first of model, lora, control and embedding.
pub open spec fn registry_kind(
    main_models: Set<Seq<char>>,
    loras: Set<Seq<char>>,
    controlnets: Set<Seq<char>>,
    embeddings: Set<Seq<char>>,
    filename: Seq<char>,
) -> Option<ModelKind> {
    if main_models.contains(filename) {
        Some(ModelKind::Model)
    } else if loras.contains(filename) {
        Some(ModelKind::Lora)
    } else if controlnets.contains(filename) {
        Some(ModelKind::Control)
    } else if embeddings.contains(filename) {
        Some(ModelKind::Embedding)
    } else {
        None
    }
}

/// Reads a list of file names: one per line, surrounding white space and
/// blank lines ignored, lines that start with `#` skipped.
pub fn parse_model_list(text: &str) -> (names: StringHashSet)
    ensures
        names@ == listed_names(text@, 0),
{
    let chars: Vec<char> = chars_of(text);
    let mut names: StringHashSet = StringHashSet::new();
    let mut at: usize = 0;
    while at < chars.len()
        invariant
            chars@ == text@,
            at <= chars.len(),
            names@.union(listed_names(text@, at as int)) == listed_names(text@, 0),
        decreases chars.len() - at,
    {
        let end: usize = find_line_end(&chars, at);
        let start: usize = find_trim_start(&chars, at, end);
        let stop: usize = find_trim_end(&chars, at, end);
        let ghost before = names@;
        let ghost line = trimmed_range(text@, at as int, end as int);
        if start < stop {
            let first: char = chars[start];
            if first != '#' {
                let name: String = text.substring_char(start, stop).to_owned();
                assert(name@ == line);
                names.insert(name);
            }
        }
        let next: usize = if end < chars.len() {
            end + 1
        } else {
            end
        };
        proof {
            let rest = listed_names(text@, next as int);
            if names_a_file(line) {
                assert(names@ == before.insert(line));
                assert(before.insert(line).union(rest) =~= before.union(rest.insert(line)));
            } else {
                assert(names@ == before);
            }
        }
        at = next;
    }
    proof {
        assert(names@.union(Set::<Seq<char>>::empty()) =~= names@);
    }
    names
}

impl ModelTypeRegistry {
    /// The kind under which the registry lists a file name, if any.
    pub open spec fn kind_of(&self, filename: Seq<char>) -> Option<ModelKind> {
        registry_kind(
            self.main_models@,
            self.loras@,
            self.controlnets@,
            self.embeddings@,
            filename,
        )
    }

    /// A registry that lists nothing.
    pub fn new() -> (registry: Self)
        ensures
            registry.main_models@ == Set::<Seq<char>>::empty(),
            registry.loras@ == Set::<Seq<char>>::empty(),
            registry.controlnets@ == Set::<Seq<char>>::empty(),
            registry.embeddings@ == Set::<Seq<char>>::empty(),
    {
        ModelTypeRegistry {
            main_models: StringHashSet::new(),
            loras: StringHashSet::new(),
            controlnets: StringHashSet::new(),
            embeddings: StringHashSet::new(),
        }
    }

    /// Builds the registry from the texts of the four lists. A list that was
    /// not configured or could not be fetched is passed as `None` and leaves
    /// its kind without known names.
    pub fn load_from_texts(
        models: Option<&str>,
        loras: Option<&str>,
        controlnets: Option<&str>,
        embeddings: Option<&str>,
    ) -> (registry: Self)
        ensures
            registry.main_models@ == optional_names(models),
            registry.loras@ == optional_names(loras),
            registry.controlnets@ == optional_names(controlnets),
            registry.embeddings@ == optional_names(embeddings),
    {
        ModelTypeRegistry {
            main_models: parse_optional_list(models),
            loras: parse_optional_list(loras),
            controlnets: parse_optional_list(controlnets),
            embeddings: parse_optional_list(embeddings),
        }
    }

    /// Whether the file name is a known main model.
    pub fn is_main_model(&self, filename: &str) -> (known: bool)
        ensures
            known == self.main_models@.contains(filename@),
    {
        self.main_models.contains(filename)
    }

    /// Whether the file name is a known LoRA.
    pub fn is_lora(&self, filename: &str) -> (known: bool)
        ensures
            known == self.loras@.contains(filename@),
    {
        self.loras.contains(filename)
    }

    /// Whether the file name is a known ControlNet.
    pub fn is_controlnet(&self, filename: &str) -> (known: bool)
        ensures
            known == self.controlnets@.contains(filename@),
    {
        self.controlnets.contains(filename)
    }

    /// Whether the file name is a known embedding.
    pub fn is_embedding(&self, filename: &str) -> (known: bool)
        ensures
            known == self.embeddings@.contains(filename@),
    {
        self.embeddings.contains(filename)
    }

    /// The kind under which the registry lists the file name.
    pub fn lookup(&self, filename: &str) -> (kind: Option<ModelKind>)
        ensures
            kind == self.kind_of(filename@),
    {
        if self.is_main_model(filename) {
            Some(ModelKind::Model)
        } else if self.is_lora(filename) {
            Some(ModelKind::Lora)
        } else if self.is_controlnet(filename) {
            Some(ModelKind::Control)
        } else if self.is_embedding(filename) {
            Some(ModelKind::Embedding)
        } else {
            None
        }
    }

    /// The stored name of the kind under which the registry lists the file
    /// name, or `None` when it lists it nowhere.
    pub fn get_model_type(&self, filename: &str) -> (kind: Option<String>)
        ensures
            kind is Some == self.kind_of(filename@) is Some,
            kind matches Some(name) ==> name@ == self.kind_of(filename@)->0.name(),
    {
        match self.lookup(filename) {
            Some(kind) => Some(kind.as_str().to_string()),
            None => None,
        }
    }
}

/// The names that an optional list text holds: none when the text is absent.
pub open spec fn optional_names(text: Option<&str>) -> Set<Seq<char>> {
    match text {
        Some(text) => listed_names(text@, 0),
        None => Set::empty(),
    }
}

/// Reads an optional list text.
pub fn parse_optional_list(text: Option<&str>) -> (names: StringHashSet)
    ensures
        names@ == optional_names(text),
{
    match text {
        Some(text) => parse_model_list(text),
        None => StringHashSet::new(),
    }
}

} // verus!
