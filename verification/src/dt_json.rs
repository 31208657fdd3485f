//! The local manifest: the lists of custom models, LoRAs and ControlNets that
//! the host application keeps, and the lookup tables built from them.

use vstd::prelude::*;
use vstd::hash_map::StringHashMap;
use crate::error::{EngineError, ErrorView};
use crate::kind::ModelKind;
use crate::models::opt_text;

verus! {

/// A main model of the manifest with the encoders that it uses.
#[derive(Debug, Clone)]
pub struct CustomModel {
    pub name: String,
    pub file: String,
    pub autoencoder: Option<String>,
    pub clip_encoder: Option<String>,
    pub text_encoder: Option<String>,
    pub version: Option<String>,
}

/// A LoRA of the manifest. Its strength is held in tenths.
#[derive(Debug, Clone)]
pub struct CustomLora {
    pub name: String,
    pub file: String,
    pub strength: Option<i32>,
    pub version: Option<String>,
}

/// A ControlNet of the manifest.
#[derive(Debug, Clone)]
pub struct CustomControlNet {
    pub name: String,
    pub file: String,
    pub version: Option<String>,
}

/// The manifest with its lookup tables, each keyed by file name.
pub struct DrawThingsConfig {
    pub models: Vec<CustomModel>,
    pub loras: Vec<CustomLora>,
    pub controlnets: Vec<CustomControlNet>,
    pub file_to_model_name: StringHashMap<String>,
    pub file_to_model_type: StringHashMap<ModelKind>,
    pub file_to_display_order: StringHashMap<i32>,
    pub file_to_lora_strength: StringHashMap<i32>,
    pub main_model_to_encoders: StringHashMap<Vec<String>>,
}

/// A table with a value under a key unless the key already has one.
pub open spec fn or_insert<V>(table: Map<Seq<char>, V>, key: Option<Seq<char>>, value: V) -> Map<
    Seq<char>,
    V,
> {
    match key {
        Some(key) => if table.contains_key(key) {
            table
        } else {
            table.insert(key, value)
        },
        None => table,
    }
}

/// The encoders that a main model names, in the order autoencoder, clip
/// encoder, text encoder.
pub open spec fn encoders_of(model: CustomModel) -> Seq<Seq<char>> {
    let first: Seq<Seq<char>> = match model.autoencoder {
        Some(file) => seq![file@],
        None => Seq::empty(),
    };
    let second: Seq<Seq<char>> = match model.clip_encoder {
        Some(file) => first.push(file@),
        None => first,
    };
    match model.text_encoder {
        Some(file) => second.push(file@),
        None => second,
    }
}

/// The display names after the main models were read.
pub open spec fn names_of_models(models: Seq<CustomModel>) -> Map<Seq<char>, Seq<char>>
    decreases models.len(),
{
    if models.len() == 0 {
        Map::empty()
    } else {
        names_of_models(models.drop_last()).insert(models.last().file@, models.last().name@)
    }
}

/// The display names after the LoRAs were read on top of `base`.
pub open spec fn names_with_loras(base: Map<Seq<char>, Seq<char>>, loras: Seq<CustomLora>) -> Map<
    Seq<char>,
    Seq<char>,
>
    decreases loras.len(),
{
    if loras.len() == 0 {
        base
    } else {
        names_with_loras(base, loras.drop_last()).insert(loras.last().file@, loras.last().name@)
    }
}

/// The display names after the ControlNets were read on top of `base`.
pub open spec fn names_with_controlnets(
    base: Map<Seq<char>, Seq<char>>,
    controlnets: Seq<CustomControlNet>,
) -> Map<Seq<char>, Seq<char>>
    decreases controlnets.len(),
{
    if controlnets.len() == 0 {
        base
    } else {
        names_with_controlnets(base, controlnets.drop_last()).insert(
            controlnets.last().file@,
            controlnets.last().name@,
        )
    }
}

/// The kinds after the main models were read: a main model is a model, and
/// each encoder it names gets its kind unless the file has one already.
pub open spec fn kinds_of_models(models: Seq<CustomModel>) -> Map<Seq<char>, ModelKind>
    decreases models.len(),
{
    if models.len() == 0 {
        Map::empty()
    } else {
        let model = models.last();
        let own = kinds_of_models(models.drop_last()).insert(model.file@, ModelKind::Model);
        let vae = or_insert(own, opt_text(model.autoencoder), ModelKind::Vae);
        let clip = or_insert(vae, opt_text(model.clip_encoder), ModelKind::Clip);
        or_insert(clip, opt_text(model.text_encoder), ModelKind::Text)
    }
}

/// The kinds after the LoRAs were read on top of `base`.
pub open spec fn kinds_with_loras(base: Map<Seq<char>, ModelKind>, loras: Seq<CustomLora>) -> Map<
    Seq<char>,
    ModelKind,
>
    decreases loras.len(),
{
    if loras.len() == 0 {
        base
    } else {
        kinds_with_loras(base, loras.drop_last()).insert(loras.last().file@, ModelKind::Lora)
    }
}

/// The kinds after the ControlNets were read on top of `base`.
pub open spec fn kinds_with_controlnets(
    base: Map<Seq<char>, ModelKind>,
    controlnets: Seq<CustomControlNet>,
) -> Map<Seq<char>, ModelKind>
    decreases controlnets.len(),
{
    if controlnets.len() == 0 {
        base
    } else {
        kinds_with_controlnets(base, controlnets.drop_last()).insert(
            controlnets.last().file@,
            ModelKind::Control,
        )
    }
}

/// The display order of the entry at a position of its list: the position
/// itself, held at the largest order for positions beyond its range.
pub open spec fn order_at(position: int) -> i32 {
    if position > i32::MAX {
        i32::MAX
    } else {
        position as i32
    }
}

/// The display orders after the main models were read: each file has the
/// position of its last entry in the list.
pub open spec fn orders_of_models(models: Seq<CustomModel>) -> Map<Seq<char>, i32>
    decreases models.len(),
{
    if models.len() == 0 {
        Map::empty()
    } else {
        orders_of_models(models.drop_last()).insert(
            models.last().file@,
            order_at(models.len() - 1),
        )
    }
}

/// The display orders after the LoRAs were read on top of `base`.
pub open spec fn orders_with_loras(base: Map<Seq<char>, i32>, loras: Seq<CustomLora>) -> Map<
    Seq<char>,
    i32,
>
    decreases loras.len(),
{
    if loras.len() == 0 {
        base
    } else {
        orders_with_loras(base, loras.drop_last()).insert(
            loras.last().file@,
            order_at(loras.len() - 1),
        )
    }
}

/// The display orders after the ControlNets were read on top of `base`.
pub open spec fn orders_with_controlnets(
    base: Map<Seq<char>, i32>,
    controlnets: Seq<CustomControlNet>,
) -> Map<Seq<char>, i32>
    decreases controlnets.len(),
{
    if controlnets.len() == 0 {
        base
    } else {
        orders_with_controlnets(base, controlnets.drop_last()).insert(
            controlnets.last().file@,
            order_at(controlnets.len() - 1),
        )
    }
}

/// The strengths of the LoRAs that state one.
pub open spec fn strengths_of_loras(loras: Seq<CustomLora>) -> Map<Seq<char>, i32>
    decreases loras.len(),
{
    if loras.len() == 0 {
        Map::empty()
    } else {
        match loras.last().strength {
            Some(strength) => strengths_of_loras(loras.drop_last()).insert(
                loras.last().file@,
                strength,
            ),
            None => strengths_of_loras(loras.drop_last()),
        }
    }
}

/// The encoders of the main models that name at least one.
pub open spec fn encoders_of_models(models: Seq<CustomModel>) -> Map<Seq<char>, Seq<Seq<char>>>
    decreases models.len(),
{
    if models.len() == 0 {
        Map::empty()
    } else if encoders_of(models.last()).len() > 0 {
        encoders_of_models(models.drop_last()).insert(
            models.last().file@,
            encoders_of(models.last()),
        )
    } else {
        encoders_of_models(models.drop_last())
    }
}

/// The texts of a table of strings.
pub open spec fn text_table(table: Map<Seq<char>, String>) -> Map<Seq<char>, Seq<char>> {
    Map::new(|key: Seq<char>| table.contains_key(key), |key: Seq<char>| table[key]@)
}

/// The texts of a table of lists of strings.
pub open spec fn list_table(table: Map<Seq<char>, Vec<String>>) -> Map<Seq<char>, Seq<Seq<char>>> {
    Map::new(|key: Seq<char>| table.contains_key(key), |key: Seq<char>| table[key].deep_view())
}

/// A copy of a list of strings.
pub fn copy_texts(texts: &Vec<String>) -> (copy: Vec<String>)
    ensures
        copy.deep_view() == texts.deep_view(),
{
    let mut copy: Vec<String> = Vec::new();
    let mut at: usize = 0;
    while at < texts.len()
        invariant
            at <= texts.len(),
            copy.len() == at,
            forall|i: int| 0 <= i < at ==> #[trigger] copy[i]@ == texts[i]@,
        decreases texts.len() - at,
    {
        copy.push(texts[at].clone());
        at += 1;
    }
    assert(copy.deep_view() =~= texts.deep_view());
    copy
}

impl CustomModel {
    /// The encoders that the model names.
    pub fn encoders(&self) -> (files: Vec<String>)
        ensures
            files.deep_view() == encoders_of(*self),
    {
        let mut files: Vec<String> = Vec::new();
        match &self.autoencoder {
            Some(file) => {
                files.push(file.clone());
            },
            None => {},
        }
        match &self.clip_encoder {
            Some(file) => {
                files.push(file.clone());
            },
            None => {},
        }
        match &self.text_encoder {
            Some(file) => {
                files.push(file.clone());
            },
            None => {},
        }
        assert(files.deep_view() =~= encoders_of(*self));
        files
    }
}

/// The display order of the entry at a position of its list.
fn position_order(position: usize) -> (order: i32)
    ensures
        order == order_at(position as int),
{
    if position > i32::MAX as usize {
        i32::MAX
    } else {
        position as i32
    }
}

/// Gives a file a kind unless it has one already.
fn insert_kind_if_absent(table: &mut StringHashMap<ModelKind>, file: &Option<String>, kind: ModelKind)
    ensures
        final(table)@ == or_insert(old(table)@, opt_text(*file), kind),
{
    match file {
        Some(file) => {
            if !table.contains_key(file.as_str()) {
                table.insert(file.clone(), kind);
            }
        },
        None => {},
    }
}

impl DrawThingsConfig {
    /// Whether the lookup tables are those that the three lists give.
    pub open spec fn wf(&self) -> bool {
        &&& text_table(self.file_to_model_name@) == names_with_controlnets(
            names_with_loras(names_of_models(self.models@), self.loras@),
            self.controlnets@,
        )
        &&& self.file_to_model_type@ == kinds_with_controlnets(
            kinds_with_loras(kinds_of_models(self.models@), self.loras@),
            self.controlnets@,
        )
        &&& self.file_to_display_order@ == orders_with_controlnets(
            orders_with_loras(orders_of_models(self.models@), self.loras@),
            self.controlnets@,
        )
        &&& self.file_to_lora_strength@ == strengths_of_loras(self.loras@)
        &&& list_table(self.main_model_to_encoders@) == encoders_of_models(self.models@)
    }

    /// The display name that the manifest gives a file.
    pub open spec fn display_name_of(&self, filename: Seq<char>) -> Option<Seq<char>> {
        if self.file_to_model_name@.contains_key(filename) {
            Some(self.file_to_model_name@[filename]@)
        } else {
            None
        }
    }

    /// The kind that the manifest gives a file.
    pub open spec fn kind_of(&self, filename: Seq<char>) -> Option<ModelKind> {
        if self.file_to_model_type@.contains_key(filename) {
            Some(self.file_to_model_type@[filename])
        } else {
            None
        }
    }

    /// The display order that the manifest gives a file.
    pub open spec fn order_of(&self, filename: Seq<char>) -> Option<i32> {
        if self.file_to_display_order@.contains_key(filename) {
            Some(self.file_to_display_order@[filename])
        } else {
            None
        }
    }

    /// The strength, in tenths, that the manifest gives a file.
    pub open spec fn strength_of(&self, filename: Seq<char>) -> Option<i32> {
        if self.file_to_lora_strength@.contains_key(filename) {
            Some(self.file_to_lora_strength@[filename])
        } else {
            None
        }
    }

    /// The encoders that the manifest lists for a main model.
    pub open spec fn encoder_files_of(&self, filename: Seq<char>) -> Option<Seq<Seq<char>>> {
        if self.main_model_to_encoders@.contains_key(filename) {
            Some(self.main_model_to_encoders@[filename].deep_view())
        } else {
            None
        }
    }

    /// Whether the manifest has no entries and its tables know no file.
    pub open spec fn knows_nothing(&self) -> bool {
        &&& self.wf()
        &&& self.models@.len() == 0
        &&& self.loras@.len() == 0
        &&& self.controlnets@.len() == 0
        &&& forall|f: Seq<char>| self.kind_of(f) is None
        &&& forall|f: Seq<char>| self.display_name_of(f) is None
        &&& forall|f: Seq<char>| self.order_of(f) is None
        &&& forall|f: Seq<char>| self.strength_of(f) is None
        &&& forall|f: Seq<char>| self.encoder_files_of(f) is None
    }

    /// A manifest without entries.
    pub fn empty() -> (config: DrawThingsConfig)
        ensures
            config.knows_nothing(),
    {
        let config = DrawThingsConfig {
            models: Vec::new(),
            loras: Vec::new(),
            controlnets: Vec::new(),
            file_to_model_name: StringHashMap::new(),
            file_to_model_type: StringHashMap::new(),
            file_to_display_order: StringHashMap::new(),
            file_to_lora_strength: StringHashMap::new(),
            main_model_to_encoders: StringHashMap::new(),
        };
        assert(text_table(config.file_to_model_name@) =~= Map::empty());
        assert(list_table(config.main_model_to_encoders@) =~= Map::empty());
        config
    }

    /// Builds the manifest and its lookup tables from the three lists, read
    /// in the order main models, LoRAs, ControlNets. A file listed more than
    /// once has the name, kind and order of its last entry; an encoder named
    /// by a main model has the kind of an encoder only if nothing listed
    /// before it gave the file a kind.
    pub fn from_lists(
        models: Vec<CustomModel>,
        loras: Vec<CustomLora>,
        controlnets: Vec<CustomControlNet>,
    ) -> (config: DrawThingsConfig)
        ensures
            config.wf(),
            config.models == models,
            config.loras == loras,
            config.controlnets == controlnets,
    {
        let mut names: StringHashMap<String> = StringHashMap::new();
        let mut kinds: StringHashMap<ModelKind> = StringHashMap::new();
        let mut orders: StringHashMap<i32> = StringHashMap::new();
        let mut strengths: StringHashMap<i32> = StringHashMap::new();
        let mut encoders: StringHashMap<Vec<String>> = StringHashMap::new();
        assert(text_table(names@) =~= Map::empty());
        assert(list_table(encoders@) =~= Map::empty());

        let mut at: usize = 0;
        while at < models.len()
            invariant
                at <= models.len(),
                text_table(names@) == names_of_models(models@.take(at as int)),
                kinds@ == kinds_of_models(models@.take(at as int)),
                orders@ == orders_of_models(models@.take(at as int)),
                list_table(encoders@) == encoders_of_models(models@.take(at as int)),
            decreases models.len() - at,
        {
            proof {
                assert(models@.take(at + 1).drop_last() =~= models@.take(at as int));
                assert(models@.take(at + 1).last() == models@[at as int]);
            }
            let model: &CustomModel = &models[at];
            let ghost old_names = names@;
            names.insert(model.file.clone(), model.name.clone());
            assert(text_table(names@) =~= text_table(old_names).insert(model.file@, model.name@));
            kinds.insert(model.file.clone(), ModelKind::Model);
            insert_kind_if_absent(&mut kinds, &model.autoencoder, ModelKind::Vae);
            insert_kind_if_absent(&mut kinds, &model.clip_encoder, ModelKind::Clip);
            insert_kind_if_absent(&mut kinds, &model.text_encoder, ModelKind::Text);
            orders.insert(model.file.clone(), position_order(at));
            let files: Vec<String> = model.encoders();
            if files.len() > 0 {
                let ghost old_encoders = encoders@;
                encoders.insert(model.file.clone(), files);
                assert(list_table(encoders@) =~= list_table(old_encoders).insert(
                    model.file@,
                    encoders_of(*model),
                ));
            }
            at += 1;
        }
        assert(models@.take(at as int) =~= models@);

        let ghost model_names = text_table(names@);
        let ghost model_kinds = kinds@;
        let ghost model_orders = orders@;
        let mut at: usize = 0;
        while at < loras.len()
            invariant
                at <= loras.len(),
                text_table(names@) == names_with_loras(model_names, loras@.take(at as int)),
                kinds@ == kinds_with_loras(model_kinds, loras@.take(at as int)),
                orders@ == orders_with_loras(model_orders, loras@.take(at as int)),
                strengths@ == strengths_of_loras(loras@.take(at as int)),
            decreases loras.len() - at,
        {
            proof {
                assert(loras@.take(at + 1).drop_last() =~= loras@.take(at as int));
                assert(loras@.take(at + 1).last() == loras@[at as int]);
            }
            let lora: &CustomLora = &loras[at];
            let ghost old_names = names@;
            names.insert(lora.file.clone(), lora.name.clone());
            assert(text_table(names@) =~= text_table(old_names).insert(lora.file@, lora.name@));
            kinds.insert(lora.file.clone(), ModelKind::Lora);
            orders.insert(lora.file.clone(), position_order(at));
            match lora.strength {
                Some(strength) => {
                    strengths.insert(lora.file.clone(), strength);
                },
                None => {},
            }
            at += 1;
        }
        assert(loras@.take(at as int) =~= loras@);

        let ghost lora_names = text_table(names@);
        let ghost lora_kinds = kinds@;
        let ghost lora_orders = orders@;
        let mut at: usize = 0;
        while at < controlnets.len()
            invariant
                at <= controlnets.len(),
                text_table(names@) == names_with_controlnets(
                    lora_names,
                    controlnets@.take(at as int),
                ),
                kinds@ == kinds_with_controlnets(lora_kinds, controlnets@.take(at as int)),
                orders@ == orders_with_controlnets(lora_orders, controlnets@.take(at as int)),
            decreases controlnets.len() - at,
        {
            proof {
                assert(controlnets@.take(at + 1).drop_last() =~= controlnets@.take(at as int));
                assert(controlnets@.take(at + 1).last() == controlnets@[at as int]);
            }
            let controlnet: &CustomControlNet = &controlnets[at];
            let ghost old_names = names@;
            names.insert(controlnet.file.clone(), controlnet.name.clone());
            assert(text_table(names@) =~= text_table(old_names).insert(
                controlnet.file@,
                controlnet.name@,
            ));
            kinds.insert(controlnet.file.clone(), ModelKind::Control);
            orders.insert(controlnet.file.clone(), position_order(at));
            at += 1;
        }
        assert(controlnets@.take(at as int) =~= controlnets@);

        DrawThingsConfig {
            models,
            loras,
            controlnets,
            file_to_model_name: names,
            file_to_model_type: kinds,
            file_to_display_order: orders,
            file_to_lora_strength: strengths,
            main_model_to_encoders: encoders,
        }
    }

    /// The display name of a file, or `None` if the manifest does not list it.
    pub fn get_display_name(&self, filename: &str) -> (name: Option<String>)
        ensures
            opt_text(name) == self.display_name_of(filename@),
    {
        match self.file_to_model_name.get(filename) {
            Some(name) => Some(name.clone()),
            None => None,
        }
    }

    /// The kind that the manifest gives a file.
    pub fn lookup_kind(&self, filename: &str) -> (kind: Option<ModelKind>)
        ensures
            kind == self.kind_of(filename@),
    {
        match self.file_to_model_type.get(filename) {
            Some(kind) => Some(*kind),
            None => None,
        }
    }

    /// The stored name of the kind that the manifest gives a file, or `None`
    /// if the manifest does not mention the file.
    pub fn get_model_type(&self, filename: &str) -> (kind: Option<String>)
        ensures
            kind is Some == self.kind_of(filename@) is Some,
            kind matches Some(name) ==> name@ == self.kind_of(filename@)->0.name(),
    {
        match self.lookup_kind(filename) {
            Some(kind) => Some(kind.as_str().to_string()),
            None => None,
        }
    }

    /// The display order of a file, or `None` if the manifest does not list
    /// it.
    pub fn get_display_order(&self, filename: &str) -> (order: Option<i32>)
        ensures
            order == self.order_of(filename@),
    {
        match self.file_to_display_order.get(filename) {
            Some(order) => Some(*order),
            None => None,
        }
    }

    /// The strength of a file in tenths, or `None` if the manifest states
    /// none for it.
    pub fn get_lora_strength(&self, filename: &str) -> (strength: Option<i32>)
        ensures
            strength == self.strength_of(filename@),
    {
        match self.file_to_lora_strength.get(filename) {
            Some(strength) => Some(*strength),
            None => None,
        }
    }

    /// The encoders that a main model uses, or `None` if it names none.
    pub fn get_model_encoders(&self, filename: &str) -> (files: Option<Vec<String>>)
        ensures
            files is Some == self.encoder_files_of(filename@) is Some,
            files matches Some(list) ==> list.deep_view() == self.encoder_files_of(filename@)->0,
    {
        match self.main_model_to_encoders.get(filename) {
            Some(list) => Some(copy_texts(list)),
            None => None,
        }
    }

    /// Whether the manifest mentions the file, as an entry or as an encoder.
    pub fn is_file_in_config(&self, filename: &str) -> (mentioned: bool)
        ensures
            mentioned == self.kind_of(filename@) is Some,
    {
        self.file_to_model_type.contains_key(filename)
    }
}

/// The manifest to work with after an attempt to read it: the manifest that
/// was read, or, when reading failed, a manifest without entries together
/// with the failure. A manifest that cannot be read is never fatal: the work
/// goes on as if there were none.
pub fn manifest_or_empty(parsed: Result<DrawThingsConfig, String>) -> (result: (
    DrawThingsConfig,
    Option<EngineError>,
))
    ensures
        match parsed {
            Ok(config) => result.0 == config && result.1 is None,
            Err(reason) => result.0.knows_nothing() && result.1 is Some && result.1->0@
                == ErrorView::ManifestParseFailure(reason@),
        },
{
    match parsed {
        Ok(config) => (config, None),
        Err(reason) => (DrawThingsConfig::empty(), Some(EngineError::ManifestParseFailure(reason))),
    }
}

} // verus!
