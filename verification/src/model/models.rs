//! The listing of the models that the server holds.

use crate::json::{
    content, contents, get_items, get_member, integer_of, json_of_bytes, optional, optional_text,
    parse_bytes, required, required_integer, required_text, required_texts, text_of, text_views,
    texts_of, Json,
};
use crate::time::{timestamp_of, Timestamp};
use vstd::prelude::*;

verus! {

/// How a model is built.
#[derive(Clone, Debug, PartialEq, Eq)]
pub struct ModelDetails {
    pub format: String,
    pub family: String,
    pub families: Vec<String>,
    pub parameter_size: String,
    pub quantization_level: String,
}

/// A model's details as a mathematical value.
pub struct ModelDetailsView {
    pub format: Seq<char>,
    pub family: Seq<char>,
    pub families: Seq<Seq<char>>,
    pub parameter_size: Seq<char>,
    pub quantization_level: Seq<char>,
}

impl View for ModelDetails {
    type V = ModelDetailsView;

    open spec fn view(&self) -> ModelDetailsView {
        ModelDetailsView {
            format: self.format@,
            family: self.family@,
            families: text_views(self.families@),
            parameter_size: self.parameter_size@,
            quantization_level: self.quantization_level@,
        }
    }
}

/// The details that a JSON document denotes: an object with the texts
/// `format`, `family`, `parameter_size` and `quantization_level` and the
/// array of texts `families`.
pub open spec fn model_details_of(json: Json) -> Option<ModelDetailsView> {
    let format = required(json, "format"@, |j: Json| text_of(j));
    let family = required(json, "family"@, |j: Json| text_of(j));
    let families = required(json, "families"@, |j: Json| texts_of(j));
    let parameter_size = required(json, "parameter_size"@, |j: Json| text_of(j));
    let quantization_level = required(json, "quantization_level"@, |j: Json| text_of(j));
    if format is Some && family is Some && families is Some && parameter_size is Some
        && quantization_level is Some {
        Some(
            ModelDetailsView {
                format: format->Some_0,
                family: family->Some_0,
                families: families->Some_0,
                parameter_size: parameter_size->Some_0,
                quantization_level: quantization_level->Some_0,
            },
        )
    } else {
        None
    }
}

impl ModelDetails {
    /// Reads the details from a parsed document.
    pub fn from_json(value: &serde_json::Value) -> (r: Option<ModelDetails>)
        ensures
            match r {
                Some(details) => model_details_of(content(*value)) == Some(details@),
                None => model_details_of(content(*value)) is None,
            },
    {
        let format = required_text(value, "format")?;
        let family = required_text(value, "family")?;
        let families = required_texts(value, "families")?;
        let parameter_size = required_text(value, "parameter_size")?;
        let quantization_level = required_text(value, "quantization_level")?;
        Some(ModelDetails { format, family, families, parameter_size, quantization_level })
    }
}

/// One model of the listing.
#[derive(Clone, Debug, PartialEq, Eq)]
pub struct Model {
    pub name: String,
    /// A second name of the model, where the server gives one.
    pub model: Option<String>,
    pub modified_at: Timestamp,
    /// The size in bytes.
    pub size: i64,
    pub digest: String,
    pub details: ModelDetails,
}

/// A model as a mathematical value.
pub struct ModelView {
    pub name: Seq<char>,
    pub model: Option<Seq<char>>,
    pub modified_at: Timestamp,
    pub size: i64,
    pub digest: Seq<char>,
    pub details: ModelDetailsView,
}

impl View for Model {
    type V = ModelView;

    open spec fn view(&self) -> ModelView {
        ModelView {
            name: self.name@,
            model: match self.model {
                Some(model) => Some(model@),
                None => None,
            },
            modified_at: self.modified_at,
            size: self.size,
            digest: self.digest@,
            details: self.details@,
        }
    }
}

/// The model that a JSON document denotes: an object with the texts `name`,
/// `modified_at` (an instant) and `digest`, the integer `size` and the
/// details `details`; the text `model` may be absent or `null`.
pub open spec fn model_of(json: Json) -> Option<ModelView> {
    let name = required(json, "name"@, |j: Json| text_of(j));
    let model = optional(json, "model"@, |j: Json| text_of(j));
    let modified_at = match required(json, "modified_at"@, |j: Json| text_of(j)) {
        Some(text) => timestamp_of(text),
        None => None,
    };
    let size = required(json, "size"@, |j: Json| integer_of(j));
    let digest = required(json, "digest"@, |j: Json| text_of(j));
    let details = required(json, "details"@, |j: Json| model_details_of(j));
    if name is Some && model is Some && modified_at is Some && size is Some && digest is Some
        && details is Some {
        Some(
            ModelView {
                name: name->Some_0,
                model: model->Some_0,
                modified_at: modified_at->Some_0,
                size: size->Some_0,
                digest: digest->Some_0,
                details: details->Some_0,
            },
        )
    } else {
        None
    }
}

impl Model {
    /// Reads a model from a parsed document.
    pub fn from_json(value: &serde_json::Value) -> (r: Option<Model>)
        ensures
            match r {
                Some(model) => model_of(content(*value)) == Some(model@),
                None => model_of(content(*value)) is None,
            },
    {
        let name = required_text(value, "name")?;
        let model = optional_text(value, "model")?;
        let modified_at = Timestamp::parse(required_text(value, "modified_at")?.as_str())?;
        let size = required_integer(value, "size")?;
        let digest = required_text(value, "digest")?;
        let details = ModelDetails::from_json(get_member(value, "details")?)?;
        Some(Model { name, model, modified_at, size, digest, details })
    }
}

/// The models that the server holds.
#[derive(Clone, Debug, PartialEq, Eq)]
pub struct ModelList {
    pub models: Vec<Model>,
}

/// The views of a sequence of models.
pub open spec fn model_views(models: Seq<Model>) -> Seq<ModelView> {
    models.map_values(|model: Model| model@)
}

impl View for ModelList {
    type V = Seq<ModelView>;

    open spec fn view(&self) -> Seq<ModelView> {
        model_views(self.models@)
    }
}

/// The models that a JSON document denotes: an array of models.
pub open spec fn models_of(json: Json) -> Option<Seq<ModelView>> {
    match json {
        Json::Array(items) => if forall|i: int|
            0 <= i < items.len() ==> model_of(#[trigger] items[i]) is Some {
            Some(Seq::new(items.len(), |i: int| model_of(items[i])->Some_0))
        } else {
            None
        },
        _ => None,
    }
}

/// The listing that a JSON document denotes: an object with the array of
/// models `models`.
pub open spec fn model_list_of(json: Json) -> Option<Seq<ModelView>> {
    required(json, "models"@, |j: Json| models_of(j))
}

/// The listing that a parsed reply, or the lack of one, stands for: the
/// listing that the document denotes, and the empty listing where there is
/// no document or it denotes none.
pub open spec fn listing_of_json(json: Option<Json>) -> Seq<ModelView> {
    match json {
        Some(json) => match model_list_of(json) {
            Some(models) => models,
            None => Seq::empty(),
        },
        None => Seq::empty(),
    }
}

/// The listing that the body of a reply stands for.
pub open spec fn listing_of_body(body: Seq<u8>) -> Seq<ModelView> {
    listing_of_json(json_of_bytes(body))
}

/// A reply that is no JSON document, or a document that denotes no listing,
/// stands for the empty listing.
pub proof fn lemma_undecodable_reply_lists_nothing(json: Option<Json>)
    requires
        json is None || model_list_of(json->Some_0) is None,
    ensures
        listing_of_json(json) == Seq::<ModelView>::empty(),
{
}

impl ModelList {
    /// The listing without models.
    pub fn empty() -> (list: ModelList)
        ensures
            list@ == Seq::<ModelView>::empty(),
    {
        let list = ModelList { models: Vec::new() };
        assert(list@ =~= Seq::<ModelView>::empty());
        list
    }

    /// Reads a listing from a parsed document.
    pub fn from_json(value: &serde_json::Value) -> (r: Option<ModelList>)
        ensures
            match r {
                Some(list) => model_list_of(content(*value)) == Some(list@),
                None => model_list_of(content(*value)) is None,
            },
    {
        let items = get_items(get_member(value, "models")?)?;
        let ghost documents = contents(items@);
        let mut models: Vec<Model> = Vec::new();
        let mut i: usize = 0;
        while i < items.len()
            invariant
                0 <= i <= items.len(),
                documents == contents(items@),
                model_list_of(content(*value)) == models_of(Json::Array(documents)),
                models@.len() == i,
                forall|k: int| 0 <= k < i ==> model_of(#[trigger] documents[k]) == Some(models@[k]@),
            decreases items.len() - i,
        {
            match Model::from_json(&items[i]) {
                Some(model) => {
                    models.push(model);
                },
                None => {
                    assert(model_of(documents[i as int]) is None);
                    return None;
                },
            }
            i += 1;
        }
        let list = ModelList { models };
        assert(models_of(Json::Array(documents))->Some_0 =~= list@);
        Some(list)
    }

    /// The listing that the outcome of parsing a reply's body stands for.
    pub fn from_parsed(parsed: Result<serde_json::Value, serde_json::Error>) -> (list: ModelList)
        ensures
            list@ == listing_of_json(
                match parsed {
                    Ok(value) => Some(content(value)),
                    Err(_) => None,
                },
            ),
    {
        match parsed {
            Ok(value) => match ModelList::from_json(&value) {
                Some(list) => list,
                None => ModelList::empty(),
            },
            Err(_) => ModelList::empty(),
        }
    }

    /// Decodes the body of a reply to the listing operation. A body that
    /// does not decode is taken for the empty listing: the operation reports
    /// no decoding failure.
    pub fn from_body(body: &[u8]) -> (list: ModelList)
        ensures
            list@ == listing_of_body(body@),
    {
        ModelList::from_parsed(parse_bytes(body))
    }
}

} // verus!
