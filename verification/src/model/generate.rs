//! The generation operation: its request and the records of its reply.

use crate::decode::{gives_counters, Record};
use crate::json::{
    flag_of, integer_of, integers_of, json_literal, optional, optional_integer,
    optional_integers, required, required_flag, required_text, text_of, Json,
};
use crate::model::parameter::{parameter_text, Parameter, ParameterView};
use crate::time::{timestamp_of, Timestamp};
use crate::write::{member_text, object_text, optional_member, Sequence};
use vstd::prelude::*;

verus! {

/// What to ask of the generation operation.
#[derive(Clone, Debug, PartialEq, Eq)]
pub struct GenerateRequestParameters {
    pub model: String,
    pub prompt: Option<String>,
    pub options: Option<Parameter>,
}

/// A generation request as a mathematical value.
pub struct GenerateRequestView {
    pub model: Seq<char>,
    pub prompt: Option<Seq<char>>,
    pub options: Option<ParameterView>,
}

impl View for GenerateRequestParameters {
    type V = GenerateRequestView;

    open spec fn view(&self) -> GenerateRequestView {
        GenerateRequestView {
            model: self.model@,
            prompt: match self.prompt {
                Some(prompt) => Some(prompt@),
                None => None,
            },
            options: match self.options {
                Some(options) => Some(options@),
                None => None,
            },
        }
    }
}

/// The members of a generation request's JSON object, in the alphabetical
/// order of their names; `options` and `prompt` are left out where they are
/// not set.
pub open spec fn generate_request_members(request: GenerateRequestView) -> Seq<Seq<char>> {
    seq![member_text("model"@, json_literal(request.model))] + optional_member(
        "options"@,
        match request.options {
            Some(options) => Some(parameter_text(options)),
            None => None,
        },
    ) + optional_member(
        "prompt"@,
        match request.prompt {
            Some(prompt) => Some(json_literal(prompt)),
            None => None,
        },
    )
}

/// A generation request as JSON text.
pub open spec fn generate_request_text(request: GenerateRequestView) -> Seq<char> {
    object_text(generate_request_members(request))
}

/// A request that sets the model alone is written as an object with the one
/// member `model`.
pub proof fn lemma_bare_generate_request_text(request: GenerateRequestView)
    requires
        request.prompt is None,
        request.options is None,
    ensures
        generate_request_members(request) == seq![
            member_text("model"@, json_literal(request.model)),
        ],
        generate_request_text(request) == seq!['{'] + member_text(
            "model"@,
            json_literal(request.model),
        ) + seq!['}'],
{
    assert(generate_request_members(request) =~= seq![
        member_text("model"@, json_literal(request.model)),
    ]);
}

impl GenerateRequestParameters {
    /// Writes the request as a JSON object.
    pub fn to_json(&self) -> (text: String)
        ensures
            text@ == generate_request_text(self@),
    {
        let mut seq = Sequence::object();
        seq.text_member("model", self.model.as_str());
        match &self.options {
            Some(options) => {
                let text = options.to_json();
                seq.member("options", text.as_str());
            },
            None => {},
        }
        match &self.prompt {
            Some(prompt) => {
                seq.text_member("prompt", prompt.as_str());
            },
            None => {},
        }
        assert(seq.parts() =~= generate_request_members(self@));
        seq.end_object()
    }
}

impl Default for GenerateRequestParameters {
    fn default() -> (request: GenerateRequestParameters)
        ensures
            request@.model == Seq::<char>::empty(),
            request@.prompt is None,
            request@.options is None,
    {
        GenerateRequestParameters { model: String::new(), prompt: None, options: None }
    }
}

/// One record of a generation reply. The counters are the server's to give:
/// it sends them with the last record of a stream only.
#[derive(Clone, Debug, PartialEq, Eq)]
pub struct GenerateResponse {
    pub model: String,
    pub created_at: Timestamp,
    pub response: String,
    pub done: bool,
    /// Durations are in nanoseconds.
    pub total_duration: Option<i64>,
    pub load_duration: Option<i64>,
    pub prompt_eval_count: Option<i64>,
    pub prompt_eval_duration: Option<i64>,
    pub eval_count: Option<i64>,
    pub eval_duration: Option<i64>,
    pub context: Option<Vec<i64>>,
}

/// A generation record as a mathematical value.
pub struct GenerateResponseView {
    pub model: Seq<char>,
    pub created_at: Timestamp,
    pub response: Seq<char>,
    pub done: bool,
    pub total_duration: Option<i64>,
    pub load_duration: Option<i64>,
    pub prompt_eval_count: Option<i64>,
    pub prompt_eval_duration: Option<i64>,
    pub eval_count: Option<i64>,
    pub eval_duration: Option<i64>,
    pub context: Option<Seq<i64>>,
}

impl View for GenerateResponse {
    type V = GenerateResponseView;

    open spec fn view(&self) -> GenerateResponseView {
        GenerateResponseView {
            model: self.model@,
            created_at: self.created_at,
            response: self.response@,
            done: self.done,
            total_duration: self.total_duration,
            load_duration: self.load_duration,
            prompt_eval_count: self.prompt_eval_count,
            prompt_eval_duration: self.prompt_eval_duration,
            eval_count: self.eval_count,
            eval_duration: self.eval_duration,
            context: match self.context {
                Some(context) => Some(context@),
                None => None,
            },
        }
    }
}

impl GenerateResponseView {
    /// Whether the record carries none of the numeric counters.
    pub open spec fn without_counters(self) -> bool {
        &&& self.total_duration is None
        &&& self.load_duration is None
        &&& self.prompt_eval_count is None
        &&& self.prompt_eval_duration is None
        &&& self.eval_count is None
        &&& self.eval_duration is None
    }
}

/// The generation record that a JSON document denotes: an object with the
/// texts `model`, `created_at` (an instant) and `response` and the boolean
/// `done`; each counter, and `context`, may be absent or `null`. Members of
/// other names are passed over.
pub open spec fn generate_response_of(json: Json) -> Option<GenerateResponseView> {
    let model = required(json, "model"@, |j: Json| text_of(j));
    let created_at = match required(json, "created_at"@, |j: Json| text_of(j)) {
        Some(text) => timestamp_of(text),
        None => None,
    };
    let response = required(json, "response"@, |j: Json| text_of(j));
    let done = required(json, "done"@, |j: Json| flag_of(j));
    let total_duration = optional(json, "total_duration"@, |j: Json| integer_of(j));
    let load_duration = optional(json, "load_duration"@, |j: Json| integer_of(j));
    let prompt_eval_count = optional(json, "prompt_eval_count"@, |j: Json| integer_of(j));
    let prompt_eval_duration = optional(json, "prompt_eval_duration"@, |j: Json| integer_of(j));
    let eval_count = optional(json, "eval_count"@, |j: Json| integer_of(j));
    let eval_duration = optional(json, "eval_duration"@, |j: Json| integer_of(j));
    let context = optional(json, "context"@, |j: Json| integers_of(j));
    if model is Some && created_at is Some && response is Some && done is Some
        && total_duration is Some && load_duration is Some && prompt_eval_count is Some
        && prompt_eval_duration is Some && eval_count is Some && eval_duration is Some
        && context is Some {
        Some(
            GenerateResponseView {
                model: model->Some_0,
                created_at: created_at->Some_0,
                response: response->Some_0,
                done: done->Some_0,
                total_duration: total_duration->Some_0,
                load_duration: load_duration->Some_0,
                prompt_eval_count: prompt_eval_count->Some_0,
                prompt_eval_duration: prompt_eval_duration->Some_0,
                eval_count: eval_count->Some_0,
                eval_duration: eval_duration->Some_0,
                context: context->Some_0,
            },
        )
    } else {
        None
    }
}

/// A record carries the counters that its document gives and no others.
pub proof fn lemma_generate_counters_as_given(json: Json)
    requires
        generate_response_of(json) is Some,
    ensures
        generate_response_of(json)->Some_0.without_counters() <==> !gives_counters(json),
{
}

/// A record that is not marked as done carries no counter, unless the
/// server has put one into its document.
pub proof fn lemma_unfinished_generate_record_has_no_counters(json: Json)
    requires
        generate_response_of(json) is Some,
        !generate_response_of(json)->Some_0.done,
        !gives_counters(json),
    ensures
        generate_response_of(json)->Some_0.without_counters(),
{
}

impl Record for GenerateResponse {
    open spec fn of_json(json: Json) -> Option<GenerateResponseView> {
        generate_response_of(json)
    }

    open spec fn terminal(record: GenerateResponseView) -> bool {
        record.done
    }

    fn from_json(value: &serde_json::Value) -> (r: Option<GenerateResponse>) {
        let model = required_text(value, "model")?;
        let created_at = Timestamp::parse(required_text(value, "created_at")?.as_str())?;
        let response = required_text(value, "response")?;
        let done = required_flag(value, "done")?;
        let total_duration = optional_integer(value, "total_duration")?;
        let load_duration = optional_integer(value, "load_duration")?;
        let prompt_eval_count = optional_integer(value, "prompt_eval_count")?;
        let prompt_eval_duration = optional_integer(value, "prompt_eval_duration")?;
        let eval_count = optional_integer(value, "eval_count")?;
        let eval_duration = optional_integer(value, "eval_duration")?;
        let context = optional_integers(value, "context")?;
        Some(
            GenerateResponse {
                model,
                created_at,
                response,
                done,
                total_duration,
                load_duration,
                prompt_eval_count,
                prompt_eval_duration,
                eval_count,
                eval_duration,
                context,
            },
        )
    }

    fn is_terminal(&self) -> (b: bool) {
        self.done
    }
}

} // verus!
