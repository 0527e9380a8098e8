//! The embedding operation: its request.

use crate::json::{json_literal, text_views};
use crate::write::{literals_text, member_text, object_text, write_literals, Sequence};
use vstd::prelude::*;

verus! {

/// What to ask of the embedding operation: one embedding for each input.
#[derive(Clone, Debug, PartialEq, Eq)]
pub struct EmbedRequestParameters {
    pub model: String,
    pub input: Vec<String>,
}

/// An embedding request as a mathematical value.
pub struct EmbedRequestView {
    pub model: Seq<char>,
    pub input: Seq<Seq<char>>,
}

impl View for EmbedRequestParameters {
    type V = EmbedRequestView;

    open spec fn view(&self) -> EmbedRequestView {
        EmbedRequestView { model: self.model@, input: text_views(self.input@) }
    }
}

/// The members of an embedding request's JSON object, in the alphabetical
/// order of their names. The inputs keep their order.
pub open spec fn embed_request_members(request: EmbedRequestView) -> Seq<Seq<char>> {
    seq![
        member_text("input"@, literals_text(request.input)),
        member_text("model"@, json_literal(request.model)),
    ]
}

/// An embedding request as JSON text.
pub open spec fn embed_request_text(request: EmbedRequestView) -> Seq<char> {
    object_text(embed_request_members(request))
}

impl EmbedRequestParameters {
    /// Writes the request as a JSON object.
    pub fn to_json(&self) -> (text: String)
        ensures
            text@ == embed_request_text(self@),
    {
        let input = write_literals(&self.input);
        let mut seq = Sequence::object();
        seq.member("input", input.as_str());
        seq.text_member("model", self.model.as_str());
        assert(seq.parts() =~= embed_request_members(self@));
        seq.end_object()
    }
}

impl Default for EmbedRequestParameters {
    fn default() -> (request: EmbedRequestParameters)
        ensures
            request@.model == Seq::<char>::empty(),
            request@.input == Seq::<Seq<char>>::empty(),
    {
        let request = EmbedRequestParameters { model: String::new(), input: Vec::new() };
        assert(request@.input =~= Seq::<Seq<char>>::empty());
        request
    }
}

} // verus!
