//! The chat operation: its messages, its request and the records of its
//! reply.

use crate::decode::{gives_counters, Record};
use crate::json::{
    content, flag_of, get_member, integer_of, integers_of, json_literal, optional, optional_integer, optional_integers, optional_texts, required, required_flag,
    required_text, text_of, text_views, texts_of, Json,
};
use crate::model::parameter::{parameter_text, Parameter, ParameterView};
use crate::time::{timestamp_of, Timestamp};
use crate::write::{
    array_text, literals_text, member_text, object_text, optional_member, write_literals, Sequence,
};
use vstd::prelude::*;

verus! {

/// Who speaks in a message.
#[derive(Clone, Copy, Debug, PartialEq, Eq, Structural)]
pub enum MessageRole {
    System,
    User,
    Assistant,
    Tool,
}

/// The name under which a role goes over the wire.
pub open spec fn role_name(role: MessageRole) -> Seq<char> {
    match role {
        MessageRole::System => "system"@,
        MessageRole::User => "user"@,
        MessageRole::Assistant => "assistant"@,
        MessageRole::Tool => "tool"@,
    }
}

/// The role of a name, if it is the name of one.
pub open spec fn role_of_name(name: Seq<char>) -> Option<MessageRole> {
    if name == "system"@ {
        Some(MessageRole::System)
    } else if name == "user"@ {
        Some(MessageRole::User)
    } else if name == "assistant"@ {
        Some(MessageRole::Assistant)
    } else if name == "tool"@ {
        Some(MessageRole::Tool)
    } else {
        None
    }
}

/// Every role is the role of its name.
pub proof fn lemma_role_of_its_name(role: MessageRole)
    ensures
        role_of_name(role_name(role)) == Some(role),
{
    reveal_strlit("system");
    reveal_strlit("user");
    reveal_strlit("assistant");
    reveal_strlit("tool");
    assert("system"@.len() == 6);
    assert("user"@.len() == 4);
    assert("assistant"@.len() == 9);
    assert("tool"@.len() == 4);
    assert("user"@[0] == 'u');
    assert("tool"@[0] == 't');
}

fn same_text(a: &str, b: &str) -> (same: bool)
    ensures
        same == (a@ == b@),
{
    let x: String = a.to_owned();
    let y: String = b.to_owned();
    x == y
}

impl MessageRole {
    /// The name under which the role goes over the wire.
    pub fn name(&self) -> (name: &'static str)
        ensures
            name@ == role_name(*self),
    {
        match self {
            MessageRole::System => "system",
            MessageRole::User => "user",
            MessageRole::Assistant => "assistant",
            MessageRole::Tool => "tool",
        }
    }

    /// The role of a name.
    pub fn from_name(name: &str) -> (role: Option<MessageRole>)
        ensures
            role == role_of_name(name@),
    {
        if same_text(name, "system") {
            Some(MessageRole::System)
        } else if same_text(name, "user") {
            Some(MessageRole::User)
        } else if same_text(name, "assistant") {
            Some(MessageRole::Assistant)
        } else if same_text(name, "tool") {
            Some(MessageRole::Tool)
        } else {
            None
        }
    }
}

/// One message of a conversation.
#[derive(Clone, Debug, PartialEq, Eq)]
pub struct Message {
    pub role: MessageRole,
    pub content: String,
    pub images: Option<Vec<String>>,
}

/// A message as a mathematical value.
pub struct MessageView {
    pub role: MessageRole,
    pub content: Seq<char>,
    pub images: Option<Seq<Seq<char>>>,
}

impl View for Message {
    type V = MessageView;

    open spec fn view(&self) -> MessageView {
        MessageView {
            role: self.role,
            content: self.content@,
            images: match self.images {
                Some(images) => Some(text_views(images@)),
                None => None,
            },
        }
    }
}

/// The views of a sequence of messages.
pub open spec fn message_views(messages: Seq<Message>) -> Seq<MessageView> {
    messages.map_values(|message: Message| message@)
}

/// The role that a JSON document denotes: a string that is a role's name.
pub open spec fn role_of(json: Json) -> Option<MessageRole> {
    match json {
        Json::Text(name) => role_of_name(name),
        _ => None,
    }
}

/// The message that a JSON document denotes: an object with the role's name
/// as `role` and the text `content`; `images`, an array of texts, may be
/// absent or `null`.
pub open spec fn message_of(json: Json) -> Option<MessageView> {
    let role = required(json, "role"@, |j: Json| role_of(j));
    let content = required(json, "content"@, |j: Json| text_of(j));
    let images = optional(json, "images"@, |j: Json| texts_of(j));
    if role is Some && content is Some && images is Some {
        Some(MessageView { role: role->Some_0, content: content->Some_0, images: images->Some_0 })
    } else {
        None
    }
}

/// The members of a message's JSON object, in the alphabetical order of
/// their names; `images` is left out where there are none.
pub open spec fn message_members(message: MessageView) -> Seq<Seq<char>> {
    seq![member_text("content"@, json_literal(message.content))] + optional_member(
        "images"@,
        match message.images {
            Some(images) => Some(literals_text(images)),
            None => None,
        },
    ) + seq![member_text("role"@, json_literal(role_name(message.role)))]
}

/// A message as JSON text.
pub open spec fn message_text(message: MessageView) -> Seq<char> {
    object_text(message_members(message))
}

impl Message {
    /// Reads a message from a parsed document.
    pub fn from_json(value: &serde_json::Value) -> (r: Option<Message>)
        ensures
            match r {
                Some(message) => message_of(content(*value)) == Some(message@),
                None => message_of(content(*value)) is None,
            },
    {
        let role = MessageRole::from_name(required_text(value, "role")?.as_str())?;
        let content = required_text(value, "content")?;
        let images = optional_texts(value, "images")?;
        Some(Message { role, content, images })
    }

    /// Writes the message as a JSON object.
    pub fn to_json(&self) -> (text: String)
        ensures
            text@ == message_text(self@),
    {
        let mut seq = Sequence::object();
        seq.text_member("content", self.content.as_str());
        match &self.images {
            Some(images) => {
                let array = write_literals(images);
                seq.member("images", array.as_str());
            },
            None => {},
        }
        seq.text_member("role", self.role.name());
        assert(seq.parts() =~= message_members(self@));
        seq.end_object()
    }
}

/// What to ask of the chat operation.
#[derive(Clone, Debug, PartialEq, Eq)]
pub struct ChatRequestParameters {
    pub model: String,
    pub messages: Vec<Message>,
    pub options: Option<Parameter>,
}

/// A chat request as a mathematical value.
pub struct ChatRequestView {
    pub model: Seq<char>,
    pub messages: Seq<MessageView>,
    pub options: Option<ParameterView>,
}

impl View for ChatRequestParameters {
    type V = ChatRequestView;

    open spec fn view(&self) -> ChatRequestView {
        ChatRequestView {
            model: self.model@,
            messages: message_views(self.messages@),
            options: match self.options {
                Some(options) => Some(options@),
                None => None,
            },
        }
    }
}

/// The members of a chat request's JSON object, in the alphabetical order of
/// their names; `options` is left out where there are none.
pub open spec fn chat_request_members(request: ChatRequestView) -> Seq<Seq<char>> {
    seq![
        member_text(
            "messages"@,
            array_text(request.messages.map_values(|message: MessageView| message_text(message))),
        ),
        member_text("model"@, json_literal(request.model)),
    ] + optional_member(
        "options"@,
        match request.options {
            Some(options) => Some(parameter_text(options)),
            None => None,
        },
    )
}

/// A chat request as JSON text.
pub open spec fn chat_request_text(request: ChatRequestView) -> Seq<char> {
    object_text(chat_request_members(request))
}

/// A request without options is written as an object with the two members
/// `messages` and `model`.
pub proof fn lemma_bare_chat_request_text(request: ChatRequestView)
    requires
        request.options is None,
    ensures
        chat_request_members(request).len() == 2,
        chat_request_members(request) == seq![
            member_text(
                "messages"@,
                array_text(
                    request.messages.map_values(|message: MessageView| message_text(message)),
                ),
            ),
            member_text("model"@, json_literal(request.model)),
        ],
{
    assert(chat_request_members(request) =~= seq![
        member_text(
            "messages"@,
            array_text(request.messages.map_values(|message: MessageView| message_text(message))),
        ),
        member_text("model"@, json_literal(request.model)),
    ]);
}

impl ChatRequestParameters {
    /// Writes the request as a JSON object.
    pub fn to_json(&self) -> (text: String)
        ensures
            text@ == chat_request_text(self@),
    {
        let ghost texts = self@.messages.map_values(|message: MessageView| message_text(message));
        let mut array = Sequence::array();
        let mut i: usize = 0;
        while i < self.messages.len()
            invariant
                0 <= i <= self.messages.len(),
                array.well_formed(),
                array.opening() == '[',
                texts == self@.messages.map_values(|message: MessageView| message_text(message)),
                array.parts() == texts.take(i as int),
            decreases self.messages.len() - i,
        {
            let text = self.messages[i].to_json();
            array.item(text.as_str());
            assert(texts.take(i as int).push(text@) =~= texts.take(i + 1));
            i += 1;
        }
        assert(texts.take(i as int) =~= texts);
        let messages = array.end_array();
        let mut seq = Sequence::object();
        seq.member("messages", messages.as_str());
        seq.text_member("model", self.model.as_str());
        match &self.options {
            Some(options) => {
                let text = options.to_json();
                seq.member("options", text.as_str());
            },
            None => {},
        }
        assert(seq.parts() =~= chat_request_members(self@));
        seq.end_object()
    }
}

impl Default for ChatRequestParameters {
    fn default() -> (request: ChatRequestParameters)
        ensures
            request@.model == Seq::<char>::empty(),
            request@.messages == Seq::<MessageView>::empty(),
            request@.options is None,
    {
        let request = ChatRequestParameters {
            model: String::new(),
            messages: Vec::new(),
            options: None,
        };
        assert(request@.messages =~= Seq::<MessageView>::empty());
        request
    }
}

/// One record of a chat reply. The counters are the server's to give: it
/// sends them with the last record of a stream only.
#[derive(Clone, Debug, PartialEq, Eq)]
pub struct ChatResponse {
    pub model: String,
    pub created_at: Timestamp,
    pub message: Message,
    pub done: bool,
    /// Durations are in nanoseconds.
    pub total_duration: Option<i64>,
    pub load_duration: Option<i64>,
    pub prompt_eval_count: Option<i64>,
    pub prompt_eval_duration: Option<i64>,
    pub eval_count: Option<i64>,
    pub eval_duration: Option<i64>,
    pub context: Option<Vec<i64>>,
}

/// A chat record as a mathematical value.
pub struct ChatResponseView {
    pub model: Seq<char>,
    pub created_at: Timestamp,
    pub message: MessageView,
    pub done: bool,
    pub total_duration: Option<i64>,
    pub load_duration: Option<i64>,
    pub prompt_eval_count: Option<i64>,
    pub prompt_eval_duration: Option<i64>,
    pub eval_count: Option<i64>,
    pub eval_duration: Option<i64>,
    pub context: Option<Seq<i64>>,
}

impl View for ChatResponse {
    type V = ChatResponseView;

    open spec fn view(&self) -> ChatResponseView {
        ChatResponseView {
            model: self.model@,
            created_at: self.created_at,
            message: self.message@,
            done: self.done,
            total_duration: self.total_duration,
            load_duration: self.load_duration,
            prompt_eval_count: self.prompt_eval_count,
            prompt_eval_duration: self.prompt_eval_duration,
            eval_count: self.eval_count,
            eval_duration: self.eval_duration,
            context: match self.context {
                Some(context) => Some(context@),
                None => None,
            },
        }
    }
}

impl ChatResponseView {
    /// Whether the record carries none of the numeric counters.
    pub open spec fn without_counters(self) -> bool {
        &&& self.total_duration is None
        &&& self.load_duration is None
        &&& self.prompt_eval_count is None
        &&& self.prompt_eval_duration is None
        &&& self.eval_count is None
        &&& self.eval_duration is None
    }
}

/// The chat record that a JSON document denotes: an object with the texts
/// `model` and `created_at` (an instant), the message `message` and the
/// boolean `done`; each counter, and `context`, may be absent or `null`.
/// Members of other names are passed over.
pub open spec fn chat_response_of(json: Json) -> Option<ChatResponseView> {
    let model = required(json, "model"@, |j: Json| text_of(j));
    let created_at = match required(json, "created_at"@, |j: Json| text_of(j)) {
        Some(text) => timestamp_of(text),
        None => None,
    };
    let message = required(json, "message"@, |j: Json| message_of(j));
    let done = required(json, "done"@, |j: Json| flag_of(j));
    let total_duration = optional(json, "total_duration"@, |j: Json| integer_of(j));
    let load_duration = optional(json, "load_duration"@, |j: Json| integer_of(j));
    let prompt_eval_count = optional(json, "prompt_eval_count"@, |j: Json| integer_of(j));
    let prompt_eval_duration = optional(json, "prompt_eval_duration"@, |j: Json| integer_of(j));
    let eval_count = optional(json, "eval_count"@, |j: Json| integer_of(j));
    let eval_duration = optional(json, "eval_duration"@, |j: Json| integer_of(j));
    let context = optional(json, "context"@, |j: Json| integers_of(j));
    if model is Some && created_at is Some && message is Some && done is Some
        && total_duration is Some && load_duration is Some && prompt_eval_count is Some
        && prompt_eval_duration is Some && eval_count is Some && eval_duration is Some
        && context is Some {
        Some(
            ChatResponseView {
                model: model->Some_0,
                created_at: created_at->Some_0,
                message: message->Some_0,
                done: done->Some_0,
                total_duration: total_duration->Some_0,
                load_duration: load_duration->Some_0,
                prompt_eval_count: prompt_eval_count->Some_0,
                prompt_eval_duration: prompt_eval_duration->Some_0,
                eval_count: eval_count->Some_0,
                eval_duration: eval_duration->Some_0,
                context: context->Some_0,
            },
        )
    } else {
        None
    }
}

/// A record carries the counters that its document gives and no others.
pub proof fn lemma_chat_counters_as_given(json: Json)
    requires
        chat_response_of(json) is Some,
    ensures
        chat_response_of(json)->Some_0.without_counters() <==> !gives_counters(json),
{
}

/// A record that is not marked as done carries no counter, unless the
/// server has put one into its document.
pub proof fn lemma_unfinished_chat_record_has_no_counters(json: Json)
    requires
        chat_response_of(json) is Some,
        !chat_response_of(json)->Some_0.done,
        !gives_counters(json),
    ensures
        chat_response_of(json)->Some_0.without_counters(),
{
}

impl Record for ChatResponse {
    open spec fn of_json(json: Json) -> Option<ChatResponseView> {
        chat_response_of(json)
    }

    open spec fn terminal(record: ChatResponseView) -> bool {
        record.done
    }

    fn from_json(value: &serde_json::Value) -> (r: Option<ChatResponse>) {
        let model = required_text(value, "model")?;
        let created_at = Timestamp::parse(required_text(value, "created_at")?.as_str())?;
        let message = Message::from_json(get_member(value, "message")?)?;
        let done = required_flag(value, "done")?;
        let total_duration = optional_integer(value, "total_duration")?;
        let load_duration = optional_integer(value, "load_duration")?;
        let prompt_eval_count = optional_integer(value, "prompt_eval_count")?;
        let prompt_eval_duration = optional_integer(value, "prompt_eval_duration")?;
        let eval_count = optional_integer(value, "eval_count")?;
        let eval_duration = optional_integer(value, "eval_duration")?;
        let context = optional_integers(value, "context")?;
        Some(
            ChatResponse {
                model,
                created_at,
                message,
                done,
                total_duration,
                load_duration,
                prompt_eval_count,
                prompt_eval_duration,
                eval_count,
                eval_duration,
                context,
            },
        )
    }

    fn is_terminal(&self) -> (b: bool) {
        self.done
    }
}

} // verus!
