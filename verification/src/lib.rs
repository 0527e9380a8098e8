//! A client for the HTTP interface of an Ollama server, without the
//! transport.
//!
//! [`Ollama`] holds the server's endpoint and describes, for each operation,
//! the one request to send. Whoever owns the connection sends it and hands
//! back what arrives: chunk by chunk to a [`stream::ResponseStream`], for the
//! operations that stream their reply, and as a whole to
//! [`model::models::ModelList::from_body`], for the listing of models, and
//! to [`reports_running`], for the health check.

pub mod decode;
pub mod framing;
pub mod json;
pub mod model;
pub mod number;
pub mod request;
pub mod stream;
pub mod text;
pub mod time;
pub mod write;

use crate::model::chat::{chat_request_text, ChatRequestParameters};
use crate::model::embedding::{embed_request_text, EmbedRequestParameters};
use crate::model::generate::{generate_request_text, GenerateRequestParameters};
use crate::request::{join_url, operation_url, Method, Request, RequestView};
use crate::text::{eq_ignoring_ascii_case, same_ignoring_ascii_case};
use vstd::prelude::*;

verus! {

/// Why an endpoint was not taken.
#[derive(Clone, Copy, Debug, PartialEq, Eq, Structural)]
pub enum ConfigError {
    /// The text is no absolute URL.
    InvalidEndpoint,
}

/// The text that the `url` crate writes for the URL that it reads from a
/// text, or `None` where it reads none.
pub uninterp spec fn endpoint_of_text(text: Seq<char>) -> Option<Seq<char>>;

/// `Url::parse`, and the parsed URL's text. Trusted: it succeeds exactly on
/// the texts that `endpoint_of_text` maps to an endpoint, and the result is
/// that endpoint.
#[verifier::external_body]
fn parse_endpoint(text: &str) -> (r: Option<String>)
    ensures
        match r {
            Some(endpoint) => endpoint_of_text(text@) == Some(endpoint@),
            None => endpoint_of_text(text@) is None,
        },
{
    match reqwest::Url::parse(text) {
        Ok(url) => Some(String::from(url)),
        Err(_) => None,
    }
}

/// The endpoint of a server on this machine, at the port that the server
/// takes by itself.
pub const LOCAL_ENDPOINT: &'static str = "http://localhost:11434/";

/// What the server answers at its root while it runs.
pub const RUNNING: &'static str = "Ollama is running";

/// The server's endpoint, and with it the requests of every operation.
#[derive(Clone, Debug, PartialEq, Eq)]
pub struct Ollama {
    host: String,
}

impl View for Ollama {
    type V = Seq<char>;

    /// The endpoint, as the text of its URL.
    closed spec fn view(&self) -> Seq<char> {
        self.host@
    }
}

impl Ollama {
    /// A client for the server at `host`, which must be an absolute URL.
    pub fn new(host: &str) -> (r: Result<Ollama, ConfigError>)
        ensures
            match r {
                Ok(ollama) => endpoint_of_text(host@) == Some(ollama@),
                Err(error) => endpoint_of_text(host@) is None && error
                    == ConfigError::InvalidEndpoint,
            },
    {
        match parse_endpoint(host) {
            Some(host) => Ok(Ollama { host }),
            None => Err(ConfigError::InvalidEndpoint),
        }
    }

    /// Points the client at another server. Where `host` is no absolute URL
    /// the endpoint stays as it was.
    pub fn change_host(&mut self, host: &str) -> (r: Result<(), ConfigError>)
        ensures
            match r {
                Ok(_) => endpoint_of_text(host@) == Some(final(self)@),
                Err(error) => endpoint_of_text(host@) is None && error
                    == ConfigError::InvalidEndpoint && final(self)@ == old(self)@,
            },
    {
        match parse_endpoint(host) {
            Some(host) => {
                self.host = host;
                Ok(())
            },
            None => Err(ConfigError::InvalidEndpoint),
        }
    }

    /// The endpoint.
    pub fn host(&self) -> (host: &str)
        ensures
            host@ == self@,
    {
        self.host.as_str()
    }

    /// The request of the health check: the endpoint itself is fetched.
    pub fn check_online(&self) -> (request: Request)
        ensures
            request@ == (RequestView { method: Method::Get, url: self@, body: None }),
    {
        Request { method: Method::Get, url: self.host.clone(), body: None }
    }

    /// The request of the generation operation.
    pub fn generate(&self, para: &GenerateRequestParameters) -> (request: Request)
        ensures
            request@ == (RequestView {
                method: Method::Post,
                url: operation_url(self@, "api/generate"@),
                body: Some(generate_request_text(para@)),
            }),
    {
        Request {
            method: Method::Post,
            url: join_url(self.host.as_str(), "api/generate"),
            body: Some(para.to_json()),
        }
    }

    /// The request of the chat operation.
    pub fn chat(&self, para: &ChatRequestParameters) -> (request: Request)
        ensures
            request@ == (RequestView {
                method: Method::Post,
                url: operation_url(self@, "api/chat"@),
                body: Some(chat_request_text(para@)),
            }),
    {
        Request {
            method: Method::Post,
            url: join_url(self.host.as_str(), "api/chat"),
            body: Some(para.to_json()),
        }
    }

    /// The request of the listing of models.
    pub fn tags(&self) -> (request: Request)
        ensures
            request@ == (RequestView {
                method: Method::Get,
                url: operation_url(self@, "api/tags"@),
                body: None,
            }),
    {
        Request { method: Method::Get, url: join_url(self.host.as_str(), "api/tags"), body: None }
    }

    /// The request of the embedding operation.
    pub fn embedding(&self, para: &EmbedRequestParameters) -> (request: Request)
        ensures
            request@ == (RequestView {
                method: Method::Post,
                url: operation_url(self@, "api/embed"@),
                body: Some(embed_request_text(para@)),
            }),
    {
        Request {
            method: Method::Post,
            url: join_url(self.host.as_str(), "api/embed"),
            body: Some(para.to_json()),
        }
    }
}

impl Default for Ollama {
    /// A client for the server on this machine.
    fn default() -> (ollama: Ollama)
        ensures
            ollama@ == LOCAL_ENDPOINT@,
    {
        Ollama { host: LOCAL_ENDPOINT.to_owned() }
    }
}

/// Reads the reply to the health check: the server runs where the reply is
/// the text `RUNNING`, whatever the case of its letters. A reply that could
/// not be had, or that is no text, counts as any other text does.
pub fn reports_running(reply: Option<&str>) -> (online: bool)
    ensures
        online == match reply {
            Some(text) => same_ignoring_ascii_case(text@, RUNNING@),
            None => false,
        },
{
    match reply {
        Some(text) => eq_ignoring_ascii_case(text, RUNNING),
        None => false,
    }
}

} // verus!
