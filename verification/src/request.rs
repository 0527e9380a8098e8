//! The requests that the operations issue.
//!
//! The library does no transport. An operation is described by the one
//! request that it issues: the method, the address and the body. Whoever
//! owns the connection sends it and hands the reply back to the decoders.

use crate::text::chars_of;
use vstd::prelude::*;

verus! {

/// The method of a request.
#[derive(Clone, Copy, Debug, PartialEq, Eq, Structural)]
pub enum Method {
    Get,
    Post,
}

/// One request to the server.
#[derive(Clone, Debug, PartialEq, Eq)]
pub struct Request {
    pub method: Method,
    pub url: String,
    /// The JSON text to send, for the operations that send one.
    pub body: Option<String>,
}

/// A request as a mathematical value.
pub struct RequestView {
    pub method: Method,
    pub url: Seq<char>,
    pub body: Option<Seq<char>>,
}

impl View for Request {
    type V = RequestView;

    open spec fn view(&self) -> RequestView {
        RequestView {
            method: self.method,
            url: self.url@,
            body: match self.body {
                Some(body) => Some(body@),
                None => None,
            },
        }
    }
}

/// The address of an operation: its path behind the endpoint, with exactly
/// one slash put between the two where the endpoint does not end in one.
pub open spec fn operation_url(host: Seq<char>, path: Seq<char>) -> Seq<char> {
    if host.len() > 0 && host.last() == '/' {
        host + path
    } else {
        host + seq!['/'] + path
    }
}

/// Joins an endpoint and the path of an operation.
pub fn join_url(host: &str, path: &str) -> (url: String)
    ensures
        url@ == operation_url(host@, path@),
{
    let chars = chars_of(host);
    let n = chars.len();
    let mut url = host.to_owned();
    if n == 0 || chars[n - 1] != '/' {
        proof {
            reveal_strlit("/");
        }
        url.append("/");
    }
    url.append(path);
    assert(url@ =~= operation_url(host@, path@));
    url
}

} // verus!
