//! JSON-RPC 2.0 request and response objects for the local control API.

use vstd::prelude::*;

verus! {

#[verifier::external_type_specification]
#[verifier::external_body]
pub struct ExJsonValue(serde_json::Value);

/// The protocol version every request and response carries: `2.0`.
pub open spec fn jsonrpc_version() -> Seq<char> {
    seq!['2', '.', '0']
}

/// A request identifier.
#[derive(PartialEq, Debug)]
pub enum Id {
    String(String),
    Number(i32),
    Null,
}

/// An error object.
#[derive(PartialEq, Debug)]
pub struct Error {
    pub code: i32,
    pub message: String,
    pub data: serde_json::Value,
}

/// A request, or a notification when it has no identifier.
#[derive(PartialEq, Debug)]
pub struct Request {
    pub jsonrpc: String,
    pub method: String,
    pub params: Option<serde_json::Value>,
    pub id: Option<Id>,
}

/// A response: a result, or an error.
#[derive(PartialEq, Debug)]
pub struct Response {
    pub jsonrpc: String,
    pub result: serde_json::Value,
    pub error: Option<Error>,
}

/// The version string `2.0`.
fn version_string() -> (r: String)
    ensures
        r@ == jsonrpc_version(),
{
    let r = "2.0".to_owned();
    proof {
        reveal_strlit("2.0");
    }
    r
}

impl Request {
    /// A request that expects an answer under `id`.
    pub fn new(method: String, params: serde_json::Value, id: Id) -> (r: Request)
        ensures
            r.jsonrpc@ == jsonrpc_version(),
            r.method == method,
            r.params == Some(params),
            r.id == Some(id),
    {
        Request { jsonrpc: version_string(), method, params: Some(params), id: Some(id) }
    }

    /// A notification: a request without an identifier, that gets no answer.
    pub fn new_notification(method: String, params: serde_json::Value) -> (r: Request)
        ensures
            r.jsonrpc@ == jsonrpc_version(),
            r.method == method,
            r.params == Some(params),
            r.id is None,
    {
        Request { jsonrpc: version_string(), method, params: Some(params), id: None }
    }

    /// Whether the request is a notification.
    pub fn is_notification(&self) -> (r: bool)
        ensures
            r == self.id is None,
    {
        self.id.is_none()
    }
}

impl Response {
    /// Whether the response carries an error.
    pub fn is_error(&self) -> (r: bool)
        ensures
            r == self.error is Some,
    {
        self.error.is_some()
    }
}

} // verus!
