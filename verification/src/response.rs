//! The answers that the proxy gives to its clients.

use vstd::prelude::*;
use vstd::string::*;

verus! {

/// An answer to a client.
#[derive(Debug, PartialEq, Eq)]
pub struct Response {
    /// The status code.
    pub status: u16,
    /// The headers as pairs of name and value, in the order in which they are
    /// sent.
    pub headers: Vec<(String, String)>,
    /// The body as text.
    pub body: String,
}

/// What a `Response` holds, as plain values.
pub ghost struct ResponseView {
    pub status: u16,
    pub headers: Seq<(Seq<char>, Seq<char>)>,
    pub body: Seq<char>,
}

/// The answer with the given status and body, and no headers.
pub open spec fn plain(status: u16, body: Seq<char>) -> ResponseView {
    ResponseView { status, headers: Seq::empty(), body }
}

/// The answer with the given status and body, and a `Set-Cookie` header with
/// the given value.
pub open spec fn with_cookie(status: u16, body: Seq<char>, cookie: Seq<char>) -> ResponseView {
    ResponseView { status, headers: seq![("Set-Cookie"@, cookie)], body }
}

impl View for Response {
    type V = ResponseView;

    open spec fn view(&self) -> ResponseView {
        ResponseView { status: self.status, headers: self.headers.deep_view(), body: self.body@ }
    }
}

impl Response {
    /// The answer with the given status and body, and no headers.
    pub fn text(status: u16, body: &str) -> (response: Self)
        ensures
            response@ == plain(status, body@),
    {
        let response = Response { status, headers: Vec::new(), body: String::from_str(body) };
        assert(response.headers.deep_view() =~= Seq::empty());
        response
    }

    /// The answer with the given status and body, and a `Set-Cookie` header
    /// with the given value.
    pub fn text_with_cookie(status: u16, body: &str, cookie: String) -> (response: Self)
        ensures
            response@ == with_cookie(status, body@, cookie@),
    {
        let mut headers: Vec<(String, String)> = Vec::new();
        headers.push((String::from_str("Set-Cookie"), cookie));
        let response = Response { status, headers, body: String::from_str(body) };
        assert(response.headers.deep_view() =~= seq![("Set-Cookie"@, cookie@)]);
        response
    }
}

} // verus!
