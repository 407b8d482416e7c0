//! The session cookie: how a session identifier comes into being, how it is
//! handed to the client and how it is read back from a request.

use vstd::prelude::*;
use crate::text::str_eq;

verus! {

/// The pairs of name and value that the `cookie` crate reads from the value of
/// a `Cookie` request header: `Cookie::split_parse_encoded`, with the names
/// and values percent-decoded. A part of the header that the crate cannot
/// parse is `None`.
pub uninterp spec fn cookie_pairs(header: Seq<char>) -> Seq<Option<(Seq<char>, Seq<char>)>>;

/// Splits the value of a `Cookie` request header with
/// `cookie::Cookie::split_parse_encoded`, and keeps of each cookie its name
/// and its value, in the order of the header.
#[verifier::external_body]
fn split_cookies(header: &str) -> (pairs: Vec<Option<(String, String)>>)
    ensures
        pairs.deep_view() == cookie_pairs(header@),
{
    cookie::Cookie::split_parse_encoded(header)
        .map(|parsed| parsed.ok().map(|c| (c.name().to_string(), c.value().to_string())))
        .collect()
}

/// Whether `c` is a digit or one of the letters `a` to `f`.
pub open spec fn is_lower_hex(c: char) -> bool {
    ('0' <= c && c <= '9') || ('a' <= c && c <= 'f')
}

/// Whether `s` is a version-4 UUID in its usual notation: 36 characters,
/// hyphens after the 8th, 12th, 16th and 20th hexadecimal digit, lower-case
/// hexadecimal digits elsewhere, of which the 13th is the version, `4`, and
/// the 17th, which holds the variant, is one of `8`, `9`, `a` and `b`.
pub open spec fn is_uuid_text(s: Seq<char>) -> bool {
    &&& s.len() == 36
    &&& forall|i: int|
        0 <= i < 36 ==> if i == 8 || i == 13 || i == 18 || i == 23 {
            s[i] == '-'
        } else {
            is_lower_hex(#[trigger] s[i])
        }
    &&& s[14] == '4'
    &&& (s[19] == '8' || s[19] == '9' || s[19] == 'a' || s[19] == 'b')
}

/// A new random session identifier: `uuid::Uuid::new_v4`, which sets the
/// version to 4 and the variant to the one of RFC 9562, written out by its
/// `Display`, which gives the hyphenated lower-case notation. Which identifier
/// comes out is left open. The call fails only where the operating system
/// hands out no random bytes.
#[verifier::external_body]
fn fresh_session_id() -> (id: String)
    ensures
        is_uuid_text(id@),
{
    uuid::Uuid::new_v4().to_string()
}

/// The value of the `Set-Cookie` header that hands `session_id` to the
/// client.
pub open spec fn session_cookie_of(session_id: Seq<char>) -> Seq<char> {
    "r-session="@ + session_id + "; HttpOnly"@
}

/// Builds the session cookie with `cookie::Cookie::build` and writes it out by
/// its `Display`: the name, `=`, the value as it is, and `; HttpOnly` as the
/// only attribute that is set.
#[verifier::external_body]
fn session_cookie(session_id: &str) -> (value: String)
    ensures
        value@ == session_cookie_of(session_id@),
{
    cookie::Cookie::build(("r-session", session_id)).http_only(true).build().to_string()
}

/// Builds, again with `cookie::Cookie::build`, a session cookie without a
/// value and with a maximal age of zero seconds, which makes the client drop
/// the cookie it holds.
#[verifier::external_body]
fn expired_cookie() -> (value: String)
    ensures
        value@ == "r-session=; HttpOnly; Max-Age=0"@,
{
    cookie::Cookie::build(("r-session", ""))
        .http_only(true)
        .max_age(cookie::time::Duration::ZERO)
        .build()
        .to_string()
}

/// The value of the first cookie named `r-session` among `pairs`. Parts that
/// could not be parsed are passed over.
pub open spec fn session_in(pairs: Seq<Option<(Seq<char>, Seq<char>)>>) -> Option<Seq<char>>
    decreases pairs.len(),
{
    if pairs.len() == 0 {
        None
    } else {
        match pairs[0] {
            Some((name, value)) => if name == "r-session"@ {
                Some(value)
            } else {
                session_in(pairs.drop_first())
            },
            None => session_in(pairs.drop_first()),
        }
    }
}

/// The session identifier that a request with the given `Cookie` header, if
/// it has one, speaks for.
pub open spec fn session_of(cookie_header: Option<Seq<char>>) -> Option<Seq<char>> {
    match cookie_header {
        Some(header) => session_in(cookie_pairs(header)),
        None => None,
    }
}

/// Finds the session identifier among the cookies of a request.
pub fn find_session(pairs: &Vec<Option<(String, String)>>) -> (id: Option<String>)
    ensures
        id.deep_view() == session_in(pairs.deep_view()),
{
    let ghost all = pairs.deep_view();
    let mut i: usize = 0;
    assert(all.skip(0) == all);
    while i < pairs.len()
        invariant
            i <= pairs.len(),
            all == pairs.deep_view(),
            session_in(all) == session_in(all.skip(i as int)),
        decreases pairs.len() - i,
    {
        proof {
            assert(all.skip(i as int)[0] == all[i as int]);
            assert(all.skip(i as int).drop_first() == all.skip(i + 1));
            assert(all[i as int] == pairs@[i as int].deep_view());
        }
        match &pairs[i] {
            Some(pair) => {
                if str_eq(pair.0.as_str(), "r-session") {
                    return Some(pair.1.clone());
                }
            },
            None => {},
        }
        i += 1;
    }
    None
}

/// Reads the session identifier from the `Cookie` header of a request.
pub fn get_session(cookie_header: Option<&str>) -> (id: Option<String>)
    ensures
        id.deep_view() == session_of(cookie_header.deep_view()),
{
    match cookie_header {
        Some(header) => {
            let pairs = split_cookies(header);
            find_session(&pairs)
        },
        None => None,
    }
}

/// A new session identifier.
pub fn new_session_id() -> (id: String)
    ensures
        is_uuid_text(id@),
{
    fresh_session_id()
}

/// The `Set-Cookie` value that hands `session_id` to the client.
pub fn set_cookie_value(session_id: &str) -> (value: String)
    ensures
        value@ == session_cookie_of(session_id@),
{
    session_cookie(session_id)
}

/// The `Set-Cookie` value that makes the client drop its session cookie.
pub fn drop_cookie_value() -> (value: String)
    ensures
        value@ == "r-session=; HttpOnly; Max-Age=0"@,
{
    expired_cookie()
}

} // verus!
