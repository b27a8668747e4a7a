//! What a request's headers say about who asks and what they accept.

use vstd::prelude::*;
use axum::http::HeaderValue;
use crate::text::{begins_with, has_part, text_begins_with, text_has_part};

verus! {

#[verifier::external_type_specification]
#[verifier::external_body]
pub struct ExHeaderValue(axum::http::HeaderValue);

/// The bytes of a header value.
pub uninterp spec fn header_bytes(value: HeaderValue) -> Seq<u8>;

/// How a request is answered.
#[derive(Debug, Clone, Copy, PartialEq, Eq, Structural)]
pub enum Reply {
    /// With a redirect to the address for browsers.
    Redirect,
    /// With the page as JSON.
    Json,
    /// With the page in plain text.
    Text,
}

/// A byte that may stand in a header value that is text: a visible ASCII
/// character, a space or a tab.
pub open spec fn is_visible(b: u8) -> bool {
    32 <= b < 127 || b == 9
}

/// Every byte may stand in text.
pub open spec fn all_visible(bytes: Seq<u8>) -> bool {
    forall|i: int| 0 <= i < bytes.len() ==> is_visible(#[trigger] bytes[i])
}

/// The bytes as characters, one for one.
pub open spec fn as_chars(bytes: Seq<u8>) -> Seq<char> {
    bytes.map_values(|b: u8| b as char)
}

/// The text of a header value, where it is text.
pub open spec fn header_text_of(value: Option<&HeaderValue>) -> Option<Seq<char>> {
    match value {
        Some(v) => if all_visible(header_bytes(*v)) {
            Some(as_chars(header_bytes(*v)))
        } else {
            None
        },
        None => None,
    }
}

/// A user agent that is a terminal's: it names curl anywhere, or begins with
/// Wget.
pub open spec fn is_terminal_agent(agent: Seq<char>) -> bool {
    has_part(agent, "curl"@) || begins_with(agent, "Wget"@)
}

/// A list of accepted formats that names JSON.
pub open spec fn names_json(accept: Seq<char>) -> bool {
    has_part(accept, "application/json"@)
}

/// How a request with these two headers is answered.
pub open spec fn reply_for(user_agent: Option<Seq<char>>, accept: Option<Seq<char>>) -> Reply {
    if accept matches Some(a) && names_json(a) {
        Reply::Json
    } else if user_agent matches Some(u) && is_terminal_agent(u) {
        Reply::Text
    } else {
        Reply::Redirect
    }
}

/// `HeaderValue::to_str` of the http crate, which axum hands on: the value
/// as text where each of its bytes is a visible ASCII character, a space or
/// a tab, and nothing where one is not. The text has the value's bytes as
/// its characters.
#[verifier::external_body]
fn header_text<'a>(value: &'a HeaderValue) -> (r: Option<&'a str>)
    ensures
        r is Some <==> all_visible(header_bytes(*value)),
        r matches Some(s) ==> s@ == as_chars(header_bytes(*value)),
{
    value.to_str().ok()
}

/// Whether a user agent is a terminal's.
pub fn is_terminal(agent: &str) -> (r: bool)
    ensures
        r == is_terminal_agent(agent@),
{
    text_has_part(agent, "curl") || text_begins_with(agent, "Wget")
}

/// Whether the request comes from a terminal, going by its user agent. A
/// request without the header, or with one that is not text, does not.
pub fn is_term(user_agent: Option<&HeaderValue>) -> (r: bool)
    ensures
        r == (header_text_of(user_agent) matches Some(agent) && is_terminal_agent(agent)),
{
    match user_agent {
        Some(value) => match header_text(value) {
            Some(agent) => is_terminal(agent),
            None => false,
        },
        None => false,
    }
}

/// Whether the request asks for JSON, going by the formats it accepts.
pub fn wants_json(accept: Option<&HeaderValue>) -> (r: bool)
    ensures
        r == (header_text_of(accept) matches Some(formats) && names_json(formats)),
{
    match accept {
        Some(value) => match header_text(value) {
            Some(formats) => text_has_part(formats, "application/json"),
            None => false,
        },
        None => false,
    }
}

/// How a request with these two headers is answered: as JSON where it asks
/// for JSON, in plain text where it comes from a terminal, and with a
/// redirect otherwise.
pub fn negotiate(user_agent: Option<&HeaderValue>, accept: Option<&HeaderValue>) -> (r: Reply)
    ensures
        r == reply_for(header_text_of(user_agent), header_text_of(accept)),
{
    if wants_json(accept) {
        Reply::Json
    } else if is_term(user_agent) {
        Reply::Text
    } else {
        Reply::Redirect
    }
}

} // verus!
