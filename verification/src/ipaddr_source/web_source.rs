use vstd::prelude::*;
use vstd::utf8::{decode_utf8, valid_utf8};

use crate::ip::{parse_ipv4, parse_ipv6, spec_parse_ipv4, spec_parse_ipv6, utf8_error_message, utf8_error_of, utf8_text};
use crate::types::Ddns6Error;

verus! {

/// An address source that asks a web service which address the host is seen from.
#[derive(Debug, Clone)]
pub struct WebSource {
    pub web: String,
}

impl Default for WebSource {
    fn default() -> (res: WebSource)
        ensures
            res.web@ == Seq::<char>::empty(),
    {
        WebSource { web: String::new() }
    }
}

/// A character with Unicode's White_Space property.
pub open spec fn is_white_space(c: char) -> bool {
    let u = c as u32;
    (0x09 <= u <= 0x0d) || u == 0x20 || u == 0x85 || u == 0xa0 || u == 0x1680 || (0x2000 <= u <= 0x200a)
        || u == 0x2028 || u == 0x2029 || u == 0x202f || u == 0x205f || u == 0x3000
}

/// A text without its leading whitespace.
pub open spec fn trim_start(text: Seq<char>) -> Seq<char>
    decreases text.len(),
{
    if text.len() > 0 && is_white_space(text[0]) {
        trim_start(text.drop_first())
    } else {
        text
    }
}

/// A text without its trailing whitespace.
pub open spec fn trim_end(text: Seq<char>) -> Seq<char>
    decreases text.len(),
{
    if text.len() > 0 && is_white_space(text.last()) {
        trim_end(text.drop_last())
    } else {
        text
    }
}

/// A text without its leading and trailing whitespace.
pub open spec fn spec_trim(text: Seq<char>) -> Seq<char> {
    trim_end(trim_start(text))
}

/// Drops leading and trailing whitespace with std's `str::trim`.
/// Trusted: std documents the result as the text without leading and trailing
/// characters of Unicode's White_Space property.
#[verifier::external_body]
fn trim(text: &str) -> (res: &str)
    ensures
        res@ == spec_trim(text@),
{
    text.trim()
}

/// The message of the error for a reply that is not an IPv4 address.
pub open spec fn bad_ipv4_message() -> Seq<char> {
    "invalid IPv4 address syntax"@
}

/// The message of the error for a reply that is not an IPv6 address.
pub open spec fn bad_ipv6_message() -> Seq<char> {
    "invalid IPv6 address syntax"@
}

impl WebSource {
    /// The IPv4 address in the body of the web service's reply: the body,
    /// read as UTF-8 and without leading and trailing whitespace, parsed.
    pub fn ipv4_of_reply(body: &[u8]) -> (res: Result<[u8; 4], Ddns6Error>)
        ensures
            !valid_utf8(body@) ==> (res matches Err(e) && e.0@ == utf8_error_of(body@)),
            valid_utf8(body@) ==> match spec_parse_ipv4(spec_trim(decode_utf8(body@))) {
                Some(o) => res matches Ok(r) && r@ == o,
                None => res matches Err(e) && e.0@ == bad_ipv4_message(),
            },
    {
        match utf8_text(body) {
            Err((valid_up_to, error_len)) => Err(Ddns6Error(utf8_error_message(valid_up_to, error_len))),
            Ok(text) => match parse_ipv4(trim(text)) {
                Some(o) => Ok(o),
                None => Err(Ddns6Error(String::from_str("invalid IPv4 address syntax"))),
            },
        }
    }

    /// The IPv6 address in the body of the web service's reply: the body,
    /// read as UTF-8 and without leading and trailing whitespace, parsed.
    pub fn ipv6_of_reply(body: &[u8]) -> (res: Result<[u8; 16], Ddns6Error>)
        ensures
            !valid_utf8(body@) ==> (res matches Err(e) && e.0@ == utf8_error_of(body@)),
            valid_utf8(body@) ==> match spec_parse_ipv6(spec_trim(decode_utf8(body@))) {
                Some(o) => res matches Ok(r) && r@ == o,
                None => res matches Err(e) && e.0@ == bad_ipv6_message(),
            },
    {
        match utf8_text(body) {
            Err((valid_up_to, error_len)) => Err(Ddns6Error(utf8_error_message(valid_up_to, error_len))),
            Ok(text) => match parse_ipv6(trim(text)) {
                Some(o) => Ok(o),
                None => Err(Ddns6Error(String::from_str("invalid IPv6 address syntax"))),
            },
        }
    }
}

} // verus!
