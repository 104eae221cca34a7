//! What reqwest and serde_json compute for requests: URL parsing and
//! joining, HTTP header names and values, and JSON texts.
use vstd::prelude::*;

verus! {

#[verifier::external_type_specification]
#[verifier::external_body]
pub struct ExUrl(reqwest::Url);

/// The parts of a parsed URL that the library reads.
#[derive(Clone, Debug)]
pub struct UrlParts {
    /// The scheme, such as `https`.
    pub scheme: String,
    /// The host, when the URL has one.
    pub host: Option<String>,
    /// The URL in its normalized text form.
    pub text: String,
}

/// The parts of a URL as plain values: scheme, host, text.
pub open spec fn parts_view(p: &UrlParts) -> (Seq<char>, Option<Seq<char>>, Seq<char>) {
    (
        p.scheme@,
        match p.host {
            Some(h) => Some(h@),
            None => None,
        },
        p.text@,
    )
}

/// A parsed URL: its parts, and the URL itself for joining paths onto it.
/// Only `parse_url` makes one, so the parts are always those of the URL.
pub struct ParsedUrl {
    parts: UrlParts,
    url: reqwest::Url,
}

impl ParsedUrl {
    /// The scheme, host and normalized text of the URL.
    pub closed spec fn parts_value(&self) -> (Seq<char>, Option<Seq<char>>, Seq<char>) {
        parts_view(&self.parts)
    }

    /// The parts of the URL, as plain values.
    pub fn into_parts(self) -> (p: UrlParts)
        ensures
            parts_view(&p) == self.parts_value(),
    {
        self.parts
    }
}

/// What `Url::parse` gives for a text: the URL's scheme, host and normalized
/// text, or the text of the parse error.
pub uninterp spec fn url_parse_outcome(input: Seq<char>) -> Result<
    (Seq<char>, Option<Seq<char>>, Seq<char>),
    Seq<char>,
>;

/// What `Url::join` gives for the URL whose normalized text is `base` and a
/// (possibly relative) reference: the joined URL's text, or the text of the
/// error.
pub uninterp spec fn url_join_outcome(base: Seq<char>, input: Seq<char>) -> Result<
    Seq<char>,
    Seq<char>,
>;

/// What `serde_json::from_str::<Value>` gives for a text, taken back to text
/// with `Value::to_string`: the compact JSON text of the value, or the text of
/// the parse error.
pub uninterp spec fn json_outcome(raw: Seq<char>) -> Result<Seq<char>, Seq<char>>;

/// Parses an absolute URL (`reqwest::Url::parse`). The contract says only that
/// the outcome is `url_parse_outcome` of the text; which texts parse, and to
/// what, is the url crate's WHATWG parser and is not stated here.
#[verifier::external_body]
pub(crate) fn parse_url(input: &str) -> (r: Result<ParsedUrl, String>)
    ensures
        url_parse_outcome(input@) == match r {
            Ok(u) => Ok(u.parts_value()),
            Err(e) => Err(e@),
        },
{
    match reqwest::Url::parse(input) {
        Ok(url) => Ok(
            ParsedUrl {
                parts: UrlParts {
                    scheme: url.scheme().to_string(),
                    host: url.host_str().map(|h| h.to_string()),
                    text: url.as_str().to_string(),
                },
                url,
            },
        ),
        Err(e) => Err(e.to_string()),
    }
}

/// Resolves a reference against a parsed URL (`reqwest::Url::join`). The
/// contract says only that the outcome is `url_join_outcome` of the base's
/// text and the reference; the resolution rules are the url crate's.
#[verifier::external_body]
pub(crate) fn join_url(base: &ParsedUrl, input: &str) -> (r: Result<String, String>)
    ensures
        url_join_outcome(base.parts_value().2, input@) == match r {
            Ok(u) => Ok(u@),
            Err(e) => Err(e@),
        },
{
    match base.url.join(input) {
        Ok(url) => Ok(url.as_str().to_string()),
        Err(e) => Err(e.to_string()),
    }
}

/// Parses a JSON text and writes it back compactly (`serde_json::from_str`
/// into a `Value`). The contract says only that the outcome is `json_outcome`
/// of the text; the JSON grammar is serde_json's.
#[verifier::external_body]
pub(crate) fn normalize_json(raw: &str) -> (r: Result<String, String>)
    ensures
        json_outcome(raw@) == match r {
            Ok(t) => Ok(t@),
            Err(e) => Err(e@),
        },
{
    match serde_json::from_str::<serde_json::Value>(raw) {
        Ok(value) => Ok(value.to_string()),
        Err(e) => Err(e.to_string()),
    }
}

/// A character that may stand in an HTTP header name (an RFC 9110 token character).
pub open spec fn is_token_char(c: char) -> bool {
    ||| ('a' <= c && c <= 'z')
    ||| ('A' <= c && c <= 'Z')
    ||| ('0' <= c && c <= '9')
    ||| c == '!' || c == '#' || c == '$' || c == '%' || c == '&' || c == '\'' || c == '*'
    ||| c == '+' || c == '-' || c == '.' || c == '^' || c == '_' || c == '`' || c == '|'
    ||| c == '~'
}

/// The lower-case form of an ASCII letter; other characters stay.
pub open spec fn ascii_lower(c: char) -> char {
    if 'A' <= c && c <= 'Z' {
        ((c as u32) + 32) as char
    } else {
        c
    }
}

/// `s` with its ASCII letters in lower case.
pub open spec fn lower_ascii(s: Seq<char>) -> Seq<char> {
    s.map_values(|c: char| ascii_lower(c))
}

/// A header name that `HeaderName::from_str` accepts: 1 to 65535 token characters.
pub open spec fn header_name_valid(name: Seq<char>) -> bool {
    &&& 1 <= name.len() <= 65535
    &&& forall|i: int| 0 <= i < name.len() ==> #[trigger] is_token_char(name[i])
}

/// A header value that `HeaderValue::from_str` accepts: no control character
/// but tab, and no DEL.
pub open spec fn header_value_valid(value: Seq<char>) -> bool {
    forall|i: int|
        0 <= i < value.len() ==> (#[trigger] value[i] >= ' ' && value[i] != '\u{7f}') || value[i]
            == '\t'
}

/// Checks an HTTP header name and gives its normalized, lower-case form
/// (`reqwest::header::HeaderName::from_str`, then `as_str`). The http crate
/// maps each byte through a table that keeps token characters, lower-cases
/// letters and rejects the rest, and rejects empty names and names longer than
/// 65535 bytes; its error displays as `invalid HTTP header name`.
#[verifier::external_body]
pub(crate) fn check_header_name(name: &str) -> (r: Result<String, String>)
    ensures
        r is Ok <==> header_name_valid(name@),
        r matches Ok(n) ==> n@ == lower_ascii(name@),
        r matches Err(e) ==> e@ == "invalid HTTP header name"@,
{
    match name.parse::<reqwest::header::HeaderName>() {
        Ok(n) => Ok(n.as_str().to_string()),
        Err(e) => Err(e.to_string()),
    }
}

/// Checks an HTTP header value (`reqwest::header::HeaderValue::from_str`),
/// which keeps the text as it is. The http crate accepts a text when every
/// byte is at least 32 and not 127, or is a tab; its error displays as
/// `failed to parse header value`.
#[verifier::external_body]
pub(crate) fn check_header_value(value: &str) -> (r: Result<(), String>)
    ensures
        r is Ok <==> header_value_valid(value@),
        r matches Err(e) ==> e@ == "failed to parse header value"@,
{
    match reqwest::header::HeaderValue::from_str(value) {
        Ok(_) => Ok(()),
        Err(e) => Err(e.to_string()),
    }
}

} // verus!
