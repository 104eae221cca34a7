//! A request as a script builds it: its target, headers, query, body and
//! time limit, and the URL that it is sent to.
use vstd::prelude::*;
use crate::http::web::{
    lower_ascii, check_header_name, check_header_value, header_name_valid, header_value_valid,
    join_url, json_outcome, normalize_json, parse_url, url_join_outcome, url_parse_outcome,
};
use crate::string_map::StringMap;
use crate::text::{append_str, i64_text, is_blank, preview, preview_of, signed_decimal, trim};

verus! {

/// The HTTP method of a request.
#[derive(Clone, Copy, Debug, PartialEq, Eq)]
pub enum Method {
    Get,
    Post,
    Put,
    Patch,
    Delete,
}

impl Method {
    /// The method's name as HTTP writes it.
    pub fn as_str(&self) -> (s: &'static str)
        ensures
            s@ == match self {
                Method::Get => "GET"@,
                Method::Post => "POST"@,
                Method::Put => "PUT"@,
                Method::Patch => "PATCH"@,
                Method::Delete => "DELETE"@,
            },
    {
        match self {
            Method::Get => "GET",
            Method::Post => "POST",
            Method::Put => "PUT",
            Method::Patch => "PATCH",
            Method::Delete => "DELETE",
        }
    }
}

/// A request body other than JSON.
#[derive(Clone, Debug)]
pub enum Body {
    Text(String),
    Form(StringMap),
    Bytes(Vec<u8>),
}

/// A request under construction.
#[derive(Clone, Debug)]
pub struct RequestBuilder {
    pub method: Method,
    pub base_url: Option<String>,
    pub path: Option<String>,
    pub url: Option<String>,
    /// Header names (lower case) and their values.
    pub headers: StringMap,
    pub query: StringMap,
    pub body: Option<Body>,
    /// A JSON body, as compact JSON text.
    pub json: Option<String>,
    /// The time limit in milliseconds.
    pub timeout_ms: Option<u64>,
}

/// The message when `HeaderName::from_str` refuses a header name.
pub open spec fn header_name_message(key: Seq<char>, error: Seq<char>) -> Seq<char> {
    "invalid header name `"@ + key + "`: "@ + error
        + ". expected names like `content-type` or `x-api-key`"@
}

pub open spec fn header_value_message(key: Seq<char>, error: Seq<char>) -> Seq<char> {
    "invalid header value for `"@ + key + "`: "@ + error
}

pub open spec fn json_message(raw: Seq<char>, error: Seq<char>) -> Seq<char> {
    "invalid json body: "@ + error + ". body preview: `"@ + preview_of(raw, 140) + "`"@
}

pub open spec fn timeout_message(ms: int) -> Seq<char> {
    "invalid timeout `"@ + signed_decimal(ms) + "` in `:timeout_ms(...)`: value must be greater than 0"@
}

pub open spec fn url_message(url: Seq<char>, error: Seq<char>) -> Seq<char> {
    "invalid url `"@ + url + "`: "@ + error
        + ". expected absolute URL like `https://example.com/path`"@
}

pub open spec fn base_message(base: Seq<char>, error: Seq<char>) -> Seq<char> {
    "invalid base_url `"@ + base + "`: "@ + error + ". use something like `https://api.example.com`"@
}

pub open spec fn join_message(path: Seq<char>, base: Seq<char>, error: Seq<char>) -> Seq<char> {
    "invalid path `"@ + path + "` for base_url `"@ + base + "`: "@ + error
        + ". use a leading slash path like `/users` or pass absolute URL via `:url(...)`"@
}

pub open spec fn relative_path_message(path: Seq<char>) -> Seq<char> {
    "relative path `"@ + path
        + "` used without base_url. set it with `client:base_url(\"https://api.example.com\")` or call `:url(\"https://api.example.com"@
        + path + "\")`"@
}

pub open spec fn missing_target_message() -> Seq<char> {
    "missing request target: call `:url(...)` or `:path(...)`. if you use `:path(...)`, set `client:base_url(...)` first"@
}

pub open spec fn opt_view(o: Option<String>) -> Option<Seq<char>> {
    match o {
        Some(s) => Some(s@),
        None => None,
    }
}

/// Where a request goes, from its explicit URL, base URL and path, as the
/// URL parser and joiner take them: the URL text, or the error.
pub open spec fn target_result(
    url: Option<Seq<char>>,
    base: Option<Seq<char>>,
    path: Option<Seq<char>>,
) -> Result<Seq<char>, Seq<char>> {
    match url {
        Some(u) => match url_parse_outcome(u) {
            Err(e) => Err(url_message(u, e)),
            Ok(_) => Ok(u),
        },
        None => match (base, path) {
            (Some(b), Some(p)) => match url_parse_outcome(b) {
                Err(e) => Err(base_message(b, e)),
                Ok((_, _, text)) => match url_join_outcome(text, p) {
                    Err(e) => Err(join_message(p, b, e)),
                    Ok(joined) => Ok(joined),
                },
            },
            (None, Some(p)) => if url_parse_outcome(p) is Ok {
                Ok(p)
            } else {
                Err(relative_path_message(p))
            },
            _ => Err(missing_target_message()),
        },
    }
}

/// The target of a request with an explicit URL, given whether the URL parsed
/// (`None`) or the text of the error.
pub fn explicit_url_target(url: &str, parse_error: Option<String>) -> (r: Result<String, String>)
    ensures
        match parse_error {
            None => r matches Ok(u) && u@ == url@,
            Some(e) => r matches Err(m) && m@ == url_message(url@, e@),
        },
{
    match parse_error {
        None => Ok(String::from_str(url)),
        Some(e) => {
            let mut m = String::from_str("invalid url `");
            append_str(&mut m, url);
            append_str(&mut m, "`: ");
            append_str(&mut m, e.as_str());
            append_str(&mut m, ". expected absolute URL like `https://example.com/path`");
            Err(m)
        },
    }
}

/// The target of a request with a base URL and a path, given the error of
/// parsing the base, or else what joining the path onto it gave.
pub fn joined_target(base: &str, path: &str, base_error: Option<String>, joined: Result<String, String>) -> (r: Result<String, String>)
    ensures
        match base_error {
            Some(e) => r matches Err(m) && m@ == base_message(base@, e@),
            None => match joined {
                Ok(u) => r matches Ok(t) && t@ == u@,
                Err(e) => r matches Err(m) && m@ == join_message(path@, base@, e@),
            },
        },
{
    match base_error {
        Some(e) => {
            let mut m = String::from_str("invalid base_url `");
            append_str(&mut m, base);
            append_str(&mut m, "`: ");
            append_str(&mut m, e.as_str());
            append_str(&mut m, ". use something like `https://api.example.com`");
            Err(m)
        },
        None => match joined {
            Ok(u) => Ok(u),
            Err(e) => {
                let mut m = String::from_str("invalid path `");
                append_str(&mut m, path);
                append_str(&mut m, "` for base_url `");
                append_str(&mut m, base);
                append_str(&mut m, "`: ");
                append_str(&mut m, e.as_str());
                append_str(
                    &mut m,
                    ". use a leading slash path like `/users` or pass absolute URL via `:url(...)`",
                );
                Err(m)
            },
        },
    }
}

/// The target of a request with a path and no base URL, given whether the
/// path parses as an absolute URL.
pub fn bare_path_target(path: &str, path_is_url: bool) -> (r: Result<String, String>)
    ensures
        path_is_url ==> (r matches Ok(u) && u@ == path@),
        !path_is_url ==> (r matches Err(m) && m@ == relative_path_message(path@)),
{
    if path_is_url {
        Ok(String::from_str(path))
    } else {
        let mut m = String::from_str("relative path `");
        append_str(&mut m, path);
        append_str(
            &mut m,
            "` used without base_url. set it with `client:base_url(\"https://api.example.com\")` or call `:url(\"https://api.example.com",
        );
        append_str(&mut m, path);
        append_str(&mut m, "\")`");
        Err(m)
    }
}

impl RequestBuilder {
    /// A `GET` request with the given base URL and nothing else set.
    pub open spec fn is_fresh(&self, base_url: Option<String>) -> bool {
        &&& self.method == Method::Get
        &&& self.base_url == base_url
        &&& self.path is None
        &&& self.url is None
        &&& self.headers@ == Map::<Seq<char>, Seq<char>>::empty()
        &&& self.query@ == Map::<Seq<char>, Seq<char>>::empty()
        &&& self.body is None
        &&& self.json is None
        &&& self.timeout_ms is None
    }

    /// A `GET` request from `base_url`, with nothing else set.
    pub fn new(base_url: Option<String>) -> (r: Self)
        ensures
            r.is_fresh(base_url),
    {
        RequestBuilder {
            method: Method::Get,
            base_url,
            path: None,
            url: None,
            headers: StringMap::new(),
            query: StringMap::new(),
            body: None,
            json: None,
            timeout_ms: None,
        }
    }

    /// Where the request goes: its explicit URL when it has one (which must
    /// parse), else its path joined onto its base URL, else its path when
    /// that is an absolute URL.
    pub fn build_url(&self) -> (r: Result<String, String>)
        ensures
            match target_result(opt_view(self.url), opt_view(self.base_url), opt_view(self.path)) {
                Ok(u) => r matches Ok(t) && t@ == u,
                Err(m) => r matches Err(e) && e@ == m,
            },
    {
        if let Some(url) = &self.url {
            let error = match parse_url(url.as_str()) {
                Ok(_) => None,
                Err(e) => Some(e),
            };
            return explicit_url_target(url.as_str(), error);
        }
        match (&self.base_url, &self.path) {
            (Some(base), Some(path)) => match parse_url(base.as_str()) {
                Err(e) => joined_target(base.as_str(), path.as_str(), Some(e), Err(String::new())),
                Ok(parsed) => {
                    let joined = join_url(&parsed, path.as_str());
                    joined_target(base.as_str(), path.as_str(), None, joined)
                },
            },
            (None, Some(path)) => {
                let is_url = parse_url(path.as_str()).is_ok();
                bare_path_target(path.as_str(), is_url)
            },
            _ => Err(
                String::from_str(
                    "missing request target: call `:url(...)` or `:path(...)`. if you use `:path(...)`, set `client:base_url(...)` first",
                ),
            ),
        }
    }

    /// Sets the path, which may not be blank.
    pub fn set_path(&mut self, path: String) -> (r: Result<(), String>)
        ensures
            trim(path@).len() == 0 ==> (r matches Err(m) && m@
                == "path passed to `:path(...)` cannot be empty"@) && *final(self) == *old(self),
            trim(path@).len() != 0 ==> r is Ok && *final(self) == (RequestBuilder {
                path: Some(path),
                ..*old(self)
            }),
    {
        if is_blank(path.as_str()) {
            return Err(String::from_str("path passed to `:path(...)` cannot be empty"));
        }
        self.path = Some(path);
        Ok(())
    }

    /// Sets the explicit URL, which may not be blank.
    pub fn set_url(&mut self, url: String) -> (r: Result<(), String>)
        ensures
            trim(url@).len() == 0 ==> (r matches Err(m) && m@
                == "url passed to `:url(...)` cannot be empty"@) && *final(self) == *old(self),
            trim(url@).len() != 0 ==> r is Ok && *final(self) == (RequestBuilder {
                url: Some(url),
                ..*old(self)
            }),
    {
        if is_blank(url.as_str()) {
            return Err(String::from_str("url passed to `:url(...)` cannot be empty"));
        }
        self.url = Some(url);
        Ok(())
    }

    /// Sets a header. The name must be a valid header name and is kept in
    /// lower case; the value must be a valid header value. A header of the
    /// same name is replaced.
    pub fn set_header(&mut self, key: &str, value: String) -> (r: Result<(), String>)
        ensures
            !header_name_valid(key@) ==> (r matches Err(m) && m@ == header_name_message(
                key@,
                "invalid HTTP header name"@,
            )) && *final(self) == *old(self),
            header_name_valid(key@) && !header_value_valid(value@) ==> (r matches Err(m) && m@
                == header_value_message(key@, "failed to parse header value"@)) && *final(self)
                == *old(self),
            header_name_valid(key@) && header_value_valid(value@) ==> r is Ok
                && final(self).headers@ == old(self).headers@.insert(lower_ascii(key@), value@)
                && *final(self) == (RequestBuilder { headers: final(self).headers, ..*old(self) }),
    {
        let name = match check_header_name(key) {
            Ok(n) => n,
            Err(e) => {
                let mut m = String::from_str("invalid header name `");
                append_str(&mut m, key);
                append_str(&mut m, "`: ");
                append_str(&mut m, e.as_str());
                append_str(&mut m, ". expected names like `content-type` or `x-api-key`");
                return Err(m);
            },
        };
        match check_header_value(value.as_str()) {
            Ok(()) => {},
            Err(e) => {
                let mut m = String::from_str("invalid header value for `");
                append_str(&mut m, key);
                append_str(&mut m, "`: ");
                append_str(&mut m, e.as_str());
                return Err(m);
            },
        }
        self.headers.insert(name, value);
        Ok(())
    }

    /// Sets a query parameter, replacing one of the same name.
    pub fn set_query(&mut self, key: String, value: String)
        ensures
            final(self).query@ == old(self).query@.insert(key@, value@),
            *final(self) == (RequestBuilder { query: final(self).query, ..*old(self) }),
    {
        self.query.insert(key, value);
    }

    /// Makes the body the given text, in place of any JSON body.
    pub fn set_body_text(&mut self, body: String)
        ensures
            *final(self) == (RequestBuilder { body: Some(Body::Text(body)), json: None, ..*old(self) }),
    {
        self.body = Some(Body::Text(body));
        self.json = None;
    }

    /// Makes the body the given bytes, in place of any JSON body.
    pub fn set_body_bytes(&mut self, body: Vec<u8>)
        ensures
            *final(self) == (RequestBuilder { body: Some(Body::Bytes(body)), json: None, ..*old(self) }),
    {
        self.body = Some(Body::Bytes(body));
        self.json = None;
    }

    /// Makes the body the given form fields, in place of any JSON body.
    pub fn set_form(&mut self, form: StringMap)
        ensures
            *final(self) == (RequestBuilder { body: Some(Body::Form(form)), json: None, ..*old(self) }),
    {
        self.body = Some(Body::Form(form));
        self.json = None;
    }

    /// Makes the body JSON, given what parsing the text `raw` gave: its compact
    /// text, or the parse error. On an error the request stays as it was.
    pub fn apply_json(&mut self, raw: &str, parsed: Result<String, String>) -> (r: Result<(), String>)
        ensures
            match parsed {
                Ok(text) => r is Ok && *final(self) == (RequestBuilder {
                    json: Some(text),
                    body: None,
                    ..*old(self)
                }),
                Err(e) => (r matches Err(m) && m@ == json_message(raw@, e@)) && *final(self)
                    == *old(self),
            },
    {
        match parsed {
            Ok(text) => {
                self.json = Some(text);
                self.body = None;
                Ok(())
            },
            Err(e) => {
                let mut m = String::from_str("invalid json body: ");
                append_str(&mut m, e.as_str());
                append_str(&mut m, ". body preview: `");
                let p = preview(raw, 140);
                append_str(&mut m, p.as_str());
                append_str(&mut m, "`");
                Err(m)
            },
        }
    }

    /// Makes the body the JSON text `raw`, which must parse as JSON.
    pub fn set_json(&mut self, raw: &str) -> (r: Result<(), String>)
        ensures
            match json_outcome(raw@) {
                Ok(text) => r is Ok && (final(self).json matches Some(j) && j@ == text)
                    && *final(self) == (RequestBuilder {
                    json: final(self).json,
                    body: None,
                    ..*old(self)
                }),
                Err(e) => (r matches Err(m) && m@ == json_message(raw@, e)) && *final(self)
                    == *old(self),
            },
    {
        let parsed = normalize_json(raw);
        self.apply_json(raw, parsed)
    }

    /// Sets the time limit, which must be positive.
    pub fn set_timeout_ms(&mut self, timeout_ms: i64) -> (r: Result<(), String>)
        ensures
            timeout_ms <= 0 ==> (r matches Err(m) && m@ == timeout_message(timeout_ms as int))
                && *final(self) == *old(self),
            timeout_ms > 0 ==> r is Ok && *final(self) == (RequestBuilder {
                timeout_ms: Some(timeout_ms as u64),
                ..*old(self)
            }),
    {
        if timeout_ms <= 0 {
            let mut m = String::from_str("invalid timeout `");
            let n = i64_text(timeout_ms);
            append_str(&mut m, n.as_str());
            append_str(&mut m, "` in `:timeout_ms(...)`: value must be greater than 0");
            return Err(m);
        }
        self.timeout_ms = Some(timeout_ms as u64);
        Ok(())
    }

    /// Sets the `authorization` header to `Bearer <token>`. The token may not
    /// be blank, and the header value must be valid.
    pub fn set_bearer(&mut self, token: &str) -> (r: Result<(), String>)
        ensures
            trim(token@).len() == 0 ==> (r matches Err(m) && m@
                == "token passed to `:bearer(...)` cannot be empty"@) && *final(self) == *old(self),
            trim(token@).len() != 0 && !header_value_valid("Bearer "@ + token@) ==> (r matches Err(
                m,
            ) && m@ == "invalid bearer token header value: "@ + "failed to parse header value"@)
                && *final(self) == *old(self),
            trim(token@).len() != 0 && header_value_valid("Bearer "@ + token@) ==> r is Ok
                && final(self).headers@ == old(self).headers@.insert(
                "authorization"@,
                "Bearer "@ + token@,
            ) && *final(self) == (RequestBuilder { headers: final(self).headers, ..*old(self) }),
    {
        if is_blank(token) {
            return Err(String::from_str("token passed to `:bearer(...)` cannot be empty"));
        }
        let mut auth = String::from_str("Bearer ");
        append_str(&mut auth, token);
        match check_header_value(auth.as_str()) {
            Ok(()) => {},
            Err(e) => {
                let mut m = String::from_str("invalid bearer token header value: ");
                append_str(&mut m, e.as_str());
                return Err(m);
            },
        }
        self.headers.insert(String::from_str("authorization"), auth);
        Ok(())
    }

    /// Sets the method.
    pub fn set_method(&mut self, method: Method)
        ensures
            *final(self) == (RequestBuilder { method, ..*old(self) }),
    {
        self.method = method;
    }
}

/// Labels joined with `, `.
pub open spec fn join_comma(s: Seq<Seq<char>>) -> Seq<char>
    decreases s.len(),
{
    if s.len() == 0 {
        Seq::empty()
    } else if s.len() == 1 {
        s[0]
    } else {
        join_comma(s.drop_last()) + ", "@ + s.last()
    }
}

/// The labels of the kinds that a failed request reports, in a fixed order.
pub open spec fn request_error_kinds(timeout: bool, connect: bool, request: bool, body: bool, decode: bool) -> Seq<Seq<char>> {
    (if timeout { seq!["timeout"@] } else { Seq::empty() })
        + (if connect { seq!["connection error"@] } else { Seq::empty() })
        + (if request { seq!["request build error"@] } else { Seq::empty() })
        + (if body { seq!["request/response body error"@] } else { Seq::empty() })
        + (if decode { seq!["decode error"@] } else { Seq::empty() })
}

fn add_kind(out: &mut String, labels: Ghost<Seq<Seq<char>>>, any: bool, flag: bool, label: &str) -> (r: (Ghost<Seq<Seq<char>>>, bool))
    requires
        old(out)@ == join_comma(labels@),
        any == (labels@.len() > 0),
    ensures
        final(out)@ == join_comma(r.0@),
        r.0@ == labels@ + if flag { seq![label@] } else { Seq::empty() },
        r.1 == (r.0@.len() > 0),
{
    if flag {
        if any {
            append_str(out, ", ");
        }
        append_str(out, label);
        let r = Ghost(labels@.push(label@));
        assert(r@.drop_last() =~= labels@);
        assert(labels@ + seq![label@] =~= r@);
        (r, true)
    } else {
        assert(labels@ + Seq::<Seq<char>>::empty() =~= labels@);
        (labels, any)
    }
}

/// The description of a failed request: the kinds of failure that the HTTP
/// client reports, then its own text; the text alone when no kind applies.
pub fn describe_request_error(
    timeout: bool,
    connect: bool,
    request: bool,
    body: bool,
    decode: bool,
    text: &str,
) -> (d: String)
    ensures
        ({
            let kinds = request_error_kinds(timeout, connect, request, body, decode);
            if kinds.len() == 0 {
                d@ == text@
            } else {
                d@ == join_comma(kinds) + ": "@ + text@
            }
        }),
{
    let mut out = String::new();
    let labels = Ghost(Seq::<Seq<char>>::empty());
    let (labels, any) = add_kind(&mut out, labels, false, timeout, "timeout");
    let (labels, any) = add_kind(&mut out, labels, any, connect, "connection error");
    let (labels, any) = add_kind(&mut out, labels, any, request, "request build error");
    let (labels, any) = add_kind(&mut out, labels, any, body, "request/response body error");
    let (labels, any) = add_kind(&mut out, labels, any, decode, "decode error");
    assert(labels@ =~= request_error_kinds(timeout, connect, request, body, decode));
    if !any {
        return String::from_str(text);
    }
    append_str(&mut out, ": ");
    append_str(&mut out, text);
    out
}

/// Whether a response status is a success (200 to 299).
pub fn is_success_status(status: u16) -> (b: bool)
    ensures
        b == (200 <= status < 300),
{
    200 <= status && status < 300
}

} // verus!
