//! The HTTP client that scripts create: where their requests go.
use vstd::prelude::*;
use crate::http::req::RequestBuilder;
use crate::http::web::{parse_url, parts_view, url_parse_outcome, UrlParts};
use crate::text::append_str;

verus! {

/// The message when a base URL does not parse.
pub open spec fn base_url_parse_message(url: Seq<char>, error: Seq<char>) -> Seq<char> {
    "invalid base_url `"@ + url + "`: "@ + error
        + ". expected absolute URL like `https://api.example.com`"@
}

/// The message when a base URL has a scheme other than HTTP's.
pub open spec fn base_url_scheme_message(url: Seq<char>, scheme: Seq<char>) -> Seq<char> {
    "invalid base_url `"@ + url + "`: unsupported scheme `"@ + scheme
        + "`. only `http` and `https` are allowed"@
}

/// The message when a base URL has no host.
pub open spec fn base_url_host_message(url: Seq<char>) -> Seq<char> {
    "invalid base_url `"@ + url + "`: host is missing"@
}

/// The outcome of setting the base URL `url`, given what parsing it gave:
/// the normalized URL to keep, or the error.
pub open spec fn base_url_result(
    url: Seq<char>,
    parsed: Result<(Seq<char>, Option<Seq<char>>, Seq<char>), Seq<char>>,
) -> Result<Seq<char>, Seq<char>> {
    match parsed {
        Err(e) => Err(base_url_parse_message(url, e)),
        Ok((scheme, host, text)) => if scheme != "http"@ && scheme != "https"@ {
            Err(base_url_scheme_message(url, scheme))
        } else if host is None {
            Err(base_url_host_message(url))
        } else {
            Ok(text)
        },
    }
}

/// A client: the base URL that relative request paths are joined onto.
pub struct HttpClient {
    pub base_url: Option<String>,
}

impl HttpClient {
    /// A client with no base URL.
    pub fn new() -> (c: Self)
        ensures
            c.base_url is None,
    {
        HttpClient { base_url: None }
    }

    /// Sets the base URL from what parsing `url` gave. Only absolute `http`
    /// and `https` URLs with a host are accepted; the normalized URL is kept.
    /// On an error the client stays as it was.
    pub fn apply_base_url(&mut self, url: &str, parsed: Result<UrlParts, String>) -> (r: Result<(), String>)
        ensures
            ({
                let outcome = match parsed {
                    Ok(p) => Ok(parts_view(&p)),
                    Err(e) => Err(e@),
                };
                match base_url_result(url@, outcome) {
                    Ok(text) => r is Ok && (final(self).base_url matches Some(b) && b@ == text),
                    Err(m) => (r matches Err(e) && e@ == m) && final(self).base_url == old(self).base_url,
                }
            }),
    {
        match parsed {
            Err(e) => {
                let mut m = String::from_str("invalid base_url `");
                append_str(&mut m, url);
                append_str(&mut m, "`: ");
                append_str(&mut m, e.as_str());
                append_str(&mut m, ". expected absolute URL like `https://api.example.com`");
                Err(m)
            },
            Ok(parts) => {
                let http = String::from_str("http");
                let https = String::from_str("https");
                if parts.scheme != http && parts.scheme != https {
                    let mut m = String::from_str("invalid base_url `");
                    append_str(&mut m, url);
                    append_str(&mut m, "`: unsupported scheme `");
                    append_str(&mut m, parts.scheme.as_str());
                    append_str(&mut m, "`. only `http` and `https` are allowed");
                    return Err(m);
                }
                if parts.host.is_none() {
                    let mut m = String::from_str("invalid base_url `");
                    append_str(&mut m, url);
                    append_str(&mut m, "`: host is missing");
                    return Err(m);
                }
                self.base_url = Some(parts.text);
                Ok(())
            },
        }
    }

    /// Sets the base URL that relative request paths are joined onto.
    pub fn set_base_url(&mut self, url: &str) -> (r: Result<(), String>)
        ensures
            match base_url_result(url@, url_parse_outcome(url@)) {
                Ok(text) => r is Ok && (final(self).base_url matches Some(b) && b@ == text),
                Err(m) => (r matches Err(e) && e@ == m) && final(self).base_url == old(self).base_url,
            },
    {
        let parsed = match parse_url(url) {
            Ok(u) => Ok(u.into_parts()),
            Err(e) => Err(e),
        };
        self.apply_base_url(url, parsed)
    }

    /// A new request that starts from this client's base URL.
    pub fn req(&self) -> (r: RequestBuilder)
        ensures
            r.is_fresh(self.base_url),
    {
        RequestBuilder::new(self.base_url.clone())
    }
}

} // verus!
