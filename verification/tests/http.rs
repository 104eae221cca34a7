use hutc::http::client::HttpClient;
use hutc::http::req::{bare_path_target, explicit_url_target, joined_target, Body, Method, RequestBuilder};
use hutc::http::web::UrlParts;
use hutc::string_map::StringMap;

#[test]
fn client_base_url() {
    let mut client = HttpClient::new();
    assert_eq!(client.base_url, None);
    client.set_base_url("https://api.example.com").unwrap();
    assert_eq!(client.base_url.as_deref(), Some("https://api.example.com/"));
    let err = client.set_base_url("ftp://x.org").unwrap_err();
    assert_eq!(
        err,
        "invalid base_url `ftp://x.org`: unsupported scheme `ftp`. only `http` and `https` are allowed"
    );
    assert_eq!(client.base_url.as_deref(), Some("https://api.example.com/"));
    let err = client.set_base_url("not a url").unwrap_err();
    assert_eq!(
        err,
        "invalid base_url `not a url`: relative URL without a base. expected absolute URL like `https://api.example.com`"
    );
    let req = client.req();
    assert_eq!(req.base_url.as_deref(), Some("https://api.example.com/"));
    assert_eq!(req.method, Method::Get);
}

#[test]
fn apply_base_url_checks_host() {
    let mut client = HttpClient::new();
    let parts = UrlParts { scheme: "http".to_string(), host: None, text: "http:x".to_string() };
    assert_eq!(
        client.apply_base_url("http:x", Ok(parts)),
        Err("invalid base_url `http:x`: host is missing".to_string())
    );
    let parts = UrlParts {
        scheme: "http".to_string(),
        host: Some("h".to_string()),
        text: "http://h/".to_string(),
    };
    assert_eq!(client.apply_base_url("http://h", Ok(parts)), Ok(()));
    assert_eq!(client.base_url.as_deref(), Some("http://h/"));
}

#[test]
fn request_targets() {
    let mut req = RequestBuilder::new(Some("https://api.example.com/v1/".to_string()));
    assert_eq!(
        req.build_url(),
        Err("missing request target: call `:url(...)` or `:path(...)`. if you use `:path(...)`, set `client:base_url(...)` first".to_string())
    );
    req.set_path("users".to_string()).unwrap();
    assert_eq!(req.build_url(), Ok("https://api.example.com/v1/users".to_string()));
    req.set_path("/users".to_string()).unwrap();
    assert_eq!(req.build_url(), Ok("https://api.example.com/users".to_string()));
    req.set_url("https://other.example.com/x".to_string()).unwrap();
    assert_eq!(req.build_url(), Ok("https://other.example.com/x".to_string()));
    req.set_url("nope".to_string()).unwrap();
    assert_eq!(
        req.build_url(),
        Err("invalid url `nope`: relative URL without a base. expected absolute URL like `https://example.com/path`".to_string())
    );

    let mut bare = RequestBuilder::new(None);
    bare.set_path("/users".to_string()).unwrap();
    assert_eq!(
        bare.build_url(),
        Err("relative path `/users` used without base_url. set it with `client:base_url(\"https://api.example.com\")` or call `:url(\"https://api.example.com/users\")`".to_string())
    );
    bare.set_path("http://h/p".to_string()).unwrap();
    assert_eq!(bare.build_url(), Ok("http://h/p".to_string()));
}

#[test]
fn target_helpers() {
    assert_eq!(explicit_url_target("u", None), Ok("u".to_string()));
    assert_eq!(
        explicit_url_target("u", Some("bad".to_string())),
        Err("invalid url `u`: bad. expected absolute URL like `https://example.com/path`".to_string())
    );
    assert_eq!(
        joined_target("b", "p", Some("e".to_string()), Ok("x".to_string())),
        Err("invalid base_url `b`: e. use something like `https://api.example.com`".to_string())
    );
    assert_eq!(
        joined_target("b", "p", None, Err("e".to_string())),
        Err("invalid path `p` for base_url `b`: e. use a leading slash path like `/users` or pass absolute URL via `:url(...)`".to_string())
    );
    assert_eq!(joined_target("b", "p", None, Ok("j".to_string())), Ok("j".to_string()));
    assert_eq!(bare_path_target("http://x", true), Ok("http://x".to_string()));
}

#[test]
fn request_setters() {
    let mut req = RequestBuilder::new(None);
    assert_eq!(
        req.set_path("  ".to_string()),
        Err("path passed to `:path(...)` cannot be empty".to_string())
    );
    assert_eq!(req.set_url("".to_string()), Err("url passed to `:url(...)` cannot be empty".to_string()));
    req.set_header("X-Api-Key", "abc".to_string()).unwrap();
    assert_eq!(req.headers.get("x-api-key"), Some("abc".to_string()));
    req.set_header("x-api-key", "def".to_string()).unwrap();
    assert_eq!(req.headers.len(), 1);
    assert_eq!(req.headers.get("x-api-key"), Some("def".to_string()));
    assert_eq!(
        req.set_header("bad name", "v".to_string()),
        Err("invalid header name `bad name`: invalid HTTP header name. expected names like `content-type` or `x-api-key`".to_string())
    );
    assert_eq!(
        req.set_header("x-ok", "a\nb".to_string()),
        Err("invalid header value for `x-ok`: failed to parse header value".to_string())
    );
    req.set_query("page".to_string(), "1".to_string());
    req.set_query("page".to_string(), "2".to_string());
    assert_eq!(req.query.get("page"), Some("2".to_string()));

    req.set_json("{ \"a\" : [1, 2] }").unwrap();
    assert_eq!(req.json.as_deref(), Some("{\"a\":[1,2]}"));
    req.set_body_text("hi".to_string());
    assert!(req.json.is_none());
    assert!(matches!(&req.body, Some(Body::Text(t)) if t == "hi"));
    let err = req.set_json("{oops").unwrap_err();
    assert!(err.starts_with("invalid json body: "));
    assert!(err.ends_with(". body preview: `{oops`"));
    assert!(matches!(&req.body, Some(Body::Text(t)) if t == "hi"));

    req.set_body_bytes(vec![1, 2, 3]);
    assert!(matches!(&req.body, Some(Body::Bytes(b)) if b == &vec![1u8, 2, 3]));
    let mut form = StringMap::new();
    form.insert("a".to_string(), "b".to_string());
    req.set_form(form);
    assert!(matches!(&req.body, Some(Body::Form(f)) if f.get("a") == Some("b".to_string())));

    assert_eq!(
        req.set_timeout_ms(-5),
        Err("invalid timeout `-5` in `:timeout_ms(...)`: value must be greater than 0".to_string())
    );
    assert_eq!(
        req.set_timeout_ms(0),
        Err("invalid timeout `0` in `:timeout_ms(...)`: value must be greater than 0".to_string())
    );
    req.set_timeout_ms(1500).unwrap();
    assert_eq!(req.timeout_ms, Some(1500));

    assert_eq!(
        req.set_bearer(" "),
        Err("token passed to `:bearer(...)` cannot be empty".to_string())
    );
    req.set_bearer("tok").unwrap();
    assert_eq!(req.headers.get("authorization"), Some("Bearer tok".to_string()));
    assert_eq!(
        req.set_bearer("a\u{7f}"),
        Err("invalid bearer token header value: failed to parse header value".to_string())
    );
    req.set_method(Method::Post);
    assert_eq!(req.method.as_str(), "POST");
}

#[test]
fn apply_json_error_preview_is_cut() {
    let mut req = RequestBuilder::new(None);
    let raw: String = "x".repeat(150);
    let err = req.apply_json(&raw, Err("e".to_string())).unwrap_err();
    assert_eq!(err, format!("invalid json body: e. body preview: `{}...`", "x".repeat(140)));
    assert_eq!(req.apply_json("1", Ok("1".to_string())), Ok(()));
    assert_eq!(req.json.as_deref(), Some("1"));
}
