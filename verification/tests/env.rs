use hutc::env::{load_env_file, parse_env, Env, EnvLoadError, ParseError, ReadOutcome};

#[test]
fn parse_env_supports_comments_whitespace_and_export() {
    let envs = parse_env(
        r#"
            # comment
            export API_URL = https://example.com
            TOKEN=abc123 # inline comment
            PORT = 8080
            EMPTY=
            HASH=literal\#value
            "#,
    )
    .unwrap();

    assert_eq!(envs.get("API_URL"), Some("https://example.com".to_string()));
    assert_eq!(envs.get("TOKEN"), Some("abc123".to_string()));
    assert_eq!(envs.get("PORT"), Some("8080".to_string()));
    assert_eq!(envs.get("EMPTY"), Some(String::new()));
    assert_eq!(envs.get("HASH"), Some("literal#value".to_string()));
}

#[test]
fn parse_env_supports_quoted_values_and_escapes() {
    let envs =
        parse_env("SINGLE='a # literal'\nDOUBLE=\"line\\nvalue\"\nMULTI=\"hello\nworld\"\n")
            .unwrap();

    assert_eq!(envs.get("SINGLE"), Some("a # literal".to_string()));
    assert_eq!(envs.get("DOUBLE"), Some("line\nvalue".to_string()));
    assert_eq!(envs.get("MULTI"), Some("hello\nworld".to_string()));
}

#[test]
fn parse_env_rejects_invalid_lines_with_line_number() {
    let err = parse_env("GOOD=value\n1BAD=value\n").unwrap_err();

    assert_eq!(
        err,
        ParseError {
            line: 2,
            message: "invalid environment variable name start `1`".to_string(),
        }
    );
}

#[test]
fn env_loads_missing_files_as_empty() {
    let path = "/tmp/hutc-missing.env".to_string();
    let env = Env::load(path.clone(), ReadOutcome::NotFound).unwrap();

    assert!(env.envs.is_empty());
    assert_eq!(env.path, path);
}

#[test]
fn env_reload_refreshes_values() {
    let path = "/tmp/hutc-reload.env".to_string();
    let mut env = Env::load(path, ReadOutcome::Content("TOKEN=first\n".to_string())).unwrap();
    assert_eq!(env.get("TOKEN", None).as_deref(), Some("first"));

    env.reload(ReadOutcome::Content("TOKEN=second\n".to_string())).unwrap();
    assert_eq!(env.get("TOKEN", None).as_deref(), Some("second"));
}

#[test]
fn env_require_reads_file_then_process_value() {
    let env = Env::load(
        "test.env".to_string(),
        ReadOutcome::Content("TOKEN=from_file\n".to_string()),
    )
    .unwrap();
    assert_eq!(env.require("TOKEN", None).unwrap(), "from_file");
    assert_eq!(
        env.require("TOKEN", Some("from_process".to_string())).unwrap(),
        "from_file"
    );
    assert_eq!(
        env.require("OTHER", Some("from_process".to_string())).unwrap(),
        "from_process"
    );
    let err = env.require("MISSING", None).unwrap_err();
    assert_eq!(
        err.message(),
        "missing environment variable `MISSING` in `test.env` or the process environment"
    );
}

#[test]
fn env_reload_error_keeps_values() {
    let mut env = Env::load("a.env".to_string(), ReadOutcome::Content("A=1\n".to_string())).unwrap();
    let err = env.reload(ReadOutcome::Content("A=2\n=oops\n".to_string())).unwrap_err();
    assert_eq!(
        err.message(),
        "failed to parse env file `a.env` at line 2: invalid environment variable name start `=`"
    );
    assert_eq!(env.get("A", None).as_deref(), Some("1"));
}

#[test]
fn env_load_read_failure_is_io_error() {
    let err = match load_env_file("x.env", ReadOutcome::Failed("permission denied".to_string())) {
        Err(e) => e,
        Ok(_) => panic!("expected an error"),
    };
    assert!(matches!(err, EnvLoadError::Io { .. }));
    assert_eq!(err.message(), "failed to read env file `x.env`: permission denied");
}

#[test]
fn env_default_path_is_dot_env() {
    assert_eq!(Env::default_path(), ".env");
}

#[test]
fn parse_env_later_assignment_overrides() {
    let envs = parse_env("A=1\nB=2\nA=3\n").unwrap();
    assert_eq!(envs.get("A"), Some("3".to_string()));
    assert_eq!(envs.get("B"), Some("2".to_string()));
    assert_eq!(envs.len(), 2);
}

#[test]
fn parse_env_errors_and_lines() {
    let cases: Vec<(&str, usize, &str)> = vec![
        ("A", 1, "expected `=`, found end of file"),
        ("A\n=1", 1, "expected `=`, found `\n`"),
        ("GOOD=value\nBAD\n", 2, "expected `=`, found `\n`"),
        ("A x", 1, "expected `=`, found `x`"),
        ("A='x", 1, "unterminated single-quoted value"),
        ("\n\nA=\"x\ny", 4, "unterminated double-quoted value"),
        ("A=\"x\\", 1, "unterminated escape sequence in double-quoted value"),
        ("A=\"x\" y", 1, "unexpected character `y` after value for `A`"),
        ("export", 1, "expected `=`, found end of file"),
    ];
    for (input, line, message) in cases {
        let err = parse_env(input).unwrap_err();
        assert_eq!(err, ParseError { line, message: message.to_string() }, "input {input:?}");
    }
}

#[test]
fn parse_env_values() {
    let envs = parse_env(
        "\u{feff}A = 'q' # c\nexport\tB=x\\ y \nC=\"\\t\\$\\q\"\nD=a#b\nE=a #b\n_9=\\\nexport=1\n",
    )
    .unwrap();
    assert_eq!(envs.get("A"), Some("q".to_string()));
    assert_eq!(envs.get("B"), Some("x y".to_string()));
    assert_eq!(envs.get("C"), Some("\t$q".to_string()));
    assert_eq!(envs.get("D"), Some("a#b".to_string()));
    assert_eq!(envs.get("E"), Some("a".to_string()));
    assert_eq!(envs.get("_9"), Some(String::new()));
    assert_eq!(envs.get("export"), Some("1".to_string()));
}
