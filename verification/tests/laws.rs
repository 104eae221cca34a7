use hutc::env::parse_env;
use hutc::lua::{parse_lua_error_message, parse_traceback_location};
use hutc::update::is_newer_version;

#[test]
fn concatenated_files_merge_with_later_winning() {
    let a = "A=1\nB=2\n";
    let b = "B=3\nC=4\n";
    let ma = parse_env(a).unwrap();
    let mb = parse_env(b).unwrap();
    let both = parse_env(&format!("{a}{b}")).unwrap();
    assert_eq!(both.get("A"), ma.get("A"));
    assert_eq!(both.get("B"), mb.get("B"));
    assert_eq!(both.get("C"), mb.get("C"));
    assert_eq!(both.len(), 3);
}

#[test]
fn parsed_keys_are_valid_names() {
    let envs = parse_env("export _A1 = x\nb_2='y'\n").unwrap();
    for (k, _) in envs.entries() {
        let first = k.chars().next().unwrap();
        assert!(first == '_' || first.is_ascii_alphabetic());
        assert!(k.chars().all(|c| c == '_' || c.is_ascii_alphanumeric()));
    }
    assert_eq!(envs.len(), 2);
}

#[test]
fn plain_assignment_reads_back() {
    let envs = parse_env("KEY=some-value/1").unwrap();
    assert_eq!(envs.get("KEY"), Some("some-value/1".to_string()));
    assert_eq!(envs.len(), 1);
}

#[test]
fn version_order_laws() {
    let vs = ["0.1.0-rc.1", "0.1.0", "0.1.1", "0.2", "1.0.0"];
    for a in vs {
        assert!(!is_newer_version(a, a));
        for b in vs {
            assert!(!(is_newer_version(a, b) && is_newer_version(b, a)));
            for c in vs {
                if is_newer_version(a, b) && is_newer_version(b, c) {
                    assert!(is_newer_version(a, c));
                }
            }
        }
    }
    assert!(!is_newer_version("1.2.0.0", "1.2"));
    assert!(!is_newer_version("1.2", "1.2.0.0"));
}

#[test]
fn chunk_locations_read_back() {
    assert_eq!(
        parse_traceback_location("[string \"dir/x.lua\"]:42: in local 'f'"),
        Some("dir/x.lua:42".to_string())
    );
    assert_eq!(
        parse_lua_error_message("[string \"dir/x.lua\"]:42:   bad thing  "),
        Some(("dir/x.lua:42".to_string(), "bad thing".to_string()))
    );
}

fn escape_double(v: &str) -> String {
    let mut out = String::new();
    for c in v.chars() {
        if c == '\\' || c == '"' {
            out.push('\\');
        }
        out.push(c);
    }
    out
}

#[test]
fn escaped_double_quoted_values_read_back() {
    let pairs = [
        ("A", "plain"),
        ("B", "line one\nline two"),
        ("C", "has # hash and 'quotes' and \"double\""),
        ("D_2", "back\\slash\\n not an escape"),
        ("E", "  spaced  "),
        ("F", ""),
    ];
    let mut text = String::new();
    for (k, v) in pairs {
        text.push_str(&format!("{k}=\"{}\"\n", escape_double(v)));
    }
    let envs = parse_env(&text).unwrap();
    assert_eq!(envs.len(), pairs.len());
    for (k, v) in pairs {
        assert_eq!(envs.get(k), Some(v.to_string()));
    }
}

#[test]
fn export_prefix_changes_nothing() {
    for s in ["A=1\nB=2\n", "KEY = 'v' # c\n", "A x\n", "BAD\n", "exportX=1\n", "A=\"open"] {
        let plain = parse_env(s).map(|m| m.entries().clone());
        let exported = parse_env(&format!("export {s}")).map(|m| m.entries().clone());
        assert_eq!(plain, exported, "input {s:?}");
    }
}

#[test]
fn missing_equals_error_names_the_key_line() {
    let err = parse_env("GOOD=value\nBAD\n").unwrap_err();
    assert_eq!(err.line, 2);
    assert_eq!(err.message, "expected `=`, found `\n`");
}
