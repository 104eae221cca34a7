use hutc::cli::{definitions_file_name, Args, Command};
use hutc::expect::{assertion_message, equal_detail, missing_detail, not_equal_detail, quoted};
use hutc::fs::{check_lua_files_found, check_lua_root, is_lua_file, is_lua_file_name, LuaPathErrorKind};
use hutc::runner::{script_failure, TestRun};
use hutc::string_map::StringMap;
use hutc::text::{preview, u64_text, i64_text};

#[test]
fn lua_files() {
    assert!(is_lua_file("tests/api.lua"));
    assert!(is_lua_file("api.lua"));
    assert!(!is_lua_file("tests/hutc.defs.lua"));
    assert!(!is_lua_file("tests/readme.md"));
    assert!(!is_lua_file(".lua"));
    assert!(is_lua_file("..lua"));
    assert!(!is_lua_file("tests/"));
    assert!(!is_lua_file("a.LUA"));
    assert!(!is_lua_file(".dir/.lua"));
    assert!(is_lua_file("dir/a.lua/"));
    assert!(is_lua_file_name(Some("x.lua")));
    assert!(!is_lua_file_name(None));
    assert!(!is_lua_file_name(Some("..")));
}

#[test]
fn lua_root_checks() {
    let e = check_lua_root("nope", false, false).unwrap_err();
    assert_eq!(e.kind, LuaPathErrorKind::NotFound);
    assert_eq!(e.message, "path `nope` does not exist");
    let e = check_lua_root("a.txt", true, true).unwrap_err();
    assert_eq!(e.kind, LuaPathErrorKind::InvalidInput);
    assert_eq!(
        e.message,
        "path `a.txt` is not a Lua file. expected a `.lua` file or a directory containing `.lua` files"
    );
    assert!(check_lua_root("a.lua", true, true).is_ok());
    assert!(check_lua_root("dir", true, false).is_ok());
    let e = check_lua_files_found("dir", 0).unwrap_err();
    assert_eq!(e.message, "no `.lua` files found under `dir`");
    assert!(check_lua_files_found("dir", 2).is_ok());
}

#[test]
fn test_run_counts() {
    assert_eq!(
        TestRun::start("tests", 0).err(),
        Some("no tests were registered from `tests`. make sure files call `test(\"name\", fn)`".to_string())
    );
    let mut run = TestRun::start("tests", 3).unwrap();
    assert_eq!(run.header(), "running 3 tests");
    assert_eq!(run.record("a".to_string(), 12, None), "[1/3] PASS a (12 ms)");
    assert_eq!(
        run.record("b".to_string(), 5, Some("t.lua:2: boom".to_string())),
        "[2/3] FAIL b (5 ms)\n       t.lua:2: boom"
    );
    assert!(!run.is_complete());
    run.record("c".to_string(), 0, None);
    assert!(run.is_complete());
    assert_eq!(run.summary(40), "summary: total=3 passed=2 failed=1 duration=40 ms");
    assert_eq!(run.failure_lines(), vec!["failed tests:".to_string(), "  - b".to_string()]);
    assert_eq!(run.finish(), Err("1/3 test(s) failed".to_string()));

    let mut single = TestRun::start("t.lua", 1).unwrap();
    assert_eq!(single.header(), "running 1 test");
    single.record("only".to_string(), 1, None);
    assert!(single.failure_lines().is_empty());
    assert_eq!(single.finish(), Ok(()));
    assert_eq!(script_failure("t.lua", "boom"), "failed to execute Lua file `t.lua`:\nboom");
}

#[test]
fn expectation_messages() {
    assert_eq!(assertion_message(Some("status"), "expected 200 but got 404"), "status: expected 200 but got 404");
    assert_eq!(assertion_message(None, "d"), "d");
    assert_eq!(not_equal_detail("200", "404"), "expected 200 but got 404");
    assert_eq!(equal_detail("nil"), "expected value to not equal nil");
    assert_eq!(missing_detail(), "expected value to exist but got nil");
    assert_eq!(quoted("ok"), "\"ok\"");
}

#[test]
fn commands() {
    let args = Args { command: "init".to_string(), path: "tests".to_string() };
    assert!(matches!(args.command(), Some(Command::Init { path }) if path == "tests"));
    let args = Args { command: "test".to_string(), path: "x.lua".to_string() };
    assert!(matches!(args.command(), Some(Command::Test { path }) if path == "x.lua"));
    let args = Args { command: "run".to_string(), path: "x".to_string() };
    assert!(args.command().is_none());
    assert_eq!(definitions_file_name(), "hutc.defs.lua");
}

#[test]
fn string_map_and_text() {
    let mut m = StringMap::new();
    assert!(m.is_empty());
    m.insert("k".to_string(), "1".to_string());
    m.insert("j".to_string(), "2".to_string());
    m.insert("k".to_string(), "3".to_string());
    assert_eq!(m.len(), 2);
    assert_eq!(m.get("k"), Some("3".to_string()));
    assert_eq!(m.get("z"), None);
    assert_eq!(
        m.entries().clone(),
        vec![("k".to_string(), "3".to_string()), ("j".to_string(), "2".to_string())]
    );
    let c = m.clone();
    assert_eq!(c.get("j"), Some("2".to_string()));

    assert_eq!(preview("héllo", 2), "hé...");
    assert_eq!(preview("abc", 3), "abc");
    assert_eq!(u64_text(0), "0");
    assert_eq!(u64_text(18446744073709551615), "18446744073709551615");
    assert_eq!(i64_text(i64::MIN), "-9223372036854775808");
    assert_eq!(i64_text(-7), "-7");
}
