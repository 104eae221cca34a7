use hutc::lua::{
    check_test_name, extract_error_parts, extract_lua_error, extract_user_location,
    parse_lua_error_message, parse_traceback_location, LuaErrorInfo,
};

#[test]
fn traceback_location_with_line() {
    assert_eq!(
        parse_traceback_location("[string \"tests/file.lua\"]:10: in function <...>"),
        Some("tests/file.lua:10".to_string())
    );
    assert_eq!(
        parse_traceback_location("[string \"a.lua\"]:x: in main chunk"),
        Some("a.lua".to_string())
    );
    assert_eq!(parse_traceback_location("no location here"), None);
    assert_eq!(
        parse_traceback_location("[string \"[string \"b.lua\"]:3:"),
        Some("b.lua:3".to_string())
    );
}

#[test]
fn user_location_skips_internal_frames() {
    let tb = "stack traceback:\r\n\t[C]: in ?\n\t[string \"?\"]:1: in ?\n\t[string \"tests/api.lua\"]:7: in function <x>\n";
    assert_eq!(extract_user_location(tb), Some("tests/api.lua:7".to_string()));
    assert_eq!(extract_user_location("stack traceback:\n\t[C]: in ?"), None);
    assert_eq!(extract_user_location(""), None);
}

#[test]
fn error_message_with_location() {
    assert_eq!(
        parse_lua_error_message(
            "[string \"file.lua\"]:10: attempt to index nil\nstack traceback:\n\t[C]: in ?"
        ),
        Some(("file.lua:10".to_string(), "attempt to index nil".to_string()))
    );
    assert_eq!(parse_lua_error_message("plain error"), None);
    assert_eq!(parse_lua_error_message("[string \"f.lua\"]:x: boom"), None);
    assert_eq!(parse_lua_error_message("[string \"f.lua\"]:12"), None);
}

#[test]
fn lua_error_reports() {
    let runtime = LuaErrorInfo::Runtime("[string \"t.lua\"]:4: expected 1 but got 2".to_string());
    assert_eq!(extract_lua_error(&runtime), "t.lua:4: expected 1 but got 2");

    let callback = LuaErrorInfo::Callback {
        traceback: "stack traceback:\n\t[C]: in ?\n\t[string \"t.lua\"]:9: in function <t.lua:8>"
            .to_string(),
        cause: Box::new(LuaErrorInfo::Runtime("boom".to_string())),
    };
    assert_eq!(extract_lua_error(&callback), "t.lua:9: boom");
    let (message, location) = extract_error_parts(&callback);
    assert_eq!(message, "boom");
    assert_eq!(location, Some("t.lua:9".to_string()));

    let other = LuaErrorInfo::Other("syntax error".to_string());
    assert_eq!(extract_lua_error(&other), "syntax error");
}

#[test]
fn test_names_may_not_be_blank() {
    assert!(check_test_name("works").is_ok());
    assert_eq!(check_test_name(" \t\u{3000}"), Err("test name cannot be empty".to_string()));
    assert!(check_test_name("").is_err());
}
