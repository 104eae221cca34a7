//! The messages of failed expectations in test scripts.
use vstd::prelude::*;
use crate::text::append_str;

verus! {

/// The message of a failed expectation: the script's own message, when it
/// gave one, before the detail.
pub fn assertion_message(custom: Option<&str>, detail: &str) -> (m: String)
    ensures
        match custom {
            Some(c) => m@ == c@ + ": "@ + detail@,
            None => m@ == detail@,
        },
{
    match custom {
        Some(c) => {
            let mut m = String::from_str(c);
            append_str(&mut m, ": ");
            append_str(&mut m, detail);
            m
        },
        None => String::from_str(detail),
    }
}

/// The detail when a value differs from the one expected; both are given as
/// their printed forms.
pub fn not_equal_detail(expected: &str, actual: &str) -> (m: String)
    ensures
        m@ == "expected "@ + expected@ + " but got "@ + actual@,
{
    let mut m = String::from_str("expected ");
    append_str(&mut m, expected);
    append_str(&mut m, " but got ");
    append_str(&mut m, actual);
    m
}

/// The detail when a value equals one that it should not.
pub fn equal_detail(expected: &str) -> (m: String)
    ensures
        m@ == "expected value to not equal "@ + expected@,
{
    let mut m = String::from_str("expected value to not equal ");
    append_str(&mut m, expected);
    m
}

/// The detail when a value that should exist is nil.
pub fn missing_detail() -> (m: String)
    ensures
        m@ == "expected value to exist but got nil"@,
{
    String::from_str("expected value to exist but got nil")
}

/// How a string value is printed in a message: between double quotes.
pub fn quoted(s: &str) -> (m: String)
    ensures
        m@ == "\""@ + s@ + "\""@,
{
    let mut m = String::from_str("\"");
    append_str(&mut m, s);
    append_str(&mut m, "\"");
    m
}

} // verus!
