//! The grammar of `.env` files, as spec functions over the file's characters.
//!
//! A file is read line by line. Blank lines and lines whose first non-blank
//! character is `#` are skipped. Every other line is an assignment
//! `[export ]KEY = VALUE [# comment]`, where `KEY` starts with `_` or an ASCII
//! letter and goes on with `_`, ASCII letters and digits, and `VALUE` is
//! single-quoted (taken literally), double-quoted (with backslash escapes) or
//! bare (up to a comment or the end of the line, with trailing white space
//! removed). A later assignment of a key overrides an earlier one. Positions
//! are counted in characters and lines from 1.
use vstd::prelude::*;
use crate::text::{is_ascii_digit, is_white_space, trim_end};

verus! {

/// A parse failure: the line on which it happened and its message.
pub type SpecError = (int, Seq<char>);

/// Spaces that may stand around `=` and before a key: space, tab, carriage return.
pub open spec fn is_inline_space(c: char) -> bool {
    c == ' ' || c == '\t' || c == '\r'
}

pub open spec fn is_ascii_alpha(c: char) -> bool {
    ('a' <= c && c <= 'z') || ('A' <= c && c <= 'Z')
}

pub open spec fn is_key_start(c: char) -> bool {
    c == '_' || is_ascii_alpha(c)
}

pub open spec fn is_key_char(c: char) -> bool {
    c == '_' || is_ascii_alpha(c) || is_ascii_digit(c)
}

/// A key as the grammar accepts it.
pub open spec fn is_valid_key(k: Seq<char>) -> bool {
    k.len() > 0 && is_key_start(k[0]) && forall|i: int| 1 <= i < k.len() ==> #[trigger] is_key_char(k[i])
}

/// 1 if `c` ends a line, else 0.
pub open spec fn newline_count(c: char) -> int {
    if c == '\n' { 1 } else { 0 }
}

pub open spec fn export_word() -> Seq<char> {
    seq!['e', 'x', 'p', 'o', 'r', 't']
}

/// The character that the escape `\c` stands for in a double-quoted value.
pub open spec fn unescape(c: char) -> char {
    if c == 'n' {
        '\n'
    } else if c == 'r' {
        '\r'
    } else if c == 't' {
        '\t'
    } else {
        c
    }
}

/// The file without a leading byte order mark.
pub open spec fn strip_bom(s: Seq<char>) -> Seq<char> {
    if s.len() > 0 && s[0] == '\u{feff}' {
        s.drop_first()
    } else {
        s
    }
}

// The messages of the parse errors.
pub open spec fn msg_expected_name() -> Seq<char> {
    "expected environment variable name"@
}

pub open spec fn msg_invalid_key_start(c: char) -> Seq<char> {
    "invalid environment variable name start `"@ + seq![c] + "`"@
}

pub open spec fn msg_expected_found(expected: char, found: char) -> Seq<char> {
    "expected `"@ + seq![expected] + "`, found `"@ + seq![found] + "`"@
}

pub open spec fn msg_expected_eof(expected: char) -> Seq<char> {
    "expected `"@ + seq![expected] + "`, found end of file"@
}

pub open spec fn msg_unexpected_after(c: char, key: Seq<char>) -> Seq<char> {
    "unexpected character `"@ + seq![c] + "` after value for `"@ + key + "`"@
}

pub open spec fn msg_unterminated_single() -> Seq<char> {
    "unterminated single-quoted value"@
}

pub open spec fn msg_unterminated_double() -> Seq<char> {
    "unterminated double-quoted value"@
}

pub open spec fn msg_unterminated_escape() -> Seq<char> {
    "unterminated escape sequence in double-quoted value"@
}

/// The first position at or after `p` that is not an inline space.
pub open spec fn skip_spaces(s: Seq<char>, p: int) -> int
    decreases s.len() - p,
{
    if 0 <= p < s.len() && is_inline_space(s[p]) {
        skip_spaces(s, p + 1)
    } else {
        p
    }
}

/// The first position at or after `p` that ends a line (or the end of the file).
pub open spec fn skip_comment(s: Seq<char>, p: int) -> int
    decreases s.len() - p,
{
    if 0 <= p < s.len() && s[p] != '\n' {
        skip_comment(s, p + 1)
    } else {
        p
    }
}

/// The first position at or after `p` that cannot continue a key.
pub open spec fn key_end(s: Seq<char>, p: int) -> int
    decreases s.len() - p,
{
    if 0 <= p < s.len() && is_key_char(s[p]) {
        key_end(s, p + 1)
    } else {
        p
    }
}

/// Where a line starting at `p` goes on once an `export ` prefix is passed over.
pub open spec fn after_export(s: Seq<char>, p: int) -> int {
    if 0 <= p && p + 6 < s.len() && s.subrange(p, p + 6) == export_word() && is_inline_space(
        s[p + 6],
    ) {
        skip_spaces(s, p + 6)
    } else {
        p
    }
}

/// The key that starts at `p`: where it ends, or the failure.
pub open spec fn key_at(s: Seq<char>, p: int, line: int) -> Result<int, SpecError> {
    if p < 0 || p >= s.len() {
        Err((line, msg_expected_name()))
    } else if !is_key_start(s[p]) {
        Err((line, msg_invalid_key_start(s[p])))
    } else {
        Ok(key_end(s, p + 1))
    }
}

/// A successful value parse with `c` put in front of the value.
pub open spec fn prepend(c: char, r: Result<(int, int, Seq<char>), SpecError>) -> Result<
    (int, int, Seq<char>),
    SpecError,
> {
    match r {
        Ok((p, l, v)) => Ok((p, l, seq![c] + v)),
        Err(e) => Err(e),
    }
}

/// A single-quoted value whose text starts at `p`: the position after the
/// closing quote, the line there and the value.
pub open spec fn single_body(s: Seq<char>, p: int, line: int) -> Result<
    (int, int, Seq<char>),
    SpecError,
>
    decreases s.len() - p,
{
    if p < 0 || p >= s.len() {
        Err((line, msg_unterminated_single()))
    } else if s[p] == '\'' {
        Ok((p + 1, line, Seq::empty()))
    } else {
        prepend(s[p], single_body(s, p + 1, line + newline_count(s[p])))
    }
}

/// A double-quoted value whose text starts at `p`.
pub open spec fn double_body(s: Seq<char>, p: int, line: int) -> Result<
    (int, int, Seq<char>),
    SpecError,
>
    decreases s.len() - p,
{
    if p < 0 || p >= s.len() {
        Err((line, msg_unterminated_double()))
    } else if s[p] == '"' {
        Ok((p + 1, line, Seq::empty()))
    } else if s[p] == '\\' {
        if p + 1 >= s.len() {
            Err((line, msg_unterminated_escape()))
        } else {
            prepend(unescape(s[p + 1]), double_body(s, p + 2, line + newline_count(s[p + 1])))
        }
    } else {
        prepend(s[p], double_body(s, p + 1, line + newline_count(s[p])))
    }
}

/// A bare value starting at `p`, before trailing white space is removed:
/// where it ends and its text. `prev_ws` says whether the character before
/// `p` was white space, which decides whether `#` starts a comment.
pub open spec fn bare_body(s: Seq<char>, p: int, prev_ws: bool) -> (int, Seq<char>)
    decreases s.len() - p,
{
    if p < 0 || p >= s.len() {
        (p, Seq::empty())
    } else if s[p] == '\n' {
        (p, Seq::empty())
    } else if s[p] == '#' && prev_ws {
        (p, Seq::empty())
    } else if s[p] == '\\' {
        if p + 1 >= s.len() {
            (p + 1, seq!['\\'])
        } else if s[p + 1] == '\n' {
            (p + 1, Seq::empty())
        } else {
            let r = bare_body(s, p + 2, is_white_space(s[p + 1]));
            (r.0, seq![s[p + 1]] + r.1)
        }
    } else {
        let r = bare_body(s, p + 1, is_white_space(s[p]));
        (r.0, seq![s[p]] + r.1)
    }
}

/// The value that starts at `p`: where it ends, the line there and its text.
pub open spec fn value_at(s: Seq<char>, p: int, line: int) -> Result<
    (int, int, Seq<char>),
    SpecError,
> {
    if 0 <= p < s.len() && s[p] == '"' {
        double_body(s, p + 1, line)
    } else if 0 <= p < s.len() && s[p] == '\'' {
        single_body(s, p + 1, line)
    } else {
        let r = bare_body(s, p, true);
        Ok((r.0, line, trim_end(r.1)))
    }
}

/// What follows a value at `p`: spaces, an optional comment, then the end of
/// the line or of the file. Gives the position and line after it.
pub open spec fn line_end_at(s: Seq<char>, p: int, line: int, key: Seq<char>) -> Result<
    (int, int),
    SpecError,
> {
    let q = skip_spaces(s, p);
    let r = if 0 <= q < s.len() && s[q] == '#' {
        skip_comment(s, q)
    } else {
        q
    };
    if r < 0 || r >= s.len() {
        Ok((r, line))
    } else if s[r] == '\n' {
        Ok((r + 1, line + 1))
    } else {
        Err((line, msg_unexpected_after(s[r], key)))
    }
}

/// The assignment whose key starts at `p`: the position and line after it,
/// its key and its value.
pub open spec fn assignment_at(s: Seq<char>, p: int, line: int) -> Result<
    (int, int, Seq<char>, Seq<char>),
    SpecError,
> {
    match key_at(s, p, line) {
        Err(e) => Err(e),
        Ok(ke) => {
            let key = s.subrange(p, ke);
            let q = skip_spaces(s, ke);
            if q < 0 || q >= s.len() {
                Err((line, msg_expected_eof('=')))
            } else if s[q] != '=' {
                Err((line, msg_expected_found('=', s[q])))
            } else {
                match value_at(s, skip_spaces(s, q + 1), line) {
                    Err(e) => Err(e),
                    Ok((v_end, v_line, value)) => match line_end_at(s, v_end, v_line, key) {
                        Err(e) => Err(e),
                        Ok((next, next_line)) => Ok((next, next_line, key, value)),
                    },
                }
            }
        },
    }
}

pub proof fn lemma_skip_spaces(s: Seq<char>, p: int)
    requires
        0 <= p <= s.len(),
    ensures
        p <= skip_spaces(s, p) <= s.len(),
        skip_spaces(s, p) < s.len() ==> !is_inline_space(s[skip_spaces(s, p)]),
    decreases s.len() - p,
{
    if p < s.len() && is_inline_space(s[p]) {
        lemma_skip_spaces(s, p + 1);
    }
}

pub proof fn lemma_skip_comment(s: Seq<char>, p: int)
    requires
        0 <= p <= s.len(),
    ensures
        p <= skip_comment(s, p) <= s.len(),
        skip_comment(s, p) < s.len() ==> s[skip_comment(s, p)] == '\n',
    decreases s.len() - p,
{
    if p < s.len() && s[p] != '\n' {
        lemma_skip_comment(s, p + 1);
    }
}

pub proof fn lemma_key_end(s: Seq<char>, p: int)
    requires
        0 <= p <= s.len(),
    ensures
        p <= key_end(s, p) <= s.len(),
        forall|i: int| p <= i < key_end(s, p) ==> #[trigger] is_key_char(s[i]),
    decreases s.len() - p,
{
    if p < s.len() && is_key_char(s[p]) {
        lemma_key_end(s, p + 1);
    }
}

pub proof fn lemma_single_body(s: Seq<char>, p: int, line: int)
    requires
        0 <= p,
    ensures
        single_body(s, p, line) matches Ok((q, _, _)) ==> p < q <= s.len(),
    decreases s.len() - p,
{
    if 0 <= p < s.len() && s[p] != '\'' {
        lemma_single_body(s, p + 1, line + newline_count(s[p]));
    }
}

pub proof fn lemma_double_body(s: Seq<char>, p: int, line: int)
    requires
        0 <= p,
    ensures
        double_body(s, p, line) matches Ok((q, _, _)) ==> p < q <= s.len(),
    decreases s.len() - p,
{
    if 0 <= p < s.len() && s[p] != '"' {
        if s[p] == '\\' {
            if p + 1 < s.len() {
                lemma_double_body(s, p + 2, line + newline_count(s[p + 1]));
            }
        } else {
            lemma_double_body(s, p + 1, line + newline_count(s[p]));
        }
    }
}

/// The number of line ends in `s` from position `p` on.
pub open spec fn newlines_from(s: Seq<char>, p: int) -> int
    decreases s.len() - p,
{
    if p < 0 || p >= s.len() {
        0
    } else {
        newline_count(s[p]) + newlines_from(s, p + 1)
    }
}

/// An unterminated double-quoted value runs to the end of the text: its
/// error is on the line reached after every line end from `p` on.
pub proof fn lemma_double_body_error_line(s: Seq<char>, p: int, line: int)
    requires
        0 <= p,
    ensures
        double_body(s, p, line) matches Err(e) ==> e.0 == line + newlines_from(s, p),
    decreases s.len() - p,
{
    if 0 <= p < s.len() && s[p] != '"' {
        if s[p] == '\\' {
            if p + 1 < s.len() {
                lemma_double_body_error_line(s, p + 2, line + newline_count(s[p + 1]));
                assert(newlines_from(s, p + 1) == newline_count(s[p + 1]) + newlines_from(s, p + 2));
            } else {
                assert(newlines_from(s, p + 1) == 0);
            }
        } else {
            lemma_double_body_error_line(s, p + 1, line + newline_count(s[p]));
        }
    }
}

pub proof fn lemma_bare_body(s: Seq<char>, p: int, prev_ws: bool)
    requires
        0 <= p <= s.len(),
    ensures
        p <= bare_body(s, p, prev_ws).0 <= s.len(),
    decreases s.len() - p,
{
    if p < s.len() && s[p] != '\n' && !(s[p] == '#' && prev_ws) {
        if s[p] == '\\' {
            if p + 1 < s.len() && s[p + 1] != '\n' {
                lemma_bare_body(s, p + 2, is_white_space(s[p + 1]));
            }
        } else {
            lemma_bare_body(s, p + 1, is_white_space(s[p]));
        }
    }
}

pub proof fn lemma_value_at(s: Seq<char>, p: int, line: int)
    requires
        0 <= p <= s.len(),
    ensures
        value_at(s, p, line) matches Ok((q, _, _)) ==> p <= q <= s.len(),
{
    if p < s.len() && s[p] == '"' {
        lemma_double_body(s, p + 1, line);
    } else if p < s.len() && s[p] == '\'' {
        lemma_single_body(s, p + 1, line);
    } else {
        lemma_bare_body(s, p, true);
    }
}

pub proof fn lemma_after_export(s: Seq<char>, p: int)
    requires
        0 <= p <= s.len(),
    ensures
        p <= after_export(s, p) <= s.len(),
{
    if p + 6 < s.len() {
        lemma_skip_spaces(s, p + 6);
    }
}

pub proof fn lemma_line_end_at(s: Seq<char>, p: int, line: int, key: Seq<char>)
    requires
        0 <= p <= s.len(),
    ensures
        line_end_at(s, p, line, key) matches Ok((q, _)) ==> p <= q <= s.len(),
{
    lemma_skip_spaces(s, p);
    let q = skip_spaces(s, p);
    if q < s.len() && s[q] == '#' {
        lemma_skip_comment(s, q);
    }
}

pub proof fn lemma_assignment_at(s: Seq<char>, p: int, line: int)
    requires
        0 <= p <= s.len(),
    ensures
        assignment_at(s, p, line) matches Ok((q, _, _, _)) ==> p < q <= s.len(),
{
    if p < s.len() && is_key_start(s[p]) {
        let ke = key_end(s, p + 1);
        lemma_key_end(s, p + 1);
        lemma_skip_spaces(s, ke);
        let q = skip_spaces(s, ke);
        if q < s.len() && s[q] == '=' {
            lemma_skip_spaces(s, q + 1);
            let vp = skip_spaces(s, q + 1);
            lemma_value_at(s, vp, line);
            if let Ok((v_end, v_line, value)) = value_at(s, vp, line) {
                lemma_line_end_at(s, v_end, v_line, s.subrange(p, ke));
            }
        }
    }
}

/// The assignments from position `p` on, added to `m`, or the first failure.
pub open spec fn entries_from(s: Seq<char>, p: int, line: int, m: Map<Seq<char>, Seq<char>>) -> Result<
    Map<Seq<char>, Seq<char>>,
    SpecError,
>
    decreases s.len() - p,
{
    if p < 0 || p >= s.len() {
        Ok(m)
    } else {
        let q = skip_spaces(s, p);
        proof {
            lemma_skip_spaces(s, p);
        }
        if q >= s.len() {
            Ok(m)
        } else if s[q] == '\n' {
            entries_from(s, q + 1, line + 1, m)
        } else if s[q] == '#' {
            proof {
                lemma_skip_comment(s, q + 1);
            }
            entries_from(s, skip_comment(s, q + 1), line, m)
        } else {
            let a = after_export(s, q);
            proof {
                lemma_after_export(s, q);
                lemma_assignment_at(s, a, line);
            }
            match assignment_at(s, a, line) {
                Err(e) => Err(e),
                Ok((next, next_line, key, value)) => entries_from(
                    s,
                    next,
                    next_line,
                    m.insert(key, value),
                ),
            }
        }
    }
}

/// What parsing the `.env` text `content` gives: the variables it assigns,
/// or the line and message of the first error.
pub open spec fn parse_env_result(content: Seq<char>) -> Result<Map<Seq<char>, Seq<char>>, SpecError> {
    entries_from(strip_bom(content), 0, 1, Map::empty())
}

} // verus!
