//! Error reports of Lua scripts: finding where in the user's script an error
//! came from, and the text shown for it.
use vstd::prelude::*;
use crate::text::{
    all_ascii_digits, all_digits_in, append_str, chars_of, contains, contains_in, find, find_in,
    index_in, index_of, lemma_index_of, starts_with, starts_with_in, string_of, string_of_all,
    trim, trim_indices,
};

verus! {

/// What a Lua error holds that its report is made of.
pub enum LuaErrorInfo {
    /// An error raised inside a callback, with the traceback at that point.
    Callback { traceback: String, cause: Box<LuaErrorInfo> },
    /// An error raised by the script, with its message.
    Runtime(String),
    /// Any other error, as its text.
    Other(String),
}

/// `[string "`: how Lua names a chunk in locations.
pub open spec fn chunk_prefix() -> Seq<char> {
    seq!['[', 's', 't', 'r', 'i', 'n', 'g', ' ', '"']
}

/// `"]:`: what ends a chunk name in a location.
pub open spec fn chunk_suffix() -> Seq<char> {
    seq!['"', ']', ':']
}

/// The marker of a stack traceback appended to a message.
pub open spec fn traceback_marker() -> Seq<char> {
    "\nstack traceback:"@
}

/// `l` without a carriage return at its end.
pub open spec fn strip_cr(l: Seq<char>) -> Seq<char> {
    if l.len() > 0 && l.last() == '\r' {
        l.drop_last()
    } else {
        l
    }
}

/// The lines of `s` (`str::lines`): split at `\n`, a `\r` before the `\n`
/// dropped, and no empty line after a final `\n`.
pub open spec fn lines_of(s: Seq<char>) -> Seq<Seq<char>>
    decreases s.len(),
{
    let i = index_of(s, '\n');
    proof {
        lemma_index_of(s, '\n');
    }
    if s.len() == 0 {
        Seq::empty()
    } else if i >= s.len() {
        seq![s]
    } else {
        seq![strip_cr(s.take(i))] + lines_of(s.skip(i + 1))
    }
}

/// `s` with every leading copy of `p` removed (`str::trim_start_matches`).
pub open spec fn strip_prefixes(s: Seq<char>, p: Seq<char>) -> Seq<char>
    decreases s.len(),
{
    if p.len() > 0 && starts_with(s, p) {
        strip_prefixes(s.skip(p.len() as int), p)
    } else {
        s
    }
}

/// A traceback line that belongs to the runtime rather than to the user's script.
pub open spec fn is_internal_frame(t: Seq<char>) -> bool {
    ||| t.len() == 0
    ||| starts_with(t, "stack traceback:"@)
    ||| contains(t, "[C]:"@)
    ||| contains(t, "[string \"?\"]"@)
    ||| contains(t, "src/main.rs"@)
}

/// The location named by a traceback line such as
/// `[string "tests/file.lua"]:10: in function <...>`: `tests/file.lua:10`, or
/// the file alone when the line number is not a number.
pub open spec fn traceback_location(line: Seq<char>) -> Option<Seq<char>> {
    let l = strip_prefixes(line, chunk_prefix());
    match find(l, chunk_suffix()) {
        None => None,
        Some(e) => {
            let file = l.take(e);
            let rest = l.skip(e + 3);
            let num = trim(rest.take(index_of(rest, ':')));
            if all_ascii_digits(num) {
                Some(file + seq![':'] + num)
            } else {
                Some(file)
            }
        },
    }
}

/// The first location in the user's script among traceback lines.
pub open spec fn first_location(lines: Seq<Seq<char>>) -> Option<Seq<char>>
    decreases lines.len(),
{
    if lines.len() == 0 {
        None
    } else {
        let t = trim(lines[0]);
        if is_internal_frame(t) {
            first_location(lines.drop_first())
        } else {
            match traceback_location(t) {
                Some(loc) => Some(loc),
                None => first_location(lines.drop_first()),
            }
        }
    }
}

/// A message such as `[string "file.lua"]:10: attempt to index nil` split into
/// its location `file.lua:10` and its text, with any appended traceback cut off.
pub open spec fn message_location(msg: Seq<char>) -> Option<(Seq<char>, Seq<char>)> {
    if !starts_with(msg, chunk_prefix()) {
        None
    } else {
        let after = msg.skip(9);
        match find(after, chunk_suffix()) {
            None => None,
            Some(e) => {
                let file = after.take(e);
                let rest = after.skip(e + 3);
                let colon = index_of(rest, ':');
                if colon >= rest.len() {
                    None
                } else {
                    let num = trim(rest.take(colon));
                    let text = trim(rest.skip(colon + 1));
                    let text = match find(text, traceback_marker()) {
                        Some(t) => trim(text.take(t)),
                        None => text,
                    };
                    if all_ascii_digits(num) {
                        Some((file + seq![':'] + num, text))
                    } else {
                        None
                    }
                }
            },
        }
    }
}

/// The message of an error and, when one is known, where it happened.
pub open spec fn error_parts(e: &LuaErrorInfo) -> (Seq<char>, Option<Seq<char>>)
    decreases e,
{
    match e {
        LuaErrorInfo::Callback { traceback, cause } => (
            error_parts(cause).0,
            first_location(lines_of(traceback@)),
        ),
        LuaErrorInfo::Runtime(msg) => match message_location(msg@) {
            Some((loc, text)) => (text, Some(loc)),
            None => (msg@, None),
        },
        LuaErrorInfo::Other(text) => (text@, None),
    }
}

/// The report of an error: `location: message`, or the message alone.
pub open spec fn error_report(e: &LuaErrorInfo) -> Seq<char> {
    match error_parts(e) {
        (m, Some(loc)) => loc + ": "@ + m,
        (m, None) => m,
    }
}

/// The position in `v[lo..hi]` after every leading copy of `p`.
fn skip_prefixes(v: &Vec<char>, lo: usize, hi: usize, p: &Vec<char>) -> (r: usize)
    requires
        lo <= hi <= v@.len(),
        p@.len() > 0,
    ensures
        lo <= r <= hi,
        v@.subrange(r as int, hi as int) == strip_prefixes(v@.subrange(lo as int, hi as int), p@),
{
    let mut b = lo;
    while starts_with_in(v, b, hi, p)
        invariant
            lo <= b <= hi <= v@.len(),
            p@.len() > 0,
            strip_prefixes(v@.subrange(b as int, hi as int), p@) == strip_prefixes(
                v@.subrange(lo as int, hi as int),
                p@,
            ),
        decreases hi - b,
    {
        assert(v@.subrange(b as int, hi as int).skip(p@.len() as int) =~= v@.subrange(
            b + p@.len(),
            hi as int,
        ));
        b = b + p.len();
    }
    b
}

/// The location named by the traceback line `v[lo..hi]`.
fn location_in(v: &Vec<char>, lo: usize, hi: usize) -> (r: Option<String>)
    requires
        lo <= hi <= v@.len(),
    ensures
        match traceback_location(v@.subrange(lo as int, hi as int)) {
            Some(loc) => r matches Some(s) && s@ == loc,
            None => r is None,
        },
{
    let prefix = chars_of("[string \"");
    let suffix = chars_of("\"]:");
    proof {
        reveal_strlit("[string \"");
        reveal_strlit("\"]:");
        assert(prefix@ =~= chunk_prefix());
        assert(suffix@ =~= chunk_suffix());
    }
    let a = skip_prefixes(v, lo, hi, &prefix);
    let ghost l = v@.subrange(a as int, hi as int);
    let e = match find_in(v, a, hi, &suffix) {
        Some(e) => e,
        None => return None,
    };
    let file_end = a + e;
    let rest_start = file_end + 3;
    assert(l.take(e as int) =~= v@.subrange(a as int, file_end as int));
    assert(l.skip(e + 3) =~= v@.subrange(rest_start as int, hi as int));
    let k = index_in(v, rest_start, hi, ':');
    assert(l.skip(e + 3).take(k as int) =~= v@.subrange(rest_start as int, rest_start + k));
    let (na, nb) = trim_indices(v, rest_start, rest_start + k);
    let mut out = string_of(v, a, file_end);
    if all_digits_in(v, na, nb) {
        append_str(&mut out, ":");
        let num = string_of(v, na, nb);
        append_str(&mut out, num.as_str());
        proof {
            reveal_strlit(":");
        }
        assert(out@ =~= v@.subrange(a as int, file_end as int) + seq![':'] + v@.subrange(
            na as int,
            nb as int,
        ));
    }
    Some(out)
}

/// The location named by a traceback line such as
/// `[string "tests/file.lua"]:10: in function <...>`.
pub fn parse_traceback_location(line: &str) -> (r: Option<String>)
    ensures
        match traceback_location(line@) {
            Some(loc) => r matches Some(s) && s@ == loc,
            None => r is None,
        },
{
    let v = chars_of(line);
    assert(v@.subrange(0, v@.len() as int) =~= v@);
    location_in(&v, 0, v.len())
}

/// Whether the trimmed traceback line `v[lo..hi]` belongs to the runtime.
fn internal_frame_in(v: &Vec<char>, lo: usize, hi: usize) -> (b: bool)
    requires
        lo <= hi <= v@.len(),
    ensures
        b == is_internal_frame(v@.subrange(lo as int, hi as int)),
{
    let header = chars_of("stack traceback:");
    let c_frame = chars_of("[C]:");
    let unknown_chunk = chars_of("[string \"?\"]");
    let runner = chars_of("src/main.rs");
    lo == hi || starts_with_in(v, lo, hi, &header) || contains_in(v, lo, hi, &c_frame)
        || contains_in(v, lo, hi, &unknown_chunk) || contains_in(v, lo, hi, &runner)
}

/// The first location in the user's script named by a Lua traceback.
#[verifier::spinoff_prover]
pub fn extract_user_location(traceback: &str) -> (r: Option<String>)
    ensures
        match first_location(lines_of(traceback@)) {
            Some(loc) => r matches Some(s) && s@ == loc,
            None => r is None,
        },
{
    let v = chars_of(traceback);
    let n = v.len();
    let mut a: usize = 0;
    assert(v@.subrange(0, n as int) =~= v@);
    while a < n
        invariant
            a <= n == v@.len(),
            v@ == traceback@,
            first_location(lines_of(traceback@)) == first_location(
                lines_of(v@.subrange(a as int, n as int)),
            ),
        decreases n - a,
    {
        let ghost s = v@.subrange(a as int, n as int);
        let k = index_in(&v, a, n, '\n');
        proof {
            lemma_index_of(s, '\n');
        }
        let e = a + k;
        let mut line_end = e;
        if e < n && e > a && v[e - 1] == '\r' {
            line_end = e - 1;
        }
        let ghost later = if e < n {
            lines_of(v@.subrange(e + 1, n as int))
        } else {
            Seq::<Seq<char>>::empty()
        };
        assert(lines_of(s) =~= seq![v@.subrange(a as int, line_end as int)] + later) by {
            if e < n {
                assert(s.take(k as int) =~= v@.subrange(a as int, e as int));
                assert(s.skip(k + 1) =~= v@.subrange(e + 1, n as int));
                if e > a && v@[e - 1] == '\r' {
                    assert(v@.subrange(a as int, e as int).drop_last() =~= v@.subrange(
                        a as int,
                        line_end as int,
                    ));
                }
            } else {
                assert(s =~= v@.subrange(a as int, line_end as int));
            }
        }
        assert((seq![v@.subrange(a as int, line_end as int)] + later).drop_first() =~= later);
        let (ta, tb) = trim_indices(&v, a, line_end);
        if !internal_frame_in(&v, ta, tb) {
            match location_in(&v, ta, tb) {
                Some(loc) => return Some(loc),
                None => {},
            }
        }
        if e >= n {
            assert(later =~= Seq::<Seq<char>>::empty());
            assert(first_location(later) is None);
            return None;
        }
        a = e + 1;
    }
    assert(v@.subrange(n as int, n as int) =~= Seq::<char>::empty());
    None
}

/// A message such as `[string "file.lua"]:10: attempt to index nil` split
/// into its location and its text.
pub fn parse_lua_error_message(msg: &str) -> (r: Option<(String, String)>)
    ensures
        match message_location(msg@) {
            Some((loc, text)) => r matches Some((l, t)) && l@ == loc && t@ == text,
            None => r is None,
        },
{
    let v = chars_of(msg);
    let n = v.len();
    let prefix = chars_of("[string \"");
    let suffix = chars_of("\"]:");
    let marker = chars_of("\nstack traceback:");
    proof {
        reveal_strlit("[string \"");
        reveal_strlit("\"]:");
        assert(prefix@ =~= chunk_prefix());
        assert(suffix@ =~= chunk_suffix());
        assert(v@.subrange(0, n as int) =~= v@);
    }
    if !starts_with_in(&v, 0, n, &prefix) {
        return None;
    }
    let a: usize = 9;
    let ghost after = v@.skip(9);
    assert(after =~= v@.subrange(a as int, n as int));
    let e = match find_in(&v, a, n, &suffix) {
        Some(e) => e,
        None => return None,
    };
    let file_end = a + e;
    let rest_start = file_end + 3;
    let ghost rest = after.skip(e + 3);
    assert(after.take(e as int) =~= v@.subrange(a as int, file_end as int));
    assert(rest =~= v@.subrange(rest_start as int, n as int));
    let colon = index_in(&v, rest_start, n, ':');
    if rest_start + colon >= n {
        return None;
    }
    assert(rest.take(colon as int) =~= v@.subrange(rest_start as int, rest_start + colon));
    assert(rest.skip(colon + 1) =~= v@.subrange(rest_start + colon + 1, n as int));
    let (na, nb) = trim_indices(&v, rest_start, rest_start + colon);
    let (ma, mb) = trim_indices(&v, rest_start + colon + 1, n);
    let (ta, tb) = match find_in(&v, ma, mb, &marker) {
        Some(t) => {
            assert(v@.subrange(ma as int, mb as int).take(t as int) =~= v@.subrange(
                ma as int,
                ma + t,
            ));
            trim_indices(&v, ma, ma + t)
        },
        None => (ma, mb),
    };
    if !all_digits_in(&v, na, nb) {
        return None;
    }
    let mut location = string_of(&v, a, file_end);
    append_str(&mut location, ":");
    let num = string_of(&v, na, nb);
    append_str(&mut location, num.as_str());
    proof {
        reveal_strlit(":");
    }
    assert(location@ =~= v@.subrange(a as int, file_end as int) + seq![':'] + v@.subrange(
        na as int,
        nb as int,
    ));
    Some((location, string_of(&v, ta, tb)))
}

/// The message of an error and where it happened, when that is known.
pub fn extract_error_parts(err: &LuaErrorInfo) -> (r: (String, Option<String>))
    ensures
        r.0@ == error_parts(err).0,
        match error_parts(err).1 {
            Some(loc) => r.1 matches Some(l) && l@ == loc,
            None => r.1 is None,
        },
    decreases err,
{
    match err {
        LuaErrorInfo::Callback { traceback, cause } => {
            let (message, _) = extract_error_parts(cause);
            let location = extract_user_location(traceback.as_str());
            (message, location)
        },
        LuaErrorInfo::Runtime(msg) => match parse_lua_error_message(msg.as_str()) {
            Some((loc, text)) => (text, Some(loc)),
            None => (msg.clone(), None),
        },
        LuaErrorInfo::Other(text) => (text.clone(), None),
    }
}

/// The report of a Lua error: where in the user's script it happened, when
/// that is known, then its message.
pub fn extract_lua_error(err: &LuaErrorInfo) -> (r: String)
    ensures
        r@ == error_report(err),
{
    let (message, location) = extract_error_parts(err);
    match location {
        Some(loc) => {
            let mut out = loc;
            append_str(&mut out, ": ");
            append_str(&mut out, message.as_str());
            out
        },
        None => message,
    }
}

/// Checks the name a script gives a test: it may not be blank.
pub fn check_test_name(name: &str) -> (r: Result<(), String>)
    ensures
        r is Ok <==> trim(name@).len() > 0,
        r matches Err(m) ==> m@ == "test name cannot be empty"@,
{
    let v = chars_of(name);
    let (a, b) = trim_indices(&v, 0, v.len());
    assert(v@.subrange(0, v@.len() as int) =~= v@);
    if a == b {
        Err(String::from_str("test name cannot be empty"))
    } else {
        Ok(())
    }
}

/// The location of a chunk as Lua writes it: `[string "FILE"]:LINE:` followed by `rest`.
pub open spec fn chunk_location_text(file: Seq<char>, line: Seq<char>, rest: Seq<char>) -> Seq<char> {
    chunk_prefix() + file + chunk_suffix() + line + seq![':'] + rest
}

proof fn lemma_find_first_at(s: Seq<char>, pat: Seq<char>, i: int, f: int)
    requires
        0 <= i <= f,
        crate::text::matches_at(s, pat, f),
        forall|j: int| i <= j < f ==> !#[trigger] crate::text::matches_at(s, pat, j),
    ensures
        crate::text::find_from(s, pat, i) == Some(f),
    decreases f - i,
{
    if i < f {
        assert(!crate::text::matches_at(s, pat, i));
        lemma_find_first_at(s, pat, i + 1, f);
    }
}

/// In `file + "]: + tail`, the first `"]:` is the one after `file`, when
/// `file` holds none.
proof fn lemma_find_suffix(file: Seq<char>, tail: Seq<char>)
    requires
        !contains(file, chunk_suffix()),
    ensures
        find(file + chunk_suffix() + tail, chunk_suffix()) == Some(file.len() as int),
{
    let s = file + chunk_suffix() + tail;
    let pat = chunk_suffix();
    let f = file.len() as int;
    crate::text::lemma_find_from(file, pat, 0);
    assert(s.subrange(f, f + 3) =~= pat);
    assert forall|j: int| 0 <= j < f implies !crate::text::matches_at(s, pat, j) by {
        if crate::text::matches_at(s, pat, j) {
            assert(s.subrange(j, j + 3)[0] == '"');
            assert(s.subrange(j, j + 3)[1] == ']');
            assert(s.subrange(j, j + 3)[2] == ':');
            if j + 3 <= f {
                assert(file.subrange(j, j + 3) =~= s.subrange(j, j + 3));
                assert(crate::text::matches_at(file, pat, j));
            } else if j == f - 1 {
                assert(s[f] == '"');
                assert(s.subrange(j, j + 3)[1] == s[f]);
            } else {
                assert(j == f - 2);
                assert(s.subrange(j, j + 3)[2] == s[f]);
            }
        }
    }
    lemma_find_first_at(s, pat, 0, f);
}

proof fn lemma_digits_fixed(line: Seq<char>, rest: Seq<char>)
    requires
        all_ascii_digits(line),
    ensures
        index_of(line + seq![':'] + rest, ':') == line.len(),
        trim(line) == line,
    decreases line.len(),
{
    let s = line + seq![':'] + rest;
    if line.len() == 0 {
        assert(s[0] == ':');
    } else {
        assert(s[0] == line[0]);
        assert(crate::text::is_ascii_digit(line[0]));
        assert(all_ascii_digits(line.drop_first())) by {
            assert forall|i: int| 0 <= i < line.drop_first().len() implies #[trigger] crate::text::is_ascii_digit(line.drop_first()[i]) by {
                assert(line.drop_first()[i] == line[i + 1]);
            }
        }
        lemma_digits_fixed(line.drop_first(), rest);
        assert(s.drop_first() =~= line.drop_first() + seq![':'] + rest);
        assert(crate::text::is_ascii_digit(line[line.len() - 1]));
    }
    assert(crate::text::trim_start(line) == line) by {
        if line.len() > 0 {
            assert(crate::text::is_ascii_digit(line[0]));
        }
    }
    assert(crate::text::trim_end(line) == line) by {
        if line.len() > 0 {
            assert(crate::text::is_ascii_digit(line[line.len() - 1]));
        }
    }
}

/// A traceback line `[string "FILE"]:LINE: ...` names the location
/// `FILE:LINE`, for a file name that holds no `"]:` and does not start with
/// `[`, and a line number made of digits.
pub proof fn law_traceback_line_location(file: Seq<char>, line: Seq<char>, rest: Seq<char>)
    requires
        !contains(file, chunk_suffix()),
        file.len() == 0 || file[0] != '[',
        all_ascii_digits(line),
    ensures
        traceback_location(chunk_location_text(file, line, rest)) == Some(file + seq![':'] + line),
{
    let s = chunk_location_text(file, line, rest);
    let tail = line + seq![':'] + rest;
    let l = file + chunk_suffix() + tail;
    assert(s =~= chunk_prefix() + l);
    assert(s.subrange(0, 9) =~= chunk_prefix());
    assert(s.skip(9) =~= l);
    assert(!starts_with(l, chunk_prefix())) by {
        if starts_with(l, chunk_prefix()) {
            assert(l.subrange(0, 9)[0] == '[');
            assert(l[0] == '[');
            if file.len() == 0 {
                assert(l[0] == '"');
            } else {
                assert(l[0] == file[0]);
            }
        }
    }
    assert(strip_prefixes(l, chunk_prefix()) == l);
    assert(strip_prefixes(s, chunk_prefix()) == strip_prefixes(s.skip(9), chunk_prefix()));
    lemma_find_suffix(file, tail);
    let f = file.len() as int;
    assert(l.take(f) =~= file);
    assert(l.skip(f + 3) =~= tail);
    lemma_digits_fixed(line, rest);
    assert(tail.take(line.len() as int) =~= line);
}

/// A message `[string "FILE"]:LINE: TEXT` is split into the location
/// `FILE:LINE` and the trimmed `TEXT`, for a file name that holds no `"]:`,
/// a line number made of digits and a text that holds no stack traceback.
pub proof fn law_message_location(file: Seq<char>, line: Seq<char>, text: Seq<char>)
    requires
        !contains(file, chunk_suffix()),
        all_ascii_digits(line),
        !contains(trim(text), traceback_marker()),
    ensures
        message_location(chunk_location_text(file, line, text)) == Some(
            (file + seq![':'] + line, trim(text)),
        ),
{
    let s = chunk_location_text(file, line, text);
    let tail = line + seq![':'] + text;
    let l = file + chunk_suffix() + tail;
    assert(s =~= chunk_prefix() + l);
    assert(s.subrange(0, 9) =~= chunk_prefix());
    assert(s.skip(9) =~= l);
    lemma_find_suffix(file, tail);
    let f = file.len() as int;
    assert(l.take(f) =~= file);
    assert(l.skip(f + 3) =~= tail);
    lemma_digits_fixed(line, text);
    assert(tail.take(line.len() as int) =~= line);
    assert(tail.skip(line.len() + 1int) =~= text);
}

/// The first traceback line that is not a runtime frame and names a location
/// gives the result, whatever lines follow it: the error is reported where it
/// was raised, not in an outer caller.
pub proof fn law_first_user_frame_wins(l: Seq<char>, rest: Seq<Seq<char>>)
    requires
        !is_internal_frame(trim(l)),
        traceback_location(trim(l)) is Some,
    ensures
        first_location(seq![l] + rest) == traceback_location(trim(l)),
{
    let lines = seq![l] + rest;
    assert(lines[0] == l);
    assert(lines.len() > 0);
}

/// Lines that are runtime frames before the first user frame are passed over.
pub proof fn law_internal_frames_skipped(l: Seq<char>, rest: Seq<Seq<char>>)
    requires
        is_internal_frame(trim(l)),
    ensures
        first_location(seq![l] + rest) == first_location(rest),
{
    let lines = seq![l] + rest;
    assert(lines[0] == l);
    assert(lines.drop_first() =~= rest);
}

/// In the text of a traceback, a first line `l` (without a line break) that is
/// a user frame naming a location gives the reported location, whatever text
/// follows the line break after it.
pub proof fn law_first_traceback_line_wins(l: Seq<char>, rest: Seq<char>)
    requires
        !contains(l, seq!['\n']),
        !is_internal_frame(trim(l)),
        traceback_location(trim(l)) is Some,
    ensures
        first_location(lines_of(l + seq!['\n'] + rest)) == traceback_location(trim(l)),
{
    let t = l + seq!['\n'] + rest;
    let n = l.len() as int;
    assert(t[n] == '\n');
    lemma_index_of(t, '\n');
    let i = index_of(t, '\n');
    assert(i == n) by {
        if i < n {
            assert(t[i] == l[i]);
            assert(l.subrange(i, i + 1) =~= seq!['\n']);
            crate::text::lemma_find_from(l, seq!['\n'], 0);
            assert(crate::text::matches_at(l, seq!['\n'], i));
        }
    }
    assert(t.take(n) =~= l);
    assert(t.skip(n + 1) =~= rest);
    let first = strip_cr(l);
    assert(trim(first) == trim(l)) by {
        if l.len() > 0 && l.last() == '\r' {
            assert(crate::text::is_white_space('\r'));
            lemma_trim_drop_trailing_space(l);
        }
    }
    assert(lines_of(t) == seq![first] + lines_of(rest));
    law_first_user_frame_wins(first, lines_of(rest));
}

/// Dropping a final white-space character does not change the trimmed text.
proof fn lemma_trim_drop_trailing_space(l: Seq<char>)
    requires
        l.len() > 0,
        crate::text::is_white_space(l.last()),
    ensures
        trim(l.drop_last()) == trim(l),
    decreases l.len(),
{
    let ts = crate::text::trim_start(l);
    if l.len() > 0 && crate::text::is_white_space(l[0]) {
        if l.len() == 1 {
            assert(l.drop_last() =~= Seq::<char>::empty());
            assert(crate::text::trim_start(l.drop_first()) == l.drop_first());
            assert(l.drop_first() =~= Seq::<char>::empty());
        } else {
            lemma_trim_drop_trailing_space(l.drop_first());
            assert(l.drop_first().drop_last() =~= l.drop_last().drop_first());
            assert(l.drop_last()[0] == l[0]);
            assert(l.drop_first().last() == l.last());
        }
    } else {
        assert(ts == l);
        if l.len() > 1 {
            assert(l.drop_last()[0] == l[0]);
        }
        assert(crate::text::trim_start(l.drop_last()) == l.drop_last());
    }
}

} // verus!
