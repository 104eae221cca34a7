//! Laws of `.env` parsing: what the keys look like, that a later assignment
//! overrides an earlier one, how files put one after another parse, that an
//! `export ` prefix changes nothing, that escaped double-quoted values read
//! back as written, and that Windows line endings read as plain ones.
use vstd::prelude::*;
use crate::env_grammar::{
    after_export, assignment_at, bare_body, double_body, entries_from, export_word,
    is_inline_space, is_key_char, is_key_start, is_valid_key, key_at, key_end, lemma_after_export,
    lemma_assignment_at, lemma_key_end, lemma_skip_comment, lemma_skip_spaces, line_end_at,
    newline_count, parse_env_result, prepend, unescape, single_body, skip_comment, skip_spaces, strip_bom,
    value_at, SpecError,
};

verus! {

// ---------------------------------------------------------------------------
// Moving the whole computation past a prefix: parsing `a + b` from position
// `a.len() + p` is parsing `b` from `p`, with positions moved by `a.len()`.

pub open spec fn shift_value(r: Result<(int, int, Seq<char>), SpecError>, n: int) -> Result<
    (int, int, Seq<char>),
    SpecError,
> {
    match r {
        Ok((q, l, v)) => Ok((q + n, l, v)),
        Err(e) => Err(e),
    }
}

proof fn shift_skip_spaces(a: Seq<char>, b: Seq<char>, p: int)
    requires
        0 <= p,
    ensures
        skip_spaces(a + b, a.len() + p) == a.len() + skip_spaces(b, p),
    decreases b.len() - p,
{
    if p < b.len() {
        assert((a + b)[a.len() + p] == b[p]);
        if is_inline_space(b[p]) {
            shift_skip_spaces(a, b, p + 1);
        }
    }
}

proof fn shift_skip_comment(a: Seq<char>, b: Seq<char>, p: int)
    requires
        0 <= p,
    ensures
        skip_comment(a + b, a.len() + p) == a.len() + skip_comment(b, p),
    decreases b.len() - p,
{
    if p < b.len() {
        assert((a + b)[a.len() + p] == b[p]);
        if b[p] != '\n' {
            shift_skip_comment(a, b, p + 1);
        }
    }
}

proof fn shift_key_end(a: Seq<char>, b: Seq<char>, p: int)
    requires
        0 <= p,
    ensures
        key_end(a + b, a.len() + p) == a.len() + key_end(b, p),
    decreases b.len() - p,
{
    if p < b.len() {
        assert((a + b)[a.len() + p] == b[p]);
        if is_key_char(b[p]) {
            shift_key_end(a, b, p + 1);
        }
    }
}

proof fn shift_single_body(a: Seq<char>, b: Seq<char>, p: int, line: int)
    requires
        0 <= p,
    ensures
        single_body(a + b, a.len() + p, line) == shift_value(single_body(b, p, line), a.len() as int),
    decreases b.len() - p,
{
    if p < b.len() {
        assert((a + b)[a.len() + p] == b[p]);
        if b[p] != '\'' {
            shift_single_body(a, b, p + 1, line + newline_count(b[p]));
        }
    }
}

proof fn shift_double_body(a: Seq<char>, b: Seq<char>, p: int, line: int)
    requires
        0 <= p,
    ensures
        double_body(a + b, a.len() + p, line) == shift_value(double_body(b, p, line), a.len() as int),
    decreases b.len() - p,
{
    if p < b.len() {
        assert((a + b)[a.len() + p] == b[p]);
        if b[p] != '"' {
            if b[p] == '\\' {
                if p + 1 < b.len() {
                    assert((a + b)[a.len() + p + 1] == b[p + 1]);
                    shift_double_body(a, b, p + 2, line + newline_count(b[p + 1]));
                }
            } else {
                shift_double_body(a, b, p + 1, line + newline_count(b[p]));
            }
        }
    }
}

proof fn shift_bare_body(a: Seq<char>, b: Seq<char>, p: int, prev_ws: bool)
    requires
        0 <= p,
    ensures
        bare_body(a + b, a.len() + p, prev_ws) == (
            a.len() + bare_body(b, p, prev_ws).0,
            bare_body(b, p, prev_ws).1,
        ),
    decreases b.len() - p,
{
    if p < b.len() {
        assert((a + b)[a.len() + p] == b[p]);
        if b[p] != '\n' && !(b[p] == '#' && prev_ws) {
            if b[p] == '\\' {
                if p + 1 < b.len() {
                    assert((a + b)[a.len() + p + 1] == b[p + 1]);
                    if b[p + 1] != '\n' {
                        shift_bare_body(a, b, p + 2, crate::text::is_white_space(b[p + 1]));
                    }
                }
            } else {
                shift_bare_body(a, b, p + 1, crate::text::is_white_space(b[p]));
            }
        }
    }
}

proof fn shift_after_export(a: Seq<char>, b: Seq<char>, p: int)
    requires
        0 <= p,
    ensures
        after_export(a + b, a.len() + p) == a.len() + after_export(b, p),
{
    let s = a + b;
    let n = a.len() as int;
    if p + 6 < b.len() {
        assert(s.subrange(n + p, n + p + 6) =~= b.subrange(p, p + 6));
        assert(s[n + p + 6] == b[p + 6]);
        shift_skip_spaces(a, b, p + 6);
    }
}

proof fn shift_value_at(a: Seq<char>, b: Seq<char>, p: int, line: int)
    requires
        0 <= p,
    ensures
        value_at(a + b, a.len() + p, line) == shift_value(value_at(b, p, line), a.len() as int),
{
    if p < b.len() {
        assert((a + b)[a.len() + p] == b[p]);
    }
    shift_double_body(a, b, p + 1, line);
    shift_single_body(a, b, p + 1, line);
    shift_bare_body(a, b, p, true);
}

pub open spec fn shift_line_end(r: Result<(int, int), SpecError>, n: int) -> Result<
    (int, int),
    SpecError,
> {
    match r {
        Ok((q, l)) => Ok((q + n, l)),
        Err(e) => Err(e),
    }
}

proof fn shift_line_end_at(a: Seq<char>, b: Seq<char>, p: int, line: int, key: Seq<char>)
    requires
        0 <= p,
    ensures
        line_end_at(a + b, a.len() + p, line, key) == shift_line_end(
            line_end_at(b, p, line, key),
            a.len() as int,
        ),
{
    let s = a + b;
    let n = a.len() as int;
    shift_skip_spaces(a, b, p);
    let q = skip_spaces(b, p);
    if p <= b.len() {
        lemma_skip_spaces(b, p);
    }
    assert(q >= 0);
    assert(skip_spaces(s, n + p) == n + q);
    if 0 <= q < b.len() {
        assert(s[n + q] == b[q]);
        shift_skip_comment(a, b, q);
        lemma_skip_comment(b, q);
    }
    let r = if 0 <= q < b.len() && b[q] == '#' {
        skip_comment(b, q)
    } else {
        q
    };
    let rs = if 0 <= n + q < s.len() && s[n + q] == '#' {
        skip_comment(s, n + q)
    } else {
        n + q
    };
    assert(rs == n + r);
    if 0 <= r < b.len() {
        assert(s[n + r] == b[r]);
    }
}

pub open spec fn shift_assignment(
    r: Result<(int, int, Seq<char>, Seq<char>), SpecError>,
    n: int,
) -> Result<(int, int, Seq<char>, Seq<char>), SpecError> {
    match r {
        Ok((q, l, k, v)) => Ok((q + n, l, k, v)),
        Err(e) => Err(e),
    }
}

proof fn shift_assignment_at(a: Seq<char>, b: Seq<char>, p: int, line: int)
    requires
        0 <= p,
    ensures
        assignment_at(a + b, a.len() + p, line) == shift_assignment(
            assignment_at(b, p, line),
            a.len() as int,
        ),
{
    let s = a + b;
    let n = a.len() as int;
    if p < b.len() {
        assert(s[n + p] == b[p]);
        if is_key_start(b[p]) {
            shift_key_end(a, b, p + 1);
            lemma_key_end(b, p + 1);
            let ke = key_end(b, p + 1);
            assert(s.subrange(n + p, n + ke) =~= b.subrange(p, ke));
            shift_skip_spaces(a, b, ke);
            lemma_skip_spaces(b, ke);
            let q = skip_spaces(b, ke);
            if q < b.len() {
                assert(s[n + q] == b[q]);
                if b[q] == '=' {
                    shift_skip_spaces(a, b, q + 1);
                    lemma_skip_spaces(b, q + 1);
                    let vp = skip_spaces(b, q + 1);
                    shift_value_at(a, b, vp, line);
                    crate::env_grammar::lemma_value_at(b, vp, line);
                    if let Ok((v_end, v_line, value)) = value_at(b, vp, line) {
                        shift_line_end_at(a, b, v_end, v_line, b.subrange(p, ke));
                    }
                }
            }
        }
    }
}

proof fn shift_entries_from(a: Seq<char>, b: Seq<char>, p: int, line: int, m: Map<Seq<char>, Seq<char>>)
    requires
        0 <= p,
    ensures
        entries_from(a + b, a.len() + p, line, m) == entries_from(b, p, line, m),
    decreases b.len() - p,
{
    let s = a + b;
    let n = a.len() as int;
    if p < b.len() {
        shift_skip_spaces(a, b, p);
        lemma_skip_spaces(b, p);
        let q = skip_spaces(b, p);
        if q < b.len() {
            assert(s[n + q] == b[q]);
            if b[q] == '\n' {
                shift_entries_from(a, b, q + 1, line + 1, m);
            } else if b[q] == '#' {
                shift_skip_comment(a, b, q + 1);
                lemma_skip_comment(b, q + 1);
                shift_entries_from(a, b, skip_comment(b, q + 1), line, m);
            } else {
                shift_after_export(a, b, q);
                lemma_after_export(b, q);
                let e = after_export(b, q);
                shift_assignment_at(a, b, e, line);
                lemma_assignment_at(b, e, line);
                if let Ok((next, next_line, key, value)) = assignment_at(b, e, line) {
                    shift_entries_from(a, b, next, next_line, m.insert(key, value));
                }
            }
        }
    }
}

// ---------------------------------------------------------------------------
// Line numbers are relative: starting from a later line moves every reported
// line by the same amount and changes nothing else.

pub open spec fn line_shift_value(r: Result<(int, int, Seq<char>), SpecError>, d: int) -> Result<
    (int, int, Seq<char>),
    SpecError,
> {
    match r {
        Ok((q, l, v)) => Ok((q, l + d, v)),
        Err((l, e)) => Err((l + d, e)),
    }
}

proof fn line_shift_single(s: Seq<char>, p: int, line: int, d: int)
    ensures
        single_body(s, p, line + d) == line_shift_value(single_body(s, p, line), d),
    decreases s.len() - p,
{
    if 0 <= p < s.len() && s[p] != '\'' {
        line_shift_single(s, p + 1, line + newline_count(s[p]), d);
        assert(line + d + newline_count(s[p]) == line + newline_count(s[p]) + d);
    }
}

proof fn line_shift_double(s: Seq<char>, p: int, line: int, d: int)
    ensures
        double_body(s, p, line + d) == line_shift_value(double_body(s, p, line), d),
    decreases s.len() - p,
{
    if 0 <= p < s.len() && s[p] != '"' {
        if s[p] == '\\' {
            if p + 1 < s.len() {
                line_shift_double(s, p + 2, line + newline_count(s[p + 1]), d);
                assert(line + d + newline_count(s[p + 1]) == line + newline_count(s[p + 1]) + d);
            }
        } else {
            line_shift_double(s, p + 1, line + newline_count(s[p]), d);
            assert(line + d + newline_count(s[p]) == line + newline_count(s[p]) + d);
        }
    }
}

proof fn line_shift_value_at(s: Seq<char>, p: int, line: int, d: int)
    ensures
        value_at(s, p, line + d) == line_shift_value(value_at(s, p, line), d),
{
    line_shift_double(s, p + 1, line, d);
    line_shift_single(s, p + 1, line, d);
}

pub open spec fn line_shift_assignment(
    r: Result<(int, int, Seq<char>, Seq<char>), SpecError>,
    d: int,
) -> Result<(int, int, Seq<char>, Seq<char>), SpecError> {
    match r {
        Ok((q, l, k, v)) => Ok((q, l + d, k, v)),
        Err((l, e)) => Err((l + d, e)),
    }
}

proof fn line_shift_assignment_at(s: Seq<char>, p: int, line: int, d: int)
    ensures
        assignment_at(s, p, line + d) == line_shift_assignment(assignment_at(s, p, line), d),
{
    if 0 <= p < s.len() && is_key_start(s[p]) {
        let ke = key_end(s, p + 1);
        let q = skip_spaces(s, ke);
        if 0 <= q < s.len() && s[q] == '=' {
            let vp = skip_spaces(s, q + 1);
            line_shift_value_at(s, vp, line, d);
        } else if 0 <= q < s.len() {
            assert(line + d + newline_count(s[q]) == line + newline_count(s[q]) + d);
        }
    }
}

pub open spec fn line_shift_entries(r: Result<Map<Seq<char>, Seq<char>>, SpecError>, d: int) -> Result<
    Map<Seq<char>, Seq<char>>,
    SpecError,
> {
    match r {
        Ok(m) => Ok(m),
        Err((l, e)) => Err((l + d, e)),
    }
}

proof fn line_shift_entries_from(s: Seq<char>, p: int, line: int, d: int, m: Map<Seq<char>, Seq<char>>)
    ensures
        entries_from(s, p, line + d, m) == line_shift_entries(entries_from(s, p, line, m), d),
    decreases s.len() - p,
{
    if 0 <= p < s.len() {
        lemma_skip_spaces(s, p);
        let q = skip_spaces(s, p);
        if q < s.len() {
            if s[q] == '\n' {
                line_shift_entries_from(s, q + 1, line + 1, d, m);
                assert(line + d + 1 == line + 1 + d);
            } else if s[q] == '#' {
                lemma_skip_comment(s, q + 1);
                line_shift_entries_from(s, skip_comment(s, q + 1), line, d, m);
            } else {
                lemma_after_export(s, q);
                let e = after_export(s, q);
                lemma_assignment_at(s, e, line);
                line_shift_assignment_at(s, e, line, d);
                if let Ok((next, next_line, key, value)) = assignment_at(s, e, line) {
                    line_shift_entries_from(s, next, next_line, d, m.insert(key, value));
                }
            }
        }
    }
}

// ---------------------------------------------------------------------------
// The variables found so far only receive the later assignments.

pub open spec fn union_result(m: Map<Seq<char>, Seq<char>>, r: Result<Map<Seq<char>, Seq<char>>, SpecError>) -> Result<
    Map<Seq<char>, Seq<char>>,
    SpecError,
> {
    match r {
        Ok(x) => Ok(m.union_prefer_right(x)),
        Err(e) => Err(e),
    }
}

proof fn entries_from_map(s: Seq<char>, p: int, line: int, m: Map<Seq<char>, Seq<char>>)
    ensures
        entries_from(s, p, line, m) == union_result(m, entries_from(s, p, line, Map::empty())),
    decreases s.len() - p,
{
    if 0 <= p < s.len() {
        lemma_skip_spaces(s, p);
        let q = skip_spaces(s, p);
        if q >= s.len() {
            assert(m.union_prefer_right(Map::empty()) =~= m);
        } else if s[q] == '\n' {
            entries_from_map(s, q + 1, line + 1, m);
        } else if s[q] == '#' {
            lemma_skip_comment(s, q + 1);
            entries_from_map(s, skip_comment(s, q + 1), line, m);
        } else {
            lemma_after_export(s, q);
            let e = after_export(s, q);
            lemma_assignment_at(s, e, line);
            if let Ok((next, next_line, key, value)) = assignment_at(s, e, line) {
                let empty = Map::<Seq<char>, Seq<char>>::empty();
                entries_from_map(s, next, next_line, m.insert(key, value));
                entries_from_map(s, next, next_line, empty.insert(key, value));
                if let Ok(x) = entries_from(s, next, next_line, empty) {
                    assert(m.insert(key, value).union_prefer_right(x) =~= m.union_prefer_right(
                        empty.insert(key, value).union_prefer_right(x),
                    ));
                }
            }
        }
    } else {
        assert(m.union_prefer_right(Map::empty()) =~= m);
    }
}

// ---------------------------------------------------------------------------
// A file that ends with a line break is read the same whatever follows it:
// no step that starts inside it reads past its last character.

/// `a` is a non-empty text whose last character ends a line.
pub open spec fn ends_line(a: Seq<char>) -> bool {
    a.len() > 0 && a[a.len() - 1] == '\n'
}

proof fn prefix_skip_spaces(a: Seq<char>, b: Seq<char>, p: int)
    requires
        ends_line(a),
        0 <= p < a.len(),
    ensures
        skip_spaces(a + b, p) == skip_spaces(a, p),
        skip_spaces(a, p) < a.len(),
    decreases a.len() - p,
{
    assert((a + b)[p] == a[p]);
    if is_inline_space(a[p]) {
        prefix_skip_spaces(a, b, p + 1);
    }
}

proof fn prefix_skip_comment(a: Seq<char>, b: Seq<char>, p: int)
    requires
        ends_line(a),
        0 <= p < a.len(),
    ensures
        skip_comment(a + b, p) == skip_comment(a, p),
        skip_comment(a, p) < a.len(),
    decreases a.len() - p,
{
    assert((a + b)[p] == a[p]);
    if a[p] != '\n' {
        prefix_skip_comment(a, b, p + 1);
    }
}

proof fn prefix_key_end(a: Seq<char>, b: Seq<char>, p: int)
    requires
        ends_line(a),
        0 <= p < a.len(),
    ensures
        key_end(a + b, p) == key_end(a, p),
        key_end(a, p) < a.len(),
    decreases a.len() - p,
{
    assert((a + b)[p] == a[p]);
    if is_key_char(a[p]) {
        prefix_key_end(a, b, p + 1);
    }
}

proof fn prefix_bare_body(a: Seq<char>, b: Seq<char>, p: int, prev_ws: bool)
    requires
        ends_line(a),
        0 <= p < a.len(),
    ensures
        bare_body(a + b, p, prev_ws) == bare_body(a, p, prev_ws),
        bare_body(a, p, prev_ws).0 < a.len(),
    decreases a.len() - p,
{
    assert((a + b)[p] == a[p]);
    if a[p] != '\n' && !(a[p] == '#' && prev_ws) {
        if a[p] == '\\' {
            assert((a + b)[p + 1] == a[p + 1]);
            if a[p + 1] != '\n' {
                prefix_bare_body(a, b, p + 2, crate::text::is_white_space(a[p + 1]));
            }
        } else {
            prefix_bare_body(a, b, p + 1, crate::text::is_white_space(a[p]));
        }
    }
}

proof fn prefix_single_body(a: Seq<char>, b: Seq<char>, p: int, line: int)
    requires
        ends_line(a),
        0 <= p,
        single_body(a, p, line) is Ok,
    ensures
        single_body(a + b, p, line) == single_body(a, p, line),
        single_body(a, p, line) matches Ok((q, _, _)) && q < a.len(),
    decreases a.len() - p,
{
    assert((a + b)[p] == a[p]);
    if a[p] != '\'' {
        prefix_single_body(a, b, p + 1, line + newline_count(a[p]));
    }
}

proof fn prefix_double_body(a: Seq<char>, b: Seq<char>, p: int, line: int)
    requires
        ends_line(a),
        0 <= p,
        double_body(a, p, line) is Ok,
    ensures
        double_body(a + b, p, line) == double_body(a, p, line),
        double_body(a, p, line) matches Ok((q, _, _)) && q < a.len(),
    decreases a.len() - p,
{
    assert((a + b)[p] == a[p]);
    if a[p] != '"' {
        if a[p] == '\\' {
            assert((a + b)[p + 1] == a[p + 1]);
            prefix_double_body(a, b, p + 2, line + newline_count(a[p + 1]));
        } else {
            prefix_double_body(a, b, p + 1, line + newline_count(a[p]));
        }
    }
}

proof fn prefix_value_at(a: Seq<char>, b: Seq<char>, p: int, line: int)
    requires
        ends_line(a),
        0 <= p < a.len(),
        value_at(a, p, line) is Ok,
    ensures
        value_at(a + b, p, line) == value_at(a, p, line),
        value_at(a, p, line) matches Ok((q, _, _)) && q < a.len(),
{
    assert((a + b)[p] == a[p]);
    if a[p] == '"' {
        prefix_double_body(a, b, p + 1, line);
    } else if a[p] == '\'' {
        prefix_single_body(a, b, p + 1, line);
    } else {
        prefix_bare_body(a, b, p, true);
    }
}

proof fn prefix_line_end_at(a: Seq<char>, b: Seq<char>, p: int, line: int, key: Seq<char>)
    requires
        ends_line(a),
        0 <= p < a.len(),
    ensures
        line_end_at(a + b, p, line, key) == line_end_at(a, p, line, key),
        line_end_at(a, p, line, key) matches Ok((q, _)) ==> q <= a.len(),
{
    prefix_skip_spaces(a, b, p);
    let q = skip_spaces(a, p);
    lemma_skip_spaces(a, p);
    assert((a + b)[q] == a[q]);
    if a[q] == '#' {
        prefix_skip_comment(a, b, q);
        lemma_skip_comment(a, q);
    }
    let r = if a[q] == '#' {
        skip_comment(a, q)
    } else {
        q
    };
    assert((a + b)[r] == a[r]);
}

proof fn prefix_after_export(a: Seq<char>, b: Seq<char>, p: int)
    requires
        ends_line(a),
        0 <= p < a.len(),
    ensures
        after_export(a + b, p) == after_export(a, p),
        after_export(a, p) < a.len(),
{
    let s = a + b;
    let n = a.len() as int;
    if p + 6 < n {
        assert(s.subrange(p, p + 6) =~= a.subrange(p, p + 6));
        assert(s[p + 6] == a[p + 6]);
        if a.subrange(p, p + 6) == export_word() && is_inline_space(a[p + 6]) {
            prefix_skip_spaces(a, b, p + 6);
        }
    } else if p + 6 < s.len() {
        // The text `export` would have to hold the line break that ends `a`.
        assert(s.subrange(p, p + 6)[n - 1 - p] == '\n');
        assert(export_word()[n - 1 - p] != '\n');
    }
}

proof fn prefix_assignment_at(a: Seq<char>, b: Seq<char>, p: int, line: int)
    requires
        ends_line(a),
        0 <= p < a.len(),
        assignment_at(a, p, line) is Ok,
    ensures
        assignment_at(a + b, p, line) == assignment_at(a, p, line),
        assignment_at(a, p, line) matches Ok((q, _, _, _)) && q <= a.len(),
{
    let s = a + b;
    assert(s[p] == a[p]);
    assert(is_key_start(a[p]));
    assert(p + 1 < a.len());
    prefix_key_end(a, b, p + 1);
    let ke = key_end(a, p + 1);
    lemma_key_end(a, p + 1);
    assert(s.subrange(p, ke) =~= a.subrange(p, ke));
    prefix_skip_spaces(a, b, ke);
    let q = skip_spaces(a, ke);
    assert(s[q] == a[q]);
    assert(a[q] == '=');
    assert(q + 1 < a.len());
    prefix_skip_spaces(a, b, q + 1);
    let vp = skip_spaces(a, q + 1);
    lemma_skip_spaces(a, ke);
    lemma_skip_spaces(a, q + 1);
    crate::env_grammar::lemma_value_at(a, vp, line);
    assert(value_at(a, vp, line) is Ok);
    prefix_value_at(a, b, vp, line);
    let (v_end, v_line, value) = value_at(a, vp, line)->Ok_0;
    prefix_line_end_at(a, b, v_end, v_line, a.subrange(p, ke));
}

/// Reading `a + b` from a position in `a` reaches the end of `a` with the
/// variables that reading `a` alone gives, at some line.
proof fn prefix_entries_from(a: Seq<char>, b: Seq<char>, p: int, line: int, m: Map<Seq<char>, Seq<char>>) -> (l1: int)
    requires
        ends_line(a),
        0 <= p <= a.len(),
        entries_from(a, p, line, m) is Ok,
    ensures
        entries_from(a + b, p, line, m) == entries_from(
            a + b,
            a.len() as int,
            l1,
            entries_from(a, p, line, m)->Ok_0,
        ),
    decreases a.len() - p,
{
    let s = a + b;
    if p == a.len() {
        return line;
    }
    prefix_skip_spaces(a, b, p);
    lemma_skip_spaces(a, p);
    let q = skip_spaces(a, p);
    assert(s[q] == a[q]);
    if a[q] == '\n' {
        prefix_entries_from(a, b, q + 1, line + 1, m)
    } else if a[q] == '#' {
        prefix_skip_comment(a, b, q + 1);
        lemma_skip_comment(a, q + 1);
        prefix_entries_from(a, b, skip_comment(a, q + 1), line, m)
    } else {
        prefix_after_export(a, b, q);
        lemma_after_export(a, q);
        let e = after_export(a, q);
        lemma_assignment_at(a, e, line);
        prefix_assignment_at(a, b, e, line);
        let (next, next_line, key, value) = assignment_at(a, e, line)->Ok_0;
        prefix_entries_from(a, b, next, next_line, m.insert(key, value))
    }
}

/// Two `.env` texts put one after the other, the first ending with a line
/// break and the second not starting with a byte order mark, give the first
/// one's variables with the second one's assignments applied over them: where
/// both assign a key, the second wins.
pub proof fn law_concatenated_files(
    a: Seq<char>,
    b: Seq<char>,
    ma: Map<Seq<char>, Seq<char>>,
    mb: Map<Seq<char>, Seq<char>>,
)
    requires
        ends_line(a),
        !(b.len() > 0 && b[0] == '\u{feff}'),
        parse_env_result(a) == Ok::<Map<Seq<char>, Seq<char>>, SpecError>(ma),
        parse_env_result(b) == Ok::<Map<Seq<char>, Seq<char>>, SpecError>(mb),
    ensures
        parse_env_result(a + b) == Ok::<Map<Seq<char>, Seq<char>>, SpecError>(ma.union_prefer_right(mb)),
{
    let a2 = strip_bom(a);
    if a[0] == '\u{feff}' {
        assert((a + b).drop_first() =~= a.drop_first() + b);
        assert(a2[a2.len() - 1] == a[a.len() - 1]);
    }
    assert(strip_bom(a + b) == a2 + b);
    assert(strip_bom(b) == b);
    let empty = Map::<Seq<char>, Seq<char>>::empty();
    let l1 = prefix_entries_from(a2, b, 0, 1, empty);
    shift_entries_from(a2, b, 0, l1, ma);
    line_shift_entries_from(b, 0, 1, l1 - 1, ma);
    entries_from_map(b, 0, 1, ma);
    assert(a2.len() + 0 == a2.len());
}

// ---------------------------------------------------------------------------
// What the variables look like.

proof fn entries_from_keys_valid(s: Seq<char>, p: int, line: int, m: Map<Seq<char>, Seq<char>>)
    requires
        forall|k: Seq<char>| m.dom().contains(k) ==> is_valid_key(k),
    ensures
        entries_from(s, p, line, m) matches Ok(r) ==> forall|k: Seq<char>|
            r.dom().contains(k) ==> is_valid_key(k),
    decreases s.len() - p,
{
    if 0 <= p < s.len() {
        lemma_skip_spaces(s, p);
        let q = skip_spaces(s, p);
        if q < s.len() {
            if s[q] == '\n' {
                entries_from_keys_valid(s, q + 1, line + 1, m);
            } else if s[q] == '#' {
                lemma_skip_comment(s, q + 1);
                entries_from_keys_valid(s, skip_comment(s, q + 1), line, m);
            } else {
                lemma_after_export(s, q);
                let e = after_export(s, q);
                lemma_assignment_at(s, e, line);
                if let Ok((next, next_line, key, value)) = assignment_at(s, e, line) {
                    let ke = key_end(s, e + 1);
                    lemma_key_end(s, e + 1);
                    assert(key == s.subrange(e, ke));
                    assert(is_valid_key(key)) by {
                        assert forall|i: int| 1 <= i < key.len() implies #[trigger] is_key_char(
                            key[i],
                        ) by {
                            assert(key[i] == s[e + i]);
                        }
                    }
                    entries_from_keys_valid(s, next, next_line, m.insert(key, value));
                }
            }
        }
    }
}

/// Every variable that a `.env` text assigns has a valid name: `_` or an
/// ASCII letter, then `_`, ASCII letters and digits.
pub proof fn law_keys_are_valid(content: Seq<char>)
    ensures
        parse_env_result(content) matches Ok(m) ==> forall|k: Seq<char>|
            m.dom().contains(k) ==> is_valid_key(k),
{
    entries_from_keys_valid(strip_bom(content), 0, 1, Map::empty());
}

// ---------------------------------------------------------------------------
// One plain assignment, and what appending it does.

/// A character that may stand anywhere in a bare value and is kept as it is:
/// no white space, comment sign, backslash or quote.
pub open spec fn is_plain_char(c: char) -> bool {
    !crate::text::is_white_space(c) && c != '#' && c != '\\' && c != '"' && c != '\''
}

/// A value written bare that reads back as itself.
pub open spec fn is_plain_value(v: Seq<char>) -> bool {
    forall|i: int| 0 <= i < v.len() ==> #[trigger] is_plain_char(v[i])
}

/// The line `key=value` followed by a line break.
pub open spec fn assignment_line(key: Seq<char>, value: Seq<char>) -> Seq<char> {
    key + seq!['='] + value + seq!['\n']
}

proof fn key_end_over_key(s: Seq<char>, p: int, end: int)
    requires
        0 <= p <= end < s.len(),
        forall|i: int| p <= i < end ==> #[trigger] is_key_char(s[i]),
        !is_key_char(s[end]),
    ensures
        key_end(s, p) == end,
    decreases end - p,
{
    if p < end {
        key_end_over_key(s, p + 1, end);
    }
}

proof fn bare_body_over_plain(s: Seq<char>, p: int, end: int, prev_ws: bool)
    requires
        0 <= p <= end < s.len(),
        forall|i: int| p <= i < end ==> #[trigger] is_plain_char(s[i]),
        s[end] == '\n',
    ensures
        bare_body(s, p, prev_ws) == (end, s.subrange(p, end)),
    decreases end - p,
{
    if p < end {
        assert(is_plain_char(s[p]));
        bare_body_over_plain(s, p + 1, end, crate::text::is_white_space(s[p]));
        assert(seq![s[p]] + s.subrange(p + 1, end) =~= s.subrange(p, end));
    } else {
        assert(s.subrange(p, end) =~= Seq::<char>::empty());
    }
}

/// The line `KEY=VALUE` assigns `VALUE` to `KEY` when `KEY` is a valid name and
/// `VALUE` is written with plain characters only.
pub proof fn law_plain_assignment(key: Seq<char>, value: Seq<char>)
    requires
        is_valid_key(key),
        is_plain_value(value),
    ensures
        parse_env_result(assignment_line(key, value)) == Ok::<Map<Seq<char>, Seq<char>>, SpecError>(
            Map::<Seq<char>, Seq<char>>::empty().insert(key, value),
        ),
{
    let s = assignment_line(key, value);
    let k = key.len() as int;
    let n = s.len() as int;
    assert(s.len() == k + value.len() + 2);
    assert(forall|i: int| 0 <= i < k ==> s[i] == key[i]);
    assert(s[k] == '=');
    assert(forall|i: int| 0 <= i < value.len() ==> s[k + 1 + i] == value[i]);
    assert(s[n - 1] == '\n');
    assert(strip_bom(s) == s) by {
        assert(s[0] == key[0]);
    }
    // The line starts with the key.
    assert(skip_spaces(s, 0) == 0) by {
        assert(s[0] == key[0]);
    }
    assert(after_export(s, 0) == 0) by {
        if 6 < n && s.subrange(0, 6) == export_word() {
            let c = s[6];
            if 6 < k {
                assert(is_key_char(key[6]));
            } else if 6 == k {
                assert(c == '=');
            } else if 6 < n - 1 {
                assert(c == value[6 - k - 1]);
                assert(is_plain_char(value[6 - k - 1]));
            }
        }
    }
    assert forall|i: int| 1 <= i < k implies #[trigger] is_key_char(s[i]) by {
        assert(s[i] == key[i]);
    }
    key_end_over_key(s, 1, k);
    assert(s.subrange(0, k) =~= key);
    // Then `=`, then the value up to the line break.
    assert(skip_spaces(s, k) == k);
    let vp = k + 1;
    assert(skip_spaces(s, vp) == vp) by {
        if vp < n - 1 {
            assert(s[vp] == value[0]);
            assert(is_plain_char(value[0]));
        }
    }
    assert forall|i: int| vp <= i < n - 1 implies #[trigger] is_plain_char(s[i]) by {
        assert(s[i] == value[i - vp]);
    }
    bare_body_over_plain(s, vp, n - 1, true);
    assert(s.subrange(vp, n - 1) =~= value);
    assert(crate::text::trim_end(value) == value) by {
        if value.len() > 0 {
            assert(is_plain_char(value[value.len() - 1]));
        }
    }
    if vp < n - 1 {
        assert(s[vp] == value[0]);
        assert(is_plain_char(value[0]));
    }
    assert(value_at(s, vp, 1) == Ok::<(int, int, Seq<char>), SpecError>((n - 1, 1, value)));
    assert(skip_spaces(s, n - 1) == n - 1);
    assert(line_end_at(s, n - 1, 1, key) == Ok::<(int, int), SpecError>((n, 2)));
    assert(assignment_at(s, 0, 1) == Ok::<(int, int, Seq<char>, Seq<char>), SpecError>(
        (n, 2, key, value),
    ));
    let m1 = Map::<Seq<char>, Seq<char>>::empty().insert(key, value);
    assert(entries_from(s, n, 2, m1) == Ok::<Map<Seq<char>, Seq<char>>, SpecError>(m1));
    assert(s[0] == key[0] && is_key_start(key[0]));
    assert(s[0] != '\n' && s[0] != '#');
    assert(entries_from(s, 0, 1, Map::empty()) == entries_from(s, n, 2, m1));
}

/// Appending the line `KEY=VALUE` to a `.env` text that ends with a line break
/// sets `KEY` to `VALUE`, whatever the text assigned it before, and keeps the
/// other variables.
pub proof fn law_later_assignment_wins(
    a: Seq<char>,
    ma: Map<Seq<char>, Seq<char>>,
    key: Seq<char>,
    value: Seq<char>,
)
    requires
        ends_line(a),
        parse_env_result(a) == Ok::<Map<Seq<char>, Seq<char>>, SpecError>(ma),
        is_valid_key(key),
        is_plain_value(value),
    ensures
        parse_env_result(a + assignment_line(key, value)) == Ok::<Map<Seq<char>, Seq<char>>, SpecError>(
            ma.insert(key, value),
        ),
{
    let b = assignment_line(key, value);
    law_plain_assignment(key, value);
    assert(b[0] == key[0]);
    let mb = Map::<Seq<char>, Seq<char>>::empty().insert(key, value);
    law_concatenated_files(a, b, ma, mb);
    assert(ma.union_prefer_right(mb) =~= ma.insert(key, value));
}

// ---------------------------------------------------------------------------
// An `export ` prefix.

/// `export` followed by one space, as written before an assignment.
pub open spec fn export_prefix() -> Seq<char> {
    export_word() + seq![' ']
}

/// Writing `export ` before a `.env` text whose first line is an assignment
/// changes nothing: the same variables, or the same error on the same line
/// with the same message. The text must start with a key, and not itself with
/// an `export` prefix (`export` followed by a space).
pub proof fn law_export_prefix(s: Seq<char>)
    requires
        s.len() > 0,
        is_key_start(s[0]),
        !(s.len() > 6 && s.subrange(0, 6) == export_word() && is_inline_space(s[6])),
    ensures
        parse_env_result(export_prefix() + s) == parse_env_result(s),
{
    let a = export_prefix();
    let t = a + s;
    assert(t[0] == 'e');
    assert(strip_bom(t) == t);
    assert(strip_bom(s) == s);
    assert(skip_spaces(t, 0) == 0);
    assert(t.subrange(0, 6) =~= export_word());
    assert(t[6] == ' ');
    assert(t[7] == s[0]);
    assert(skip_spaces(t, 7) == 7);
    assert(skip_spaces(t, 6) == 7);
    assert(after_export(t, 0) == 7);
    assert(skip_spaces(s, 0) == 0);
    assert(after_export(s, 0) == 0);
    assert(t[0] != '\n' && t[0] != '#');
    assert(s[0] != '\n' && s[0] != '#');
    shift_assignment_at(a, s, 0, 1);
    lemma_assignment_at(s, 0, 1);
    if let Ok((next, next_line, key, value)) = assignment_at(s, 0, 1) {
        shift_entries_from(a, s, next, next_line, Map::<Seq<char>, Seq<char>>::empty().insert(key, value));
    }
}

// ---------------------------------------------------------------------------
// Double-quoted values written with escapes.

/// How one character of a value is written between double quotes: a backslash
/// or a double quote gets a backslash before it, any other character stands
/// as it is.
pub open spec fn escape_char(c: char) -> Seq<char> {
    if c == '\\' || c == '"' {
        seq!['\\', c]
    } else {
        seq![c]
    }
}

/// A value written between double quotes, each character escaped as needed.
pub open spec fn escape_double(v: Seq<char>) -> Seq<char>
    decreases v.len(),
{
    if v.len() == 0 {
        Seq::empty()
    } else {
        escape_char(v[0]) + escape_double(v.drop_first())
    }
}

/// The number of line breaks in `v`.
pub open spec fn line_breaks(v: Seq<char>) -> int
    decreases v.len(),
{
    if v.len() == 0 {
        0
    } else {
        newline_count(v[0]) + line_breaks(v.drop_first())
    }
}

/// The line `key="VALUE"` with `VALUE` escaped, followed by a line break.
pub open spec fn quoted_line(key: Seq<char>, value: Seq<char>) -> Seq<char> {
    key + seq!['=', '"'] + escape_double(value) + seq!['"', '\n']
}

/// An escaped value followed by a closing quote reads back as the value.
proof fn double_body_over_escaped(s: Seq<char>, p: int, line: int, v: Seq<char>)
    requires
        0 <= p,
        p + escape_double(v).len() < s.len(),
        s.subrange(p, p + escape_double(v).len()) == escape_double(v),
        s[p + escape_double(v).len()] == '"',
    ensures
        double_body(s, p, line) == Ok::<(int, int, Seq<char>), SpecError>(
            (p + escape_double(v).len() + 1, line + line_breaks(v), v),
        ),
    decreases v.len(),
{
    let e = escape_double(v);
    if v.len() == 0 {
        assert(e.len() == 0);
        assert(v =~= Seq::<char>::empty());
        assert(s[p] == '"');
    } else {
        let c = v[0];
        let rest = v.drop_first();
        let er = escape_double(rest);
        let ec = escape_char(c);
        assert(e == ec + er);
        assert(s.subrange(p, p + e.len())[0] == s[p]);
        let k = ec.len() as int;
        assert(s.subrange(p + k, p + k + er.len()) =~= s.subrange(p, p + e.len()).subrange(
            k,
            e.len() as int,
        ));
        assert(e.subrange(k, e.len() as int) =~= er);
        assert(s[p + k + er.len()] == '"');
        double_body_over_escaped(s, p + k, line + newline_count(c), rest);
        assert(seq![c] + rest =~= v);
        assert(line_breaks(v) == newline_count(c) + line_breaks(rest));
        let inner = double_body(s, p + k, line + newline_count(c));
        if c == '\\' || c == '"' {
            assert(k == 2);
            assert(s[p] == '\\');
            assert(s.subrange(p, p + e.len())[1] == s[p + 1]);
            assert(s[p + 1] == c);
            assert(newline_count(c) == 0);
            assert(unescape(c) == c);
            assert(double_body(s, p, line) == prepend(c, inner));
        } else {
            assert(k == 1);
            assert(s[p] == c);
            assert(double_body(s, p, line) == prepend(c, inner));
        }
        assert(e.len() == k + er.len());
        assert(prepend(c, inner) == Ok::<(int, int, Seq<char>), SpecError>(
            (p + e.len() + 1, line + line_breaks(v), seq![c] + rest),
        ));
    }
}

/// The line `KEY="VALUE"`, with every backslash and double quote in `VALUE`
/// escaped by a backslash, assigns exactly `VALUE` to `KEY`, whatever `VALUE`
/// holds: line breaks, `#`, quotes, backslashes or spaces.
/// A text that starts with a valid key and then `=` reads that key first.
proof fn key_then_equals(s: Seq<char>, key: Seq<char>)
    requires
        is_valid_key(key),
        key.len() < s.len(),
        s.subrange(0, key.len() as int) == key,
        s[key.len() as int] == '=',
    ensures
        strip_bom(s) == s,
        skip_spaces(s, 0) == 0,
        after_export(s, 0) == 0,
        key_end(s, 1) == key.len(),
        skip_spaces(s, key.len() as int) == key.len(),
        s[0] != '\n' && s[0] != '#' && is_key_start(s[0]),
{
    let k = key.len() as int;
    let n = s.len() as int;
    assert forall|i: int| 0 <= i < k implies s[i] == key[i] by {
        assert(s.subrange(0, k)[i] == s[i]);
    }
    assert(s[0] == key[0]);
    assert(after_export(s, 0) == 0) by {
        if 6 < n && s.subrange(0, 6) == export_word() {
            if k < 6 {
                assert(s.subrange(0, 6)[k] == s[k]);
                assert(export_word()[k] != '=');
            } else if 6 < k {
                assert(is_key_char(key[6]));
            } else {
                assert(s[6] == '=');
            }
        }
    }
    assert forall|i: int| 1 <= i < k implies #[trigger] is_key_char(s[i]) by {
        assert(s[i] == key[i]);
    }
    key_end_over_key(s, 1, k);
}

/// The line `KEY="VALUE"`, with every backslash and double quote in `VALUE`
/// escaped by a backslash, assigns exactly `VALUE` to `KEY`, whatever `VALUE`
/// holds: line breaks, `#`, quotes, backslashes or spaces.
pub proof fn law_quoted_assignment(key: Seq<char>, value: Seq<char>)
    requires
        is_valid_key(key),
    ensures
        parse_env_result(quoted_line(key, value)) == Ok::<Map<Seq<char>, Seq<char>>, SpecError>(
            Map::<Seq<char>, Seq<char>>::empty().insert(key, value),
        ),
{
    let ev = escape_double(value);
    let s = quoted_line(key, value);
    let k = key.len() as int;
    let n = s.len() as int;
    assert(n == k + ev.len() + 4);
    assert(s.subrange(0, k) =~= key);
    assert(s[k] == '=');
    assert(s[k + 1] == '"');
    assert(s.subrange(k + 2, k + 2 + ev.len()) =~= ev);
    assert(s[n - 2] == '"');
    assert(s[n - 1] == '\n');
    key_then_equals(s, key);
    assert(skip_spaces(s, k + 1) == k + 1);
    double_body_over_escaped(s, k + 2, 1, value);
    let l = 1 + line_breaks(value);
    assert(value_at(s, k + 1, 1) == Ok::<(int, int, Seq<char>), SpecError>((n - 1, l, value)));
    assert(skip_spaces(s, n - 1) == n - 1);
    assert(line_end_at(s, n - 1, l, key) == Ok::<(int, int), SpecError>((n, l + 1)));
    assert(key_at(s, 0, 1) == Ok::<int, SpecError>(k));
    assert(assignment_at(s, 0, 1) == Ok::<(int, int, Seq<char>, Seq<char>), SpecError>(
        (n, l + 1, key, value),
    ));
    let m1 = Map::<Seq<char>, Seq<char>>::empty().insert(key, value);
    assert(entries_from(s, n, l + 1, m1) == Ok::<Map<Seq<char>, Seq<char>>, SpecError>(m1));
    assert(entries_from(s, 0, 1, Map::empty()) == entries_from(s, n, l + 1, m1));
}

/// The lines `ks[i]="vs[i]"`, one after the other, values escaped.
pub open spec fn quoted_lines(ks: Seq<Seq<char>>, vs: Seq<Seq<char>>) -> Seq<char>
    decreases ks.len(),
{
    if ks.len() == 0 || vs.len() == 0 {
        Seq::empty()
    } else {
        quoted_lines(ks.drop_last(), vs.drop_last()) + quoted_line(ks.last(), vs.last())
    }
}

/// The variables that the assignments `ks[i] = vs[i]` leave, in order.
pub open spec fn assigned(ks: Seq<Seq<char>>, vs: Seq<Seq<char>>) -> Map<Seq<char>, Seq<char>>
    decreases ks.len(),
{
    if ks.len() == 0 || vs.len() == 0 {
        Map::empty()
    } else {
        assigned(ks.drop_last(), vs.drop_last()).insert(ks.last(), vs.last())
    }
}

proof fn assigned_values(ks: Seq<Seq<char>>, vs: Seq<Seq<char>>)
    requires
        ks.len() == vs.len(),
        forall|i: int, j: int| 0 <= i < j < ks.len() ==> ks[i] != ks[j],
    ensures
        assigned(ks, vs).dom().finite(),
        assigned(ks, vs).dom().len() == ks.len(),
        forall|i: int| 0 <= i < ks.len() ==> #[trigger] assigned(ks, vs).dom().contains(ks[i])
            && assigned(ks, vs)[ks[i]] == vs[i],
        forall|k: Seq<char>| #[trigger] assigned(ks, vs).dom().contains(k) ==> exists|i: int|
            0 <= i < ks.len() && ks[i] == k,
    decreases ks.len(),
{
    if ks.len() > 0 {
        let ki = ks.drop_last();
        let vi = vs.drop_last();
        assigned_values(ki, vi);
        let m = assigned(ki, vi);
        let last = ks.last();
        assert(!m.dom().contains(last)) by {
            if m.dom().contains(last) {
                let i = choose|i: int| 0 <= i < ki.len() && ki[i] == last;
                assert(ks[i] == ks[ks.len() - 1]);
            }
        }
        assert(m.insert(last, vs.last()).dom() =~= m.dom().insert(last));
        assert forall|i: int| 0 <= i < ks.len() implies #[trigger] assigned(ks, vs).dom().contains(
            ks[i],
        ) && assigned(ks, vs)[ks[i]] == vs[i] by {
            if i < ks.len() - 1 {
                assert(ki[i] == ks[i]);
                assert(vi[i] == vs[i]);
                assert(m.dom().contains(ki[i]));
            }
        }
        assert forall|k: Seq<char>| #[trigger] assigned(ks, vs).dom().contains(k) implies exists|
            i: int,
        | 0 <= i < ks.len() && ks[i] == k by {
            if k == last {
                assert(ks[ks.len() - 1] == k);
            } else {
                assert(m.dom().contains(k));
                let i = choose|i: int| 0 <= i < ki.len() && ki[i] == k;
                assert(ks[i] == k);
            }
        }
    } else {
        assert(assigned(ks, vs).dom() =~= Set::<Seq<char>>::empty());
    }
}

proof fn quoted_lines_end_line(ks: Seq<Seq<char>>, vs: Seq<Seq<char>>)
    requires
        ks.len() == vs.len(),
        ks.len() > 0,
    ensures
        ends_line(quoted_lines(ks, vs)),
{
    let c = quoted_line(ks.last(), vs.last());
    let a = quoted_lines(ks.drop_last(), vs.drop_last());
    assert(quoted_lines(ks, vs) == a + c);
    assert(c[c.len() - 1] == '\n');
    assert((a + c)[a.len() + c.len() - 1] == c[c.len() - 1]);
}

proof fn quoted_lines_parse(ks: Seq<Seq<char>>, vs: Seq<Seq<char>>)
    requires
        ks.len() == vs.len(),
        forall|i: int| 0 <= i < ks.len() ==> #[trigger] is_valid_key(ks[i]),
    ensures
        parse_env_result(quoted_lines(ks, vs)) == Ok::<Map<Seq<char>, Seq<char>>, SpecError>(
            assigned(ks, vs),
        ),
    decreases ks.len(),
{
    if ks.len() == 0 {
        assert(quoted_lines(ks, vs) =~= Seq::<char>::empty());
    } else {
        let ki = ks.drop_last();
        let vi = vs.drop_last();
        assert forall|i: int| 0 <= i < ki.len() implies #[trigger] is_valid_key(ki[i]) by {
            assert(ki[i] == ks[i]);
        }
        quoted_lines_parse(ki, vi);
        let a = quoted_lines(ki, vi);
        let key = ks.last();
        let value = vs.last();
        let b = quoted_line(key, value);
        assert(quoted_lines(ks, vs) == a + b);
        assert(assigned(ks, vs) == assigned(ki, vi).insert(key, value));
        assert(is_valid_key(ks[ks.len() - 1]));
        law_quoted_assignment(key, value);
        let mb = Map::<Seq<char>, Seq<char>>::empty().insert(key, value);
        let ma = assigned(ki, vi);
        if ki.len() == 0 {
            assert(a =~= Seq::<char>::empty());
            assert(a + b =~= b);
            assert(ma == Map::<Seq<char>, Seq<char>>::empty());
        } else {
            quoted_lines_end_line(ki, vi);
            assert(b[0] == key[0]);
            law_concatenated_files(a, b, ma, mb);
            assert(ma.union_prefer_right(mb) =~= ma.insert(key, value));
        }
    }
}

/// A `.env` text made of lines `KEY="VALUE"`, each value escaped, assigns to
/// every key the value of its last line. When no key repeats, the text
/// assigns exactly its keys, each its own value, whatever the values hold.
pub proof fn law_quoted_lines(ks: Seq<Seq<char>>, vs: Seq<Seq<char>>)
    requires
        ks.len() == vs.len(),
        forall|i: int| 0 <= i < ks.len() ==> #[trigger] is_valid_key(ks[i]),
    ensures
        parse_env_result(quoted_lines(ks, vs)) == Ok::<Map<Seq<char>, Seq<char>>, SpecError>(
            assigned(ks, vs),
        ),
        (forall|i: int, j: int| 0 <= i < j < ks.len() ==> ks[i] != ks[j]) ==> {
            &&& assigned(ks, vs).dom().len() == ks.len()
            &&& forall|i: int|
                0 <= i < ks.len() ==> #[trigger] assigned(ks, vs).dom().contains(ks[i])
                    && assigned(ks, vs)[ks[i]] == vs[i]
        },
{
    quoted_lines_parse(ks, vs);
    if forall|i: int, j: int| 0 <= i < j < ks.len() ==> ks[i] != ks[j] {
        assigned_values(ks, vs);
    }
}

// ---------------------------------------------------------------------------
// Windows line endings: a carriage return before a line break is ignored.

/// The line `key="VALUE"` with `VALUE` escaped, ended the Windows way by a
/// carriage return and a line break.
pub open spec fn quoted_line_crlf(key: Seq<char>, value: Seq<char>) -> Seq<char> {
    key + seq!['=', '"'] + escape_double(value) + seq!['"', '\r', '\n']
}

/// A line `KEY="VALUE"` ended by `\r\n` assigns exactly `VALUE` to `KEY`, as
/// it does when ended by `\n` alone: the carriage return is not part of the
/// line's content.
#[verifier::rlimit(20)]
pub proof fn law_crlf_quoted_assignment(key: Seq<char>, value: Seq<char>)
    requires
        is_valid_key(key),
    ensures
        parse_env_result(quoted_line_crlf(key, value)) == Ok::<Map<Seq<char>, Seq<char>>, SpecError>(
            Map::<Seq<char>, Seq<char>>::empty().insert(key, value),
        ),
{
    let ev = escape_double(value);
    let s = quoted_line_crlf(key, value);
    let k = key.len() as int;
    let n = s.len() as int;
    assert(n == k + ev.len() + 5);
    assert(s.subrange(0, k) =~= key);
    assert(s[k] == '=');
    assert(s[k + 1] == '"');
    assert(s.subrange(k + 2, k + 2 + ev.len()) =~= ev);
    assert(s[n - 3] == '"');
    assert(s[n - 2] == '\r');
    assert(s[n - 1] == '\n');
    key_then_equals(s, key);
    assert(skip_spaces(s, k + 1) == k + 1);
    double_body_over_escaped(s, k + 2, 1, value);
    let l = 1 + line_breaks(value);
    assert(value_at(s, k + 1, 1) == Ok::<(int, int, Seq<char>), SpecError>((n - 2, l, value)));
    assert(skip_spaces(s, n - 1) == n - 1);
    assert(skip_spaces(s, n - 2) == n - 1);
    assert(line_end_at(s, n - 2, l, key) == Ok::<(int, int), SpecError>((n, l + 1)));
    assert(key_at(s, 0, 1) == Ok::<int, SpecError>(k));
    assert(assignment_at(s, 0, 1) == Ok::<(int, int, Seq<char>, Seq<char>), SpecError>(
        (n, l + 1, key, value),
    ));
    let m1 = Map::<Seq<char>, Seq<char>>::empty().insert(key, value);
    assert(entries_from(s, n, l + 1, m1) == Ok::<Map<Seq<char>, Seq<char>>, SpecError>(m1));
    assert(entries_from(s, 0, 1, Map::empty()) == entries_from(s, n, l + 1, m1));
}

/// A line holding only a carriage return parses as an empty file does.
proof fn crlf_line_is_empty()
    ensures
        parse_env_result(seq!['\r', '\n']) == Ok::<Map<Seq<char>, Seq<char>>, SpecError>(
            Map::<Seq<char>, Seq<char>>::empty(),
        ),
{
    let s = seq!['\r', '\n'];
    assert(strip_bom(s) == s);
    assert(skip_spaces(s, 1) == 1);
    assert(skip_spaces(s, 0) == 1);
    assert(entries_from(s, 2, 2, Map::empty()) == Ok::<Map<Seq<char>, Seq<char>>, SpecError>(
        Map::empty(),
    ));
}

/// A blank line written the Windows way, `\r\n`, is skipped like an empty
/// line: put before a text, it leaves that text's variables as they are.
pub proof fn law_crlf_blank_line_before(b: Seq<char>, mb: Map<Seq<char>, Seq<char>>)
    requires
        !(b.len() > 0 && b[0] == '\u{feff}'),
        parse_env_result(b) == Ok::<Map<Seq<char>, Seq<char>>, SpecError>(mb),
    ensures
        parse_env_result(seq!['\r', '\n'] + b) == Ok::<Map<Seq<char>, Seq<char>>, SpecError>(mb),
{
    crlf_line_is_empty();
    let empty = Map::<Seq<char>, Seq<char>>::empty();
    law_concatenated_files(seq!['\r', '\n'], b, empty, mb);
    assert(empty.union_prefer_right(mb) =~= mb);
}

/// A blank line written the Windows way, `\r\n`, is skipped like an empty
/// line: put after a text that ends a line, it leaves that text's variables as
/// they are.
pub proof fn law_crlf_blank_line_after(a: Seq<char>, ma: Map<Seq<char>, Seq<char>>)
    requires
        ends_line(a),
        parse_env_result(a) == Ok::<Map<Seq<char>, Seq<char>>, SpecError>(ma),
    ensures
        parse_env_result(a + seq!['\r', '\n']) == Ok::<Map<Seq<char>, Seq<char>>, SpecError>(ma),
{
    crlf_line_is_empty();
    let empty = Map::<Seq<char>, Seq<char>>::empty();
    law_concatenated_files(a, seq!['\r', '\n'], ma, empty);
    assert(ma.union_prefer_right(empty) =~= ma);
}

} // verus!
