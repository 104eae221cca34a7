//! `.env` files: the parser, and the environment that a test script loads.
use vstd::prelude::*;
use crate::env_grammar::{
    after_export, assignment_at, bare_body, double_body, entries_from, is_ascii_alpha,
    is_inline_space, is_key_char, is_key_start, key_at, key_end, lemma_bare_body, lemma_key_end,
    lemma_skip_comment, lemma_skip_spaces, line_end_at, msg_expected_eof, msg_expected_found,
    msg_expected_name, msg_invalid_key_start, msg_unexpected_after, msg_unterminated_double,
    msg_unterminated_escape, msg_unterminated_single, newline_count, newlines_from, lemma_double_body_error_line, parse_env_result,
    single_body, skip_comment, skip_spaces, strip_bom, unescape, value_at, SpecError,
};
use crate::string_map::StringMap;
use crate::text::{
    append_str, chars_of, decimal, is_ascii_digit, is_whitespace, push_char, string_of,
    string_of_all, trim_end, trim_end_index, decimal_chars,
};

verus! {

/// A parse failure: the line (counted from 1) and what went wrong.
#[derive(Debug, PartialEq, Eq)]
pub struct ParseError {
    pub line: usize,
    pub message: String,
}

impl View for ParseError {
    type V = SpecError;

    open spec fn view(&self) -> SpecError {
        (self.line as int, self.message@)
    }
}

/// A successful value parse with `acc` put in front of the value.
pub open spec fn prepend_all(acc: Seq<char>, r: Result<(int, int, Seq<char>), SpecError>) -> Result<
    (int, int, Seq<char>),
    SpecError,
> {
    match r {
        Ok((p, l, v)) => Ok((p, l, acc + v)),
        Err(e) => Err(e),
    }
}

proof fn lemma_prepend_all(acc: Seq<char>, c: char, r: Result<(int, int, Seq<char>), SpecError>)
    ensures
        prepend_all(acc, crate::env_grammar::prepend(c, r)) == prepend_all(acc.push(c), r),
{
    if let Ok((p, l, v)) = r {
        assert(acc + (seq![c] + v) =~= acc.push(c) + v);
    }
}

/// A parser state over the characters of a `.env` file.
struct EnvParser {
    input: Vec<char>,
    pos: usize,
    line: usize,
}

impl EnvParser {
    spec fn wf(&self) -> bool {
        &&& self.pos <= self.input@.len()
        &&& 1 <= self.line <= self.pos + 1
        &&& self.input@.len() < usize::MAX
    }

    fn new(input: &str) -> (p: Self)
        requires
            input@.len() < usize::MAX,
        ensures
            p.wf(),
            p.input@ == strip_bom(input@),
            p.pos == 0,
            p.line == 1,
    {
        let mut chars = chars_of(input);
        if chars.len() > 0 && chars[0] == '\u{feff}' {
            chars.remove(0);
            assert(chars@ =~= input@.drop_first());
        }
        EnvParser { input: chars, pos: 0, line: 1 }
    }

    fn is_eof(&self) -> (b: bool)
        ensures
            b == (self.pos >= self.input@.len()),
    {
        self.pos >= self.input.len()
    }

    fn peek_char(&self) -> (c: Option<char>)
        ensures
            self.pos < self.input@.len() ==> c == Some(self.input@[self.pos as int]),
            self.pos >= self.input@.len() ==> c is None,
    {
        if self.pos < self.input.len() {
            Some(self.input[self.pos])
        } else {
            None
        }
    }

    fn advance_char(&mut self) -> (c: Option<char>)
        requires
            old(self).wf(),
        ensures
            final(self).wf(),
            final(self).input@ == old(self).input@,
            old(self).pos < old(self).input@.len() ==> {
                &&& c == Some(old(self).input@[old(self).pos as int])
                &&& final(self).pos == old(self).pos + 1
                &&& final(self).line == old(self).line + newline_count(
                    old(self).input@[old(self).pos as int],
                )
            },
            old(self).pos >= old(self).input@.len() ==> c is None && final(self).pos == old(
                self,
            ).pos && final(self).line == old(self).line,
    {
        let ch = match self.peek_char() {
            Some(ch) => ch,
            None => return None,
        };
        self.pos = self.pos + 1;
        if ch == '\n' {
            self.line = self.line + 1;
        }
        Some(ch)
    }

    fn consume_if(&mut self, expected: char) -> (b: bool)
        requires
            old(self).wf(),
        ensures
            final(self).wf(),
            final(self).input@ == old(self).input@,
            b == (old(self).pos < old(self).input@.len() && old(self).input@[old(self).pos as int]
                == expected),
            b ==> final(self).pos == old(self).pos + 1 && final(self).line == old(self).line
                + newline_count(expected),
            !b ==> final(self).pos == old(self).pos && final(self).line == old(self).line,
    {
        match self.peek_char() {
            Some(c) => {
                if c == expected {
                    self.advance_char();
                    true
                } else {
                    false
                }
            },
            None => false,
        }
    }

    fn skip_inline_space(&mut self)
        requires
            old(self).wf(),
        ensures
            final(self).wf(),
            final(self).input@ == old(self).input@,
            final(self).pos == skip_spaces(old(self).input@, old(self).pos as int),
            final(self).line == old(self).line,
    {
        let ghost s = self.input@;
        let ghost p0 = self.pos as int;
        loop
            invariant
                self.wf(),
                self.input@ == s,
                s == old(self).input@,
                p0 == old(self).pos,
                self.line == old(self).line,
                skip_spaces(s, p0) == skip_spaces(s, self.pos as int),
            ensures
                self.wf(),
                self.input@ == s,
                self.line == old(self).line,
                self.pos == skip_spaces(s, p0),
            decreases s.len() - self.pos,
        {
            match self.peek_char() {
                Some(c) => {
                    if c == ' ' || c == '\t' || c == '\r' {
                        self.advance_char();
                    } else {
                        return;
                    }
                },
                None => return,
            }
        }
    }

    fn skip_leading_space(&mut self)
        requires
            old(self).wf(),
        ensures
            final(self).wf(),
            final(self).input@ == old(self).input@,
            final(self).pos == skip_spaces(old(self).input@, old(self).pos as int),
            final(self).line == old(self).line,
    {
        self.skip_inline_space();
    }

    fn skip_comment(&mut self)
        requires
            old(self).wf(),
        ensures
            final(self).wf(),
            final(self).input@ == old(self).input@,
            final(self).pos == skip_comment(old(self).input@, old(self).pos as int),
            final(self).line == old(self).line,
    {
        let ghost s = self.input@;
        let ghost p0 = self.pos as int;
        loop
            invariant
                self.wf(),
                self.input@ == s,
                s == old(self).input@,
                p0 == old(self).pos,
                self.line == old(self).line,
                skip_comment(s, p0) == skip_comment(s, self.pos as int),
            ensures
                self.wf(),
                self.input@ == s,
                self.line == old(self).line,
                self.pos == skip_comment(s, p0),
            decreases s.len() - self.pos,
        {
            match self.peek_char() {
                Some(c) => {
                    if c == '\n' {
                        return;
                    }
                    self.advance_char();
                },
                None => return,
            }
        }
    }

    fn error(&self, message: String) -> (e: ParseError)
        ensures
            e.line == self.line,
            e.message == message,
    {
        ParseError { line: self.line, message }
    }

    fn expect_char(&mut self, expected: char) -> (r: Result<(), ParseError>)
        requires
            old(self).wf(),
        ensures
            final(self).wf(),
            final(self).input@ == old(self).input@,
            old(self).pos >= old(self).input@.len() ==> (r matches Err(e) && e@ == (
                old(self).line as int,
                msg_expected_eof(expected),
            )),
            old(self).pos < old(self).input@.len() ==> {
                let c = old(self).input@[old(self).pos as int];
                &&& c == expected ==> r is Ok && final(self).pos == old(self).pos + 1
                    && final(self).line == old(self).line + newline_count(c)
                &&& c != expected ==> (r matches Err(e) && e@ == (
                    old(self).line as int,
                    msg_expected_found(expected, c),
                ))
            },
    {
        let line = self.line;
        match self.advance_char() {
            Some(ch) => {
                if ch == expected {
                    Ok(())
                } else {
                    let mut m = String::from_str("expected `");
                    push_char(&mut m, expected);
                    append_str(&mut m, "`, found `");
                    push_char(&mut m, ch);
                    append_str(&mut m, "`");
                    assert(m@ =~= msg_expected_found(expected, ch));
                    Err(ParseError { line, message: m })
                }
            },
            None => {
                let mut m = String::from_str("expected `");
                push_char(&mut m, expected);
                append_str(&mut m, "`, found end of file");
                assert(m@ =~= msg_expected_eof(expected));
                Err(self.error(m))
            },
        }
    }

    fn parse_key(&mut self) -> (r: Result<String, ParseError>)
        requires
            old(self).wf(),
        ensures
            final(self).wf(),
            final(self).input@ == old(self).input@,
            match key_at(old(self).input@, old(self).pos as int, old(self).line as int) {
                Ok(ke) => r matches Ok(k) && k@ == old(self).input@.subrange(
                    old(self).pos as int,
                    ke,
                ) && final(self).pos == ke && final(self).line == old(self).line,
                Err(e) => r matches Err(err) && err@ == e,
            },
    {
        let ghost s = self.input@;
        let start = self.pos;
        let first = match self.peek_char() {
            Some(c) => c,
            None => {
                return Err(self.error(String::from_str("expected environment variable name")));
            },
        };
        if !is_valid_key_start(first) {
            let mut m = String::from_str("invalid environment variable name start `");
            push_char(&mut m, first);
            append_str(&mut m, "`");
            assert(m@ =~= msg_invalid_key_start(first));
            return Err(self.error(m));
        }
        self.advance_char();
        loop
            invariant
                self.wf(),
                self.input@ == s,
                s == old(self).input@,
                self.line == old(self).line,
                start < self.pos,
                key_end(s, start + 1) == key_end(s, self.pos as int),
            ensures
                self.wf(),
                self.input@ == s,
                self.line == old(self).line,
                start < self.pos,
                self.pos == key_end(s, start + 1),
            decreases s.len() - self.pos,
        {
            match self.peek_char() {
                Some(c) => {
                    if is_valid_key_char(c) {
                        self.advance_char();
                    } else {
                        break;
                    }
                },
                None => break,
            }
        }
        Ok(string_of(&self.input, start, self.pos))
    }

    fn parse_single_quoted_value(&mut self) -> (r: Result<String, ParseError>)
        requires
            old(self).wf(),
            old(self).pos < old(self).input@.len(),
            old(self).input@[old(self).pos as int] == '\'',
        ensures
            final(self).wf(),
            final(self).input@ == old(self).input@,
            match single_body(old(self).input@, old(self).pos + 1, old(self).line as int) {
                Ok((q, l, v)) => r matches Ok(val) && val@ == v && final(self).pos == q
                    && final(self).line == l,
                Err(e) => r matches Err(err) && err@ == e,
            },
    {
        let ghost s = self.input@;
        match self.expect_char('\'') {
            Ok(()) => {},
            Err(e) => return Err(e),
        }
        let ghost p0 = self.pos as int;
        let ghost l0 = self.line as int;
        let mut value: Vec<char> = Vec::new();
        assert(value@ + Seq::<char>::empty() =~= Seq::<char>::empty());
        assert(prepend_all(value@, single_body(s, p0, l0)) == single_body(s, p0, l0)) by {
            if let Ok((p, l, v)) = single_body(s, p0, l0) {
                assert(value@ + v =~= v);
            }
        }
        loop
            invariant
                self.wf(),
                self.input@ == s,
                s == old(self).input@,
                p0 == old(self).pos + 1 && l0 == old(self).line,
                single_body(s, p0, l0) == prepend_all(
                    value@,
                    single_body(s, self.pos as int, self.line as int),
                ),
            decreases s.len() - self.pos,
        {
            let ghost p = self.pos as int;
            let ghost l = self.line as int;
            match self.advance_char() {
                Some(ch) => {
                    if ch == '\'' {
                        return Ok(string_of_all(&value));
                    }
                    proof {
                        lemma_prepend_all(value@, ch, single_body(s, p + 1, l + newline_count(ch)));
                    }
                    value.push(ch);
                },
                None => {
                    return Err(self.error(String::from_str("unterminated single-quoted value")));
                },
            }
        }
    }

    fn parse_double_quoted_value(&mut self) -> (r: Result<String, ParseError>)
        requires
            old(self).wf(),
            old(self).pos < old(self).input@.len(),
            old(self).input@[old(self).pos as int] == '"',
        ensures
            final(self).wf(),
            final(self).input@ == old(self).input@,
            match double_body(old(self).input@, old(self).pos + 1, old(self).line as int) {
                Ok((q, l, v)) => r matches Ok(val) && val@ == v && final(self).pos == q
                    && final(self).line == l,
                Err(e) => r matches Err(err) && err@ == e && final(self).pos == old(
                    self,
                ).input@.len() && final(self).line == e.0 && e.0 == old(self).line
                    + newlines_from(old(self).input@, old(self).pos + 1),
            },
    {
        let ghost s = self.input@;
        proof {
            lemma_double_body_error_line(s, self.pos + 1, self.line as int);
        }
        match self.expect_char('"') {
            Ok(()) => {},
            Err(e) => return Err(e),
        }
        let ghost p0 = self.pos as int;
        let ghost l0 = self.line as int;
        let mut value: Vec<char> = Vec::new();
        assert(prepend_all(value@, double_body(s, p0, l0)) == double_body(s, p0, l0)) by {
            if let Ok((p, l, v)) = double_body(s, p0, l0) {
                assert(value@ + v =~= v);
            }
        }
        loop
            invariant
                self.wf(),
                self.input@ == s,
                s == old(self).input@,
                p0 == old(self).pos + 1 && l0 == old(self).line,
                double_body(s, p0, l0) == prepend_all(
                    value@,
                    double_body(s, self.pos as int, self.line as int),
                ),
                double_body(s, p0, l0) matches Err(e) ==> e.0 == l0 + newlines_from(s, p0),
            decreases s.len() - self.pos,
        {
            let ghost p = self.pos as int;
            let ghost l = self.line as int;
            match self.advance_char() {
                Some(ch) => {
                    if ch == '"' {
                        return Ok(string_of_all(&value));
                    }
                    if ch == '\\' {
                        let escaped = match self.advance_char() {
                            Some(e) => {
                                if e == 'n' {
                                    '\n'
                                } else if e == 'r' {
                                    '\r'
                                } else if e == 't' {
                                    '\t'
                                } else {
                                    e
                                }
                            },
                            None => {
                                return Err(
                                    self.error(
                                        String::from_str(
                                            "unterminated escape sequence in double-quoted value",
                                        ),
                                    ),
                                );
                            },
                        };
                        proof {
                            let e = s[p + 1];
                            assert(escaped == unescape(e));
                            lemma_prepend_all(
                                value@,
                                escaped,
                                double_body(s, p + 2, l + newline_count(e)),
                            );
                        }
                        value.push(escaped);
                    } else {
                        proof {
                            lemma_prepend_all(
                                value@,
                                ch,
                                double_body(s, p + 1, l + newline_count(ch)),
                            );
                        }
                        value.push(ch);
                    }
                },
                None => {
                    return Err(self.error(String::from_str("unterminated double-quoted value")));
                },
            }
        }
    }

    fn parse_unquoted_value(&mut self) -> (v: String)
        requires
            old(self).wf(),
        ensures
            final(self).wf(),
            final(self).input@ == old(self).input@,
            final(self).line == old(self).line,
            final(self).pos == bare_body(old(self).input@, old(self).pos as int, true).0,
            v@ == trim_end(bare_body(old(self).input@, old(self).pos as int, true).1),
    {
        let ghost s = self.input@;
        let ghost p0 = self.pos as int;
        let mut value: Vec<char> = Vec::new();
        let mut prev_was_whitespace = true;
        assert(bare_body(s, p0, true).1 =~= value@ + bare_body(s, p0, true).1);
        loop
            invariant
                self.wf(),
                self.input@ == s,
                s == old(self).input@,
                p0 == old(self).pos,
                self.line == old(self).line,
                bare_body(s, p0, true).0 == bare_body(s, self.pos as int, prev_was_whitespace).0,
                bare_body(s, p0, true).1 == value@ + bare_body(
                    s,
                    self.pos as int,
                    prev_was_whitespace,
                ).1,
            ensures
                self.wf(),
                self.input@ == s,
                self.line == old(self).line,
                bare_body(s, p0, true) == (self.pos as int, value@),
            decreases s.len() - self.pos,
        {
            let ghost p = self.pos as int;
            let ch = match self.peek_char() {
                Some(ch) => ch,
                None => {
                    assert(value@ + Seq::<char>::empty() =~= value@);
                    break;
                },
            };
            if ch == '\n' || (ch == '#' && prev_was_whitespace) {
                assert(value@ + Seq::<char>::empty() =~= value@);
                break;
            }
            if ch == '\\' {
                self.advance_char();
                match self.peek_char() {
                    Some(escaped) => {
                        if escaped == '\n' {
                            assert(value@ + Seq::<char>::empty() =~= value@);
                            break;
                        }
                        self.advance_char();
                        let ghost prev = value@;
                        value.push(escaped);
                        prev_was_whitespace = is_whitespace(escaped);
                        assert(prev + (seq![escaped] + bare_body(
                            s,
                            p + 2,
                            prev_was_whitespace,
                        ).1) =~= value@ + bare_body(s, p + 2, prev_was_whitespace).1);
                    },
                    None => {
                        let ghost prev = value@;
                        value.push('\\');
                        assert(prev + seq!['\\'] =~= value@ + Seq::<char>::empty());
                        assert(bare_body(s, self.pos as int, prev_was_whitespace) == (
                            self.pos as int,
                            Seq::<char>::empty(),
                        ));
                    },
                }
                continue;
            }
            self.advance_char();
            let ghost prev = value@;
            value.push(ch);
            prev_was_whitespace = is_whitespace(ch);
            assert(prev + (seq![ch] + bare_body(s, p + 1, prev_was_whitespace).1) =~= value@
                + bare_body(s, p + 1, prev_was_whitespace).1);
        }
        let end = trim_end_index(&value, 0, value.len());
        assert(value@.subrange(0, value@.len() as int) =~= value@);
        string_of(&value, 0, end)
    }

    fn parse_value(&mut self) -> (r: Result<String, ParseError>)
        requires
            old(self).wf(),
        ensures
            final(self).wf(),
            final(self).input@ == old(self).input@,
            match value_at(old(self).input@, old(self).pos as int, old(self).line as int) {
                Ok((q, l, v)) => r matches Ok(val) && val@ == v && final(self).pos == q
                    && final(self).line == l,
                Err(e) => r matches Err(err) && err@ == e,
            },
    {
        match self.peek_char() {
            Some(c) => {
                if c == '"' {
                    return self.parse_double_quoted_value();
                } else if c == '\'' {
                    return self.parse_single_quoted_value();
                }
            },
            None => {},
        }
        Ok(self.parse_unquoted_value())
    }

    fn consume_export_prefix(&mut self)
        requires
            old(self).wf(),
        ensures
            final(self).wf(),
            final(self).input@ == old(self).input@,
            final(self).line == old(self).line,
            final(self).pos == after_export(old(self).input@, old(self).pos as int),
    {
        let ghost s = self.input@;
        let p = self.pos;
        let n = self.input.len();
        if n - p > 6 && self.input[p] == 'e' && self.input[p + 1] == 'x' && self.input[p + 2]
            == 'p' && self.input[p + 3] == 'o' && self.input[p + 4] == 'r' && self.input[p + 5]
            == 't' {
            assert(s.subrange(p as int, p + 6) =~= crate::env_grammar::export_word());
            let next = self.input[p + 6];
            if next == ' ' || next == '\t' || next == '\r' {
                let mut k: usize = 0;
                while k < 6
                    invariant
                        self.wf(),
                        self.input@ == s,
                        self.line == old(self).line,
                        k <= 6,
                        self.pos == p + k,
                        p + 6 < s.len(),
                        forall|i: int| p <= i < p + 6 ==> s[i] != '\n',
                    decreases 6 - k,
                {
                    self.advance_char();
                    k = k + 1;
                }
                self.skip_inline_space();
            }
        } else {
            proof {
                if p + 6 < s.len() && s.subrange(p as int, p + 6)
                    == crate::env_grammar::export_word() {
                    assert(s[p as int] == s.subrange(p as int, p + 6)[0]);
                    assert(s[p + 1] == s.subrange(p as int, p + 6)[1]);
                    assert(s[p + 2] == s.subrange(p as int, p + 6)[2]);
                    assert(s[p + 3] == s.subrange(p as int, p + 6)[3]);
                    assert(s[p + 4] == s.subrange(p as int, p + 6)[4]);
                    assert(s[p + 5] == s.subrange(p as int, p + 6)[5]);
                }
            }
        }
    }

    /// One assignment, from its key to the end of its line.
    fn parse_assignment(&mut self) -> (r: Result<(String, String), ParseError>)
        requires
            old(self).wf(),
        ensures
            final(self).wf(),
            final(self).input@ == old(self).input@,
            match assignment_at(old(self).input@, old(self).pos as int, old(self).line as int) {
                Ok((q, l, k, v)) => r matches Ok(kv) && kv.0@ == k && kv.1@ == v
                    && final(self).pos == q && final(self).line == l,
                Err(e) => r matches Err(err) && err@ == e,
            },
    {
        let ghost s = self.input@;
        let ghost p0 = self.pos as int;
        let ghost l0 = self.line as int;
        let key = match self.parse_key() {
            Ok(k) => k,
            Err(e) => return Err(e),
        };
        self.skip_inline_space();
        match self.expect_char('=') {
            Ok(()) => {},
            Err(e) => return Err(e),
        }
        self.skip_inline_space();
        let value = match self.parse_value() {
            Ok(v) => v,
            Err(e) => return Err(e),
        };
        let ghost v_end = self.pos as int;
        self.skip_inline_space();
        let after_spaces = self.peek_char();
        match after_spaces {
            Some(c) => {
                if c == '#' {
                    self.skip_comment();
                }
            },
            None => {},
        }
        match self.peek_char() {
            Some(c) => {
                if c == '\n' {
                    self.advance_char();
                } else {
                    let mut m = String::from_str("unexpected character `");
                    push_char(&mut m, c);
                    append_str(&mut m, "` after value for `");
                    append_str(&mut m, key.as_str());
                    append_str(&mut m, "`");
                    assert(m@ =~= msg_unexpected_after(c, key@));
                    return Err(self.error(m));
                }
            },
            None => {},
        }
        Ok((key, value))
    }

    fn parse(&mut self) -> (r: Result<StringMap, ParseError>)
        requires
            old(self).wf(),
        ensures
            match entries_from(
                old(self).input@,
                old(self).pos as int,
                old(self).line as int,
                Map::empty(),
            ) {
                Ok(m) => r matches Ok(out) && out@ == m,
                Err(e) => r matches Err(err) && err@ == e,
            },
    {
        let ghost s = self.input@;
        let ghost goal = entries_from(s, self.pos as int, self.line as int, Map::empty());
        let mut out = StringMap::new();
        loop
            invariant
                self.wf(),
                self.input@ == s,
                s == old(self).input@,
                goal == entries_from(s, self.pos as int, self.line as int, out@),
                goal == entries_from(s, old(self).pos as int, old(self).line as int, Map::empty()),
            decreases s.len() - self.pos,
        {
            if self.is_eof() {
                return Ok(out);
            }
            let ghost p = self.pos as int;
            proof {
                lemma_skip_spaces(s, p);
            }
            self.skip_leading_space();
            if self.is_eof() {
                return Ok(out);
            }
            if self.consume_if('\n') {
                continue;
            }
            let c = self.peek_char();
            match c {
                Some(c) => {
                    if c == '#' {
                        proof {
                            lemma_skip_comment(s, self.pos + 1);
                        }
                        self.skip_comment();
                        continue;
                    }
                },
                None => {},
            }
            proof {
                crate::env_grammar::lemma_after_export(s, self.pos as int);
            }
            self.consume_export_prefix();
            proof {
                crate::env_grammar::lemma_assignment_at(s, self.pos as int, self.line as int);
            }
            let (key, value) = match self.parse_assignment() {
                Ok(kv) => kv,
                Err(e) => return Err(e),
            };
            out.insert(key, value);
        }
    }
}

fn is_valid_key_start(ch: char) -> (b: bool)
    ensures
        b == is_key_start(ch),
{
    ch == '_' || ('a' <= ch && ch <= 'z') || ('A' <= ch && ch <= 'Z')
}

fn is_valid_key_char(ch: char) -> (b: bool)
    ensures
        b == is_key_char(ch),
{
    ch == '_' || ('a' <= ch && ch <= 'z') || ('A' <= ch && ch <= 'Z') || ('0' <= ch && ch <= '9')
}

/// Parses the text of a `.env` file into the variables it assigns.
pub fn parse_env(content: &str) -> (r: Result<StringMap, ParseError>)
    requires
        content@.len() < usize::MAX,
    ensures
        match parse_env_result(content@) {
            Ok(m) => r matches Ok(out) && out@ == m,
            Err(e) => r matches Err(err) && err@ == e,
        },
{
    let mut parser = EnvParser::new(content);
    parser.parse()
}

const DEFAULT_ENV_PATH: &'static str = ".env";

/// What reading an env file gave: its text, the news that it does not exist,
/// or another failure with its description.
pub enum ReadOutcome {
    Content(String),
    NotFound,
    Failed(String),
}

/// Why an environment could not be loaded, or a variable was not found.
#[derive(Debug)]
pub enum EnvLoadError {
    Io { path: String, message: String },
    Parse { path: String, line: usize, message: String },
    MissingKey { path: String, key: String },
}

/// The text that describes an environment error.
pub open spec fn env_error_text(e: &EnvLoadError) -> Seq<char> {
    match e {
        EnvLoadError::Io { path, message } => "failed to read env file `"@ + path@ + "`: "@
            + message@,
        EnvLoadError::Parse { path, line, message } => "failed to parse env file `"@ + path@
            + "` at line "@ + decimal(*line as nat) + ": "@ + message@,
        EnvLoadError::MissingKey { path, key } => "missing environment variable `"@ + key@
            + "` in `"@ + path@ + "` or the process environment"@,
    }
}

/// A read outcome that the parser can take: a text whose length fits the machine.
pub open spec fn readable(read: &ReadOutcome) -> bool {
    read matches ReadOutcome::Content(c) ==> c@.len() < usize::MAX
}

/// What loading the file at `path` gives, as the read went.
pub open spec fn load_matches(path: Seq<char>, read: &ReadOutcome, r: Result<StringMap, EnvLoadError>) -> bool {
    match read {
        ReadOutcome::NotFound => r matches Ok(m) && m@ == Map::<Seq<char>, Seq<char>>::empty(),
        ReadOutcome::Failed(msg) => r matches Err(EnvLoadError::Io { path: p, message })
            && p@ == path && message@ == msg@,
        ReadOutcome::Content(c) => match parse_env_result(c@) {
            Ok(m) => r matches Ok(out) && out@ == m,
            Err((line, msg)) => r matches Err(EnvLoadError::Parse { path: p, line: l, message })
                && p@ == path && l == line && message@ == msg,
        },
    }
}

impl EnvLoadError {
    /// The text that describes this error.
    pub fn message(&self) -> (t: String)
        ensures
            t@ == env_error_text(self),
    {
        match self {
            EnvLoadError::Io { path, message } => {
                let mut t = String::from_str("failed to read env file `");
                append_str(&mut t, path.as_str());
                append_str(&mut t, "`: ");
                append_str(&mut t, message.as_str());
                t
            },
            EnvLoadError::Parse { path, line, message } => {
                let mut t = String::from_str("failed to parse env file `");
                append_str(&mut t, path.as_str());
                append_str(&mut t, "` at line ");
                let digits = string_of_all(&decimal_chars(*line as u64));
                append_str(&mut t, digits.as_str());
                append_str(&mut t, ": ");
                append_str(&mut t, message.as_str());
                t
            },
            EnvLoadError::MissingKey { path, key } => {
                let mut t = String::from_str("missing environment variable `");
                append_str(&mut t, key.as_str());
                append_str(&mut t, "` in `");
                append_str(&mut t, path.as_str());
                append_str(&mut t, "` or the process environment");
                t
            },
        }
    }
}

/// The variables of the env file at `path`, from what reading it gave. A
/// file that does not exist holds no variables.
pub fn load_env_file(path: &str, read: ReadOutcome) -> (r: Result<StringMap, EnvLoadError>)
    requires
        readable(&read),
    ensures
        load_matches(path@, &read, r),
{
    match read {
        ReadOutcome::NotFound => Ok(StringMap::new()),
        ReadOutcome::Failed(message) => Err(EnvLoadError::Io { path: String::from_str(path), message }),
        ReadOutcome::Content(content) => match parse_env(content.as_str()) {
            Ok(m) => Ok(m),
            Err(e) => Err(EnvLoadError::Parse { path: String::from_str(path), line: e.line, message: e.message }),
        },
    }
}

/// The variables of an env file, and where the file is.
#[derive(Debug, Clone)]
pub struct Env {
    pub path: String,
    pub envs: StringMap,
}

impl Env {
    /// The environment of the file at `path`, from what reading it gave.
    pub fn load(path: String, read: ReadOutcome) -> (r: Result<Env, EnvLoadError>)
        requires
            readable(&read),
        ensures
            match r {
                Ok(env) => env.path@ == path@ && load_matches(path@, &read, Ok(env.envs)),
                Err(e) => load_matches(path@, &read, Err(e)),
            },
    {
        match load_env_file(path.as_str(), read) {
            Ok(envs) => Ok(Env { path, envs }),
            Err(e) => Err(e),
        }
    }

    /// The file that an environment is loaded from when none is named.
    pub fn default_path() -> (p: &'static str)
        ensures
            p@ == ".env"@,
    {
        DEFAULT_ENV_PATH
    }

    /// The value of `key`: the file's, else `process_value`, which is what the
    /// process environment holds for `key`.
    pub fn get(&self, key: &str, process_value: Option<String>) -> (r: Option<String>)
        ensures
            self.envs@.dom().contains(key@) ==> (r matches Some(v) && v@ == self.envs@[key@]),
            !self.envs@.dom().contains(key@) ==> r == process_value,
    {
        match self.envs.get(key) {
            Some(v) => Some(v),
            None => process_value,
        }
    }

    /// The value of `key` as `get` finds it, or an error that names the key
    /// and the file.
    pub fn require(&self, key: &str, process_value: Option<String>) -> (r: Result<String, EnvLoadError>)
        ensures
            self.envs@.dom().contains(key@) ==> (r matches Ok(v) && v@ == self.envs@[key@]),
            !self.envs@.dom().contains(key@) && process_value is Some ==> r == Ok::<String, EnvLoadError>(process_value->0),
            !self.envs@.dom().contains(key@) && process_value is None ==> (r matches Err(EnvLoadError::MissingKey { path, key: k })
                && path@ == self.path@ && k@ == key@),
    {
        match self.get(key, process_value) {
            Some(v) => Ok(v),
            None => Err(EnvLoadError::MissingKey { path: self.path.clone(), key: String::from_str(key) }),
        }
    }

    /// Reads the variables again from what reading the file now gave. On an
    /// error the environment stays as it was.
    pub fn reload(&mut self, read: ReadOutcome) -> (r: Result<(), EnvLoadError>)
        requires
            readable(&read),
        ensures
            final(self).path == old(self).path,
            match r {
                Ok(()) => load_matches(old(self).path@, &read, Ok(final(self).envs)),
                Err(e) => load_matches(old(self).path@, &read, Err(e)) && final(self).envs@ == old(self).envs@,
            },
    {
        match load_env_file(self.path.as_str(), read) {
            Ok(envs) => {
                self.envs = envs;
                Ok(())
            },
            Err(e) => Err(e),
        }
    }
}

} // verus!
