//! Which files are test scripts, and the checks made while collecting them.
use vstd::prelude::*;
use crate::text::{append_str, chars_of, ends_with, string_of};

verus! {

/// A test script and its text.
#[derive(Debug, Clone)]
pub struct LuaSource {
    pub path: String,
    pub content: String,
}

/// What `Path::file_name` gives for a path: its last component, or `None`
/// when the path ends in `..` or is a root.
pub uninterp spec fn file_name_of(path: Seq<char>) -> Option<Seq<char>>;

/// The last component of a path (`std::path::Path::file_name`, read back as
/// text). The contract says only that the result is `file_name_of` of the
/// path; how std splits paths into components is not stated here.
#[verifier::external_body]
pub(crate) fn path_file_name(path: &str) -> (r: Option<String>)
    ensures
        file_name_of(path@) == match r {
            Some(n) => Some(n@),
            None => None,
        },
{
    std::path::Path::new(path).file_name().and_then(|n| n.to_str()).map(|n| n.to_string())
}

/// The index of the last `c` in `s`, or -1.
pub open spec fn last_index_of(s: Seq<char>, c: char) -> int
    decreases s.len(),
{
    if s.len() == 0 {
        -1
    } else if s.last() == c {
        s.len() - 1
    } else {
        last_index_of(s.drop_last(), c)
    }
}

/// The extension of a file name as `Path::extension` documents it: none when
/// the name has no `.`, or its only `.` is its first character; else the part
/// after the last `.`.
pub open spec fn extension_of_name(name: Seq<char>) -> Option<Seq<char>> {
    let i = last_index_of(name, '.');
    if name == seq!['.', '.'] || i <= 0 {
        None
    } else {
        Some(name.skip(i + 1))
    }
}

/// Whether a file whose name is `file_name` is a test script: its extension is
/// `lua`, and it is not a definitions file (`*.defs.lua`).
pub open spec fn is_lua_name(file_name: Option<Seq<char>>) -> bool {
    match file_name {
        None => false,
        Some(n) => extension_of_name(n) == Some("lua"@) && !ends_with(n, ".defs.lua"@),
    }
}

proof fn lemma_last_index_of(s: Seq<char>, c: char)
    ensures
        -1 <= last_index_of(s, c) < s.len(),
        last_index_of(s, c) >= 0 ==> s[last_index_of(s, c)] == c,
    decreases s.len(),
{
    if s.len() > 0 && s.last() != c {
        lemma_last_index_of(s.drop_last(), c);
        let i = last_index_of(s.drop_last(), c);
        if i >= 0 {
            assert(s.drop_last()[i] == s[i]);
        }
    }
}

/// A position holding `c` with no `c` after it is the last `c`.
proof fn lemma_last_index_is(s: Seq<char>, c: char, j: int)
    requires
        0 <= j < s.len(),
        s[j] == c,
        forall|k: int| j < k < s.len() ==> s[k] != c,
    ensures
        last_index_of(s, c) == j,
    decreases s.len(),
{
    if s.last() != c {
        assert forall|k: int| j < k < s.drop_last().len() implies s.drop_last()[k] != c by {
            assert(s.drop_last()[k] == s[k]);
        }
        lemma_last_index_is(s.drop_last(), c, j);
    }
}

/// A file is a test script exactly when its name ends in `.lua` with at least
/// one character before that ending, and it does not end in `.defs.lua`. The
/// extension is what follows the last dot, so `users.test.lua` and `.x.lua`
/// are scripts, while `.lua`, `a.lua.txt` and `api.defs.lua` are not.
pub proof fn law_lua_name(name: Seq<char>)
    ensures
        is_lua_name(Some(name)) <==> (name.len() > 4 && ends_with(name, ".lua"@) && !ends_with(
            name,
            ".defs.lua"@,
        )),
{
    reveal_strlit(".lua");
    reveal_strlit("lua");
    let len = name.len() as int;
    lemma_last_index_of(name, '.');
    let i = last_index_of(name, '.');
    if len > 4 && ends_with(name, ".lua"@) {
        let t = name.subrange(len - 4, len);
        assert(t == ".lua"@);
        assert(name[len - 4] == t[0]);
        assert(name[len - 3] == t[1] && name[len - 2] == t[2] && name[len - 1] == t[3]);
        lemma_last_index_is(name, '.', len - 4);
        assert(name.skip(len - 3) =~= "lua"@);
        assert(name != seq!['.', '.']);
    }
    if is_lua_name(Some(name)) {
        assert(name != seq!['.', '.'] && i > 0);
        let e = name.skip(i + 1);
        assert(e == "lua"@);
        assert(e.len() == 3);
        assert(i == len - 4);
        assert(name.subrange(len - 4, len) =~= seq![name[i]] + e);
        assert(seq!['.'] + "lua"@ =~= ".lua"@);
    }
}

/// The index of the last `c` in `v`.
fn last_index(v: &Vec<char>, c: char) -> (r: Option<usize>)
    ensures
        r matches Some(i) ==> last_index_of(v@, c) == i as int,
        r is None ==> last_index_of(v@, c) == -1,
{
    let mut i = v.len();
    assert(v@.subrange(0, i as int) =~= v@);
    while i > 0
        invariant
            i <= v@.len(),
            last_index_of(v@, c) == last_index_of(v@.subrange(0, i as int), c),
        decreases i,
    {
        if v[i - 1] == c {
            return Some(i - 1);
        }
        assert(v@.subrange(0, i as int).drop_last() =~= v@.subrange(0, i - 1));
        i = i - 1;
    }
    None
}

/// Whether `v` ends with `suffix`.
fn ends_with_chars(v: &Vec<char>, suffix: &Vec<char>) -> (b: bool)
    ensures
        b == ends_with(v@, suffix@),
{
    let n = v.len();
    let k = suffix.len();
    if n < k {
        return false;
    }
    let mut j: usize = 0;
    while j < k
        invariant
            k == suffix@.len() <= n == v@.len(),
            j <= k,
            forall|t: int| 0 <= t < j ==> v@[n - k + t] == suffix@[t],
        decreases k - j,
    {
        if v[n - k + j] != suffix[j] {
            assert(v@.subrange(n - k, n as int)[j as int] != suffix@[j as int]);
            return false;
        }
        j = j + 1;
    }
    assert(v@.subrange(n - k, n as int) =~= suffix@);
    true
}

/// Whether a file with the name `file_name` is a test script.
pub fn is_lua_file_name(file_name: Option<&str>) -> (b: bool)
    ensures
        b == is_lua_name(
            match file_name {
                Some(n) => Some(n@),
                None => None,
            },
        ),
{
    let name = match file_name {
        Some(n) => n,
        None => return false,
    };
    let v = chars_of(name);
    let n = v.len();
    proof {
        reveal_strlit("lua");
        lemma_last_index_of(v@, '.');
    }
    let is_parent = n == 2 && v[0] == '.' && v[1] == '.';
    assert(is_parent == (v@ == seq!['.', '.'])) by {
        if v@ == seq!['.', '.'] {
            assert(v@[0] == '.' && v@[1] == '.');
        }
        if is_parent {
            assert(v@ =~= seq!['.', '.']);
        }
    }
    let dot = match last_index(&v, '.') {
        Some(i) => i,
        None => return false,
    };
    if is_parent || dot == 0 {
        return false;
    }
    let ghost ext = v@.skip(dot + 1);
    let is_lua_ext = n - dot == 4 && v[dot + 1] == 'l' && v[dot + 2] == 'u' && v[dot + 3] == 'a';
    assert(is_lua_ext == (ext == "lua"@)) by {
        if ext == "lua"@ {
            assert(ext.len() == 3);
            assert(ext[0] == 'l' && ext[1] == 'u' && ext[2] == 'a');
        }
        if is_lua_ext {
            assert(ext =~= "lua"@);
        }
    }
    if !is_lua_ext {
        return false;
    }
    let suffix = chars_of(".defs.lua");
    !ends_with_chars(&v, &suffix)
}

/// Whether the file at `path` is a test script.
pub fn is_lua_file(path: &str) -> (b: bool)
    ensures
        b == is_lua_name(file_name_of(path@)),
{
    let name = path_file_name(path);
    match name {
        Some(n) => is_lua_file_name(Some(n.as_str())),
        None => is_lua_file_name(None),
    }
}

/// The kind of a failure to find test scripts.
#[derive(Debug, Clone, Copy, PartialEq, Eq)]
pub enum LuaPathErrorKind {
    NotFound,
    InvalidInput,
}

/// A failure to find test scripts under a path.
#[derive(Debug)]
pub struct LuaPathError {
    pub kind: LuaPathErrorKind,
    pub message: String,
}

/// Checks the path that test scripts are loaded from, given whether it exists
/// and whether it is a file: a file must itself be a test script.
pub fn check_lua_root(path: &str, exists: bool, is_file: bool) -> (r: Result<(), LuaPathError>)
    ensures
        !exists ==> (r matches Err(e) && e.kind == LuaPathErrorKind::NotFound && e.message@
            == "path `"@ + path@ + "` does not exist"@),
        exists && is_file && !is_lua_name(file_name_of(path@)) ==> (r matches Err(e) && e.kind
            == LuaPathErrorKind::InvalidInput && e.message@ == "path `"@ + path@
            + "` is not a Lua file. expected a `.lua` file or a directory containing `.lua` files"@),
        exists && !(is_file && !is_lua_name(file_name_of(path@))) ==> r is Ok,
{
    if !exists {
        let mut m = String::from_str("path `");
        append_str(&mut m, path);
        append_str(&mut m, "` does not exist");
        return Err(LuaPathError { kind: LuaPathErrorKind::NotFound, message: m });
    }
    if is_file && !is_lua_file(path) {
        let mut m = String::from_str("path `");
        append_str(&mut m, path);
        append_str(
            &mut m,
            "` is not a Lua file. expected a `.lua` file or a directory containing `.lua` files",
        );
        return Err(LuaPathError { kind: LuaPathErrorKind::InvalidInput, message: m });
    }
    Ok(())
}

/// Checks that collecting test scripts under `path` found `count` of them, at
/// least one.
pub fn check_lua_files_found(path: &str, count: usize) -> (r: Result<(), LuaPathError>)
    ensures
        count == 0 ==> (r matches Err(e) && e.kind == LuaPathErrorKind::NotFound && e.message@
            == "no `.lua` files found under `"@ + path@ + "`"@),
        count > 0 ==> r is Ok,
{
    if count == 0 {
        let mut m = String::from_str("no `.lua` files found under `");
        append_str(&mut m, path);
        append_str(&mut m, "`");
        return Err(LuaPathError { kind: LuaPathErrorKind::NotFound, message: m });
    }
    Ok(())
}

} // verus!
