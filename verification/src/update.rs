//! Version strings: parsing them, comparing them, and the notice shown when a
//! newer release exists.
use vstd::prelude::*;
use crate::text::{
    index_of, lemma_index_of, all_ascii_digits, append_str, chars_of, is_ascii_digit, is_digit, trim, trim_indices,
};

verus! {

/// The pieces of `s` between occurrences of `sep` (`str::split`).
pub open spec fn split_on(s: Seq<char>, sep: char) -> Seq<Seq<char>>
    decreases s.len(),
{
    let i = index_of(s, sep);
    proof {
        lemma_index_of(s, sep);
    }
    if i >= s.len() {
        seq![s]
    } else {
        seq![s.take(i)] + split_on(s.skip(i + 1), sep)
    }
}

/// The number that the decimal digits `d` spell.
pub open spec fn digits_value(d: Seq<char>) -> nat
    decreases d.len(),
{
    if d.len() == 0 {
        0
    } else {
        digits_value(d.drop_last()) * 10 + (d.last() as nat - '0' as nat) as nat
    }
}

/// `t` without a leading `+`.
pub open spec fn unsigned_digits(t: Seq<char>) -> Seq<char> {
    if t.len() > 0 && t[0] == '+' {
        t.drop_first()
    } else {
        t
    }
}

/// An unsigned number as `u64::from_str` reads it: an optional `+`, then one
/// or more ASCII digits whose value fits in 64 bits.
pub open spec fn parse_u64_text(t: Seq<char>) -> Option<u64> {
    let d = unsigned_digits(t);
    if d.len() == 0 || !all_ascii_digits(d) || digits_value(d) > u64::MAX {
        None
    } else {
        Some(digits_value(d) as u64)
    }
}

/// The numbers of the dot-separated pieces, with blank pieces left out; `None`
/// when a piece is not a number.
pub open spec fn parse_pieces(pieces: Seq<Seq<char>>) -> Option<Seq<u64>>
    decreases pieces.len(),
{
    if pieces.len() == 0 {
        Some(Seq::empty())
    } else {
        let t = trim(pieces[0]);
        let rest = parse_pieces(pieces.drop_first());
        if t.len() == 0 {
            rest
        } else {
            match parse_u64_text(t) {
                None => None,
                Some(v) => match rest {
                    None => None,
                    Some(r) => Some(seq![v] + r),
                },
            }
        }
    }
}

/// `s` without a leading `v`.
pub open spec fn strip_v(s: Seq<char>) -> Seq<char> {
    if s.len() > 0 && s[0] == 'v' {
        s.drop_first()
    } else {
        s
    }
}

/// A version string read as its numeric parts and whether it names a
/// pre-release (it has a `-` suffix); `None` when it is not a version.
pub open spec fn version_of(version: Seq<char>) -> Option<(Seq<u64>, bool)> {
    let s = strip_v(version);
    let dash = index_of(s, '-');
    let core = s.take(dash);
    let prerelease = dash < s.len();
    match parse_pieces(split_on(core, '.')) {
        None => None,
        Some(parts) => if parts.len() == 0 {
            None
        } else {
            Some((parts, prerelease))
        },
    }
}

/// Part `i` of a version, with missing parts read as zero.
pub open spec fn part_at(p: Seq<u64>, i: int) -> int {
    if 0 <= i < p.len() {
        p[i] as int
    } else {
        0
    }
}

/// The comparison of two lists of version parts from part `i` on:
/// 1 when `a` is greater, -1 when it is smaller, 0 when they are equal.
pub open spec fn compare_parts(a: Seq<u64>, b: Seq<u64>, i: int) -> int
    decreases a.len() + b.len() - i,
{
    if i < 0 || (i >= a.len() && i >= b.len()) {
        0
    } else if part_at(a, i) > part_at(b, i) {
        1
    } else if part_at(a, i) < part_at(b, i) {
        -1
    } else {
        compare_parts(a, b, i + 1)
    }
}

/// Whether the version `latest` is newer than `current`. Versions that do not
/// parse are never newer; of equal numbers, a release is newer than a
/// pre-release.
pub open spec fn version_newer(latest: Seq<char>, current: Seq<char>) -> bool {
    match (version_of(latest), version_of(current)) {
        (Some((lp, lpre)), Some((cp, cpre))) => {
            let c = compare_parts(lp, cp, 0);
            c > 0 || (c == 0 && !lpre && cpre)
        },
        _ => false,
    }
}

proof fn lemma_digits_value_prefix(d: Seq<char>, i: int, j: int)
    requires
        0 <= i <= j <= d.len(),
    ensures
        digits_value(d.subrange(0, i)) <= digits_value(d.subrange(0, j)),
    decreases j - i,
{
    if i < j {
        lemma_digits_value_prefix(d, i, j - 1);
        assert(d.subrange(0, j).drop_last() =~= d.subrange(0, j - 1));
    }
}

/// The value of the digits `v[lo..hi]`, optionally after a `+`, as a `u64`.
fn parse_u64(v: &Vec<char>, lo: usize, hi: usize) -> (r: Option<u64>)
    requires
        lo <= hi <= v@.len(),
    ensures
        r == parse_u64_text(v@.subrange(lo as int, hi as int)),
{
    let ghost t = v@.subrange(lo as int, hi as int);
    let mut start = lo;
    if lo < hi && v[lo] == '+' {
        start = lo + 1;
    }
    let ghost d = v@.subrange(start as int, hi as int);
    assert(d == unsigned_digits(t)) by {
        if lo < hi && v@[lo as int] == '+' {
            assert(d =~= t.drop_first());
        } else {
            assert(d =~= t);
        }
    }
    if start == hi {
        return None;
    }
    let mut value: u64 = 0;
    let mut k = start;
    while k < hi
        invariant
            lo <= start <= k <= hi <= v@.len(),
            d == v@.subrange(start as int, hi as int),
            d == unsigned_digits(t),
            t == v@.subrange(lo as int, hi as int),
            d.len() > 0,
            value == digits_value(d.subrange(0, k - start)),
            forall|j: int| 0 <= j < k - start ==> #[trigger] is_ascii_digit(d[j]),
        decreases hi - k,
    {
        let c = v[k];
        if !is_digit(c) {
            assert(!is_ascii_digit(d[k - start]));
            return None;
        }
        let ghost x = d.subrange(0, k + 1 - start);
        assert(x.drop_last() =~= d.subrange(0, k - start));
        assert(x.last() == c);
        let digit: u64 = (c as u32 - '0' as u32) as u64;
        assert(digit == (c as nat - '0' as nat) as nat);
        assert(digits_value(x) == value * 10 + digit);
        let next = match value.checked_mul(10) {
            Some(m) => m.checked_add(digit),
            None => None,
        };
        match next {
            Some(n) => {
                value = n;
            },
            None => {
                proof {
                    lemma_digits_value_prefix(d, k + 1 - start, d.len() as int);
                    assert(d.subrange(0, d.len() as int) =~= d);
                }
                return None;
            },
        }
        k = k + 1;
    }
    assert(d.subrange(0, d.len() as int) =~= d);
    Some(value)
}

/// A successful parse of the later pieces with `acc` put in front.
pub open spec fn prepend_parts(acc: Seq<u64>, r: Option<Seq<u64>>) -> Option<Seq<u64>> {
    match r {
        None => None,
        Some(x) => Some(acc + x),
    }
}

/// A version string read as its numeric parts and whether it is a pre-release.
pub fn parse_version(version: &str) -> (r: Option<(Vec<u64>, bool)>)
    ensures
        match version_of(version@) {
            None => r is None,
            Some((parts, pre)) => r matches Some((p, b)) && p@ == parts && b == pre,
        },
{
    let v = chars_of(version);
    let ghost s = strip_v(version@);
    let start: usize = if v.len() > 0 && v[0] == 'v' {
        1
    } else {
        0
    };
    assert(v@.subrange(start as int, v@.len() as int) =~= s);
    // Find the first '-'.
    let mut dash = start;
    while dash < v.len() && v[dash] != '-'
        invariant
            start <= dash <= v@.len(),
            s == v@.subrange(start as int, v@.len() as int),
            index_of(s, '-') == (dash - start) + index_of(v@.subrange(dash as int, v@.len() as int), '-'),
        decreases v@.len() - dash,
    {
        assert(v@.subrange(dash as int, v@.len() as int).drop_first() =~= v@.subrange(
            dash + 1,
            v@.len() as int,
        ));
        dash = dash + 1;
    }
    let prerelease = dash < v.len();
    let ghost core = v@.subrange(start as int, dash as int);
    assert(index_of(s, '-') == dash - start);
    assert(core =~= s.take(dash - start));
    // Read the dot-separated pieces of the core.
    let mut parts: Vec<u64> = Vec::new();
    let mut a = start;
    assert(v@.subrange(a as int, dash as int) =~= core);
    assert(prepend_parts(parts@, parse_pieces(split_on(core, '.'))) == parse_pieces(
        split_on(core, '.'),
    )) by {
        if let Some(x) = parse_pieces(split_on(core, '.')) {
            assert(parts@ + x =~= x);
        }
    }
    assert(version_of(version@) == match parse_pieces(split_on(core, '.')) {
        None => None,
        Some(ps) => if ps.len() == 0 {
            None
        } else {
            Some((ps, prerelease))
        },
    });
    loop
        invariant_except_break
            parse_pieces(split_on(core, '.')) == prepend_parts(
                parts@,
                parse_pieces(split_on(v@.subrange(a as int, dash as int), '.')),
            ),
        invariant
            start <= a <= dash <= v@.len(),
            core == v@.subrange(start as int, dash as int),
            version_of(version@) == match parse_pieces(split_on(core, '.')) {
                None => None,
                Some(ps) => if ps.len() == 0 {
                    None
                } else {
                    Some((ps, prerelease))
                },
            },
        ensures
            parse_pieces(split_on(core, '.')) == Some(parts@),
        decreases dash - a,
    {
        let ghost rest = v@.subrange(a as int, dash as int);
        let mut b = a;
        while b < dash && v[b] != '.'
            invariant
                a <= b <= dash <= v@.len(),
                rest == v@.subrange(a as int, dash as int),
                index_of(rest, '.') == (b - a) + index_of(v@.subrange(b as int, dash as int), '.'),
            decreases dash - b,
        {
            assert(v@.subrange(b as int, dash as int).drop_first() =~= v@.subrange(
                b + 1,
                dash as int,
            ));
            b = b + 1;
        }
        proof {
            lemma_index_of(rest, '.');
        }
        assert(index_of(rest, '.') == b - a);
        let ghost piece = v@.subrange(a as int, b as int);
        assert(piece =~= rest.take(b - a));
        let (ta, tb) = trim_indices(&v, a, b);
        let ghost later = if b < dash {
            split_on(v@.subrange(b + 1, dash as int), '.')
        } else {
            Seq::<Seq<char>>::empty()
        };
        assert(split_on(rest, '.') =~= seq![piece] + later) by {
            if b < dash {
                assert(rest.skip(b - a + 1) =~= v@.subrange(b + 1, dash as int));
            } else {
                assert(rest.take(b - a) =~= rest);
            }
        }
        assert((seq![piece] + later).drop_first() =~= later);
        if ta < tb {
            match parse_u64(&v, ta, tb) {
                None => return None,
                Some(n) => {
                    let ghost prev = parts@;
                    parts.push(n);
                    proof {
                        if let Some(x) = parse_pieces(later) {
                            assert(prev + (seq![n] + x) =~= parts@ + x);
                        }
                    }
                },
            }
        }
        if b >= dash {
            assert(parse_pieces(later) == Some(Seq::<u64>::empty()));
            assert(parts@ + Seq::<u64>::empty() =~= parts@);
            break;
        }
        a = b + 1;
    }
    if parts.len() == 0 {
        return None;
    }
    Some((parts, prerelease))
}

/// Whether version `latest` is newer than `current`.
pub fn is_newer_version(latest: &str, current: &str) -> (b: bool)
    ensures
        b == version_newer(latest@, current@),
{
    let latest_version = parse_version(latest);
    let current_version = parse_version(current);
    let (latest_parts, latest_prerelease) = match latest_version {
        Some(parts) => parts,
        None => return false,
    };
    let (current_parts, current_prerelease) = match current_version {
        Some(parts) => parts,
        None => return false,
    };
    let max_len = if latest_parts.len() >= current_parts.len() {
        latest_parts.len()
    } else {
        current_parts.len()
    };
    let mut index: usize = 0;
    while index < max_len
        invariant
            index <= max_len,
            max_len == latest_parts@.len() || max_len == current_parts@.len(),
            latest_parts@.len() <= max_len,
            current_parts@.len() <= max_len,
            compare_parts(latest_parts@, current_parts@, 0) == compare_parts(
                latest_parts@,
                current_parts@,
                index as int,
            ),
            version_newer(latest@, current@) == ({
                let c = compare_parts(latest_parts@, current_parts@, 0);
                c > 0 || (c == 0 && !latest_prerelease && current_prerelease)
            }),
        decreases max_len - index,
    {
        let l: u64 = if index < latest_parts.len() {
            latest_parts[index]
        } else {
            0
        };
        let c: u64 = if index < current_parts.len() {
            current_parts[index]
        } else {
            0
        };
        if l > c {
            return true;
        }
        if l < c {
            return false;
        }
        index = index + 1;
    }
    !latest_prerelease && current_prerelease
}

/// The notice shown when version `latest` is newer than the running version
/// `current`, or `None` when it is not.
pub fn update_notice(latest: &str, current: &str) -> (r: Option<String>)
    ensures
        version_newer(latest@, current@) ==> (r matches Some(t) && t@ == "update available ("@
            + current@ + " -> "@ + latest@ + "), run `cargo install hutc` to update"@),
        !version_newer(latest@, current@) ==> r is None,
{
    if is_newer_version(latest, current) {
        let mut t = String::from_str("update available (");
        append_str(&mut t, current);
        append_str(&mut t, " -> ");
        append_str(&mut t, latest);
        append_str(&mut t, "), run `cargo install hutc` to update");
        Some(t)
    } else {
        None
    }
}

/// What a JSON text holds at `outer.inner`: the string found there, or `None`
/// when the text is not JSON, either key is missing or the value is not a
/// string.
pub uninterp spec fn json_string_at_outcome(payload: Seq<char>, outer: Seq<char>, inner: Seq<char>) -> Option<Seq<char>>;

/// Reads the string at `outer.inner` in a JSON text (`serde_json::from_str`
/// into a `Value`, then `Value::get` with each key and `Value::as_str`). The
/// contract says only that the result is `json_string_at_outcome` of the text
/// and the two keys; the JSON grammar and lookup are serde_json's.
#[verifier::external_body]
fn json_string_at(payload: &str, outer: &str, inner: &str) -> (r: Option<String>)
    ensures
        json_string_at_outcome(payload@, outer@, inner@) == match r {
            Some(v) => Some(v@),
            None => None,
        },
{
    let value: serde_json::Value = serde_json::from_str(payload).ok()?;
    value.get(outer).and_then(|k| k.get(inner)).and_then(|v| v.as_str()).map(|v| v.to_string())
}

/// The newest release that a crates.io answer about a crate names: the string
/// at `crate.max_version`.
pub open spec fn max_version_field(payload: Seq<char>) -> Option<Seq<char>> {
    json_string_at_outcome(payload, "crate"@, "max_version"@)
}

/// The notice for a crates.io answer about the crate, when the release it
/// names at `crate.max_version` is newer than the running version `current`.
pub fn notice_from_payload(payload: &str, current: &str) -> (r: Option<String>)
    ensures
        match max_version_field(payload@) {
            None => r is None,
            Some(latest) => version_newer(latest, current@) ==> (r matches Some(t) && t@
                == "update available ("@ + current@ + " -> "@ + latest
                + "), run `cargo install hutc` to update"@),
        },
        (match max_version_field(payload@) {
            None => true,
            Some(latest) => !version_newer(latest, current@),
        }) ==> r is None,
{
    match json_string_at(payload, "crate", "max_version") {
        None => None,
        Some(latest) => update_notice(latest.as_str(), current),
    }
}

/// Comparing `b` with `a` gives the opposite of comparing `a` with `b`.
pub proof fn lemma_compare_parts_antisymmetric(a: Seq<u64>, b: Seq<u64>, i: int)
    ensures
        compare_parts(a, b, i) == -compare_parts(b, a, i),
        -1 <= compare_parts(a, b, i) <= 1,
    decreases a.len() + b.len() - i,
{
    if !(i < 0 || (i >= a.len() && i >= b.len())) && part_at(a, i) == part_at(b, i) {
        lemma_compare_parts_antisymmetric(a, b, i + 1);
    }
}

/// A list of parts compares equal to itself.
pub proof fn lemma_compare_parts_reflexive(a: Seq<u64>, i: int)
    ensures
        compare_parts(a, a, i) == 0,
    decreases a.len() + a.len() - i,
{
    if !(i < 0 || i >= a.len()) {
        lemma_compare_parts_reflexive(a, i + 1);
    }
}

/// Comparison of version parts is transitive, and equal parts compare alike.
pub proof fn lemma_compare_parts_transitive(a: Seq<u64>, b: Seq<u64>, c: Seq<u64>, i: int)
    requires
        i >= 0,
    ensures
        compare_parts(a, b, i) == 1 && compare_parts(b, c, i) == 1 ==> compare_parts(a, c, i) == 1,
        compare_parts(a, b, i) == 0 ==> compare_parts(a, c, i) == compare_parts(b, c, i),
        compare_parts(b, c, i) == 0 ==> compare_parts(a, c, i) == compare_parts(a, b, i),
    decreases a.len() + b.len() + c.len() - i,
{
    if i >= a.len() && i >= b.len() && i >= c.len() {
    } else {
        lemma_compare_parts_transitive(a, b, c, i + 1);
    }
}

/// No version is newer than itself.
pub proof fn law_version_newer_irreflexive(v: Seq<char>)
    ensures
        !version_newer(v, v),
{
    if let Some((p, pre)) = version_of(v) {
        lemma_compare_parts_reflexive(p, 0);
    }
}

/// When one version is newer than another, the other is not newer than it.
pub proof fn law_version_newer_asymmetric(a: Seq<char>, b: Seq<char>)
    requires
        version_newer(a, b),
    ensures
        !version_newer(b, a),
{
    let (pa, _) = version_of(a).unwrap();
    let (pb, _) = version_of(b).unwrap();
    lemma_compare_parts_antisymmetric(pa, pb, 0);
}

/// Being newer is transitive: versions are ordered.
pub proof fn law_version_newer_transitive(a: Seq<char>, b: Seq<char>, c: Seq<char>)
    requires
        version_newer(a, b),
        version_newer(b, c),
    ensures
        version_newer(a, c),
{
    let (pa, _) = version_of(a).unwrap();
    let (pb, _) = version_of(b).unwrap();
    let (pc, _) = version_of(c).unwrap();
    lemma_compare_parts_antisymmetric(pa, pb, 0);
    lemma_compare_parts_antisymmetric(pb, pc, 0);
    lemma_compare_parts_transitive(pa, pb, pc, 0);
}

/// Lists of parts that agree at every position compare as equal.
proof fn lemma_same_parts_compare_equal(a: Seq<u64>, b: Seq<u64>, i: int)
    requires
        i >= 0,
        forall|j: int| j >= i ==> #[trigger] part_at(a, j) == part_at(b, j),
    ensures
        compare_parts(a, b, i) == 0,
    decreases a.len() + b.len() - i,
{
    if !(i >= a.len() && i >= b.len()) {
        assert(part_at(a, i) == part_at(b, i));
        lemma_same_parts_compare_equal(a, b, i + 1);
    }
}

/// Versions whose parts differ only by trailing zeros (`1.2` and `1.2.0.0`),
/// and that are both releases or both pre-releases, are the same version:
/// neither is newer than the other.
pub proof fn law_trailing_zeros_do_not_matter(a: Seq<char>, b: Seq<char>, zeros: nat)
    requires
        version_of(a) matches Some((pa, prea)) && version_of(b) matches Some((pb, preb)) && pb
            == pa + Seq::new(zeros, |j: int| 0u64) && prea == preb,
    ensures
        !version_newer(a, b),
        !version_newer(b, a),
{
    let (pa, _) = version_of(a).unwrap();
    let (pb, _) = version_of(b).unwrap();
    assert forall|j: int| j >= 0 implies #[trigger] part_at(pa, j) == part_at(pb, j) by {
        if j >= pa.len() && j < pb.len() {
            assert(pb[j] == 0u64);
        } else if j < pa.len() {
            assert(pb[j] == pa[j]);
        }
    }
    lemma_same_parts_compare_equal(pa, pb, 0);
    lemma_compare_parts_antisymmetric(pa, pb, 0);
}

/// Parts that agree before position `i` and where `a` is larger at `i`
/// compare as greater, however far `i` lies.
proof fn lemma_first_difference(a: Seq<u64>, b: Seq<u64>, k: int, i: int)
    requires
        0 <= k <= i,
        forall|j: int| k <= j < i ==> #[trigger] part_at(a, j) == part_at(b, j),
        part_at(a, i) > part_at(b, i),
    ensures
        compare_parts(a, b, k) == 1,
    decreases i - k,
{
    if k < i {
        assert(part_at(a, k) == part_at(b, k));
        lemma_first_difference(a, b, k + 1, i);
    }
}

/// A version is newer than another when, at the first position where their
/// numbers differ (a missing number counting as zero), its number is the
/// larger, whatever that position: `0.1.1` is newer than `0.1.0`, and
/// `1.2.3.5` than `1.2.3.4`. Pre-release marks do not matter then.
pub proof fn law_first_larger_part_is_newer(latest: Seq<char>, current: Seq<char>, i: int)
    requires
        version_of(latest) matches Some((lp, _)) && version_of(current) matches Some((cp, _))
            && 0 <= i && (forall|j: int| 0 <= j < i ==> #[trigger] part_at(lp, j) == part_at(cp, j))
            && part_at(lp, i) > part_at(cp, i),
    ensures
        version_newer(latest, current),
        !version_newer(current, latest),
{
    let (lp, _) = version_of(latest).unwrap();
    let (cp, _) = version_of(current).unwrap();
    lemma_first_difference(lp, cp, 0, i);
    lemma_compare_parts_antisymmetric(lp, cp, 0);
}

} // verus!
