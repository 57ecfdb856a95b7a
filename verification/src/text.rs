//! Character-sequence primitives: conversions between `str`/`String` and
//! `Vec<char>`, substring search, first/all replacement, and literal splitting.
//! Every executable function is specified against a direct spec-level
//! definition over `Seq<char>`.

use vstd::prelude::*;
use vstd::string::StrSliceExecFns;

verus! {

/// Relies on `String::push`: appends the given character to the end of the
/// string.
pub assume_specification[ String::push ](s: &mut String, c: char)
    ensures
        final(s)@ == old(s)@.push(c),
;

/// Whether `c` has the Unicode white-space property. The property is a large
/// character table, so it is left uninterpreted and tied to
/// `char::is_whitespace` below.
pub uninterp spec fn is_whitespace_char(c: char) -> bool;

/// Relies on `char::is_whitespace`: whether the character has the Unicode
/// white-space property. The result depends on the character alone.
pub assume_specification[ char::is_whitespace ](c: char) -> (r: bool)
    ensures
        r == is_whitespace_char(c),
;

/// `pat` occurs in `s` starting at position `i`.
pub open spec fn occurs_at(s: Seq<char>, pat: Seq<char>, i: int) -> bool {
    0 <= i && i + pat.len() <= s.len() && s.subrange(i, i + pat.len()) == pat
}

/// Position of the first occurrence of `pat` in `s` at or after `from`.
pub open spec fn find_from(s: Seq<char>, pat: Seq<char>, from: int) -> Option<int>
    decreases s.len() - from + 1,
{
    if from < 0 || from + pat.len() > s.len() {
        None
    } else if occurs_at(s, pat, from) {
        Some(from)
    } else {
        find_from(s, pat, from + 1)
    }
}

/// Position of the first occurrence of `pat` in `s`.
pub open spec fn find_first(s: Seq<char>, pat: Seq<char>) -> Option<int> {
    find_from(s, pat, 0)
}

/// The characters of `s`, as a vector.
#[verifier::loop_isolation(false)]
pub fn chars_of(s: &str) -> (v: Vec<char>)
    ensures
        v@ == s@,
{
    let n = s.unicode_len();
    let mut v: Vec<char> = Vec::new();
    let mut i: usize = 0;
    while i < n
        invariant
            i <= n,
            v@ == s@.subrange(0, i as int),
        decreases n - i,
    {
        v.push(s.get_char(i));
        i = i + 1;
    }
    proof {
        assert(s@.subrange(0, n as int) =~= s@);
    }
    v
}

/// The string holding exactly the characters of `v`.
#[verifier::loop_isolation(false)]
pub fn string_of(v: &Vec<char>) -> (s: String)
    ensures
        s@ == v@,
{
    let mut s = String::new();
    let mut i: usize = 0;
    while i < v.len()
        invariant
            i <= v.len(),
            s@ == v@.subrange(0, i as int),
        decreases v.len() - i,
    {
        s.push(v[i]);
        proof {
            assert(v@.subrange(0, i + 1 as int) =~= v@.subrange(0, i as int).push(v@[i as int]));
        }
        i = i + 1;
    }
    proof {
        assert(v@.subrange(0, v@.len() as int) =~= v@);
    }
    s
}

/// Whether the characters of `a` equal the characters of `b`.
#[verifier::loop_isolation(false)]
pub fn str_eq(a: &str, b: &str) -> (r: bool)
    ensures
        r == (a@ == b@),
{
    let na = a.unicode_len();
    let nb = b.unicode_len();
    if na != nb {
        return false;
    }
    let mut i: usize = 0;
    while i < na
        invariant
            i <= na,
            na == nb,
            a@.subrange(0, i as int) == b@.subrange(0, i as int),
        decreases na - i,
    {
        if a.get_char(i) != b.get_char(i) {
            proof {
                assert(a@[i as int] != b@[i as int]);
            }
            return false;
        }
        proof {
            assert(a@.subrange(0, i + 1 as int) =~= a@.subrange(0, i as int).push(a@[i as int]));
            assert(b@.subrange(0, i + 1 as int) =~= b@.subrange(0, i as int).push(b@[i as int]));
        }
        i = i + 1;
    }
    proof {
        assert(a@.subrange(0, na as int) =~= a@);
        assert(b@.subrange(0, nb as int) =~= b@);
    }
    true
}

/// The first occurrence (if any) reported by `find_from` is a real occurrence,
/// and the least one at or after `from`; `None` means there is none.
pub proof fn lemma_find_from_props(s: Seq<char>, pat: Seq<char>, from: int)
    requires
        0 <= from,
    ensures
        match find_from(s, pat, from) {
            Some(i) => from <= i && occurs_at(s, pat, i) && (forall|j: int|
                from <= j < i ==> !occurs_at(s, pat, j)),
            None => forall|j: int| from <= j ==> !occurs_at(s, pat, j),
        },
    decreases s.len() - from + 1,
{
    if from + pat.len() > s.len() {
        assert forall|j: int| from <= j implies !occurs_at(s, pat, j) by {
            if occurs_at(s, pat, j) {
                assert(j + pat.len() <= s.len());
            }
        }
    } else if occurs_at(s, pat, from) {
    } else {
        lemma_find_from_props(s, pat, from + 1);
    }
}

/// `s` with the first occurrence of `pat` (if any) replaced by `val`.
pub open spec fn replace_first(s: Seq<char>, pat: Seq<char>, val: Seq<char>) -> Seq<char> {
    match find_first(s, pat) {
        Some(i) => s.subrange(0, i) + val + s.subrange(i + pat.len(), s.len() as int),
        None => s,
    }
}

/// `s` with every occurrence of `pat` replaced by `val`, found left to right
/// and without rescanning replacements. An empty `pat` leaves `s` unchanged.
pub open spec fn replace_all(s: Seq<char>, pat: Seq<char>, val: Seq<char>) -> Seq<char>
    decreases s.len(),
    via replace_all_decreases
{
    if pat.len() == 0 {
        s
    } else {
        match find_first(s, pat) {
            Some(i) => s.subrange(0, i) + val + replace_all(
                s.subrange(i + pat.len(), s.len() as int),
                pat,
                val,
            ),
            None => s,
        }
    }
}

#[via_fn]
proof fn replace_all_decreases(s: Seq<char>, pat: Seq<char>, val: Seq<char>) {
    lemma_find_from_props(s, pat, 0);
}

/// The parts of `s` between the non-overlapping occurrences of `sep`, found
/// left to right; a lone part when `sep` does not occur.
pub open spec fn split_seq(s: Seq<char>, sep: Seq<char>) -> Seq<Seq<char>>
    decreases s.len(),
    via split_seq_decreases
{
    if sep.len() == 0 {
        seq![s]
    } else {
        match find_first(s, sep) {
            Some(i) => seq![s.subrange(0, i)] + split_seq(
                s.subrange(i + sep.len(), s.len() as int),
                sep,
            ),
            None => seq![s],
        }
    }
}

#[via_fn]
proof fn split_seq_decreases(s: Seq<char>, sep: Seq<char>) {
    lemma_find_from_props(s, sep, 0);
}

/// Whether the character vectors `a` and `b` hold the same sequence.
#[verifier::loop_isolation(false)]
pub fn chars_eq(a: &Vec<char>, b: &Vec<char>) -> (r: bool)
    ensures
        r == (a@ == b@),
{
    if a.len() != b.len() {
        return false;
    }
    let mut i: usize = 0;
    while i < a.len()
        invariant
            i <= a.len(),
            a.len() == b.len(),
            a@.subrange(0, i as int) == b@.subrange(0, i as int),
        decreases a.len() - i,
    {
        if a[i] != b[i] {
            return false;
        }
        proof {
            assert(a@.subrange(0, i + 1 as int) =~= a@.subrange(0, i as int).push(a@[i as int]));
            assert(b@.subrange(0, i + 1 as int) =~= b@.subrange(0, i as int).push(b@[i as int]));
        }
        i = i + 1;
    }
    proof {
        assert(a@.subrange(0, a@.len() as int) =~= a@);
        assert(b@.subrange(0, b@.len() as int) =~= b@);
    }
    true
}

/// The deep view of a character vector is its view.
pub proof fn lemma_deep_chars(v: Vec<char>)
    ensures
        v.deep_view() == v@,
{
    assert(v.deep_view() =~= v@);
}

/// Whether `prefix` is a prefix of `s`.
pub fn starts_with_chars(s: &Vec<char>, prefix: &Vec<char>) -> (r: bool)
    ensures
        r == prefix@.is_prefix_of(s@),
{
    if prefix.len() > s.len() {
        return false;
    }
    let r = matches_at(s, prefix, 0);
    proof {
        assert(occurs_at(s@, prefix@, 0) == prefix@.is_prefix_of(s@));
    }
    r
}

/// Appends the whole of `s` to `out`.
pub fn append_all(out: &mut Vec<char>, s: &Vec<char>)
    ensures
        final(out)@ == old(out)@ + s@,
{
    append_range(out, s, 0, s.len());
    proof {
        assert(s@.subrange(0, s@.len() as int) =~= s@);
    }
}

/// Appends `s[from..to]` to `out`.
#[verifier::loop_isolation(false)]
pub fn append_range(out: &mut Vec<char>, s: &Vec<char>, from: usize, to: usize)
    requires
        from <= to <= s@.len(),
    ensures
        final(out)@ == old(out)@ + s@.subrange(from as int, to as int),
{
    let mut i: usize = from;
    while i < to
        invariant
            from <= i <= to,
            out@ == old(out)@ + s@.subrange(from as int, i as int),
        decreases to - i,
    {
        out.push(s[i]);
        proof {
            assert(s@.subrange(from as int, i + 1 as int) =~= s@.subrange(
                from as int,
                i as int,
            ).push(s@[i as int]));
        }
        i = i + 1;
    }
}

/// A copy of `s[from..to]`.
pub fn subvec(s: &Vec<char>, from: usize, to: usize) -> (r: Vec<char>)
    requires
        from <= to <= s@.len(),
    ensures
        r@ == s@.subrange(from as int, to as int),
{
    let mut r: Vec<char> = Vec::new();
    append_range(&mut r, s, from, to);
    r
}

/// Whether `pat` occurs in `s` at position `i`.
#[verifier::loop_isolation(false)]
fn matches_at(s: &Vec<char>, pat: &Vec<char>, i: usize) -> (r: bool)
    requires
        i + pat@.len() <= s@.len(),
    ensures
        r == occurs_at(s@, pat@, i as int),
{
    let n = s.len();
    let mut j: usize = 0;
    while j < pat.len()
        invariant
            j <= pat@.len(),
            i + pat@.len() <= n,
            s@.subrange(i as int, i + j as int) == pat@.subrange(0, j as int),
        decreases pat@.len() - j,
    {
        if s[i + j] != pat[j] {
            proof {
                if occurs_at(s@, pat@, i as int) {
                    assert(s@.subrange(i as int, i + pat@.len() as int)[j as int] == pat@[j as int]);
                }
            }
            return false;
        }
        proof {
            assert(s@.subrange(i as int, i + (j + 1) as int) =~= s@.subrange(
                i as int,
                i + j as int,
            ).push(s@[i + j as int]));
            assert(pat@.subrange(0, (j + 1) as int) =~= pat@.subrange(0, j as int).push(
                pat@[j as int],
            ));
        }
        j = j + 1;
    }
    proof {
        assert(pat@.subrange(0, pat@.len() as int) =~= pat@);
        assert(s@.subrange(i as int, i + pat@.len() as int) == pat@);
    }
    true
}

/// Position of the first occurrence of `pat` in `s` at or after `from`.
#[verifier::loop_isolation(false)]
pub fn find_at(s: &Vec<char>, pat: &Vec<char>, from: usize) -> (r: Option<usize>)
    ensures
        match r {
            Some(i) => find_from(s@, pat@, from as int) == Some(i as int),
            None => find_from(s@, pat@, from as int) is None,
        },
{
    let n = s.len();
    let m = pat.len();
    if m > n {
        return None;
    }
    if from > n - m {
        return None;
    }
    if m == 0 {
        proof {
            assert(s@.subrange(from as int, from as int) =~= pat@);
        }
        return Some(from);
    }
    let mut i: usize = from;
    while i <= n - m
        invariant
            from <= i,
            i <= n - m + 1,
            find_from(s@, pat@, from as int) == find_from(s@, pat@, i as int),
        decreases n - m - i + 1,
    {
        if matches_at(s, pat, i) {
            return Some(i);
        }
        i = i + 1;
    }
    None
}

/// `s` with the first occurrence of `pat` (if any) replaced by `val`.
pub fn replace_first_chars(s: &Vec<char>, pat: &Vec<char>, val: &Vec<char>) -> (r: Vec<char>)
    ensures
        r@ == replace_first(s@, pat@, val@),
{
    match find_at(s, pat, 0) {
        None => subvec(s, 0, s.len()),
        Some(i) => {
            proof {
                lemma_find_from_props(s@, pat@, 0);
            }
            let n = s.len();
            let mut out = subvec(s, 0, i);
            append_range(&mut out, val, 0, val.len());
            append_range(&mut out, s, i + pat.len(), n);
            proof {
                assert(s@.subrange(0, s@.len() as int) =~= s@);
                assert(val@.subrange(0, val@.len() as int) =~= val@);
            }
            out
        },
    }
}

/// `s` with every occurrence of `pat` replaced by `val`.
pub fn replace_all_chars(s: &Vec<char>, pat: &Vec<char>, val: &Vec<char>) -> (r: Vec<char>)
    requires
        pat@.len() > 0,
    ensures
        r@ == replace_all(s@, pat@, val@),
    decreases s@.len(),
{
    match find_at(s, pat, 0) {
        None => subvec(s, 0, s.len()),
        Some(i) => {
            proof {
                lemma_find_from_props(s@, pat@, 0);
            }
            let n = s.len();
            let mut out = subvec(s, 0, i);
            append_range(&mut out, val, 0, val.len());
            let rest = subvec(s, i + pat.len(), n);
            let tail = replace_all_chars(&rest, pat, val);
            append_range(&mut out, &tail, 0, tail.len());
            proof {
                assert(s@.subrange(0, s@.len() as int) =~= s@);
                assert(val@.subrange(0, val@.len() as int) =~= val@);
                assert(tail@.subrange(0, tail@.len() as int) =~= tail@);
            }
            out
        },
    }
}

/// The parts of `s` between the occurrences of `sep`.
pub fn split_chars(s: &Vec<char>, sep: &Vec<char>) -> (r: Vec<Vec<char>>)
    requires
        sep@.len() > 0,
    ensures
        r.deep_view() == split_seq(s@, sep@),
    decreases s@.len(),
{
    match find_at(s, sep, 0) {
        None => {
            let mut r: Vec<Vec<char>> = Vec::new();
            r.push(subvec(s, 0, s.len()));
            proof {
                assert(s@.subrange(0, s@.len() as int) =~= s@);
                assert(r.deep_view() =~~= split_seq(s@, sep@));
            }
            r
        },
        Some(i) => {
            proof {
                lemma_find_from_props(s@, sep@, 0);
            }
            let n = s.len();
            let head = subvec(s, 0, i);
            let rest = subvec(s, i + sep.len(), n);
            let mut r = split_chars(&rest, sep);
            r.insert(0, head);
            proof {
                assert(r.deep_view() =~~= split_seq(s@, sep@));
            }
            r
        },
    }
}

} // verus!
