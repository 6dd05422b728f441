//! Verified string utilities: substring search, splitting on a separator
//! string, whitespace tokenization, and character-level helpers.
//!
//! Every executable function here is specified against a recursive spec
//! function over `Seq<char>`, so the parsing modules can state their
//! contracts purely in terms of those spec functions.

use vstd::prelude::*;
use vstd::string::*;

verus! {

/// `p` occurs in `s` at position `i`.
pub open spec fn occurs_at(s: Seq<char>, p: Seq<char>, i: int) -> bool {
    0 <= i && i + p.len() <= s.len() && s.subrange(i, i + p.len() as int) == p
}

/// `p` occurs somewhere in `s`.
pub open spec fn has_sub(s: Seq<char>, p: Seq<char>) -> bool {
    exists|i: int| occurs_at(s, p, i)
}

/// `s` begins with `p`.
pub open spec fn spec_starts_with(s: Seq<char>, p: Seq<char>) -> bool {
    p.len() <= s.len() && s.take(p.len() as int) == p
}

/// Index of the first occurrence of `p` in `s`, or `-1` if there is none.
pub open spec fn find_sub(s: Seq<char>, p: Seq<char>) -> int
    decreases s.len(),
{
    if spec_starts_with(s, p) {
        0
    } else if s.len() == 0 {
        -1
    } else {
        let r = find_sub(s.skip(1), p);
        if r < 0 {
            -1
        } else {
            r + 1
        }
    }
}

/// `find_sub` finds exactly the first occurrence of `p`, or reports that
/// there is none.
pub proof fn lemma_find_sub(s: Seq<char>, p: Seq<char>)
    ensures
        find_sub(s, p) == -1 ==> !has_sub(s, p),
        find_sub(s, p) >= 0 ==> occurs_at(s, p, find_sub(s, p)),
        find_sub(s, p) >= 0 ==> forall|j: int| 0 <= j < find_sub(s, p) ==> !occurs_at(s, p, j),
    decreases s.len(),
{
    if spec_starts_with(s, p) {
        assert(s.subrange(0, p.len() as int) == s.take(p.len() as int));
        assert(occurs_at(s, p, 0));
    } else if s.len() == 0 {
        assert forall|i: int| !occurs_at(s, p, i) by {
            if occurs_at(s, p, i) {
                assert(p.len() == 0);
                assert(spec_starts_with(s, p));
            }
        }
    } else {
        lemma_find_sub(s.skip(1), p);
        let t = s.skip(1);
        assert forall|j: int| 0 <= j && occurs_at(s, p, j) implies j >= 1 && occurs_at(t, p, j - 1) by {
            if j == 0 {
                assert(s.subrange(0, p.len() as int) == s.take(p.len() as int));
                assert(spec_starts_with(s, p));
            } else {
                assert(t.subrange(j - 1, j - 1 + p.len() as int) =~= s.subrange(j, j + p.len() as int));
            }
        }
        assert forall|j: int| occurs_at(t, p, j) implies occurs_at(s, p, j + 1) by {
            assert(s.subrange(j + 1, j + 1 + p.len() as int) =~= t.subrange(j, j + p.len() as int));
        }
        let r = find_sub(t, p);
        if r < 0 {
            assert(find_sub(s, p) == -1);
            assert forall|i: int| !occurs_at(s, p, i) by {
                if occurs_at(s, p, i) {
                    assert(occurs_at(t, p, i - 1));
                }
            }
        } else {
            assert(occurs_at(s, p, r + 1));
            assert forall|j: int| 0 <= j < r + 1 implies !occurs_at(s, p, j) by {
                if occurs_at(s, p, j) {
                    assert(j >= 1 && occurs_at(t, p, j - 1));
                }
            }
        }
    }
}

/// Splitting `s` on a non-empty separator `p`: the pieces between
/// occurrences of `p`, in order.  A string without the separator yields a
/// single piece, the string itself.
pub open spec fn split_on(s: Seq<char>, p: Seq<char>) -> Seq<Seq<char>>
    decreases s.len(),
    via split_on_decreases
{
    if p.len() == 0 || find_sub(s, p) < 0 {
        seq![s]
    } else {
        let f = find_sub(s, p);
        seq![s.take(f)] + split_on(s.skip(f + p.len() as int), p)
    }
}

#[via_fn]
proof fn split_on_decreases(s: Seq<char>, p: Seq<char>) {
    lemma_find_sub(s, p);
}

/// Splitting always yields at least one piece.
pub proof fn lemma_split_on_len(s: Seq<char>, p: Seq<char>)
    ensures
        split_on(s, p).len() >= 1,
    decreases s.len(),
{
    if !(p.len() == 0 || find_sub(s, p) < 0) {
        lemma_find_sub(s, p);
        lemma_split_on_len(s.skip(find_sub(s, p) + p.len() as int), p);
    }
}

/// Splitting on a non-empty separator yields two or more pieces exactly
/// when the separator occurs in the string.
pub proof fn lemma_split_on_has(s: Seq<char>, p: Seq<char>)
    requires
        p.len() >= 1,
    ensures
        split_on(s, p).len() >= 2 <==> has_sub(s, p),
{
    lemma_find_sub(s, p);
    if find_sub(s, p) >= 0 {
        lemma_split_on_len(s.skip(find_sub(s, p) + p.len() as int), p);
    }
}

/// A character counted as whitespace by the tokenizer.
pub open spec fn is_space_char(c: char) -> bool {
    c == ' ' || c == '\t' || c == '\r' || c == '\n'
}

/// Length of the leading run of non-whitespace characters of `s`.
pub open spec fn ws_token_end(s: Seq<char>) -> int
    decreases s.len(),
{
    if s.len() == 0 || is_space_char(s[0]) {
        0
    } else {
        1 + ws_token_end(s.skip(1))
    }
}

pub proof fn lemma_ws_token_end(s: Seq<char>)
    ensures
        0 <= ws_token_end(s) <= s.len(),
        forall|i: int| 0 <= i < ws_token_end(s) ==> !is_space_char(s[i]),
        ws_token_end(s) < s.len() ==> is_space_char(s[ws_token_end(s)]),
    decreases s.len(),
{
    if !(s.len() == 0 || is_space_char(s[0])) {
        lemma_ws_token_end(s.skip(1));
        let t = s.skip(1);
        assert forall|i: int| 0 <= i < ws_token_end(s) implies !is_space_char(s[i]) by {
            if i >= 1 {
                assert(s[i] == t[i - 1]);
            }
        }
        if ws_token_end(s) < s.len() {
            assert(s[ws_token_end(s)] == t[ws_token_end(t)]);
        }
    }
}

/// The whitespace-separated tokens of `s`, in order; runs of whitespace
/// are collapsed and no token is empty.
pub open spec fn split_ws(s: Seq<char>) -> Seq<Seq<char>>
    decreases s.len(),
    via split_ws_decreases
{
    if s.len() == 0 {
        Seq::empty()
    } else if is_space_char(s[0]) {
        split_ws(s.skip(1))
    } else {
        let e = ws_token_end(s);
        seq![s.take(e)] + split_ws(s.skip(e))
    }
}

#[via_fn]
proof fn split_ws_decreases(s: Seq<char>) {
    lemma_ws_token_end(s);
}

/// Whether the characters of `s` from position `i` on match `p`.
pub fn matches_at(s: &str, p: &str, i: usize) -> (r: bool)
    requires
        i + p@.len() <= s@.len(),
    ensures
        r == occurs_at(s@, p@, i as int),
{
    let n = s.unicode_len();
    let m = p.unicode_len();
    let mut j: usize = 0;
    while j < m
        invariant
            n == s@.len(),
            m == p@.len(),
            0 <= j <= m,
            i + m <= n,
            forall|k: int| 0 <= k < j ==> s@[i + k] == p@[k],
        decreases m - j,
    {
        if s.get_char(i + j) != p.get_char(j) {
            assert(s@.subrange(i as int, i + m) != p@) by {
                assert(s@.subrange(i as int, i + m)[j as int] == s@[i + j]);
            }
            return false;
        }
        j = j + 1;
    }
    assert(s@.subrange(i as int, i + m) =~= p@);
    true
}

/// Whether `s` begins with `p`.
pub fn str_starts_with(s: &str, p: &str) -> (r: bool)
    ensures
        r == spec_starts_with(s@, p@),
{
    let n = s.unicode_len();
    let m = p.unicode_len();
    if m > n {
        return false;
    }
    let r = matches_at(s, p, 0);
    assert(s@.subrange(0, m as int) == s@.take(m as int));
    r
}

/// Whether two string slices hold the same characters.
pub fn str_eq(a: &str, b: &str) -> (r: bool)
    ensures
        r == (a@ == b@),
{
    let n = a.unicode_len();
    if n != b.unicode_len() {
        return false;
    }
    let r = matches_at(a, b, 0);
    assert(a@.subrange(0, n as int) =~= a@);
    r
}

/// Index of the first occurrence of `p` in `s`, if any.
pub fn find_first(s: &str, p: &str) -> (r: Option<usize>)
    requires
        p@.len() >= 1,
    ensures
        match r {
            Some(i) => find_sub(s@, p@) == i as int,
            None => find_sub(s@, p@) == -1,
        },
{
    let n = s.unicode_len();
    let m = p.unicode_len();
    proof {
        lemma_find_sub(s@, p@);
    }
    if m > n {
        assert(forall|j: int| !occurs_at(s@, p@, j));
        return None;
    }
    let mut i: usize = 0;
    while i <= n - m
        invariant
            n == s@.len(),
            m == p@.len(),
            1 <= m <= n,
            0 <= i <= n - m + 1,
            forall|j: int| 0 <= j < i ==> !occurs_at(s@, p@, j),
        decreases n - m - i + 1,
    {
        if matches_at(s, p, i) {
            proof {
                lemma_find_sub(s@, p@);
                let f = find_sub(s@, p@);
                assert(f >= 0);
                if f < i {
                    assert(!occurs_at(s@, p@, f));
                }
                if f > i {
                    assert(!occurs_at(s@, p@, i as int));
                }
            }
            return Some(i);
        }
        i = i + 1;
    }
    assert forall|j: int| !occurs_at(s@, p@, j) by {
        if occurs_at(s@, p@, j) {
            assert(0 <= j <= n - m);
        }
    }
    None
}

/// Splits `s` on the separator `p`, as `split_on` describes.
pub fn split_str(s: &str, p: &str) -> (r: Vec<String>)
    requires
        p@.len() >= 1,
    ensures
        r.deep_view() == split_on(s@, p@),
        r@.len() >= 1,
{
    let n = s.unicode_len();
    let m = p.unicode_len();
    let mut out: Vec<String> = Vec::new();
    let mut pos: usize = 0;
    assert(s@.skip(0) =~= s@);
    assert(out.deep_view() + split_on(s@, p@) =~= split_on(s@, p@));
    loop
        invariant
            n == s@.len(),
            m == p@.len(),
            m >= 1,
            0 <= pos <= n,
            split_on(s@, p@) == out.deep_view() + split_on(s@.skip(pos as int), p@),
        decreases n - pos,
    {
        let rest = s.substring_char(pos, n);
        assert(rest@ == s@.skip(pos as int));
        match find_first(rest, p) {
            Some(f) => {
                proof {
                    lemma_find_sub(rest@, p@);
                }
                let piece = rest.substring_char(0, f).to_owned();
                assert(piece@ == rest@.take(f as int));
                let ghost old_out = out.deep_view();
                out.push(piece);
                assert(out.deep_view() =~= old_out + seq![rest@.take(f as int)]);
                assert(split_on(rest@, p@) == seq![rest@.take(f as int)] + split_on(
                    rest@.skip(f + m),
                    p@,
                ));
                assert(rest@.skip(f + m) =~= s@.skip(pos + f + m));
                proof {
                    vstd::seq_lib::lemma_concat_associative(
                        old_out,
                        seq![rest@.take(f as int)],
                        split_on(s@.skip(pos + f + m), p@),
                    );
                }
                pos = pos + f + m;
            },
            None => {
                let piece = rest.to_owned();
                let ghost old_out = out.deep_view();
                out.push(piece);
                assert(out.deep_view() =~= old_out + seq![rest@]);
                assert(split_on(rest@, p@) == seq![rest@]);
                proof {
                    vstd::seq_lib::lemma_concat_associative(
                        old_out,
                        seq![rest@],
                        Seq::empty(),
                    );
                }
                assert(split_on(s@, p@) =~= out.deep_view());
                assert(out.deep_view().len() >= 1);
                assert(out@.len() == out.deep_view().len());
                return out;
            },
        }
    }
}

/// Whether `c` is counted as whitespace.
pub fn is_space(c: char) -> (r: bool)
    ensures
        r == is_space_char(c),
{
    c == ' ' || c == '\t' || c == '\r' || c == '\n'
}

/// Splits `s` into its whitespace-separated tokens, as `split_ws`
/// describes.
pub fn split_whitespace(s: &str) -> (r: Vec<String>)
    ensures
        r.deep_view() == split_ws(s@),
{
    let n = s.unicode_len();
    let mut out: Vec<String> = Vec::new();
    let mut pos: usize = 0;
    assert(s@.skip(0) =~= s@);
    assert(out.deep_view() + split_ws(s@) =~= split_ws(s@));
    while pos < n
        invariant
            n == s@.len(),
            0 <= pos <= n,
            split_ws(s@) == out.deep_view() + split_ws(s@.skip(pos as int)),
        decreases n - pos,
    {
        let c = s.get_char(pos);
        assert(c == s@.skip(pos as int)[0]);
        if is_space(c) {
            assert(s@.skip(pos as int).skip(1) =~= s@.skip(pos + 1));
            pos = pos + 1;
        } else {
            let ghost t = s@.skip(pos as int);
            let mut e: usize = pos + 1;
            while e < n && !is_space(s.get_char(e))
                invariant
                    n == s@.len(),
                    pos < e <= n,
                    t == s@.skip(pos as int),
                    forall|k: int| 0 <= k < e - pos ==> !is_space_char(t[k]),
                decreases n - e,
            {
                assert(s@[e as int] == t[e - pos]);
                e = e + 1;
            }
            proof {
                lemma_ws_token_end(t);
                let w = ws_token_end(t);
                assert(t.len() == n - pos);
                if w < e - pos {
                    assert(is_space_char(t[w]));
                    assert(!is_space_char(t[w]));
                }
                if w > e - pos {
                    assert(e < n);
                    assert(is_space_char(s@[e as int]));
                    assert(t[e - pos] == s@[e as int]);
                    assert(!is_space_char(t[e - pos]));
                }
                assert(w == e - pos);
            }
            let piece = s.substring_char(pos, e).to_owned();
            assert(piece@ =~= t.take(e - pos));
            let ghost old_out = out.deep_view();
            out.push(piece);
            assert(out.deep_view() =~= old_out + seq![t.take(e - pos)]);
            assert(split_ws(t) == seq![t.take(e - pos)] + split_ws(t.skip(e - pos)));
            assert(t.skip(e - pos) =~= s@.skip(e as int));
            proof {
                vstd::seq_lib::lemma_concat_associative(
                    old_out,
                    seq![t.take(e - pos)],
                    split_ws(s@.skip(e as int)),
                );
            }
            pos = e;
        }
    }
    assert(s@.skip(pos as int) =~= Seq::empty());
    assert(split_ws(s@) =~= out.deep_view());
    out
}

/// Whether `s` contains the character `c`.
pub fn contains_char(s: &str, c: char) -> (r: bool)
    ensures
        r == s@.contains(c),
{
    let n = s.unicode_len();
    let mut i: usize = 0;
    while i < n
        invariant
            n == s@.len(),
            0 <= i <= n,
            forall|k: int| 0 <= k < i ==> s@[k] != c,
        decreases n - i,
    {
        if s.get_char(i) == c {
            return true;
        }
        i = i + 1;
    }
    false
}

} // verus!
