//! Text utilities for the line-oriented codec: leftmost substring search,
//! splitting on CRLF record separators, and conversions between `String`
//! and `Vec<char>`.

use vstd::prelude::*;

verus! {

/// The record separator of the on-disk format.
pub open spec fn crlf() -> Seq<char> {
    seq!['\r', '\n']
}

/// `pat` occurs in `s` starting at position `i`.
pub open spec fn matches_at(s: Seq<char>, pat: Seq<char>, i: int) -> bool {
    &&& 0 <= i
    &&& i + pat.len() <= s.len()
    &&& forall|k: int| 0 <= k < pat.len() ==> s[i + k] == #[trigger] pat[k]
}

/// Position of the leftmost occurrence of `pat` in `s` at or after `i`.
pub open spec fn find_from(s: Seq<char>, pat: Seq<char>, i: int) -> Option<int>
    decreases s.len() - i,
{
    if i < 0 || i + pat.len() > s.len() {
        None
    } else if matches_at(s, pat, i) {
        Some(i)
    } else {
        find_from(s, pat, i + 1)
    }
}

/// `pat` occurs somewhere in `s`.
pub open spec fn contains_sub(s: Seq<char>, pat: Seq<char>) -> bool {
    find_from(s, pat, 0) is Some
}

/// What a found position means: it is the leftmost match at or after `i`.
pub proof fn lemma_find_from_some(s: Seq<char>, pat: Seq<char>, i: int)
    requires
        find_from(s, pat, i) is Some,
    ensures
        ({
            let k = find_from(s, pat, i)->Some_0;
            &&& i <= k
            &&& matches_at(s, pat, k)
            &&& forall|j: int| i <= j < k ==> !matches_at(s, pat, j)
        }),
    decreases s.len() - i,
{
    if !(i < 0 || i + pat.len() > s.len()) && !matches_at(s, pat, i) {
        lemma_find_from_some(s, pat, i + 1);
    }
}

/// A match with nothing matching before it is what `find_from` returns.
pub proof fn lemma_find_from_first(s: Seq<char>, pat: Seq<char>, from: int, k: int)
    requires
        0 <= from <= k,
        matches_at(s, pat, k),
        forall|j: int| from <= j < k ==> !matches_at(s, pat, j),
    ensures
        find_from(s, pat, from) == Some(k),
    decreases k - from,
{
    if from < k {
        lemma_find_from_first(s, pat, from + 1, k);
    }
}

/// Nothing matches anywhere at or after `i`: the search fails.
pub proof fn lemma_find_from_none(s: Seq<char>, pat: Seq<char>, i: int)
    requires
        forall|j: int| i <= j ==> !matches_at(s, pat, j),
    ensures
        find_from(s, pat, i) is None,
    decreases s.len() - i,
{
    if !(i < 0 || i + pat.len() > s.len()) {
        lemma_find_from_none(s, pat, i + 1);
    }
}

/// `s` split at every CRLF pair; the separators are dropped. A text without
/// CRLF is one piece, and every CRLF adds a piece, so the result is never
/// empty and a trailing CRLF yields a final empty piece.
pub open spec fn split_crlf(s: Seq<char>) -> Seq<Seq<char>>
    decreases s.len(),
    via split_crlf_decreases
{
    match find_from(s, crlf(), 0) {
        None => seq![s],
        Some(i) => seq![s.subrange(0, i)] + split_crlf(s.subrange(i + 2, s.len() as int)),
    }
}

#[via_fn]
proof fn split_crlf_decreases(s: Seq<char>) {
    if find_from(s, crlf(), 0) is Some {
        lemma_find_from_some(s, crlf(), 0);
    }
}

/// `s` holds no CRLF pair.
pub open spec fn no_crlf(s: Seq<char>) -> bool {
    forall|j: int| !(#[trigger] matches_at(s, crlf(), j))
}

/// A piece without CRLF followed by a separator splits off as one piece.
pub proof fn lemma_split_crlf_concat(a: Seq<char>, rest: Seq<char>)
    requires
        no_crlf(a),
    ensures
        split_crlf(a + crlf() + rest) == seq![a] + split_crlf(rest),
{
    let s = a + crlf() + rest;
    let n = a.len() as int;
    assert(crlf()[0] == '\r' && crlf()[1] == '\n');
    assert(matches_at(s, crlf(), n)) by {
        assert forall|k: int| 0 <= k < 2 implies s[n + k] == #[trigger] crlf()[k] by {
            if k == 0 {
                assert(s[n + 0] == '\r');
            } else {
                assert(s[n + 1] == '\n');
            }
        }
    }
    assert forall|j: int| 0 <= j < n implies !matches_at(s, crlf(), j) by {
        if matches_at(s, crlf(), j) {
            assert(s[j + 0] == crlf()[0]);
            assert(s[j + 1] == crlf()[1]);
            if j + 1 < n {
                assert(matches_at(a, crlf(), j)) by {
                    assert forall|k: int| 0 <= k < 2 implies a[j + k] == #[trigger] crlf()[k] by {
                        assert(s[j + k] == crlf()[k]);
                        assert(a[j + k] == s[j + k]);
                    }
                }
            } else {
                assert(s[j + 1] == crlf()[0]);
            }
        }
    }
    lemma_find_from_first(s, crlf(), 0, n);
    assert(s.subrange(0, n) =~= a);
    assert(s.subrange(n + 2, s.len() as int) =~= rest);
}

/// A text without CRLF splits into itself alone.
pub proof fn lemma_split_crlf_whole(a: Seq<char>)
    requires
        no_crlf(a),
    ensures
        split_crlf(a) == seq![a],
{
    assert(forall|j: int| !(#[trigger] matches_at(a, crlf(), j)));
    lemma_find_from_none(a, crlf(), 0);
}

/// The views of a vector of character vectors.
pub open spec fn views_of(vs: Seq<Vec<char>>) -> Seq<Seq<char>> {
    vs.map_values(|w: Vec<char>| w@)
}

/// `pat` occurs in `v` at position `i`.
pub fn matches_exec(v: &Vec<char>, pat: &Vec<char>, i: usize) -> (r: bool)
    requires
        i + pat@.len() <= v@.len(),
    ensures
        r == matches_at(v@, pat@, i as int),
{
    let vlen = v.len();
    let mut k: usize = 0;
    while k < pat.len()
        invariant
            0 <= k <= pat@.len(),
            i + pat@.len() <= v@.len(),
            vlen == v@.len(),
            forall|m: int| 0 <= m < k ==> v@[i + m] == pat@[m],
        decreases pat@.len() - k,
    {
        if v[i + k] != pat[k] {
            return false;
        }
        k = k + 1;
    }
    true
}

/// Leftmost occurrence of `pat` in `v` at or after `from`.
pub fn find_sub(v: &Vec<char>, pat: &Vec<char>, from: usize) -> (r: Option<usize>)
    ensures
        match r {
            Some(k) => {
                &&& find_from(v@, pat@, from as int) == Some(k as int)
                &&& from <= k
                &&& matches_at(v@, pat@, k as int)
            },
            None => find_from(v@, pat@, from as int) is None,
        },
{
    if pat.len() == 0 {
        if from <= v.len() {
            return Some(from);
        } else {
            return None;
        }
    }
    if pat.len() > v.len() {
        proof {
            lemma_find_from_none(v@, pat@, from as int);
        }
        return None;
    }
    let last = v.len() - pat.len();
    if from > last {
        proof {
            assert forall|j: int| from <= j implies !matches_at(v@, pat@, j) by {}
            lemma_find_from_none(v@, pat@, from as int);
        }
        return None;
    }
    let mut i = from;
    while i <= last
        invariant
            from <= i,
            pat@.len() + last == v@.len(),
            1 <= pat@.len(),
            v@.len() <= usize::MAX,
            i <= last + 1,
            find_from(v@, pat@, from as int) == find_from(v@, pat@, i as int),
        decreases last - i + 1,
    {
        if matches_exec(v, pat, i) {
            return Some(i);
        }
        proof {
            assert(find_from(v@, pat@, i as int) == find_from(v@, pat@, i + 1));
        }
        i = i + 1;
    }
    proof {
        assert forall|j: int| i <= j implies !matches_at(v@, pat@, j) by {}
        lemma_find_from_none(v@, pat@, i as int);
    }
    None
}

/// The characters of `s`, in order.
pub fn str_to_chars(s: &str) -> (r: Vec<char>)
    ensures
        r@ == s@,
{
    let n = s.unicode_len();
    let mut v: Vec<char> = Vec::new();
    let mut i: usize = 0;
    while i < n
        invariant
            i <= n,
            n == s@.len(),
            v@ == s@.subrange(0, i as int),
        decreases n - i,
    {
        let c = s.get_char(i);
        v.push(c);
        proof {
            assert(v@ =~= s@.subrange(0, i + 1));
        }
        i = i + 1;
    }
    proof {
        assert(v@ =~= s@);
    }
    v
}


/// Whether `pat` occurs anywhere in `hay`.
pub fn contains_str(hay: &str, pat: &str) -> (r: bool)
    ensures
        r == contains_sub(hay@, pat@),
{
    let h = str_to_chars(hay);
    let p = str_to_chars(pat);
    find_sub(&h, &p, 0).is_some()
}

/// Character-for-character equality of two texts.
pub fn str_eq(a: &str, b: &str) -> (r: bool)
    ensures
        r == (a@ == b@),
{
    let na = a.unicode_len();
    let nb = b.unicode_len();
    if na != nb {
        return false;
    }
    let mut i: usize = 0;
    while i < na
        invariant
            i <= na,
            na == a@.len(),
            na == b@.len(),
            forall|k: int| 0 <= k < i ==> a@[k] == b@[k],
        decreases na - i,
    {
        if a.get_char(i) != b.get_char(i) {
            return false;
        }
        i = i + 1;
    }
    proof {
        assert(a@ =~= b@);
    }
    true
}

/// The characters `v[from..to]` as their own vector.
pub fn subvec(v: &Vec<char>, from: usize, to: usize) -> (r: Vec<char>)
    requires
        from <= to <= v@.len(),
    ensures
        r@ == v@.subrange(from as int, to as int),
{
    let mut w: Vec<char> = Vec::new();
    let mut i = from;
    while i < to
        invariant
            from <= i <= to <= v@.len(),
            w@ == v@.subrange(from as int, i as int),
        decreases to - i,
    {
        w.push(v[i]);
        proof {
            assert(w@ =~= v@.subrange(from as int, i + 1));
        }
        i = i + 1;
    }
    w
}

/// Relies on std's `String::push`: appends exactly the given character.
#[verifier::external_body]
pub fn push_char(s: &mut String, c: char)
    ensures
        final(s)@ == old(s)@.push(c),
{
    s.push(c);
}

/// The characters `v[from..to]` as a `String`.
pub fn chars_to_string(v: &Vec<char>, from: usize, to: usize) -> (r: String)
    requires
        from <= to <= v@.len(),
    ensures
        r@ == v@.subrange(from as int, to as int),
{
    let mut s = String::new();
    let mut i = from;
    while i < to
        invariant
            from <= i <= to <= v@.len(),
            s@ == v@.subrange(from as int, i as int),
        decreases to - i,
    {
        push_char(&mut s, v[i]);
        proof {
            assert(s@ =~= v@.subrange(from as int, i + 1));
        }
        i = i + 1;
    }
    s
}

} // verus!
