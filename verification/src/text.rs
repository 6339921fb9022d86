//! Character-level text operations with their mathematical meaning.
//!
//! Text is handled as `Vec<char>`; each operation is specified over
//! `Seq<char>` with the meaning that the corresponding `str` method
//! documents (`trim`, `lines`, `split`, `find`, `rfind`, ...).
use vstd::prelude::*;

verus! {

// ---------------------------------------------------------------------------
// Specifications
// ---------------------------------------------------------------------------

/// Characters with the Unicode `White_Space` property (what `char::is_whitespace` tests).
pub open spec fn is_ws(c: char) -> bool {
    ||| ('\u{9}' <= c && c <= '\u{d}')
    ||| c == ' '
    ||| c == '\u{85}'
    ||| c == '\u{a0}'
    ||| c == '\u{1680}'
    ||| ('\u{2000}' <= c && c <= '\u{200a}')
    ||| c == '\u{2028}'
    ||| c == '\u{2029}'
    ||| c == '\u{202f}'
    ||| c == '\u{205f}'
    ||| c == '\u{3000}'
}

/// `s` with leading whitespace removed.
pub open spec fn trim_start(s: Seq<char>) -> Seq<char>
    decreases s.len(),
{
    if s.len() > 0 && is_ws(s[0]) {
        trim_start(s.drop_first())
    } else {
        s
    }
}

/// `s` with trailing whitespace removed.
pub open spec fn trim_end(s: Seq<char>) -> Seq<char>
    decreases s.len(),
{
    if s.len() > 0 && is_ws(s.last()) {
        trim_end(s.drop_last())
    } else {
        s
    }
}

/// `s` with leading and trailing whitespace removed.
pub open spec fn trim(s: Seq<char>) -> Seq<char> {
    trim_end(trim_start(s))
}

/// `p` is a prefix of `s`.
pub open spec fn starts_with(s: Seq<char>, p: Seq<char>) -> bool {
    p.len() <= s.len() && s.take(p.len() as int) == p
}

/// `p` is a suffix of `s`.
pub open spec fn ends_with(s: Seq<char>, p: Seq<char>) -> bool {
    p.len() <= s.len() && s.skip(s.len() - p.len()) == p
}

/// Index of the first occurrence of `p` in `s`, or -1.
pub open spec fn index_of(s: Seq<char>, p: Seq<char>) -> int
    decreases s.len(),
{
    if p.len() > s.len() {
        -1
    } else if starts_with(s, p) {
        0
    } else if s.len() == 0 {
        -1
    } else {
        let r = index_of(s.drop_first(), p);
        if r < 0 {
            -1
        } else {
            r + 1
        }
    }
}

/// Index of the last occurrence of `p` in `s`, or -1.
pub open spec fn last_index_of(s: Seq<char>, p: Seq<char>) -> int
    decreases s.len(),
{
    if p.len() > s.len() {
        -1
    } else if ends_with(s, p) {
        s.len() - p.len()
    } else if s.len() == 0 {
        -1
    } else {
        last_index_of(s.drop_last(), p)
    }
}

/// `p` occurs in `s`.
pub open spec fn contains(s: Seq<char>, p: Seq<char>) -> bool {
    index_of(s, p) >= 0
}


/// `p` occurs in `s` starting at index `i`.
pub open spec fn matches_at(s: Seq<char>, p: Seq<char>, i: int) -> bool {
    0 <= i && i + p.len() <= s.len() && s.subrange(i, i + p.len()) == p
}


/// The views of a sequence of character vectors.
pub open spec fn views(v: Seq<Vec<char>>) -> Seq<Seq<char>> {
    Seq::new(v.len(), |i: int| v[i]@)
}

/// Pieces of `s` between the occurrences of the non-empty pattern `p`,
/// taken left to right without overlap (`str::split`).
pub open spec fn split(s: Seq<char>, p: Seq<char>) -> Seq<Seq<char>>
    decreases s.len(),
{
    let i = index_of(s, p);
    if i < 0 || p.len() == 0 {
        seq![s]
    } else {
        proof {
            lemma_index_of(s, p);
        }
        seq![s.take(i)] + split(s.skip(i + p.len()), p)
    }
}

/// The part of `s` before the first occurrence of `p` (the first piece of `split`).
pub open spec fn before(s: Seq<char>, p: Seq<char>) -> Seq<char> {
    let i = index_of(s, p);
    if i < 0 {
        s
    } else {
        s.take(i)
    }
}

/// `l` without one trailing carriage return.
pub open spec fn strip_cr(l: Seq<char>) -> Seq<char> {
    if l.len() > 0 && l.last() == '\r' {
        l.drop_last()
    } else {
        l
    }
}

/// The lines of `s` (`str::lines`): split at `\n`, a `\r` before the `\n`
/// removed, and no final empty line after a trailing `\n`.
pub open spec fn lines(s: Seq<char>) -> Seq<Seq<char>>
    decreases s.len(),
{
    if s.len() == 0 {
        seq![]
    } else {
        let i = index_of(s, seq!['\n']);
        if i < 0 {
            seq![s]
        } else {
            proof {
                lemma_index_of(s, seq!['\n']);
            }
            seq![strip_cr(s.take(i))] + lines(s.skip(i + 1))
        }
    }
}

/// Index of the first whitespace character of `s`, or its length.
pub open spec fn ws_index(s: Seq<char>) -> nat
    decreases s.len(),
{
    if s.len() == 0 {
        0
    } else if is_ws(s[0]) {
        0
    } else {
        1 + ws_index(s.drop_first())
    }
}

/// The whitespace-separated words of `s` (`str::split_whitespace`).
pub open spec fn words(s: Seq<char>) -> Seq<Seq<char>>
    decreases s.len(),
{
    let t = trim_start(s);
    if t.len() == 0 {
        seq![]
    } else {
        proof {
            lemma_trim_start_len(s);
            lemma_ws_index(t);
        }
        let k = ws_index(t);
        seq![t.take(k as int)] + words(t.skip(k as int))
    }
}

/// The pieces joined with `sep` between consecutive pieces (`[T]::join`).
pub open spec fn join(parts: Seq<Seq<char>>, sep: Seq<char>) -> Seq<char>
    decreases parts.len(),
{
    if parts.len() == 0 {
        seq![]
    } else if parts.len() == 1 {
        parts[0]
    } else {
        join(parts.drop_last(), sep) + sep + parts.last()
    }
}

/// `s` with every leading occurrence of the non-empty `p` removed
/// (`str::trim_start_matches`).
pub open spec fn trim_start_matches(s: Seq<char>, p: Seq<char>) -> Seq<char>
    decreases s.len(),
{
    if p.len() > 0 && starts_with(s, p) {
        trim_start_matches(s.skip(p.len() as int), p)
    } else {
        s
    }
}

/// `s` with every trailing occurrence of the non-empty `p` removed
/// (`str::trim_end_matches`).
pub open spec fn trim_end_matches(s: Seq<char>, p: Seq<char>) -> Seq<char>
    decreases s.len(),
{
    if p.len() > 0 && ends_with(s, p) {
        trim_end_matches(s.take(s.len() - p.len()), p)
    } else {
        s
    }
}

/// `s` without the prefix `p`, if `s` starts with it (`str::strip_prefix`).
pub open spec fn strip_prefix(s: Seq<char>, p: Seq<char>) -> Option<Seq<char>> {
    if starts_with(s, p) {
        Some(s.skip(p.len() as int))
    } else {
        None
    }
}

// ---------------------------------------------------------------------------
// Lemmas
// ---------------------------------------------------------------------------

pub proof fn lemma_trim_start_len(s: Seq<char>)
    ensures
        trim_start(s).len() <= s.len(),
        trim_start(s).len() > 0 ==> !is_ws(trim_start(s)[0]),
    decreases s.len(),
{
    if s.len() > 0 && is_ws(s[0]) {
        lemma_trim_start_len(s.drop_first());
    }
}

pub proof fn lemma_ws_index(s: Seq<char>)
    ensures
        ws_index(s) <= s.len(),
        forall|j: int| 0 <= j < ws_index(s) ==> !is_ws(#[trigger] s[j]),
        ws_index(s) < s.len() ==> is_ws(s[ws_index(s) as int]),
    decreases s.len(),
{
    if s.len() > 0 && !is_ws(s[0]) {
        lemma_ws_index(s.drop_first());
        assert forall|j: int| 0 <= j < ws_index(s) implies !is_ws(#[trigger] s[j]) by {
            if j > 0 {
                assert(s[j] == s.drop_first()[j - 1]);
            }
        }
    }
}

proof fn lemma_matches_at_drop_first(s: Seq<char>, p: Seq<char>, j: int)
    requires
        s.len() > 0,
        j >= 0,
    ensures
        matches_at(s.drop_first(), p, j) <==> matches_at(s, p, j + 1),
{
    if 0 <= j && j + p.len() <= s.len() - 1 {
        assert(s.drop_first().subrange(j, j + p.len()) =~= s.subrange(j + 1, j + 1 + p.len()));
    }
}

proof fn lemma_matches_at_drop_last(s: Seq<char>, p: Seq<char>, j: int)
    requires
        s.len() > 0,
        j + p.len() <= s.len() - 1,
    ensures
        matches_at(s.drop_last(), p, j) <==> matches_at(s, p, j),
{
    if 0 <= j {
        assert(s.drop_last().subrange(j, j + p.len()) =~= s.subrange(j, j + p.len()));
    }
}

/// `index_of` is the position of the first occurrence.
pub proof fn lemma_index_of(s: Seq<char>, p: Seq<char>)
    ensures
        index_of(s, p) >= -1,
        index_of(s, p) >= 0 ==> matches_at(s, p, index_of(s, p)),
        forall|j: int| 0 <= j < index_of(s, p) ==> !matches_at(s, p, j),
        index_of(s, p) < 0 ==> forall|j: int| !matches_at(s, p, j),
    decreases s.len(),
{
    if p.len() > s.len() {
    } else if starts_with(s, p) {
        assert(s.subrange(0, p.len() as int) =~= s.take(p.len() as int));
    } else if s.len() == 0 {
        assert forall|j: int| !matches_at(s, p, j) by {
            if matches_at(s, p, j) {
                assert(j == 0);
                assert(s.subrange(0, p.len() as int) =~= s.take(p.len() as int));
            }
        }
    } else {
        lemma_index_of(s.drop_first(), p);
        assert(!matches_at(s, p, 0)) by {
            assert(s.subrange(0, p.len() as int) =~= s.take(p.len() as int));
        }
        assert forall|j: int| 0 < j implies (matches_at(s, p, j) <==> matches_at(s.drop_first(), p, j - 1)) by {
            if 0 < j {
                lemma_matches_at_drop_first(s, p, j - 1);
            }
        }
    }
}

/// `last_index_of` is the position of the last occurrence.
pub proof fn lemma_last_index_of(s: Seq<char>, p: Seq<char>)
    ensures
        last_index_of(s, p) >= -1,
        last_index_of(s, p) >= 0 ==> matches_at(s, p, last_index_of(s, p)),
        forall|j: int| last_index_of(s, p) < j ==> !matches_at(s, p, j),
    decreases s.len(),
{
    if p.len() > s.len() {
    } else if ends_with(s, p) {
        assert(s.subrange(s.len() - p.len(), s.len() as int) =~= s.skip(s.len() - p.len()));
    } else if s.len() == 0 {
    } else {
        lemma_last_index_of(s.drop_last(), p);
        let r = last_index_of(s.drop_last(), p);
        if r >= 0 {
            lemma_matches_at_drop_last(s, p, r);
        }
        assert(!matches_at(s, p, s.len() - p.len())) by {
            assert(s.subrange(s.len() - p.len(), s.len() as int) =~= s.skip(s.len() - p.len()));
        }
        assert forall|j: int| last_index_of(s, p) < j implies !matches_at(s, p, j) by {
            if j + p.len() <= s.len() - 1 {
                lemma_matches_at_drop_last(s, p, j);
            }
        }
    }
}

/// `trim_start` drops exactly the leading whitespace run.
pub proof fn lemma_trim_start(s: Seq<char>, k: int)
    requires
        0 <= k <= s.len(),
        forall|j: int| 0 <= j < k ==> is_ws(s[j]),
        k == s.len() || !is_ws(s[k]),
    ensures
        trim_start(s) == s.skip(k),
    decreases k,
{
    if k == 0 {
        assert(s.skip(0) =~= s);
    } else {
        lemma_trim_start(s.drop_first(), k - 1);
        assert(s.drop_first().skip(k - 1) =~= s.skip(k));
    }
}

/// `trim_end` drops exactly the trailing whitespace run.
pub proof fn lemma_trim_end(s: Seq<char>, k: int)
    requires
        0 <= k <= s.len(),
        forall|j: int| k <= j < s.len() ==> is_ws(s[j]),
        k == 0 || !is_ws(s[k - 1]),
    ensures
        trim_end(s) == s.take(k),
    decreases s.len() - k,
{
    if k == s.len() {
        assert(s.take(k) =~= s);
    } else {
        lemma_trim_end(s.drop_last(), k);
        assert(s.drop_last().take(k) =~= s.take(k));
    }
}

/// A match with none before it is the first occurrence.
pub proof fn lemma_index_of_unique(s: Seq<char>, p: Seq<char>, i: int)
    requires
        matches_at(s, p, i),
        forall|j: int| 0 <= j < i ==> !matches_at(s, p, j),
    ensures
        index_of(s, p) == i,
{
    lemma_index_of(s, p);
}

/// A sequence ends with what was appended to it.
pub proof fn lemma_ends_with_append(x: Seq<char>, y: Seq<char>)
    ensures
        ends_with(x + y, y),
{
    assert((x + y).skip(x.len() as int) =~= y);
}

/// Appending one more copy of `p` does not change what trimming `p` from the end leaves.
pub proof fn lemma_trim_end_matches_append(s: Seq<char>, p: Seq<char>)
    requires
        p.len() > 0,
    ensures
        trim_end_matches(s + p, p) == trim_end_matches(s, p),
{
    let t = s + p;
    assert(t.skip(t.len() - p.len()) =~= p);
    assert(t.take(t.len() - p.len()) =~= s);
}

/// Splitting at a separator character that `x` does not contain.
pub proof fn lemma_split_sep(x: Seq<char>, c: char, rest: Seq<char>)
    requires
        !x.contains(c),
    ensures
        split(x + seq![c] + rest, seq![c]) == seq![x] + split(rest, seq![c]),
{
    let s = x + seq![c] + rest;
    let p = seq![c];
    assert(s.subrange(x.len() as int, x.len() as int + 1) =~= p);
    assert forall|j: int| 0 <= j < x.len() implies !matches_at(s, p, j) by {
        if matches_at(s, p, j) {
            assert(s.subrange(j, j + 1)[0] == s[j]);
            assert(x[j] == c);
        }
    }
    lemma_index_of_unique(s, p, x.len() as int);
    assert(s.take(x.len() as int) =~= x);
    assert(s.skip(x.len() as int + 1) =~= rest);
}

/// A sequence without the separator character splits into itself.
pub proof fn lemma_split_none(x: Seq<char>, c: char)
    requires
        !x.contains(c),
    ensures
        split(x, seq![c]) == seq![x],
{
    let p = seq![c];
    lemma_index_of(x, p);
    if index_of(x, p) >= 0 {
        let i = index_of(x, p);
        assert(x.subrange(i, i + 1)[0] == x[i]);
        assert(x.contains(x[i]));
    }
}

// ---------------------------------------------------------------------------
// Executable operations
// ---------------------------------------------------------------------------

/// `char::is_whitespace`.
pub fn is_whitespace(c: char) -> (b: bool)
    ensures
        b == is_ws(c),
{
    ('\u{9}' <= c && c <= '\u{d}') || c == ' ' || c == '\u{85}' || c == '\u{a0}' || c == '\u{1680}'
        || ('\u{2000}' <= c && c <= '\u{200a}') || c == '\u{2028}' || c == '\u{2029}' || c
        == '\u{202f}' || c == '\u{205f}' || c == '\u{3000}'
}

/// The characters `s[a..b]`.
pub fn slice_chars(s: &[char], a: usize, b: usize) -> (r: Vec<char>)
    requires
        a <= b <= s@.len(),
    ensures
        r@ == s@.subrange(a as int, b as int),
{
    let mut r: Vec<char> = Vec::new();
    let mut i = a;
    while i < b
        invariant
            a <= i <= b <= s@.len(),
            r@ == s@.subrange(a as int, i as int),
        decreases b - i,
    {
        r.push(s[i]);
        assert(s@.subrange(a as int, i as int).push(s@[i as int]) =~= s@.subrange(a as int, i + 1));
        i += 1;
    }
    r
}

/// Whether `p` occurs in `s` at index `i`.
pub fn matches_at_exec(s: &[char], p: &[char], i: usize) -> (b: bool)
    ensures
        b == matches_at(s@, p@, i as int),
{
    if i > s.len() || p.len() > s.len() - i {
        return false;
    }
    let mut k: usize = 0;
    while k < p.len()
        invariant
            i + p@.len() <= s@.len(),
            k <= p@.len(),
            i <= s.len(),
            k < p.len() ==> i + k < s.len(),
            forall|j: int| 0 <= j < k ==> s@[i + j] == p@[j],
        decreases p.len() - k,
    {
        if s[i + k] != p[k] {
            assert(s@.subrange(i as int, i + p@.len())[k as int] != p@[k as int]);
            return false;
        }
        k += 1;
    }
    assert(s@.subrange(i as int, i + p@.len()) =~= p@);
    true
}

/// Position of the first occurrence of `p` in `s` (`str::find`).
pub fn find(s: &[char], p: &[char]) -> (r: Option<usize>)
    ensures
        match r {
            Some(i) => i == index_of(s@, p@),
            None => index_of(s@, p@) < 0,
        },
{
    proof {
        lemma_index_of(s@, p@);
    }
    if p.len() > s.len() {
        assert forall|j: int| !matches_at(s@, p@, j) by {}
        return None;
    }
    if p.len() == 0 {
        assert(s@.take(0) =~= p@);
        return Some(0);
    }
    let last = s.len() - p.len();
    let mut i: usize = 0;
    while i <= last
        invariant
            last == s@.len() - p@.len(),
            last < s.len(),
            i <= last + 1,
            forall|j: int| 0 <= j < i ==> !matches_at(s@, p@, j),
            index_of(s@, p@) >= 0 ==> matches_at(s@, p@, index_of(s@, p@)),
            forall|j: int| 0 <= j < index_of(s@, p@) ==> !matches_at(s@, p@, j),
            index_of(s@, p@) < 0 ==> forall|j: int| !matches_at(s@, p@, j),
            index_of(s@, p@) >= -1,
        decreases last + 1 - i,
    {
        if matches_at_exec(s, p, i) {
            return Some(i);
        }
        i += 1;
    }
    None
}

/// Position of the last occurrence of `p` in `s` (`str::rfind`).
pub fn rfind(s: &[char], p: &[char]) -> (r: Option<usize>)
    ensures
        match r {
            Some(i) => i == last_index_of(s@, p@),
            None => last_index_of(s@, p@) < 0,
        },
{
    proof {
        lemma_last_index_of(s@, p@);
    }
    if p.len() > s.len() {
        return None;
    }
    if p.len() == 0 {
        assert(s@.skip(s@.len() as int) =~= p@);
        return Some(s.len());
    }
    let mut i: usize = s.len() - p.len() + 1;
    while i > 0
        invariant
            i <= s@.len() - p@.len() + 1,
            forall|j: int| i <= j ==> !matches_at(s@, p@, j),
            last_index_of(s@, p@) >= 0 ==> matches_at(s@, p@, last_index_of(s@, p@)),
            forall|j: int| last_index_of(s@, p@) < j ==> !matches_at(s@, p@, j),
            last_index_of(s@, p@) >= -1,
        decreases i,
    {
        if matches_at_exec(s, p, i - 1) {
            return Some(i - 1);
        }
        i -= 1;
    }
    None
}

/// `str::contains`.
pub fn contains_exec(s: &[char], p: &[char]) -> (b: bool)
    ensures
        b == contains(s@, p@),
{
    find(s, p).is_some()
}

/// `str::starts_with`.
pub fn starts_with_exec(s: &[char], p: &[char]) -> (b: bool)
    ensures
        b == starts_with(s@, p@),
{
    let b = matches_at_exec(s, p, 0);
    assert(s@.take(p@.len() as int) =~= s@.subrange(0, p@.len() as int));
    b
}

/// `str::ends_with`.
pub fn ends_with_exec(s: &[char], p: &[char]) -> (b: bool)
    ensures
        b == ends_with(s@, p@),
{
    if p.len() > s.len() {
        return false;
    }
    let b = matches_at_exec(s, p, s.len() - p.len());
    assert(s@.skip(s@.len() - p@.len()) =~= s@.subrange(s@.len() - p@.len(), s@.len() as int));
    b
}

/// `str::trim`.
pub fn trim_exec(s: &[char]) -> (r: Vec<char>)
    ensures
        r@ == trim(s@),
{
    let mut lo: usize = 0;
    while lo < s.len() && is_whitespace(s[lo])
        invariant
            lo <= s@.len(),
            forall|j: int| 0 <= j < lo ==> is_ws(s@[j]),
        decreases s.len() - lo,
    {
        lo += 1;
    }
    proof {
        lemma_trim_start(s@, lo as int);
    }
    let mut hi: usize = s.len();
    while hi > lo && is_whitespace(s[hi - 1])
        invariant
            lo <= hi <= s@.len(),
            forall|j: int| hi <= j < s@.len() ==> is_ws(s@[j]),
        decreases hi,
    {
        hi -= 1;
    }
    proof {
        let t = s@.skip(lo as int);
        lemma_trim_end(t, hi - lo);
        assert(t.take(hi - lo) =~= s@.subrange(lo as int, hi as int));
    }
    slice_chars(s, lo, hi)
}

/// Appends the characters of `x` to `out`.
pub fn append_chars(out: &mut Vec<char>, x: &[char])
    ensures
        final(out)@ == old(out)@ + x@,
{
    let mut i: usize = 0;
    while i < x.len()
        invariant
            i <= x@.len(),
            out@ == old(out)@ + x@.take(i as int),
        decreases x.len() - i,
    {
        out.push(x[i]);
        assert(old(out)@ + x@.take(i as int).push(x@[i as int]) =~= old(out)@ + x@.take(i + 1));
        i += 1;
    }
    assert(x@.take(x@.len() as int) =~= x@);
}

proof fn lemma_matches_at_skip(s: Seq<char>, p: Seq<char>, k: int)
    requires
        0 <= k <= s.len(),
    ensures
        matches_at(s, p, k) <==> starts_with(s.skip(k), p),
        starts_with(s.skip(k), p) ==> s.skip(k).skip(p.len() as int) =~= s.skip(k + p.len()),
{
    if k + p.len() <= s.len() {
        assert(s.skip(k).take(p.len() as int) =~= s.subrange(k, k + p.len()));
    }
}

proof fn lemma_ends_at(s: Seq<char>, p: Seq<char>, e: int)
    requires
        0 <= e <= s.len(),
    ensures
        (e >= p.len() && matches_at(s, p, e - p.len())) <==> ends_with(s.take(e), p),
        ends_with(s.take(e), p) ==> s.take(e).take(e - p.len()) =~= s.take(e - p.len()),
{
    if e >= p.len() {
        assert(s.take(e).skip(e - p.len()) =~= s.subrange(e - p.len(), e));
    }
}

/// `str::split` with a non-empty pattern.
pub fn split_exec(s: &[char], p: &[char]) -> (r: Vec<Vec<char>>)
    requires
        p@.len() > 0,
    ensures
        views(r@) == split(s@, p@),
{
    let mut out: Vec<Vec<char>> = Vec::new();
    let mut start: usize = 0;
    assert(s@.skip(0) =~= s@);
    loop
        invariant
            p@.len() > 0,
            start <= s@.len(),
            split(s@, p@) == views(out@) + split(s@.skip(start as int), p@),
        decreases s@.len() - start,
    {
        let rest = vstd::slice::slice_subrange(s, start, s.len());
        assert(rest@ =~= s@.skip(start as int));
        match find(rest, p) {
            Some(i) => {
                proof {
                    lemma_index_of(rest@, p@);
                }
                let piece = slice_chars(rest, 0, i);
                assert(piece@ =~= rest@.take(i as int));
                let ghost old_out = out@;
                out.push(piece);
                assert(views(out@) =~= views(old_out) + seq![piece@]);
                assert(rest@.skip(i + p@.len()) =~= s@.skip(start + i + p@.len()));
                start = start + i + p.len();
            },
            None => {
                let ghost old_out = out@;
                let whole = slice_chars(rest, 0, rest.len());
                assert(whole@ =~= rest@);
                out.push(whole);
                assert(views(out@) =~= views(old_out) + seq![rest@]);
                return out;
            },
        }
    }
}

/// The part before the first occurrence of `p` (`str::split(p).next()`).
pub fn before_exec(s: &[char], p: &[char]) -> (r: Vec<char>)
    ensures
        r@ == before(s@, p@),
{
    match find(s, p) {
        Some(i) => {
            proof {
                lemma_index_of(s@, p@);
            }
            let r = slice_chars(s, 0, i);
            assert(r@ =~= s@.take(i as int));
            r
        },
        None => slice_chars(s, 0, s.len()),
    }
}

/// `str::lines`.
pub fn lines_exec(s: &[char]) -> (r: Vec<Vec<char>>)
    ensures
        views(r@) == lines(s@),
{
    let nl = ['\n'];
    let nl_s: &[char] = &nl;
    assert(nl_s@ =~= seq!['\n']);
    let mut out: Vec<Vec<char>> = Vec::new();
    let mut start: usize = 0;
    assert(s@.skip(0) =~= s@);
    while start < s.len()
        invariant
            nl_s@ == seq!['\n'],
            start <= s@.len(),
            lines(s@) == views(out@) + lines(s@.skip(start as int)),
        decreases s@.len() - start,
    {
        let rest = vstd::slice::slice_subrange(s, start, s.len());
        assert(rest@ =~= s@.skip(start as int));
        match find(rest, nl_s) {
            Some(i) => {
                proof {
                    lemma_index_of(rest@, nl_s@);
                }
                let mut end = i;
                if i > 0 && rest[i - 1] == '\r' {
                    end = i - 1;
                }
                let piece = slice_chars(rest, 0, end);
                assert(piece@ =~= strip_cr(rest@.take(i as int)));
                let ghost old_out = out@;
                out.push(piece);
                assert(views(out@) =~= views(old_out) + seq![piece@]);
                assert(rest@.skip(i + 1) =~= s@.skip(start + i + 1));
                start = start + i + 1;
            },
            None => {
                let ghost old_out = out@;
                let whole = slice_chars(rest, 0, rest.len());
                assert(whole@ =~= rest@);
                out.push(whole);
                assert(views(out@) =~= views(old_out) + seq![rest@]);
                assert(s@.skip(s@.len() as int) =~= Seq::<char>::empty());
                assert(lines(Seq::<char>::empty()) =~= Seq::<Seq<char>>::empty());
                assert(views(out@) + Seq::<Seq<char>>::empty() =~= views(out@));
                return out;
            },
        }
    }
    assert(s@.skip(start as int) =~= Seq::<char>::empty());
    assert(views(out@) + Seq::<Seq<char>>::empty() =~= views(out@));
    out
}

/// `str::split_whitespace`.
pub fn words_exec(s: &[char]) -> (r: Vec<Vec<char>>)
    ensures
        views(r@) == words(s@),
{
    let mut out: Vec<Vec<char>> = Vec::new();
    let mut start: usize = 0;
    assert(s@.skip(0) =~= s@);
    loop
        invariant
            start <= s@.len(),
            words(s@) == views(out@) + words(s@.skip(start as int)),
        decreases s@.len() - start,
    {
        let mut lo = start;
        while lo < s.len() && is_whitespace(s[lo])
            invariant
                start <= lo <= s@.len(),
                forall|j: int| start <= j < lo ==> is_ws(s@[j]),
            decreases s.len() - lo,
        {
            lo += 1;
        }
        proof {
            let t = s@.skip(start as int);
            assert forall|j: int| 0 <= j < lo - start implies is_ws(t[j]) by {
                assert(t[j] == s@[start + j]);
            }
            lemma_trim_start(t, lo - start);
            assert(t.skip(lo - start) =~= s@.skip(lo as int));
        }
        if lo == s.len() {
            assert(s@.skip(lo as int) =~= Seq::<char>::empty());
            assert(views(out@) + Seq::<Seq<char>>::empty() =~= views(out@));
            return out;
        }
        let mut hi = lo;
        while hi < s.len() && !is_whitespace(s[hi])
            invariant
                lo <= hi <= s@.len(),
                forall|j: int| lo <= j < hi ==> !is_ws(s@[j]),
            decreases s.len() - hi,
        {
            hi += 1;
        }
        proof {
            let t = s@.skip(lo as int);
            lemma_ws_index(t);
            let k = ws_index(t);
            if k < hi - lo {
                assert(t[k as int] == s@[lo + k]);
            }
            if k > hi - lo {
                assert(t[hi - lo] == s@[hi as int]);
            }
            assert(k == hi - lo);
            assert(t.skip(k as int) =~= s@.skip(hi as int));
            assert(t.take(k as int) =~= s@.subrange(lo as int, hi as int));
        }
        let ghost old_out = out@;
        out.push(slice_chars(s, lo, hi));
        assert(views(out@) =~= views(old_out) + seq![s@.subrange(lo as int, hi as int)]);
        start = hi;
    }
}

/// `[T]::join` of character sequences.
pub fn join_exec(parts: &Vec<Vec<char>>, sep: &[char]) -> (r: Vec<char>)
    ensures
        r@ == join(views(parts@), sep@),
{
    let mut out: Vec<char> = Vec::new();
    let mut i: usize = 0;
    while i < parts.len()
        invariant
            i <= parts@.len(),
            out@ == join(views(parts@).take(i as int), sep@),
        decreases parts.len() - i,
    {
        let ghost before_take = views(parts@).take(i as int);
        if i > 0 {
            append_chars(&mut out, sep);
        }
        append_chars(&mut out, parts[i].as_slice());
        proof {
            let t = views(parts@).take(i + 1);
            assert(t.drop_last() =~= before_take);
            if i == 0 {
                assert(out@ =~= t[0]);
            }
        }
        i += 1;
    }
    assert(views(parts@).take(parts@.len() as int) =~= views(parts@));
    out
}

/// `str::trim_start_matches` with a non-empty pattern.
pub fn trim_start_matches_exec(s: &[char], p: &[char]) -> (r: Vec<char>)
    requires
        p@.len() > 0,
    ensures
        r@ == trim_start_matches(s@, p@),
{
    let mut start: usize = 0;
    assert(s@.skip(0) =~= s@);
    loop
        invariant
            p@.len() > 0,
            start <= s@.len(),
            trim_start_matches(s@, p@) == trim_start_matches(s@.skip(start as int), p@),
        ensures
            start <= s@.len(),
            !matches_at(s@, p@, start as int),
            trim_start_matches(s@, p@) == trim_start_matches(s@.skip(start as int), p@),
        decreases s@.len() - start,
    {
        if !matches_at_exec(s, p, start) {
            break;
        }
        proof {
            lemma_matches_at_skip(s@, p@, start as int);
        }
        assert(start + p.len() <= s.len());
        start = start + p.len();
    }
    proof {
        lemma_matches_at_skip(s@, p@, start as int);
    }
    let r = slice_chars(s, start, s.len());
    assert(r@ =~= s@.skip(start as int));
    r
}

/// `str::trim_end_matches` with a non-empty pattern.
pub fn trim_end_matches_exec(s: &[char], p: &[char]) -> (r: Vec<char>)
    requires
        p@.len() > 0,
    ensures
        r@ == trim_end_matches(s@, p@),
{
    let mut end: usize = s.len();
    assert(s@.take(s@.len() as int) =~= s@);
    while end >= p.len() && matches_at_exec(s, p, end - p.len())
        invariant
            p@.len() > 0,
            end <= s@.len(),
            trim_end_matches(s@, p@) == trim_end_matches(s@.take(end as int), p@),
        decreases end,
    {
        proof {
            lemma_ends_at(s@, p@, end as int);
        }
        end = end - p.len();
    }
    proof {
        lemma_ends_at(s@, p@, end as int);
    }
    let r = slice_chars(s, 0, end);
    assert(r@ =~= s@.take(end as int));
    r
}

/// `str::strip_prefix`.
pub fn strip_prefix_exec(s: &[char], p: &[char]) -> (r: Option<Vec<char>>)
    ensures
        match r {
            Some(v) => strip_prefix(s@, p@) == Some(v@),
            None => strip_prefix(s@, p@) is None,
        },
{
    if starts_with_exec(s, p) {
        let v = slice_chars(s, p.len(), s.len());
        assert(v@ =~= s@.skip(p@.len() as int));
        Some(v)
    } else {
        None
    }
}

/// Appends one character to a string (`String::push`); the contract claims
/// that the string afterwards is the old one with `c` at the end.
#[verifier::external_body]
pub(crate) fn push_char(s: &mut String, c: char)
    ensures
        final(s)@ == old(s)@.push(c),
{
    s.push(c);
}

/// The characters of a string slice, in order.
pub fn to_chars(s: &str) -> (v: Vec<char>)
    ensures
        v@ == s@,
{
    let mut v: Vec<char> = Vec::new();
    for c in it: s.chars()
        invariant
            v@ == it.seq().take(it.index() as int),
            it.seq() == s@,
    {
        v.push(c);
    }
    v
}

/// A string made of the given characters.
pub fn from_chars(v: &[char]) -> (s: String)
    ensures
        s@ == v@,
{
    let mut s = String::new();
    let mut i: usize = 0;
    while i < v.len()
        invariant
            i <= v.len(),
            s@ == v@.take(i as int),
        decreases v.len() - i,
    {
        push_char(&mut s, v[i]);
        assert(v@.take(i as int).push(v@[i as int]) =~= v@.take(i + 1));
        i += 1;
    }
    assert(v@.take(v.len() as int) =~= v@);
    s
}

/// The part of `s` before the first `a` or `b` (`str::split(&[a, b][..]).next()`).
pub open spec fn before_either(s: Seq<char>, a: char, b: char) -> Seq<char>
    decreases s.len(),
{
    if s.len() == 0 {
        s
    } else if s[0] == a || s[0] == b {
        Seq::empty()
    } else {
        seq![s[0]] + before_either(s.drop_first(), a, b)
    }
}

proof fn lemma_before_either(s: Seq<char>, a: char, b: char, k: int)
    requires
        0 <= k <= s.len(),
        forall|j: int| 0 <= j < k ==> s[j] != a && s[j] != b,
        k == s.len() || s[k] == a || s[k] == b,
    ensures
        before_either(s, a, b) == s.take(k),
    decreases k,
{
    if k == 0 {
        assert(s.take(0) =~= Seq::<char>::empty());
    } else {
        lemma_before_either(s.drop_first(), a, b, k - 1);
        assert(seq![s[0]] + s.drop_first().take(k - 1) =~= s.take(k));
    }
}

/// `str::split(&[a, b][..]).next()`.
pub fn before_either_exec(s: &[char], a: char, b: char) -> (r: Vec<char>)
    ensures
        r@ == before_either(s@, a, b),
{
    let mut k: usize = 0;
    while k < s.len() && s[k] != a && s[k] != b
        invariant
            k <= s@.len(),
            forall|j: int| 0 <= j < k ==> s@[j] != a && s@[j] != b,
        decreases s.len() - k,
    {
        k += 1;
    }
    proof {
        lemma_before_either(s@, a, b, k as int);
    }
    slice_chars(s, 0, k)
}

/// What `str::to_lowercase` returns for `s`: the Unicode lowercase mapping
/// of each character (`char::to_lowercase`), with the final-sigma rule.
pub uninterp spec fn unicode_lowercase(s: Seq<char>) -> Seq<char>;

/// All characters of `s` are ASCII.
pub open spec fn all_ascii(s: Seq<char>) -> bool {
    forall|i: int| 0 <= i < s.len() ==> (#[trigger] s[i] as u32) < 128
}

/// The ASCII lowercase of a character: `A`..`Z` become `a`..`z`, the rest stay.
pub open spec fn ascii_lower(c: char) -> char {
    if 'A' <= c && c <= 'Z' {
        ((c as u32) + 32) as char
    } else {
        c
    }
}

/// `str::to_lowercase`. The contract claims that the result is a function
/// of the argument alone and, for a string made of ASCII characters only,
/// that each uppercase ASCII letter becomes its lowercase letter and the
/// other characters stay (the Unicode lowercase mapping of ASCII); the
/// Unicode tables that decide other characters are not written out here.
#[verifier::external_body]
pub(crate) fn to_lowercase(s: &str) -> (r: String)
    ensures
        r@ == unicode_lowercase(s@),
        all_ascii(s@) ==> r@ == s@.map_values(|c: char| ascii_lower(c)),
{
    s.to_lowercase()
}

/// The lowercase form of a character sequence (`str::to_lowercase`).
pub fn lowercase_chars(v: &[char]) -> (r: Vec<char>)
    ensures
        r@ == unicode_lowercase(v@),
        all_ascii(v@) ==> r@ == v@.map_values(|c: char| ascii_lower(c)),
{
    let s = from_chars(v);
    let l = to_lowercase(s.as_str());
    to_chars(l.as_str())
}

/// Whether `char::is_alphanumeric` holds of `c` (Unicode `Alphabetic` or a numeric category).
pub uninterp spec fn unicode_alphanumeric(c: char) -> bool;

/// `char::is_alphanumeric`. The contract claims the result is the named
/// property of `c`, and, as the documentation gives for ASCII, that ASCII
/// letters and digits have it and the other ASCII characters do not; it
/// does not write out the Unicode tables for other characters.
#[verifier::external_body]
pub(crate) fn is_alphanumeric(c: char) -> (b: bool)
    ensures
        b == unicode_alphanumeric(c),
        ('a' <= c && c <= 'z') || ('A' <= c && c <= 'Z') || ('0' <= c && c <= '9') ==> b,
        (c as u32) < 128 && !(('a' <= c && c <= 'z') || ('A' <= c && c <= 'Z') || ('0' <= c
            && c <= '9')) ==> !b,
{
    c.is_alphanumeric()
}

/// Whether two character sequences are equal.
pub fn chars_eq(a: &[char], b: &[char]) -> (r: bool)
    ensures
        r == (a@ == b@),
{
    if a.len() != b.len() {
        return false;
    }
    let mut i: usize = 0;
    while i < a.len()
        invariant
            a@.len() == b@.len(),
            i <= a@.len(),
            forall|j: int| 0 <= j < i ==> a@[j] == b@[j],
        decreases a.len() - i,
    {
        if a[i] != b[i] {
            return false;
        }
        i += 1;
    }
    assert(a@ =~= b@);
    true
}

/// Whether `v` holds a sequence equal to `w`.
pub fn vec_contains(v: &Vec<Vec<char>>, w: &[char]) -> (r: bool)
    ensures
        r == views(v@).contains(w@),
{
    let mut i: usize = 0;
    while i < v.len()
        invariant
            i <= v@.len(),
            forall|j: int| 0 <= j < i ==> v@[j]@ != w@,
        decreases v.len() - i,
    {
        if chars_eq(v[i].as_slice(), w) {
            assert(views(v@)[i as int] == w@);
            return true;
        }
        i += 1;
    }
    assert forall|j: int| 0 <= j < views(v@).len() implies views(v@)[j] != w@ by {
        assert(views(v@)[j] == v@[j]@);
    }
    false
}

/// The number of bytes `c` takes in UTF-8 (`char::len_utf8`).
pub open spec fn utf8_width(c: char) -> nat {
    if (c as u32) < 0x80 {
        1
    } else if (c as u32) < 0x800 {
        2
    } else if (c as u32) < 0x10000 {
        3
    } else {
        4
    }
}

/// The number of bytes `s` takes in UTF-8 (`str::len`).
pub open spec fn utf8_len(s: Seq<char>) -> nat
    decreases s.len(),
{
    if s.len() == 0 {
        0
    } else {
        utf8_width(s[0]) + utf8_len(s.drop_first())
    }
}

/// Whether `s` takes fewer than `limit` bytes in UTF-8.
pub fn utf8_len_below(s: &[char], limit: usize) -> (b: bool)
    requires
        0 < limit < 1000,
    ensures
        b == (utf8_len(s@) < limit),
{
    let mut acc: usize = 0;
    let mut i: usize = 0;
    assert(s@.skip(0) =~= s@);
    while i < s.len()
        invariant
            i <= s@.len(),
            acc < limit,
            limit < 1000,
            utf8_len(s@) == acc + utf8_len(s@.skip(i as int)),
        decreases s.len() - i,
    {
        assert(s@.skip(i as int)[0] == s@[i as int]);
        assert(s@.skip(i as int).drop_first() =~= s@.skip(i + 1));
        let c = s[i];
        let w: usize = if (c as u32) < 0x80 {
            1
        } else if (c as u32) < 0x800 {
            2
        } else if (c as u32) < 0x10000 {
            3
        } else {
            4
        };
        acc = acc + w;
        i += 1;
        if acc >= limit {
            return false;
        }
    }
    true
}

/// Whether two strings are equal.
pub fn str_eq(a: &str, b: &str) -> (r: bool)
    ensures
        r == (a@ == b@),
{
    let x = to_chars(a);
    let y = to_chars(b);
    chars_eq(x.as_slice(), y.as_slice())
}

/// Whether `s` starts with `p` (`str::starts_with`).
pub fn str_starts_with(s: &str, p: &str) -> (r: bool)
    ensures
        r == starts_with(s@, p@),
{
    let x = to_chars(s);
    let y = to_chars(p);
    starts_with_exec(x.as_slice(), y.as_slice())
}

} // verus!
