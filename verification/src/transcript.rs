//! Finding a moment in a transcript: by keyword (first match) or by
//! sentence (best word overlap), in subtitle files (`.srt`, `.vtt`) or in
//! plain text with bracketed timestamps.
use vstd::prelude::*;
use crate::screenshot::{
    format_srt_timestamp_chars, line_timestamp, regex_timestamp_from_line,
    spec_format_srt_timestamp,
};
use crate::text::{
    before, before_exec, contains, contains_exec, ends_with, ends_with_exec, from_chars, join,
    join_exec, lines, lines_exec, lowercase_chars, slice_chars, split, split_exec, strip_prefix,
    strip_prefix_exec, to_chars, trim, trim_exec, unicode_lowercase, vec_contains, views, words,
    words_exec,
};

verus! {

/// `-->`, which separates start and end on a subtitle timing line.
pub open spec fn arrow() -> Seq<char> {
    seq!['-', '-', '>']
}

/// A blank line, which separates subtitle blocks.
pub open spec fn blank_line() -> Seq<char> {
    seq!['\n', '\n']
}

/// The header of a WebVTT file.
pub open spec fn webvtt_header() -> Seq<char> {
    seq!['W', 'E', 'B', 'V', 'T', 'T']
}

/// The timestamp in effect before any bracketed timestamp is seen.
pub open spec fn zero_timestamp() -> Seq<char> {
    seq!['0', '0', ':', '0', '0', ':', '0', '0']
}

/// The file name marks an SRT file.
pub open spec fn is_srt(name: Seq<char>) -> bool {
    ends_with(name, seq!['.', 's', 'r', 't'])
}

/// The file name marks a WebVTT file.
pub open spec fn is_vtt(name: Seq<char>) -> bool {
    ends_with(name, seq!['.', 'v', 't', 't'])
}

/// The subtitle blocks of a subtitle file: the content (after the `WEBVTT`
/// header, for a non-SRT file) split at blank lines.
pub open spec fn subtitle_blocks(name: Seq<char>, content: Seq<char>) -> Seq<Seq<char>> {
    if is_srt(name) {
        split(content, blank_line())
    } else {
        let body = match strip_prefix(content, webvtt_header()) {
            Some(b) => b,
            None => content,
        };
        split(body, blank_line())
    }
}

/// Index of the first line that contains `p`, or -1.
pub open spec fn first_with(ls: Seq<Seq<char>>, p: Seq<char>) -> int
    decreases ls.len(),
{
    if ls.len() == 0 {
        -1
    } else if contains(ls[0], p) {
        0
    } else {
        let r = first_with(ls.drop_first(), p);
        if r < 0 {
            -1
        } else {
            r + 1
        }
    }
}

/// The (timestamp, text) of a subtitle block: it needs at least two lines
/// and a timing line (containing `-->`); the timestamp is the start time
/// normalised for ffmpeg, the text is the lines after the timing line
/// joined with spaces and trimmed.
pub open spec fn block_entry(block: Seq<char>) -> Option<(Seq<char>, Seq<char>)> {
    let ls = lines(block);
    let idx = first_with(ls, arrow());
    if ls.len() < 2 || idx < 0 {
        None
    } else {
        let start = trim(before(ls[idx], arrow()));
        Some((spec_format_srt_timestamp(start), trim(join(ls.skip(idx + 1), seq![' ']))))
    }
}

/// The first block whose text contains `q` after lowercasing.
pub open spec fn first_block_match(blocks: Seq<Seq<char>>, q: Seq<char>) -> Option<
    (Seq<char>, Seq<char>),
>
    decreases blocks.len(),
{
    if blocks.len() == 0 {
        None
    } else {
        match block_entry(blocks[0]) {
            Some(e) => if contains(unicode_lowercase(e.1), q) {
                Some(e)
            } else {
                first_block_match(blocks.drop_first(), q)
            },
            None => first_block_match(blocks.drop_first(), q),
        }
    }
}

/// The first line that contains `q` after lowercasing, with the timestamp
/// in effect at that line (its own bracketed timestamp, else the last one
/// seen, else `last`), and the line trimmed.
pub open spec fn first_line_match(ls: Seq<Seq<char>>, q: Seq<char>, last: Seq<char>) -> Option<
    (Seq<char>, Seq<char>),
>
    decreases ls.len(),
{
    if ls.len() == 0 {
        None
    } else {
        let ts = match line_timestamp(ls[0]) {
            Some(t) => t,
            None => last,
        };
        if contains(unicode_lowercase(ls[0]), q) {
            Some((ts, trim(ls[0])))
        } else {
            first_line_match(ls.drop_first(), q, ts)
        }
    }
}

/// Where a keyword first occurs in a transcript named `name` with the given
/// content, matched without regard to case.
pub open spec fn spec_search_transcript(name: Seq<char>, content: Seq<char>, query: Seq<char>) -> Option<
    (Seq<char>, Seq<char>),
> {
    let q = unicode_lowercase(query);
    if is_srt(name) || is_vtt(name) {
        first_block_match(subtitle_blocks(name, content), q)
    } else {
        first_line_match(lines(content), q, zero_timestamp())
    }
}


/// How many of the sentence words `sw` (counted with repetition) occur among the words `tw`.
pub open spec fn count_present(sw: Seq<Seq<char>>, tw: Seq<Seq<char>>) -> nat
    decreases sw.len(),
{
    if sw.len() == 0 {
        0
    } else {
        count_present(sw.drop_last(), tw) + if tw.contains(sw.last()) {
            1nat
        } else {
            0nat
        }
    }
}

/// The percentage (rounded down) of the sentence words that occur among `tw`; 0 for no words.
pub open spec fn match_score(sw: Seq<Seq<char>>, tw: Seq<Seq<char>>) -> nat {
    if sw.len() == 0 {
        0
    } else {
        count_present(sw, tw) * 100 / sw.len()
    }
}

/// The best candidate so far after considering one more: it replaces the
/// best only with a strictly higher score, and only a positive score counts.
pub open spec fn keep_best(
    best: Option<(Seq<char>, Seq<char>, nat)>,
    ts: Seq<char>,
    text: Seq<char>,
    score: nat,
) -> Option<(Seq<char>, Seq<char>, nat)> {
    let cur = match best {
        Some(b) => b.2,
        None => 0,
    };
    if cur < score {
        Some((ts, text, score))
    } else {
        best
    }
}

/// The best-scoring subtitle block, starting from `best`.
pub open spec fn best_block(
    blocks: Seq<Seq<char>>,
    sw: Seq<Seq<char>>,
    best: Option<(Seq<char>, Seq<char>, nat)>,
) -> Option<(Seq<char>, Seq<char>, nat)>
    decreases blocks.len(),
{
    if blocks.len() == 0 {
        best
    } else {
        let next = match block_entry(blocks[0]) {
            Some(e) => keep_best(best, e.0, e.1, match_score(sw, words(unicode_lowercase(e.1)))),
            None => best,
        };
        best_block(blocks.drop_first(), sw, next)
    }
}

/// The best-scoring transcript line, starting from `best`, with the
/// timestamp in effect at each line as in `first_line_match`.
pub open spec fn best_line(
    ls: Seq<Seq<char>>,
    sw: Seq<Seq<char>>,
    last: Seq<char>,
    best: Option<(Seq<char>, Seq<char>, nat)>,
) -> Option<(Seq<char>, Seq<char>, nat)>
    decreases ls.len(),
{
    if ls.len() == 0 {
        best
    } else {
        let ts = match line_timestamp(ls[0]) {
            Some(t) => t,
            None => last,
        };
        let next = keep_best(best, ts, trim(ls[0]), match_score(sw, words(unicode_lowercase(ls[0]))));
        best_line(ls.drop_first(), sw, ts, next)
    }
}

/// A best candidate without its score.
pub open spec fn without_score(b: Option<(Seq<char>, Seq<char>, nat)>) -> Option<(Seq<char>, Seq<char>)> {
    match b {
        Some(c) => Some((c.0, c.1)),
        None => None,
    }
}

/// The moment whose words best cover the sentence's words (lowercased):
/// the first block or line with the highest positive score, or none.
pub open spec fn spec_find_sentence(name: Seq<char>, content: Seq<char>, sentence: Seq<char>) -> Option<
    (Seq<char>, Seq<char>),
> {
    let sw = words(unicode_lowercase(sentence));
    if is_srt(name) || is_vtt(name) {
        without_score(best_block(subtitle_blocks(name, content), sw, None))
    } else {
        without_score(best_line(lines(content), sw, zero_timestamp(), None))
    }
}

// ---------------------------------------------------------------------------
// Lemmas
// ---------------------------------------------------------------------------

proof fn lemma_first_with(ls: Seq<Seq<char>>, p: Seq<char>)
    ensures
        -1 <= first_with(ls, p) < ls.len(),
        first_with(ls, p) >= 0 ==> contains(ls[first_with(ls, p)], p),
        forall|j: int| 0 <= j < ls.len() && (first_with(ls, p) < 0 || j < first_with(ls, p)) ==> !contains(#[trigger] ls[j], p),
    decreases ls.len(),
{
    if ls.len() > 0 && !contains(ls[0], p) {
        lemma_first_with(ls.drop_first(), p);
        assert forall|j: int| 0 <= j < ls.len() && (first_with(ls, p) < 0 || j < first_with(ls, p)) implies !contains(#[trigger] ls[j], p) by {
            if j > 0 {
                assert(ls[j] == ls.drop_first()[j - 1]);
            }
        }
    }
}

proof fn lemma_skip_step<T>(s: Seq<T>, i: int)
    requires
        0 <= i < s.len(),
    ensures
        s.skip(i).len() > 0,
        s.skip(i)[0] == s[i],
        s.skip(i).drop_first() =~= s.skip(i + 1),
{
}

// ---------------------------------------------------------------------------
// Laws of the two searches
// ---------------------------------------------------------------------------

/// The block's text contains the (lowercased) keyword once lowercased.
pub open spec fn block_matches(block: Seq<char>, q: Seq<char>) -> bool {
    match block_entry(block) {
        Some(e) => contains(unicode_lowercase(e.1), q),
        None => false,
    }
}

/// The line contains the (lowercased) keyword once lowercased.
pub open spec fn line_matches(line: Seq<char>, q: Seq<char>) -> bool {
    contains(unicode_lowercase(line), q)
}

/// Block `i` is the first block that matches, and its entry is `m`.
pub open spec fn first_matching_block(blocks: Seq<Seq<char>>, q: Seq<char>, m: (Seq<char>, Seq<char>), i: int) -> bool {
    &&& 0 <= i < blocks.len()
    &&& block_entry(blocks[i]) == Some(m)
    &&& block_matches(blocks[i], q)
    &&& forall|j: int| 0 <= j < i ==> !block_matches(#[trigger] blocks[j], q)
}

/// Line `i` is the first line that matches, and `text` is that line trimmed.
pub open spec fn first_matching_line(ls: Seq<Seq<char>>, q: Seq<char>, text: Seq<char>, i: int) -> bool {
    &&& 0 <= i < ls.len()
    &&& trim(ls[i]) == text
    &&& line_matches(ls[i], q)
    &&& forall|j: int| 0 <= j < i ==> !line_matches(#[trigger] ls[j], q)
}

proof fn lemma_first_block_match(blocks: Seq<Seq<char>>, q: Seq<char>)
    ensures
        match first_block_match(blocks, q) {
            Some(m) => exists|i: int| #[trigger] first_matching_block(blocks, q, m, i),
            None => forall|j: int| 0 <= j < blocks.len() ==> !block_matches(#[trigger] blocks[j], q),
        },
    decreases blocks.len(),
{
    if blocks.len() > 0 {
        let rest = blocks.drop_first();
        lemma_first_block_match(rest, q);
        if block_matches(blocks[0], q) {
            let m = block_entry(blocks[0]).unwrap();
            assert(first_matching_block(blocks, q, m, 0));
        } else {
            match first_block_match(rest, q) {
                Some(m) => {
                    let i = choose|i: int| #[trigger] first_matching_block(rest, q, m, i);
                    assert forall|j: int| 0 <= j < i + 1 implies !block_matches(#[trigger] blocks[j], q) by {
                        if j > 0 {
                            assert(blocks[j] == rest[j - 1]);
                        }
                    }
                    assert(blocks[i + 1] == rest[i]);
                    assert(first_matching_block(blocks, q, m, i + 1));
                },
                None => {
                    assert forall|j: int| 0 <= j < blocks.len() implies !block_matches(#[trigger] blocks[j], q) by {
                        if j > 0 {
                            assert(blocks[j] == rest[j - 1]);
                        }
                    }
                },
            }
        }
    }
}

/// The timestamp in effect at line `i` when `last` was in effect before
/// line 0: the line's own bracketed timestamp, else the one in effect at
/// the line before.
pub open spec fn stamp_at(ls: Seq<Seq<char>>, i: int, last: Seq<char>) -> Seq<char>
    decreases i + 1,
{
    if i < 0 {
        last
    } else {
        match line_timestamp(ls[i]) {
            Some(t) => t,
            None => stamp_at(ls, i - 1, last),
        }
    }
}

/// Line `j` is the latest line up to line `i` that carries a bracketed timestamp.
pub open spec fn latest_stamped_line(ls: Seq<Seq<char>>, i: int, j: int) -> bool {
    &&& 0 <= j <= i
    &&& line_timestamp(ls[j]) is Some
    &&& forall|k: int| j < k <= i ==> line_timestamp(#[trigger] ls[k]) is None
}

/// `ts` is the timestamp in effect at line `i` of a plain transcript: the
/// bracketed timestamp of the latest line up to and including line `i`
/// that has one, or `00:00:00` when none has.
pub open spec fn timestamp_in_effect(ls: Seq<Seq<char>>, i: int, ts: Seq<char>) -> bool {
    ||| exists|j: int| #[trigger] latest_stamped_line(ls, i, j) && line_timestamp(ls[j]) == Some(ts)
    ||| ts == zero_timestamp() && forall|k: int| 0 <= k <= i ==> line_timestamp(#[trigger] ls[k]) is None
}

proof fn lemma_stamp_at_shift(ls: Seq<Seq<char>>, last: Seq<char>, i: int)
    requires
        0 <= i < ls.len() - 1,
    ensures
        stamp_at(ls.drop_first(), i, stamp_at(ls, 0, last)) == stamp_at(ls, i + 1, last),
    decreases i,
{
    let rest = ls.drop_first();
    let t0 = stamp_at(ls, 0, last);
    assert(stamp_at(ls, -1, last) == last);
    assert(stamp_at(rest, -1, t0) == t0);
    assert(rest[i] == ls[i + 1]);
    if i > 0 {
        lemma_stamp_at_shift(ls, last, i - 1);
    }
}

proof fn lemma_stamp_at_in_effect(ls: Seq<Seq<char>>, i: int)
    requires
        0 <= i < ls.len(),
    ensures
        timestamp_in_effect(ls, i, stamp_at(ls, i, zero_timestamp())),
    decreases i,
{
    let ts = stamp_at(ls, i, zero_timestamp());
    match line_timestamp(ls[i]) {
        Some(t) => {
            assert(latest_stamped_line(ls, i, i));
        },
        None => {
            if i == 0 {
                assert forall|k: int| 0 <= k <= i implies line_timestamp(#[trigger] ls[k]) is None by {
                    assert(k == 0);
                }
            } else {
                lemma_stamp_at_in_effect(ls, i - 1);
                if exists|j: int| #[trigger] latest_stamped_line(ls, i - 1, j) && line_timestamp(ls[j]) == Some(ts) {
                    let j = choose|j: int| #[trigger] latest_stamped_line(ls, i - 1, j) && line_timestamp(ls[j]) == Some(ts);
                    assert forall|k: int| j < k <= i implies line_timestamp(#[trigger] ls[k]) is None by {
                        if k < i {
                            assert(latest_stamped_line(ls, i - 1, j));
                        }
                    }
                    assert(latest_stamped_line(ls, i, j));
                } else {
                    assert forall|k: int| 0 <= k <= i implies line_timestamp(#[trigger] ls[k]) is None by {
                        if k < i {
                            assert(0 <= k <= i - 1);
                        }
                    }
                }
            }
        },
    }
}

/// Line `i` is the first matching line, `m` its timestamp in effect and its text.
pub open spec fn stamped_line_match(ls: Seq<Seq<char>>, q: Seq<char>, m: (Seq<char>, Seq<char>), i: int, last: Seq<char>) -> bool {
    first_matching_line(ls, q, m.1, i) && m.0 == stamp_at(ls, i, last)
}

proof fn lemma_first_line_match(ls: Seq<Seq<char>>, q: Seq<char>, last: Seq<char>)
    ensures
        match first_line_match(ls, q, last) {
            Some(m) => exists|i: int| #[trigger] stamped_line_match(ls, q, m, i, last),
            None => forall|j: int| 0 <= j < ls.len() ==> !line_matches(#[trigger] ls[j], q),
        },
    decreases ls.len(),
{
    if ls.len() > 0 {
        let rest = ls.drop_first();
        let ts = match line_timestamp(ls[0]) {
            Some(t) => t,
            None => last,
        };
        assert(stamp_at(ls, -1, last) == last);
        assert(ts == stamp_at(ls, 0, last));
        lemma_first_line_match(rest, q, ts);
        if line_matches(ls[0], q) {
            let m = first_line_match(ls, q, last).unwrap();
            assert(m.1 == trim(ls[0]));
            assert(first_matching_line(ls, q, m.1, 0));
            assert(stamped_line_match(ls, q, m, 0, last));
        } else {
            match first_line_match(rest, q, ts) {
                Some(m) => {
                    let i = choose|i: int| #[trigger] stamped_line_match(rest, q, m, i, ts);
                    lemma_stamp_at_shift(ls, last, i);
                    assert forall|j: int| 0 <= j < i + 1 implies !line_matches(#[trigger] ls[j], q) by {
                        if j > 0 {
                            assert(ls[j] == rest[j - 1]);
                        }
                    }
                    assert(ls[i + 1] == rest[i]);
                    let mm = first_line_match(ls, q, last).unwrap();
                    assert(mm == m);
                    assert(first_matching_line(ls, q, mm.1, i + 1));
                    assert(stamped_line_match(ls, q, mm, i + 1, last));
                },
                None => {
                    assert forall|j: int| 0 <= j < ls.len() implies !line_matches(#[trigger] ls[j], q) by {
                        if j > 0 {
                            assert(ls[j] == rest[j - 1]);
                        }
                    }
                },
            }
        }
    }
}

/// A keyword search finds the first place whose text contains the keyword,
/// without regard to case, and finds nothing only when no place contains
/// it. In a subtitle file the places are the blocks (the result is the
/// block's entry); in plain text they are the lines (the result's text is
/// the line trimmed, and its timestamp the one in effect at that line).
pub proof fn law_search_finds_first_match(name: Seq<char>, content: Seq<char>, query: Seq<char>)
    ensures
        (is_srt(name) || is_vtt(name)) ==> match spec_search_transcript(name, content, query) {
            Some(m) => exists|i: int|
                #[trigger] first_matching_block(subtitle_blocks(name, content), unicode_lowercase(query), m, i),
            None => forall|j: int|
                0 <= j < subtitle_blocks(name, content).len() ==> !block_matches(
                    #[trigger] subtitle_blocks(name, content)[j],
                    unicode_lowercase(query),
                ),
        },
        !(is_srt(name) || is_vtt(name)) ==> match spec_search_transcript(name, content, query) {
            Some(m) => exists|i: int|
                #[trigger] first_matching_line(lines(content), unicode_lowercase(query), m.1, i)
                    && timestamp_in_effect(lines(content), i, m.0),
            None => forall|j: int|
                0 <= j < lines(content).len() ==> !line_matches(#[trigger] lines(content)[j], unicode_lowercase(query)),
        },
{
    let q = unicode_lowercase(query);
    if is_srt(name) || is_vtt(name) {
        lemma_first_block_match(subtitle_blocks(name, content), q);
    } else {
        let ls = lines(content);
        lemma_first_line_match(ls, q, zero_timestamp());
        if let Some(m) = first_line_match(ls, q, zero_timestamp()) {
            let i = choose|i: int| #[trigger] stamped_line_match(ls, q, m, i, zero_timestamp());
            lemma_stamp_at_in_effect(ls, i);
            assert(first_matching_line(ls, q, m.1, i) && timestamp_in_effect(ls, i, m.0));
        }
    }
}

/// The score a best candidate carries (0 for none).
pub open spec fn best_score(b: Option<(Seq<char>, Seq<char>, nat)>) -> nat {
    match b {
        Some(c) => c.2,
        None => 0,
    }
}

/// The score of a subtitle block against the sentence words (0 for a block without an entry).
pub open spec fn block_score(block: Seq<char>, sw: Seq<Seq<char>>) -> nat {
    match block_entry(block) {
        Some(e) => match_score(sw, words(unicode_lowercase(e.1))),
        None => 0,
    }
}

/// The score of a transcript line against the sentence words.
pub open spec fn line_score(line: Seq<char>, sw: Seq<Seq<char>>) -> nat {
    match_score(sw, words(unicode_lowercase(line)))
}

/// Block `i` is where the candidate `r` comes from: `r` is its entry with
/// its score, which is above `floor` and above the score of every earlier block.
pub open spec fn picks_block(
    blocks: Seq<Seq<char>>,
    sw: Seq<Seq<char>>,
    r: Option<(Seq<char>, Seq<char>, nat)>,
    i: int,
    floor: nat,
) -> bool {
    &&& 0 <= i < blocks.len()
    &&& r is Some
    &&& block_entry(blocks[i]) == Some((r.unwrap().0, r.unwrap().1))
    &&& r.unwrap().2 == block_score(blocks[i], sw)
    &&& r.unwrap().2 > floor
    &&& forall|j: int| 0 <= j < i ==> block_score(#[trigger] blocks[j], sw) < r.unwrap().2
}

/// Line `i` is where the candidate `r` comes from: its text is the line
/// trimmed, its score the line's, above `floor` and above every earlier line's.
pub open spec fn picks_line(
    ls: Seq<Seq<char>>,
    sw: Seq<Seq<char>>,
    r: Option<(Seq<char>, Seq<char>, nat)>,
    i: int,
    floor: nat,
) -> bool {
    &&& 0 <= i < ls.len()
    &&& r is Some
    &&& r.unwrap().1 == trim(ls[i])
    &&& r.unwrap().2 == line_score(ls[i], sw)
    &&& r.unwrap().2 > floor
    &&& forall|j: int| 0 <= j < i ==> line_score(#[trigger] ls[j], sw) < r.unwrap().2
}

proof fn lemma_best_block(blocks: Seq<Seq<char>>, sw: Seq<Seq<char>>, best: Option<(Seq<char>, Seq<char>, nat)>)
    ensures
        best_score(best_block(blocks, sw, best)) >= best_score(best),
        forall|j: int|
            0 <= j < blocks.len() ==> block_score(#[trigger] blocks[j], sw) <= best_score(
                best_block(blocks, sw, best),
            ),
        best_block(blocks, sw, best) == best || exists|i: int|
            #[trigger] picks_block(blocks, sw, best_block(blocks, sw, best), i, best_score(best)),
    decreases blocks.len(),
{
    if blocks.len() > 0 {
        let rest = blocks.drop_first();
        let next = match block_entry(blocks[0]) {
            Some(e) => keep_best(best, e.0, e.1, match_score(sw, words(unicode_lowercase(e.1)))),
            None => best,
        };
        lemma_best_block(rest, sw, next);
        let r = best_block(rest, sw, next);
        assert(r == best_block(blocks, sw, best));
        assert(best_score(next) >= best_score(best));
        assert(block_score(blocks[0], sw) <= best_score(next));
        assert forall|j: int| 0 <= j < blocks.len() implies block_score(#[trigger] blocks[j], sw) <= best_score(r) by {
            if j > 0 {
                assert(blocks[j] == rest[j - 1]);
            }
        }
        if r == next {
            if next != best {
                assert(picks_block(blocks, sw, r, 0, best_score(best)));
            }
        } else {
            let i = choose|i: int| #[trigger] picks_block(rest, sw, r, i, best_score(next));
            assert forall|j: int| 0 <= j < i + 1 implies block_score(#[trigger] blocks[j], sw) < r.unwrap().2 by {
                if j > 0 {
                    assert(blocks[j] == rest[j - 1]);
                }
            }
            assert(blocks[i + 1] == rest[i]);
            assert(picks_block(blocks, sw, r, i + 1, best_score(best)));
        }
    }
}

/// `picks_line`, and the candidate's timestamp is the one in effect at line `i`.
pub open spec fn picks_stamped_line(
    ls: Seq<Seq<char>>,
    sw: Seq<Seq<char>>,
    r: Option<(Seq<char>, Seq<char>, nat)>,
    i: int,
    floor: nat,
    last: Seq<char>,
) -> bool {
    picks_line(ls, sw, r, i, floor) && r.unwrap().0 == stamp_at(ls, i, last)
}

proof fn lemma_best_line(
    ls: Seq<Seq<char>>,
    sw: Seq<Seq<char>>,
    last: Seq<char>,
    best: Option<(Seq<char>, Seq<char>, nat)>,
)
    ensures
        best_score(best_line(ls, sw, last, best)) >= best_score(best),
        forall|j: int|
            0 <= j < ls.len() ==> line_score(#[trigger] ls[j], sw) <= best_score(best_line(ls, sw, last, best)),
        best_line(ls, sw, last, best) == best || exists|i: int|
            #[trigger] picks_stamped_line(ls, sw, best_line(ls, sw, last, best), i, best_score(best), last),
    decreases ls.len(),
{
    if ls.len() > 0 {
        let rest = ls.drop_first();
        let ts = match line_timestamp(ls[0]) {
            Some(t) => t,
            None => last,
        };
        assert(stamp_at(ls, -1, last) == last);
        assert(ts == stamp_at(ls, 0, last));
        let next = keep_best(best, ts, trim(ls[0]), match_score(sw, words(unicode_lowercase(ls[0]))));
        lemma_best_line(rest, sw, ts, next);
        let r = best_line(rest, sw, ts, next);
        assert(r == best_line(ls, sw, last, best));
        assert forall|j: int| 0 <= j < ls.len() implies line_score(#[trigger] ls[j], sw) <= best_score(r) by {
            if j > 0 {
                assert(ls[j] == rest[j - 1]);
            }
        }
        if r == next {
            if next != best {
                assert(picks_line(ls, sw, r, 0, best_score(best)));
                assert(picks_stamped_line(ls, sw, r, 0, best_score(best), last));
            }
        } else {
            let i = choose|i: int| #[trigger] picks_stamped_line(rest, sw, r, i, best_score(next), ts);
            lemma_stamp_at_shift(ls, last, i);
            assert forall|j: int| 0 <= j < i + 1 implies line_score(#[trigger] ls[j], sw) < r.unwrap().2 by {
                if j > 0 {
                    assert(ls[j] == rest[j - 1]);
                }
            }
            assert(ls[i + 1] == rest[i]);
            assert(picks_line(ls, sw, r, i + 1, best_score(best)));
            assert(picks_stamped_line(ls, sw, r, i + 1, best_score(best), last));
        }
    }
}

/// A sentence search returns the first place with the highest word-overlap
/// score, and only a positive score counts: the result comes from a place
/// whose score is positive, no place scores higher, and every earlier
/// place scores lower. It finds nothing only when every place scores 0.
/// In a subtitle file the places are the blocks (the result is the block's
/// entry); in plain text they are the lines (the result's text is the line
/// trimmed, and its timestamp the one in effect at that line).
pub proof fn law_find_sentence_best_match(name: Seq<char>, content: Seq<char>, sentence: Seq<char>)
    ensures
        (is_srt(name) || is_vtt(name)) ==> {
            let blocks = subtitle_blocks(name, content);
            let sw = words(unicode_lowercase(sentence));
            match spec_find_sentence(name, content, sentence) {
                Some(m) => exists|i: int|
                    #![trigger blocks[i]]
                    0 <= i < blocks.len() && block_entry(blocks[i]) == Some(m) && block_score(blocks[i], sw) > 0
                        && (forall|j: int| 0 <= j < blocks.len() ==> block_score(#[trigger] blocks[j], sw) <= block_score(blocks[i], sw))
                        && (forall|j: int| 0 <= j < i ==> block_score(#[trigger] blocks[j], sw) < block_score(blocks[i], sw)),
                None => forall|j: int| 0 <= j < blocks.len() ==> block_score(#[trigger] blocks[j], sw) == 0,
            }
        },
        !(is_srt(name) || is_vtt(name)) ==> {
            let ls = lines(content);
            let sw = words(unicode_lowercase(sentence));
            match spec_find_sentence(name, content, sentence) {
                Some(m) => exists|i: int|
                    #![trigger ls[i]]
                    0 <= i < ls.len() && trim(ls[i]) == m.1 && timestamp_in_effect(ls, i, m.0) && line_score(ls[i], sw) > 0
                        && (forall|j: int| 0 <= j < ls.len() ==> line_score(#[trigger] ls[j], sw) <= line_score(ls[i], sw))
                        && (forall|j: int| 0 <= j < i ==> line_score(#[trigger] ls[j], sw) < line_score(ls[i], sw)),
                None => forall|j: int| 0 <= j < ls.len() ==> line_score(#[trigger] ls[j], sw) == 0,
            }
        },
{
    let sw = words(unicode_lowercase(sentence));
    if is_srt(name) || is_vtt(name) {
        let blocks = subtitle_blocks(name, content);
        lemma_best_block(blocks, sw, None);
        let r = best_block(blocks, sw, None);
        if r is Some {
            let i = choose|i: int| #[trigger] picks_block(blocks, sw, r, i, 0);
            assert(picks_block(blocks, sw, r, i, 0));
        }
    } else {
        let ls = lines(content);
        lemma_best_line(ls, sw, zero_timestamp(), None);
        let r = best_line(ls, sw, zero_timestamp(), None);
        if r is Some {
            let i = choose|i: int| #[trigger] picks_stamped_line(ls, sw, r, i, 0, zero_timestamp());
            assert(picks_line(ls, sw, r, i, 0));
            lemma_stamp_at_in_effect(ls, i);
        }
    }
}

// ---------------------------------------------------------------------------
// Executable operations
// ---------------------------------------------------------------------------

fn first_with_exec(ls: &Vec<Vec<char>>, p: &[char]) -> (r: Option<usize>)
    ensures
        match r {
            Some(i) => i as int == first_with(views(ls@), p@) && i < ls@.len(),
            None => first_with(views(ls@), p@) < 0,
        },
{
    proof {
        lemma_first_with(views(ls@), p@);
    }
    let mut i: usize = 0;
    while i < ls.len()
        invariant
            i <= ls@.len(),
            forall|j: int| 0 <= j < i ==> !contains(#[trigger] views(ls@)[j], p@),
        decreases ls.len() - i,
    {
        if contains_exec(ls[i].as_slice(), p) {
            assert(views(ls@)[i as int] == ls@[i as int]@);
            proof {
                lemma_first_with(views(ls@), p@);
                let fw = first_with(views(ls@), p@);
                if 0 <= fw < i {
                    assert(!contains(views(ls@)[fw], p@));
                }
                assert(contains(views(ls@)[i as int], p@));
            }
            return Some(i);
        }
        assert(views(ls@)[i as int] == ls@[i as int]@);
        i += 1;
    }
    None
}

/// The (timestamp, text) of one subtitle block.
pub fn block_entry_exec(block: &[char]) -> (r: Option<(Vec<char>, Vec<char>)>)
    ensures
        match r {
            Some(e) => block_entry(block@) == Some((e.0@, e.1@)),
            None => block_entry(block@) is None,
        },
{
    let ls = lines_exec(block);
    let ghost lv = views(ls@);
    assert(lv.len() == ls@.len());
    if ls.len() < 2 {
        return None;
    }
    let arrow_a = ['-', '-', '>'];
    let arrow_s: &[char] = &arrow_a;
    assert(arrow_s@ =~= arrow());
    let idx = match first_with_exec(&ls, arrow_s) {
        Some(i) => i,
        None => return None,
    };
    assert(lv[idx as int] == ls@[idx as int]@);
    let start = trim_exec(before_exec(ls[idx].as_slice(), arrow_s).as_slice());
    let ts = format_srt_timestamp_chars(start.as_slice());
    let mut rest: Vec<Vec<char>> = Vec::new();
    let mut k: usize = idx + 1;
    while k < ls.len()
        invariant
            idx + 1 <= k <= ls@.len(),
            lv == views(ls@),
            views(rest@) =~= lv.subrange(idx + 1, k as int),
        decreases ls.len() - k,
    {
        let line = slice_chars(ls[k].as_slice(), 0, ls[k].len());
        assert(line@ =~= lv[k as int]);
        let ghost old_rest = rest@;
        rest.push(line);
        assert(views(rest@) =~= views(old_rest).push(line@));
        assert(views(rest@) =~= lv.subrange(idx + 1, k + 1));
        k += 1;
    }
    assert(lv.subrange(idx + 1, lv.len() as int) =~= lv.skip(idx + 1));
    let space = [' '];
    let space_s: &[char] = &space;
    assert(space_s@ =~= seq![' ']);
    let joined = join_exec(&rest, space_s);
    let text = trim_exec(joined.as_slice());
    Some((ts, text))
}

/// The subtitle blocks of a subtitle file.
fn subtitle_blocks_exec(name: &[char], content: &[char]) -> (r: Vec<Vec<char>>)
    ensures
        views(r@) == subtitle_blocks(name@, content@),
{
    let srt = ['.', 's', 'r', 't'];
    let srt_s: &[char] = &srt;
    assert(srt_s@ =~= seq!['.', 's', 'r', 't']);
    let blank = ['\n', '\n'];
    let blank_s: &[char] = &blank;
    assert(blank_s@ =~= blank_line());
    if ends_with_exec(name, srt_s) {
        split_exec(content, blank_s)
    } else {
        let header = ['W', 'E', 'B', 'V', 'T', 'T'];
        let header_s: &[char] = &header;
        assert(header_s@ =~= webvtt_header());
        match strip_prefix_exec(content, header_s) {
            Some(b) => split_exec(b.as_slice(), blank_s),
            None => split_exec(content, blank_s),
        }
    }
}

/// Whether the file name marks a subtitle file (`.srt` or `.vtt`).
fn is_subtitle_exec(name: &[char]) -> (b: bool)
    ensures
        b == (is_srt(name@) || is_vtt(name@)),
{
    let srt = ['.', 's', 'r', 't'];
    let srt_s: &[char] = &srt;
    assert(srt_s@ =~= seq!['.', 's', 'r', 't']);
    let vtt = ['.', 'v', 't', 't'];
    let vtt_s: &[char] = &vtt;
    assert(vtt_s@ =~= seq!['.', 'v', 't', 't']);
    ends_with_exec(name, srt_s) || ends_with_exec(name, vtt_s)
}

/// Search transcript text for a keyword or phrase, without regard to case.
/// `name` is the transcript's file name (it decides the format), `content`
/// its text. Returns the timestamp (for ffmpeg) and the matching text.
pub fn search_transcript(name: &str, content: &str, query: &str) -> (r: Option<(String, String)>)
    ensures
        r.deep_view() == spec_search_transcript(name@, content@, query@),
{
    let name_c = to_chars(name);
    let content_c = to_chars(content);
    let query_c = to_chars(query);
    let q = lowercase_chars(query_c.as_slice());
    if is_subtitle_exec(name_c.as_slice()) {
        let blocks = subtitle_blocks_exec(name_c.as_slice(), content_c.as_slice());
        let ghost bv = views(blocks@);
        assert(bv.skip(0) =~= bv);
        let mut i: usize = 0;
        while i < blocks.len()
            invariant
                i <= blocks@.len(),
                bv == views(blocks@),
                bv == subtitle_blocks(name@, content@),
                is_srt(name@) || is_vtt(name@),
                q@ == unicode_lowercase(query@),
                bv.len() == blocks@.len(),
                first_block_match(bv, q@) == first_block_match(bv.skip(i as int), q@),
            decreases blocks.len() - i,
        {
            proof {
                lemma_skip_step(bv, i as int);
            }
            assert(bv[i as int] == blocks@[i as int]@);
            match block_entry_exec(blocks[i].as_slice()) {
                Some(e) => {
                    let lowered = lowercase_chars(e.1.as_slice());
                    if contains_exec(lowered.as_slice(), q.as_slice()) {
                        let r = Some((from_chars(e.0.as_slice()), from_chars(e.1.as_slice())));
                        assert(r.deep_view() == Some((e.0@, e.1@)));
                        return r;
                    }
                },
                None => {},
            }
            i += 1;
        }
        assert(bv.skip(i as int).len() == 0);
        None
    } else {
        let ls = lines_exec(content_c.as_slice());
        let ghost lv = views(ls@);
        assert(lv.skip(0) =~= lv);
        let mut last: Vec<char> = vec!['0', '0', ':', '0', '0', ':', '0', '0'];
        assert(last@ =~= zero_timestamp());
        let mut i: usize = 0;
        while i < ls.len()
            invariant
                i <= ls@.len(),
                lv == views(ls@),
                lv == lines(content@),
                !(is_srt(name@) || is_vtt(name@)),
                q@ == unicode_lowercase(query@),
                lv.len() == ls@.len(),
                first_line_match(lv, q@, zero_timestamp()) == first_line_match(
                    lv.skip(i as int),
                    q@,
                    last@,
                ),
            decreases ls.len() - i,
        {
            proof {
                lemma_skip_step(lv, i as int);
            }
            assert(lv[i as int] == ls@[i as int]@);
            let line_s = from_chars(ls[i].as_slice());
            match regex_timestamp_from_line(line_s.as_str()) {
                Some(t) => {
                    last = to_chars(t.as_str());
                },
                None => {},
            }
            let lowered = lowercase_chars(ls[i].as_slice());
            if contains_exec(lowered.as_slice(), q.as_slice()) {
                let text = trim_exec(ls[i].as_slice());
                let r = Some((from_chars(last.as_slice()), from_chars(text.as_slice())));
                assert(r.deep_view() == Some((last@, text@)));
                return r;
            }
            i += 1;
        }
        assert(lv.skip(i as int).len() == 0);
        None
    }
}

/// How many of the sentence words occur among the text words.
fn count_present_exec(sw: &Vec<Vec<char>>, tw: &Vec<Vec<char>>) -> (r: usize)
    ensures
        r == count_present(views(sw@), views(tw@)),
        r <= sw@.len(),
{
    let mut cnt: usize = 0;
    let mut i: usize = 0;
    while i < sw.len()
        invariant
            i <= sw@.len(),
            cnt <= i,
            cnt == count_present(views(sw@).take(i as int), views(tw@)),
        decreases sw.len() - i,
    {
        let ghost t = views(sw@).take(i + 1);
        assert(t.drop_last() =~= views(sw@).take(i as int));
        assert(t.last() == sw@[i as int]@);
        if vec_contains(tw, sw[i].as_slice()) {
            cnt += 1;
        }
        i += 1;
    }
    assert(views(sw@).take(sw@.len() as int) =~= views(sw@));
    cnt
}

proof fn lemma_score_bound(cnt: nat, len: nat)
    requires
        cnt <= len,
        len > 0,
    ensures
        cnt * 100 / len <= 100,
{
    assert(cnt * 100 / len <= 100) by (nonlinear_arith)
        requires
            cnt <= len,
            len > 0,
    ;
}

/// The word-overlap score of a line or block text against the sentence words.
fn match_score_exec(sw: &Vec<Vec<char>>, text: &[char]) -> (r: usize)
    ensures
        r as nat == match_score(views(sw@), words(unicode_lowercase(text@))),
{
    let lowered = lowercase_chars(text);
    let tw = words_exec(lowered.as_slice());
    let cnt = count_present_exec(sw, &tw);
    if sw.len() == 0 {
        0
    } else {
        proof {
            lemma_score_bound(cnt as nat, sw@.len() as nat);
        }
        let wide: u128 = (cnt as u128) * 100 / (sw.len() as u128);
        wide as usize
    }
}

/// The view of a best candidate.
pub open spec fn best_view(b: Option<(Vec<char>, Vec<char>, usize)>) -> Option<
    (Seq<char>, Seq<char>, nat),
> {
    match b {
        Some(c) => Some((c.0@, c.1@, c.2 as nat)),
        None => None,
    }
}

fn keep_best_exec(
    best: Option<(Vec<char>, Vec<char>, usize)>,
    ts: Vec<char>,
    text: Vec<char>,
    score: usize,
) -> (r: Option<(Vec<char>, Vec<char>, usize)>)
    ensures
        best_view(r) == keep_best(best_view(best), ts@, text@, score as nat),
{
    let cur = match &best {
        Some(b) => b.2,
        None => 0,
    };
    if cur < score {
        Some((ts, text, score))
    } else {
        best
    }
}

fn without_score_exec(b: Option<(Vec<char>, Vec<char>, usize)>) -> (r: Option<(String, String)>)
    ensures
        r.deep_view() == without_score(best_view(b)),
{
    match b {
        Some(c) => {
            let r = Some((from_chars(c.0.as_slice()), from_chars(c.1.as_slice())));
            assert(r.deep_view() == Some((c.0@, c.1@)));
            r
        },
        None => None,
    }
}

/// Find the transcript moment that best matches a sentence by word overlap.
/// `name` is the transcript's file name (it decides the format), `content`
/// its text. Returns the timestamp (for ffmpeg) and the matched text.
pub fn find_sentence(name: &str, content: &str, sentence: &str) -> (r: Option<(String, String)>)
    ensures
        r.deep_view() == spec_find_sentence(name@, content@, sentence@),
{
    let name_c = to_chars(name);
    let content_c = to_chars(content);
    let sentence_c = to_chars(sentence);
    let lowered = lowercase_chars(sentence_c.as_slice());
    let sw = words_exec(lowered.as_slice());
    let mut best: Option<(Vec<char>, Vec<char>, usize)> = None;
    if is_subtitle_exec(name_c.as_slice()) {
        let blocks = subtitle_blocks_exec(name_c.as_slice(), content_c.as_slice());
        let ghost bv = views(blocks@);
        assert(bv.skip(0) =~= bv);
        let mut i: usize = 0;
        while i < blocks.len()
            invariant
                i <= blocks@.len(),
                bv == views(blocks@),
                bv.len() == blocks@.len(),
                bv == subtitle_blocks(name@, content@),
                is_srt(name@) || is_vtt(name@),
                views(sw@) == words(unicode_lowercase(sentence@)),
                best_block(bv, views(sw@), None) == best_block(
                    bv.skip(i as int),
                    views(sw@),
                    best_view(best),
                ),
            decreases blocks.len() - i,
        {
            proof {
                lemma_skip_step(bv, i as int);
            }
            assert(bv[i as int] == blocks@[i as int]@);
            match block_entry_exec(blocks[i].as_slice()) {
                Some(e) => {
                    let score = match_score_exec(&sw, e.1.as_slice());
                    best = keep_best_exec(best, e.0, e.1, score);
                },
                None => {},
            }
            i += 1;
        }
        assert(bv.skip(i as int).len() == 0);
        without_score_exec(best)
    } else {
        let ls = lines_exec(content_c.as_slice());
        let ghost lv = views(ls@);
        assert(lv.skip(0) =~= lv);
        let mut last: Vec<char> = vec!['0', '0', ':', '0', '0', ':', '0', '0'];
        assert(last@ =~= zero_timestamp());
        let mut i: usize = 0;
        while i < ls.len()
            invariant
                i <= ls@.len(),
                lv == views(ls@),
                lv.len() == ls@.len(),
                lv == lines(content@),
                !(is_srt(name@) || is_vtt(name@)),
                views(sw@) == words(unicode_lowercase(sentence@)),
                best_line(lv, views(sw@), zero_timestamp(), None) == best_line(
                    lv.skip(i as int),
                    views(sw@),
                    last@,
                    best_view(best),
                ),
            decreases ls.len() - i,
        {
            proof {
                lemma_skip_step(lv, i as int);
            }
            assert(lv[i as int] == ls@[i as int]@);
            let line_s = from_chars(ls[i].as_slice());
            match regex_timestamp_from_line(line_s.as_str()) {
                Some(t) => {
                    last = to_chars(t.as_str());
                },
                None => {},
            }
            let score = match_score_exec(&sw, ls[i].as_slice());
            let text = trim_exec(ls[i].as_slice());
            let ts = slice_chars(last.as_slice(), 0, last.len());
            assert(ts@ =~= last@);
            best = keep_best_exec(best, ts, text, score);
            i += 1;
        }
        assert(lv.skip(i as int).len() == 0);
        without_score_exec(best)
    }
}

} // verus!
