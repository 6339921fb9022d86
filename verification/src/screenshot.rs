//! Timestamps for frame extraction: validating user timestamps, normalising
//! subtitle timestamps, and reading bracketed timestamps out of transcript lines.
use vstd::prelude::*;
use crate::numbers::{is_digit, lemma_pad2, lemma_parse_pad2, pad2, pad2_exec, parse_u64, parse_u64_exec};
use crate::text::{
    append_chars, before_either, before_either_exec, from_chars, lemma_split_none, lemma_split_sep,
    split, split_exec, to_chars, trim, trim_exec, views, contains, contains_exec, ends_with,
    ends_with_exec,
};
use crate::config::{join_path, join_path_exec};
use crate::tools::string_views;

verus! {

/// Why a timestamp was refused.
#[derive(Debug, Clone, Copy, PartialEq, Eq, Structural)]
pub enum TimestampError {
    /// The hours field is not a number.
    InvalidHours,
    /// The minutes field is not a number.
    InvalidMinutes,
    /// The seconds field is not a number.
    InvalidSeconds,
    /// Minutes above 59 in `HH:MM:SS`.
    MinutesOutOfRange(u64),
    /// Seconds above 59.
    SecondsOutOfRange(u64),
    /// Neither `MM:SS` nor `HH:MM:SS`.
    BadFormat,
}

/// The normalised form of a timestamp, or why it is refused: `MM:SS` or
/// `HH:MM:SS` with numeric fields (as `u64::from_str` reads them), minutes
/// (in `HH:MM:SS`) and seconds at most 59, each field printed with at least
/// two digits.
pub open spec fn spec_parse_timestamp(ts: Seq<char>) -> Result<Seq<char>, TimestampError> {
    let parts = split(ts, seq![':']);
    if parts.len() == 2 {
        match parse_u64(parts[0]) {
            None => Err(TimestampError::InvalidMinutes),
            Some(m) => match parse_u64(parts[1]) {
                None => Err(TimestampError::InvalidSeconds),
                Some(s) => if s > 59 {
                    Err(TimestampError::SecondsOutOfRange(s))
                } else {
                    Ok(pad2(m as nat) + seq![':'] + pad2(s as nat))
                },
            },
        }
    } else if parts.len() == 3 {
        match parse_u64(parts[0]) {
            None => Err(TimestampError::InvalidHours),
            Some(h) => match parse_u64(parts[1]) {
                None => Err(TimestampError::InvalidMinutes),
                Some(m) => match parse_u64(parts[2]) {
                    None => Err(TimestampError::InvalidSeconds),
                    Some(s) => if m > 59 {
                        Err(TimestampError::MinutesOutOfRange(m))
                    } else if s > 59 {
                        Err(TimestampError::SecondsOutOfRange(s))
                    } else {
                        Ok(pad2(h as nat) + seq![':'] + pad2(m as nat) + seq![':'] + pad2(s as nat))
                    },
                },
            },
        }
    } else {
        Err(TimestampError::BadFormat)
    }
}

/// Validate and normalise a timestamp (`MM:SS` or `HH:MM:SS`) for `ffmpeg -ss`.
pub fn parse_timestamp(ts: &str) -> (r: Result<String, TimestampError>)
    ensures
        match r {
            Ok(s) => spec_parse_timestamp(ts@) == Ok::<Seq<char>, TimestampError>(s@),
            Err(e) => spec_parse_timestamp(ts@) == Err::<Seq<char>, TimestampError>(e),
        },
{
    let chars = to_chars(ts);
    let colon = [':'];
    let colon_s: &[char] = &colon;
    assert(colon_s@ =~= seq![':']);
    let parts = split_exec(chars.as_slice(), colon_s);
    let ghost pv = views(parts@);
    assert(pv.len() == parts@.len());
    if parts.len() == 2 {
        assert(pv[0] == parts@[0]@ && pv[1] == parts@[1]@);
        let m = match parse_u64_exec(parts[0].as_slice()) {
            Some(m) => m,
            None => return Err(TimestampError::InvalidMinutes),
        };
        let s = match parse_u64_exec(parts[1].as_slice()) {
            Some(s) => s,
            None => return Err(TimestampError::InvalidSeconds),
        };
        if s > 59 {
            return Err(TimestampError::SecondsOutOfRange(s));
        }
        let mut out = pad2_exec(m);
        out.push(':');
        let sv = pad2_exec(s);
        append_chars(&mut out, sv.as_slice());
        assert(out@ =~= pad2(m as nat) + seq![':'] + pad2(s as nat));
        Ok(from_chars(out.as_slice()))
    } else if parts.len() == 3 {
        assert(pv[0] == parts@[0]@ && pv[1] == parts@[1]@ && pv[2] == parts@[2]@);
        let h = match parse_u64_exec(parts[0].as_slice()) {
            Some(h) => h,
            None => return Err(TimestampError::InvalidHours),
        };
        let m = match parse_u64_exec(parts[1].as_slice()) {
            Some(m) => m,
            None => return Err(TimestampError::InvalidMinutes),
        };
        let s = match parse_u64_exec(parts[2].as_slice()) {
            Some(s) => s,
            None => return Err(TimestampError::InvalidSeconds),
        };
        if m > 59 {
            return Err(TimestampError::MinutesOutOfRange(m));
        }
        if s > 59 {
            return Err(TimestampError::SecondsOutOfRange(s));
        }
        let mut out = pad2_exec(h);
        out.push(':');
        let mv = pad2_exec(m);
        append_chars(&mut out, mv.as_slice());
        out.push(':');
        let sv = pad2_exec(s);
        append_chars(&mut out, sv.as_slice());
        assert(out@ =~= pad2(h as nat) + seq![':'] + pad2(m as nat) + seq![':'] + pad2(s as nat));
        Ok(from_chars(out.as_slice()))
    } else {
        Err(TimestampError::BadFormat)
    }
}


proof fn lemma_pad2_no_colon(n: nat)
    ensures
        !pad2(n).contains(':'),
{
    lemma_pad2(n);
    if pad2(n).contains(':') {
        let i = choose|i: int| 0 <= i < pad2(n).len() && pad2(n)[i] == ':';
        assert(is_digit(pad2(n)[i]));
    }
}

/// Normalisation is idempotent: a timestamp that `parse_timestamp` accepts
/// comes back unchanged when its normalised form is parsed again.
pub proof fn law_parse_timestamp_idempotent(ts: Seq<char>)
    requires
        spec_parse_timestamp(ts) is Ok,
    ensures
        spec_parse_timestamp(spec_parse_timestamp(ts)->Ok_0) == spec_parse_timestamp(ts),
{
    let parts = split(ts, seq![':']);
    if parts.len() == 2 {
        let m = parse_u64(parts[0])->Some_0;
        let s = parse_u64(parts[1])->Some_0;
        lemma_pad2_no_colon(m as nat);
        lemma_pad2_no_colon(s as nat);
        lemma_split_sep(pad2(m as nat), ':', pad2(s as nat));
        lemma_split_none(pad2(s as nat), ':');
        lemma_parse_pad2(m);
        lemma_parse_pad2(s);
    } else {
        let h = parse_u64(parts[0])->Some_0;
        let m = parse_u64(parts[1])->Some_0;
        let s = parse_u64(parts[2])->Some_0;
        lemma_pad2_no_colon(h as nat);
        lemma_pad2_no_colon(m as nat);
        lemma_pad2_no_colon(s as nat);
        let out = pad2(h as nat) + seq![':'] + pad2(m as nat) + seq![':'] + pad2(s as nat);
        let tail = pad2(m as nat) + seq![':'] + pad2(s as nat);
        assert(out =~= pad2(h as nat) + seq![':'] + tail);
        lemma_split_sep(pad2(h as nat), ':', tail);
        lemma_split_sep(pad2(m as nat), ':', pad2(s as nat));
        lemma_split_none(pad2(s as nat), ':');
        lemma_parse_pad2(h);
        lemma_parse_pad2(m);
        lemma_parse_pad2(s);
    }
}

/// The field is a number (as `u64::from_str` reads it) no greater than 59.
pub open spec fn field_at_most_59(f: Seq<char>) -> bool {
    parse_u64(f) matches Some(n) && n <= 59
}

/// A timestamp is accepted only with its seconds at most 59 and, in
/// `HH:MM:SS`, its minutes at most 59: the normalised result has two or
/// three fields, the last (and, with three, the middle) a number no greater
/// than 59. An input whose fields are numbers but whose seconds (or, with
/// three fields, minutes) exceed 59 is refused with that number.
pub proof fn law_parse_timestamp_in_range(ts: Seq<char>)
    ensures
        spec_parse_timestamp(ts) is Ok ==> {
            let f = split(spec_parse_timestamp(ts)->Ok_0, seq![':']);
            &&& f.len() == 2 || f.len() == 3
            &&& field_at_most_59(f[f.len() - 1])
            &&& f.len() == 3 ==> field_at_most_59(f[1])
        },
        ({
            let p = split(ts, seq![':']);
            &&& p.len() == 2
            &&& parse_u64(p[0]) is Some
            &&& parse_u64(p[1]) is Some
            &&& parse_u64(p[1])->Some_0 > 59
        }) ==> spec_parse_timestamp(ts) == Err::<Seq<char>, TimestampError>(
            TimestampError::SecondsOutOfRange(parse_u64(split(ts, seq![':'])[1])->Some_0),
        ),
        ({
            let p = split(ts, seq![':']);
            &&& p.len() == 3
            &&& parse_u64(p[0]) is Some
            &&& parse_u64(p[1]) is Some
            &&& parse_u64(p[2]) is Some
        }) ==> {
            let p = split(ts, seq![':']);
            let m = parse_u64(p[1])->Some_0;
            let sec = parse_u64(p[2])->Some_0;
            &&& m > 59 ==> spec_parse_timestamp(ts) == Err::<Seq<char>, TimestampError>(
                TimestampError::MinutesOutOfRange(m),
            )
            &&& m <= 59 && sec > 59 ==> spec_parse_timestamp(ts) == Err::<Seq<char>, TimestampError>(
                TimestampError::SecondsOutOfRange(sec),
            )
            &&& m <= 59 && sec <= 59 ==> spec_parse_timestamp(ts) is Ok
        },
{
    if spec_parse_timestamp(ts) is Ok {
        let parts = split(ts, seq![':']);
        let t = spec_parse_timestamp(ts)->Ok_0;
        if parts.len() == 2 {
            let m = parse_u64(parts[0])->Some_0;
            let s = parse_u64(parts[1])->Some_0;
            lemma_pad2_no_colon(m as nat);
            lemma_pad2_no_colon(s as nat);
            lemma_split_sep(pad2(m as nat), ':', pad2(s as nat));
            lemma_split_none(pad2(s as nat), ':');
            lemma_parse_pad2(s);
            let f = split(t, seq![':']);
            assert(f =~= seq![pad2(m as nat), pad2(s as nat)]);
        } else {
            let h = parse_u64(parts[0])->Some_0;
            let m = parse_u64(parts[1])->Some_0;
            let s = parse_u64(parts[2])->Some_0;
            lemma_pad2_no_colon(h as nat);
            lemma_pad2_no_colon(m as nat);
            lemma_pad2_no_colon(s as nat);
            let tail = pad2(m as nat) + seq![':'] + pad2(s as nat);
            assert(t =~= pad2(h as nat) + seq![':'] + tail);
            lemma_split_sep(pad2(h as nat), ':', tail);
            lemma_split_sep(pad2(m as nat), ':', pad2(s as nat));
            lemma_split_none(pad2(s as nat), ':');
            lemma_parse_pad2(m);
            lemma_parse_pad2(s);
            let f = split(t, seq![':']);
            assert(f =~= seq![pad2(h as nat), pad2(m as nat), pad2(s as nat)]);
        }
    }
}

/// Capture group `group` of the leftmost-first match of the regular
/// expression `pattern` (regex crate syntax) in `haystack`; `None` when the
/// pattern does not compile, nothing matches, or the group took no part in
/// the match.
pub uninterp spec fn regex_capture(pattern: Seq<char>, haystack: Seq<char>, group: nat) -> Option<
    Seq<char>,
>;

/// `regex::Regex::new(pattern)` then `captures(haystack)` and `get(group)`.
/// The contract claims only that the result is the named function of the
/// three arguments; regular-expression matching is not written out here.
#[verifier::external_body]
fn first_capture(pattern: &str, haystack: &str, group: usize) -> (r: Option<String>)
    ensures
        r.deep_view() == regex_capture(pattern@, haystack@, group as nat),
{
    match regex::Regex::new(pattern) {
        Ok(re) => re.captures(haystack).and_then(|caps| caps.get(group)).map(
            |m| m.as_str().to_string(),
        ),
        Err(_) => None,
    }
}

/// A bracketed timestamp: `[MM:SS]` or `[HH:MM:SS]`, the inside captured.
pub open spec fn bracket_timestamp_pattern() -> Seq<char> {
    "\\[(\\d{1,2}:\\d{2}(?::\\d{2})?)\\]"@
}

fn bracket_timestamp_pattern_exec() -> (p: &'static str)
    ensures
        p@ == bracket_timestamp_pattern(),
{
    "\\[(\\d{1,2}:\\d{2}(?::\\d{2})?)\\]"
}

/// The normalised timestamp in a captured bracket, if `parse_timestamp` accepts it.
pub open spec fn capture_timestamp(capture: Option<Seq<char>>) -> Option<Seq<char>> {
    match capture {
        Some(c) => match spec_parse_timestamp(c) {
            Ok(t) => Some(t),
            Err(_) => None,
        },
        None => None,
    }
}

/// The timestamp a transcript line carries: the first bracketed timestamp
/// in it, normalised, or none.
pub open spec fn line_timestamp(line: Seq<char>) -> Option<Seq<char>> {
    capture_timestamp(regex_capture(bracket_timestamp_pattern(), line, 1))
}

/// The normalised timestamp for a captured bracket content.
pub fn timestamp_from_capture(capture: Option<&str>) -> (r: Option<String>)
    ensures
        r.deep_view() == capture_timestamp(capture.deep_view()),
{
    match capture {
        Some(c) => match parse_timestamp(c) {
            Ok(t) => Some(t),
            Err(_) => None,
        },
        None => None,
    }
}

/// Try to extract a timestamp from a line (`[MM:SS]` or `[HH:MM:SS]`).
pub fn regex_timestamp_from_line(line: &str) -> (r: Option<String>)
    ensures
        r.deep_view() == line_timestamp(line@),
{
    let cap = first_capture(bracket_timestamp_pattern_exec(), line, 1);
    match cap {
        Some(c) => timestamp_from_capture(Some(c.as_str())),
        None => timestamp_from_capture(None),
    }
}


/// A timestamp read from a transcript line is already in normal form.
pub proof fn law_line_timestamp_normalised(line: Seq<char>)
    requires
        line_timestamp(line) is Some,
    ensures
        spec_parse_timestamp(line_timestamp(line)->Some_0) == Ok::<Seq<char>, TimestampError>(
            line_timestamp(line)->Some_0,
        ),
{
    let c = regex_capture(bracket_timestamp_pattern(), line, 1)->Some_0;
    law_parse_timestamp_idempotent(c);
}

/// A subtitle timestamp (`HH:MM:SS,mmm` or `HH:MM:SS.mmm`) in the form
/// ffmpeg takes: the fraction dropped, surrounding whitespace trimmed, and
/// `00:` put in front of a bare `MM:SS`.
pub open spec fn spec_format_srt_timestamp(ts: Seq<char>) -> Seq<char> {
    let t = trim(before_either(ts, ',', '.'));
    if split(t, seq![':']).len() == 2 {
        seq!['0', '0', ':'] + t
    } else {
        t
    }
}

/// Character-level form of `format_srt_timestamp_for_ffmpeg`.
pub fn format_srt_timestamp_chars(chars: &[char]) -> (r: Vec<char>)
    ensures
        r@ == spec_format_srt_timestamp(chars@),
{
    let t = trim_exec(before_either_exec(chars, ',', '.').as_slice());
    let colon = [':'];
    let colon_s: &[char] = &colon;
    assert(colon_s@ =~= seq![':']);
    let parts = split_exec(t.as_slice(), colon_s);
    assert(views(parts@).len() == parts@.len());
    if parts.len() == 2 {
        let mut out: Vec<char> = Vec::new();
        out.push('0');
        out.push('0');
        out.push(':');
        assert(out@ =~= seq!['0', '0', ':']);
        append_chars(&mut out, t.as_slice());
        out
    } else {
        t
    }
}

/// Convert an SRT/VTT timestamp (`HH:MM:SS,mmm`) to the `HH:MM:SS` that ffmpeg takes.
pub fn format_srt_timestamp_for_ffmpeg(ts: &str) -> (r: String)
    ensures
        r@ == spec_format_srt_timestamp(ts@),
{
    let chars = to_chars(ts);
    let r = format_srt_timestamp_chars(chars.as_slice());
    from_chars(r.as_slice())
}

// ---------------------------------------------------------------------------
// Output files and commands
// ---------------------------------------------------------------------------

/// `s` with every `from` replaced by `to` (`str::replace` with characters).
pub open spec fn replace_char(s: Seq<char>, from: char, to: char) -> Seq<char> {
    s.map_values(|c: char| if c == from { to } else { c })
}

/// The common name of a screenshot's files: `<date>_<video stem>_<timestamp>`
/// with the timestamp's colons turned into dashes.
pub open spec fn screenshot_base(date: Seq<char>, stem: Seq<char>, timestamp: Seq<char>) -> Seq<char> {
    date + "_"@ + stem + "_"@ + replace_char(timestamp, ':', '-')
}

/// The image path, the OCR text path, and the base path handed to
/// tesseract (which adds `.txt`), all in `dir`.
pub open spec fn spec_output_paths(dir: Seq<char>, date: Seq<char>, stem: Seq<char>, timestamp: Seq<char>) -> (
    Seq<char>,
    Seq<char>,
    Seq<char>,
) {
    let base = screenshot_base(date, stem, timestamp);
    (join_path(dir, base + ".png"@), join_path(dir, base + ".txt"@), join_path(dir, base))
}

/// Build the output paths for a screenshot.
pub fn build_output_paths(dir: &str, date: &str, stem: &str, timestamp: &str) -> (r: (String, String, String))
    ensures
        (r.0@, r.1@, r.2@) == spec_output_paths(dir@, date@, stem@, timestamp@),
{
    let ts = to_chars(timestamp);
    let mut safe: Vec<char> = Vec::new();
    let mut i: usize = 0;
    while i < ts.len()
        invariant
            i <= ts@.len(),
            safe@ == replace_char(ts@.take(i as int), ':', '-'),
        decreases ts.len() - i,
    {
        if ts[i] == ':' {
            safe.push('-');
        } else {
            safe.push(ts[i]);
        }
        assert(replace_char(ts@.take(i + 1), ':', '-') =~= replace_char(ts@.take(i as int), ':', '-').push(
            if ts@[i as int] == ':' { '-' } else { ts@[i as int] },
        ));
        i += 1;
    }
    assert(ts@.take(ts@.len() as int) =~= ts@);
    let mut base = String::from_str(date);
    base.append("_");
    base.append(stem);
    base.append("_");
    let safe_s = from_chars(safe.as_slice());
    base.append(safe_s.as_str());
    let mut png = base.clone();
    png.append(".png");
    let mut txt = base.clone();
    txt.append(".txt");
    (join_path_exec(dir, png.as_str()), join_path_exec(dir, txt.as_str()), join_path_exec(dir, base.as_str()))
}

/// ffmpeg arguments that save the frame at `timestamp` of `video` as `png`.
pub fn frame_extraction_args(video: &str, timestamp: &str, png: &str) -> (r: Vec<String>)
    ensures
        string_views(r@) == seq![
            "-y"@,
            "-i"@,
            video@,
            "-ss"@,
            timestamp@,
            "-frames:v"@,
            "1"@,
            "-q:v"@,
            "2"@,
            png@,
        ],
{
    let r = vec![
        String::from_str("-y"),
        String::from_str("-i"),
        String::from_str(video),
        String::from_str("-ss"),
        String::from_str(timestamp),
        String::from_str("-frames:v"),
        String::from_str("1"),
        String::from_str("-q:v"),
        String::from_str("2"),
        String::from_str(png),
    ];
    assert(string_views(r@) =~= seq![
        "-y"@,
        "-i"@,
        video@,
        "-ss"@,
        timestamp@,
        "-frames:v"@,
        "1"@,
        "-q:v"@,
        "2"@,
        png@,
    ]);
    r
}

/// tesseract arguments: the image and the base path of the text output.
pub fn ocr_args(png: &str, base: &str) -> (r: Vec<String>)
    ensures
        string_views(r@) == seq![png@, base@],
{
    let r = vec![String::from_str(png), String::from_str(base)];
    assert(string_views(r@) =~= seq![png@, base@]);
    r
}

/// The transcript file names tried first for a video: `<stem>-transcript.txt`,
/// `<stem>-transcript.srt`, `<stem>.srt`, `<stem>.vtt`.
pub fn transcript_candidates(stem: &str) -> (r: Vec<String>)
    ensures
        string_views(r@) == seq![
            stem@ + "-transcript.txt"@,
            stem@ + "-transcript.srt"@,
            stem@ + ".srt"@,
            stem@ + ".vtt"@,
        ],
{
    let mut a = String::from_str(stem);
    a.append("-transcript.txt");
    let mut b = String::from_str(stem);
    b.append("-transcript.srt");
    let mut c = String::from_str(stem);
    c.append(".srt");
    let mut d = String::from_str(stem);
    d.append(".vtt");
    let r = vec![a, b, c, d];
    assert(string_views(r@) =~= seq![
        stem@ + "-transcript.txt"@,
        stem@ + "-transcript.srt"@,
        stem@ + ".srt"@,
        stem@ + ".vtt"@,
    ]);
    r
}

/// A file in the output directory that is taken as the video's transcript:
/// its name contains the stem and ends like a transcript or subtitle file.
pub open spec fn spec_is_transcript_for(name: Seq<char>, stem: Seq<char>) -> bool {
    contains(name, stem) && (ends_with(name, "-transcript.txt"@) || ends_with(name, "-transcript.srt"@)
        || ends_with(name, ".srt"@) || ends_with(name, ".vtt"@))
}

/// Whether a file name is taken as the transcript of the video with the given stem.
pub fn is_transcript_for(name: &str, stem: &str) -> (r: bool)
    ensures
        r == spec_is_transcript_for(name@, stem@),
{
    let n = to_chars(name);
    let s = to_chars(stem);
    let t1 = to_chars("-transcript.txt");
    let t2 = to_chars("-transcript.srt");
    let t3 = to_chars(".srt");
    let t4 = to_chars(".vtt");
    contains_exec(n.as_slice(), s.as_slice()) && (ends_with_exec(n.as_slice(), t1.as_slice())
        || ends_with_exec(n.as_slice(), t2.as_slice()) || ends_with_exec(n.as_slice(), t3.as_slice())
        || ends_with_exec(n.as_slice(), t4.as_slice()))
}

/// How the user asked for the moment to capture.
#[derive(Debug)]
pub enum MomentRequest {
    /// A timestamp, already normalised.
    At(String),
    /// A keyword to search the transcript for.
    Search(String),
    /// A sentence to match against the transcript.
    Sentence(String),
}

/// Why no moment could be determined from the request.
#[derive(Debug, Clone, Copy, PartialEq, Eq, Structural)]
pub enum MomentError {
    /// The timestamp given was refused.
    BadTimestamp(TimestampError),
    /// Neither a timestamp, a search nor a sentence was given.
    Missing,
}

/// The request a command line makes: a timestamp takes precedence over a
/// search, a search over a sentence.
pub fn moment_request(timestamp: Option<&str>, search: Option<&str>, sentence: Option<&str>) -> (r: Result<
    MomentRequest,
    MomentError,
>)
    ensures
        match timestamp {
            Some(ts) => match r {
                Ok(MomentRequest::At(t)) => spec_parse_timestamp(ts@) == Ok::<Seq<char>, TimestampError>(t@),
                Err(MomentError::BadTimestamp(e)) => spec_parse_timestamp(ts@) == Err::<Seq<char>, TimestampError>(e),
                _ => false,
            },
            None => match search {
                Some(q) => r matches Ok(MomentRequest::Search(s)) && s@ == q@,
                None => match sentence {
                    Some(q) => r matches Ok(MomentRequest::Sentence(s)) && s@ == q@,
                    None => r matches Err(MomentError::Missing),
                },
            },
        },
{
    match timestamp {
        Some(ts) => match parse_timestamp(ts) {
            Ok(t) => Ok(MomentRequest::At(t)),
            Err(e) => Err(MomentError::BadTimestamp(e)),
        },
        None => match search {
            Some(q) => Ok(MomentRequest::Search(String::from_str(q))),
            None => match sentence {
                Some(q) => Ok(MomentRequest::Sentence(String::from_str(q))),
                None => Err(MomentError::Missing),
            },
        },
    }
}

} // verus!
