//! Transcription: which inputs need their audio extracted, and the
//! arguments given to ffmpeg and to the transcriber.
use vstd::prelude::*;
use crate::text::str_eq;
use crate::tools::string_views;

verus! {

/// The video containers whose audio is extracted before transcription.
pub open spec fn spec_is_video_extension(ext: Seq<char>) -> bool {
    ext == "mp4"@ || ext == "mkv"@ || ext == "avi"@ || ext == "mov"@ || ext == "webm"@ || ext == "flv"@
}

/// Whether a file extension marks a video whose audio must be extracted first.
pub fn is_video_extension(ext: &str) -> (r: bool)
    ensures
        r == spec_is_video_extension(ext@),
{
    str_eq(ext, "mp4") || str_eq(ext, "mkv") || str_eq(ext, "avi") || str_eq(ext, "mov")
        || str_eq(ext, "webm") || str_eq(ext, "flv")
}

/// ffmpeg arguments that extract 16 kHz mono 16-bit PCM audio from `input` into `wav`.
pub fn audio_extraction_args(input: &str, wav: &str) -> (r: Vec<String>)
    ensures
        string_views(r@) == seq![
            "-y"@,
            "-i"@,
            input@,
            "-ar"@,
            "16000"@,
            "-ac"@,
            "1"@,
            "-c:a"@,
            "pcm_s16le"@,
            wav@,
        ],
{
    let r = vec![
        String::from_str("-y"),
        String::from_str("-i"),
        String::from_str(input),
        String::from_str("-ar"),
        String::from_str("16000"),
        String::from_str("-ac"),
        String::from_str("1"),
        String::from_str("-c:a"),
        String::from_str("pcm_s16le"),
        String::from_str(wav),
    ];
    assert(string_views(r@) =~= seq![
        "-y"@,
        "-i"@,
        input@,
        "-ar"@,
        "16000"@,
        "-ac"@,
        "1"@,
        "-c:a"@,
        "pcm_s16le"@,
        wav@,
    ]);
    r
}

/// The transcriber arguments: the input, the model, the language when one
/// is known, and plain-text output into `output_dir`.
pub open spec fn spec_whisper_args(
    input: Seq<char>,
    model: Seq<char>,
    language: Option<Seq<char>>,
    output_dir: Seq<char>,
) -> Seq<Seq<char>> {
    let lang = match language {
        Some(l) => seq!["--language"@, l],
        None => Seq::empty(),
    };
    seq![input, "--model"@, model] + lang + seq![
        "--output_dir"@,
        output_dir,
        "--output_format"@,
        "txt"@,
    ]
}

/// The transcriber arguments.
pub fn whisper_args(input: &str, model: &str, language: Option<&str>, output_dir: &str) -> (r: Vec<
    String,
>)
    ensures
        string_views(r@) == spec_whisper_args(input@, model@, language.deep_view(), output_dir@),
{
    let mut r: Vec<String> = Vec::new();
    r.push(String::from_str(input));
    r.push(String::from_str("--model"));
    r.push(String::from_str(model));
    let ghost head = string_views(r@);
    match language {
        Some(l) => {
            r.push(String::from_str("--language"));
            r.push(String::from_str(l));
        },
        None => {},
    }
    let ghost mid = string_views(r@);
    r.push(String::from_str("--output_dir"));
    r.push(String::from_str(output_dir));
    r.push(String::from_str("--output_format"));
    r.push(String::from_str("txt"));
    proof {
        let lang: Seq<Seq<char>> = match language.deep_view() {
            Some(l) => seq!["--language"@, l],
            None => Seq::empty(),
        };
        assert(head =~= seq![input@, "--model"@, model@]);
        assert(mid =~= head + lang);
        assert(string_views(r@) =~= mid + seq![
            "--output_dir"@,
            output_dir@,
            "--output_format"@,
            "txt"@,
        ]);
    }
    r
}

/// The model to transcribe with: the one asked for, else the configured one.
pub fn choose_model(requested: Option<&str>, configured: &str) -> (r: String)
    ensures
        r@ == match requested.deep_view() {
            Some(m) => m,
            None => configured@,
        },
{
    match requested {
        Some(m) => String::from_str(m),
        None => String::from_str(configured),
    }
}

/// The language hint: the one asked for, else the configured one, if any.
pub fn choose_language(requested: Option<&str>, configured: Option<&str>) -> (r: Option<String>)
    ensures
        r.deep_view() == match requested.deep_view() {
            Some(l) => Some(l),
            None => configured.deep_view(),
        },
{
    match requested {
        Some(l) => Some(String::from_str(l)),
        None => match configured {
            Some(l) => Some(String::from_str(l)),
            None => None,
        },
    }
}

/// Whether timestamps are wanted: never with `--no-timestamps`, else when
/// asked for or configured.
pub fn use_timestamps(no_timestamps: bool, timestamps: bool, configured: bool) -> (r: bool)
    ensures
        r == (!no_timestamps && (timestamps || configured)),
{
    if no_timestamps {
        false
    } else {
        timestamps || configured
    }
}

/// A file name made of a stem and an extension: `<stem>.<ext>`.
pub fn with_extension(stem: &str, ext: &str) -> (r: String)
    ensures
        r@ == stem@ + "."@ + ext@,
{
    let mut r = String::from_str(stem);
    r.append(".");
    r.append(ext);
    r
}

} // verus!
