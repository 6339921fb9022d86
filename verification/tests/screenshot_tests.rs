use parrot::screenshot::{
    build_output_paths, format_srt_timestamp_for_ffmpeg, frame_extraction_args, moment_request,
    ocr_args, parse_timestamp, regex_timestamp_from_line, timestamp_from_capture,
    transcript_candidates, is_transcript_for, MomentError, MomentRequest, TimestampError,
};
use parrot::tools::{check_dependency, dependency_result, install_hint};

#[test]
fn parse_timestamp_mm_ss() {
    assert_eq!(parse_timestamp("32:15").unwrap(), "32:15");
    assert_eq!(parse_timestamp("05:09").unwrap(), "05:09");
}

#[test]
fn parse_timestamp_hh_mm_ss() {
    assert_eq!(parse_timestamp("01:32:15").unwrap(), "01:32:15");
    assert_eq!(parse_timestamp("0:05:09").unwrap(), "00:05:09");
}

#[test]
fn parse_timestamp_rejects_invalid() {
    assert!(parse_timestamp("abc").is_err());
    assert!(parse_timestamp("1:2:3:4").is_err());
    assert!(parse_timestamp("5:70").is_err()); // seconds > 59
    assert!(parse_timestamp("1:60:30").is_err()); // minutes > 59
}

#[test]
fn parse_timestamp_single_number_fails() {
    assert!(parse_timestamp("123").is_err());
}

#[test]
fn parse_timestamp_error_kinds() {
    assert_eq!(parse_timestamp("abc"), Err(TimestampError::BadFormat));
    assert_eq!(parse_timestamp("x:10"), Err(TimestampError::InvalidMinutes));
    assert_eq!(parse_timestamp("10:x"), Err(TimestampError::InvalidSeconds));
    assert_eq!(parse_timestamp("x:10:10"), Err(TimestampError::InvalidHours));
    assert_eq!(parse_timestamp("5:70"), Err(TimestampError::SecondsOutOfRange(70)));
    assert_eq!(parse_timestamp("1:60:30"), Err(TimestampError::MinutesOutOfRange(60)));
    assert_eq!(parse_timestamp(""), Err(TimestampError::BadFormat));
    assert_eq!(parse_timestamp(":"), Err(TimestampError::InvalidMinutes));
    assert_eq!(parse_timestamp("18446744073709551616:00"), Err(TimestampError::InvalidMinutes));
}

#[test]
fn parse_timestamp_number_forms() {
    assert_eq!(parse_timestamp("+5:7").unwrap(), "05:07");
    assert_eq!(parse_timestamp("123:45").unwrap(), "123:45");
    assert_eq!(parse_timestamp("007:09").unwrap(), "07:09");
    assert_eq!(parse_timestamp("100:0:0").unwrap(), "100:00:00");
    assert!(parse_timestamp("-5:07").is_err());
    assert!(parse_timestamp(" 5:07").is_err());
}

#[test]
fn parse_timestamp_is_idempotent_on_examples() {
    for ts in ["0:5:9", "32:15", "+7:07", "99:59:59", "0:0"] {
        let once = parse_timestamp(ts).unwrap();
        let twice = parse_timestamp(&once).unwrap();
        assert_eq!(once, twice);
    }
}

#[test]
fn build_output_paths_format() {
    let (png, txt, tess_base) = build_output_paths("/home/u/.parrot/output/screenshots", "2026-05-30", "meeting_recording", "32:15");
    assert!(png.contains("screenshots"));
    assert!(png.ends_with(".png"));
    assert!(txt.ends_with(".txt"));
    assert!(png.contains("meeting_recording"));
    assert!(png.contains("32-15"));
    assert!(txt.contains("32-15"));
    // tesseract base should not have extension
    assert!(!tess_base.ends_with(".png"));
    assert!(!tess_base.ends_with(".txt"));
    assert_eq!(png, "/home/u/.parrot/output/screenshots/2026-05-30_meeting_recording_32-15.png");
    assert_eq!(tess_base, "/home/u/.parrot/output/screenshots/2026-05-30_meeting_recording_32-15");
}

#[test]
fn ffmpeg_command_construction() {
    let args = frame_extraction_args("input.mp4", "32:15", "output.png");
    assert!(args.contains(&"-ss".to_string()));
    assert!(args.contains(&"-frames:v".to_string()));
    assert!(args.contains(&"1".to_string()));
    assert!(args.contains(&"-q:v".to_string()));
    assert!(args.contains(&"2".to_string()));
    assert_eq!(
        args,
        vec!["-y", "-i", "input.mp4", "-ss", "32:15", "-frames:v", "1", "-q:v", "2", "output.png"]
    );
}

#[test]
fn tesseract_command_construction() {
    let args = ocr_args("screenshot.png", "screenshot");
    assert_eq!(args.len(), 2); // input and output base
    assert!(args[0].ends_with(".png"));
    assert!(!args[1].contains(".")); // output base has no extension
}

#[test]
fn format_srt_timestamp_for_ffmpeg_hhmmss() {
    assert_eq!(format_srt_timestamp_for_ffmpeg("01:32:15,000"), "01:32:15");
    assert_eq!(format_srt_timestamp_for_ffmpeg("00:05:09.500"), "00:05:09");
}

#[test]
fn format_srt_timestamp_for_ffmpeg_mmss() {
    assert_eq!(format_srt_timestamp_for_ffmpeg("32:15"), "00:32:15");
}

#[test]
fn format_srt_timestamp_trims_and_keeps_other_shapes() {
    assert_eq!(format_srt_timestamp_for_ffmpeg("  00:32:15,000 "), "00:32:15");
    assert_eq!(format_srt_timestamp_for_ffmpeg("15"), "15");
    assert_eq!(format_srt_timestamp_for_ffmpeg(""), "");
}

#[test]
fn regex_timestamp_from_line_brackets() {
    assert_eq!(regex_timestamp_from_line("[32:15] hello"), Some("32:15".to_string()));
    assert_eq!(regex_timestamp_from_line("[01:32:15] hello"), Some("01:32:15".to_string()));
    assert_eq!(regex_timestamp_from_line("no timestamp here"), None);
}

#[test]
fn regex_timestamp_normalises_and_rejects() {
    assert_eq!(regex_timestamp_from_line("at [1:05:09] we"), Some("01:05:09".to_string()));
    assert_eq!(regex_timestamp_from_line("[5:70] bad seconds"), None);
    assert_eq!(regex_timestamp_from_line("32:15 without brackets"), None);
}

#[test]
fn capture_to_timestamp() {
    assert_eq!(timestamp_from_capture(Some("0:05:09")), Some("00:05:09".to_string()));
    assert_eq!(timestamp_from_capture(Some("1:60:00")), None);
    assert_eq!(timestamp_from_capture(None), None);
}

#[test]
fn check_dependency_missing_shows_install() {
    // This test just verifies the function exists and works for installed tools
    // ffmpeg and tesseract may or may not be installed in test env
    let _ = check_dependency("ffmpeg");
    let _ = check_dependency("tesseract");
}

#[test]
fn missing_tool_reports_install_hint() {
    let err = check_dependency("parrot-no-such-tool-4711").unwrap_err();
    assert_eq!(err.name, "parrot-no-such-tool-4711");
    assert_eq!(err.install, "install parrot-no-such-tool-4711");
    assert_eq!(install_hint("ffmpeg"), "brew install ffmpeg");
    assert_eq!(install_hint("tesseract"), "brew install tesseract");
    assert!(dependency_result("ffmpeg", true).is_ok());
    assert_eq!(dependency_result("ffmpeg", false).unwrap_err().install, "brew install ffmpeg");
}

#[test]
fn transcript_names() {
    assert_eq!(
        transcript_candidates("m"),
        vec!["m-transcript.txt", "m-transcript.srt", "m.srt", "m.vtt"]
    );
    assert!(is_transcript_for("2026-05-30_m-transcript.txt", "m"));
    assert!(is_transcript_for("m.vtt", "m"));
    assert!(!is_transcript_for("m.txt", "m"));
    assert!(!is_transcript_for("other.srt", "m"));
}

#[test]
fn moment_request_precedence() {
    match moment_request(Some("5:3"), Some("budget"), None) {
        Ok(MomentRequest::At(t)) => assert_eq!(t, "05:03"),
        other => panic!("unexpected {:?}", other),
    }
    match moment_request(None, Some("budget"), Some("the revenue")) {
        Ok(MomentRequest::Search(q)) => assert_eq!(q, "budget"),
        other => panic!("unexpected {:?}", other),
    }
    match moment_request(None, None, Some("the revenue")) {
        Ok(MomentRequest::Sentence(q)) => assert_eq!(q, "the revenue"),
        other => panic!("unexpected {:?}", other),
    }
    assert!(matches!(moment_request(None, None, None), Err(MomentError::Missing)));
    assert!(matches!(
        moment_request(Some("5:99"), None, None),
        Err(MomentError::BadTimestamp(TimestampError::SecondsOutOfRange(99)))
    ));
}
