use parrot::transcript::{find_sentence, search_transcript};

#[test]
fn search_transcript_plain_text() {
    let content = "[32:15] Let's discuss the budget\n[45:02] The revenue target is 5M\n";
    let result = search_transcript("meeting-transcript.txt", content, "budget");
    assert!(result.is_some());
    let (ts, text) = result.unwrap();
    assert_eq!(ts, "32:15");
    assert!(text.to_lowercase().contains("budget"));
}

#[test]
fn search_transcript_srt() {
    let content = "1\n00:32:15,000 --> 00:32:20,000\nLet's discuss the budget\n\n2\n00:45:02,000 --> 00:45:07,000\nThe revenue target is 5M\n";
    let result = search_transcript("meeting.srt", content, "budget");
    assert!(result.is_some());
    let (ts, text) = result.unwrap();
    assert_eq!(ts, "00:32:15");
    assert!(text.to_lowercase().contains("budget"));
}

#[test]
fn find_sentence_fuzzy_match() {
    let content = "[32:15] Let's discuss the budget allocation\n[45:02] The revenue target is 5M dollars\n";
    let result = find_sentence("meeting-transcript.txt", content, "revenue target 5M");
    assert!(result.is_some());
    let (ts, text) = result.unwrap();
    assert_eq!(ts, "45:02");
    assert!(text.to_lowercase().contains("revenue"));
}

#[test]
fn search_is_case_insensitive() {
    let content = "[01:00] Opening\n[02:30] BUDGET review starts\n";
    let (ts, text) = search_transcript("notes.txt", content, "Budget").unwrap();
    assert_eq!(ts, "02:30");
    assert_eq!(text, "[02:30] BUDGET review starts");
}

#[test]
fn search_plain_keeps_last_timestamp() {
    let content = "[10:00] Intro\nno stamp but budget here\n";
    let (ts, text) = search_transcript("t.txt", content, "budget").unwrap();
    assert_eq!(ts, "10:00");
    assert_eq!(text, "no stamp but budget here");
    let (ts0, _) = search_transcript("t.txt", "budget first\n", "budget").unwrap();
    assert_eq!(ts0, "00:00:00");
    assert_eq!(search_transcript("t.txt", "nothing\n", "budget"), None);
}

#[test]
fn search_vtt_skips_header_and_joins_lines() {
    let content = "WEBVTT\n\n00:01.000 --> 00:04.000\nHello there\nbudget talk\n\n00:05.000 --> 00:07.000\nbye\n";
    let (ts, text) = search_transcript("call.vtt", content, "BUDGET").unwrap();
    assert_eq!(ts, "00:00:01");
    assert_eq!(text, "Hello there budget talk");
}

#[test]
fn search_srt_ignores_blocks_without_timing() {
    let content = "just text budget\n\n1\n00:00:05,000 --> 00:00:06,000\nbudget again\n";
    let (ts, text) = search_transcript("a.srt", content, "budget").unwrap();
    assert_eq!(ts, "00:00:05");
    assert_eq!(text, "budget again");
}

#[test]
fn find_sentence_prefers_first_best_and_needs_overlap() {
    let content = "[00:10] alpha beta\n[00:20] alpha beta\n[00:30] gamma\n";
    let (ts, text) = find_sentence("x.txt", content, "alpha beta").unwrap();
    assert_eq!(ts, "00:10");
    assert_eq!(text, "[00:10] alpha beta");
    assert_eq!(find_sentence("x.txt", content, "delta"), None);
    assert_eq!(find_sentence("x.txt", content, ""), None);
}

#[test]
fn find_sentence_in_srt() {
    let content = "1\n00:00:01,000 --> 00:00:02,000\nwe open\n\n2\n00:01:00,000 --> 00:01:05,000\nthe revenue target is high\n";
    let (ts, text) = find_sentence("m.srt", content, "Revenue TARGET").unwrap();
    assert_eq!(ts, "00:01:00");
    assert_eq!(text, "the revenue target is high");
}
