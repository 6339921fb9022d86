use parrot::tools::{pick_whisper, find_whisper};
use parrot::transcribe::{
    audio_extraction_args, choose_language, choose_model, is_video_extension, use_timestamps,
    whisper_args, with_extension,
};
use std::path::Path;

#[test]
fn ffmpeg_args_for_audio_extraction() {
    let args = audio_extraction_args("input.mp4", "/tmp/input.wav");
    assert!(args.contains(&"-y".to_string()));
    assert!(args.contains(&"-ar".to_string()));
    assert!(args.contains(&"16000".to_string()));  // 16kHz sample rate
    assert!(args.contains(&"-ac".to_string()));
    assert!(args.contains(&"1".to_string()));       // mono
    assert!(args.contains(&"pcm_s16le".to_string())); // 16-bit PCM
    assert_eq!(args[2], "input.mp4");
    assert_eq!(args[9], "/tmp/input.wav");
}

#[test]
fn video_extensions_require_extraction() {
    let video_exts = vec!["mp4", "mkv", "avi", "mov", "webm", "flv"];
    for ext in video_exts {
        let is_video = is_video_extension(ext);
        assert!(is_video, "{} should be recognized as video", ext);
    }
}

#[test]
fn audio_extensions_dont_require_extraction() {
    let audio_exts = vec!["wav", "mp3", "flac", "ogg", "m4a"];
    for ext in audio_exts {
        let is_video = is_video_extension(ext);
        assert!(!is_video, "{} should NOT be recognized as video", ext);
    }
}

#[test]
fn whisper_args_construction() {
    // Verify typical whisper args
    let model = "whisper-medium";
    let transcript_file = "/tmp/test.wav";
    let output_dir = "/tmp/.parrot/output";

    let args = whisper_args(transcript_file, model, Some("en"), output_dir);

    assert!(args.contains(&"--model".to_string()));
    assert!(args.contains(&"whisper-medium".to_string()));
    assert!(args.contains(&"--language".to_string()));
    assert!(args.contains(&"en".to_string()));
    assert!(args.contains(&"--output_format".to_string()));
    assert!(args.contains(&"txt".to_string()));
}

#[test]
fn whisper_args_without_language() {
    let args = whisper_args("a.wav", "m", None, "/o");
    assert_eq!(args, vec!["a.wav", "--model", "m", "--output_dir", "/o", "--output_format", "txt"]);
}

#[test]
fn path_file_stem_extraction() {
    let path = Path::new("/some/dir/my_meeting.wav");
    let stem = path.file_stem().unwrap().to_str().unwrap();
    assert_eq!(stem, "my_meeting");
    assert_eq!(with_extension(stem, "txt"), "my_meeting.txt");
}

#[test]
fn nonexistent_file_detected() {
    let path = Path::new("/nonexistent/file.mp4");
    assert!(!path.exists());
}

#[test]
fn model_and_language_choice() {
    assert_eq!(choose_model(Some("whisper-large-v3"), "whisper-medium"), "whisper-large-v3");
    assert_eq!(choose_model(None, "whisper-medium"), "whisper-medium");
    assert_eq!(choose_language(Some("en"), Some("de")), Some("en".to_string()));
    assert_eq!(choose_language(None, Some("de")), Some("de".to_string()));
    assert_eq!(choose_language(None, None), None);
    assert!(!use_timestamps(true, true, true));
    assert!(use_timestamps(false, false, true));
    assert!(!use_timestamps(false, false, false));
}

#[test]
fn whisper_binary_preference() {
    assert_eq!(pick_whisper(true, true), Some("whisper"));
    assert_eq!(pick_whisper(false, true), Some("whisper-cpp"));
    assert_eq!(pick_whisper(false, false), None);
    let found = find_whisper();
    assert!(found.is_none() || found == Some("whisper") || found == Some("whisper-cpp"));
}
