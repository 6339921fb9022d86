use parrot::prompts::{
    actions_prompt, doc_tldr_prompt, followup_prompt, short_decisions_prompt,
    summarize_prompt,
};

#[test]
fn actions_prompt_default() {
    let transcript = "John will follow up by Friday.";
    let prompt = actions_prompt(transcript, false);
    assert!(prompt.contains("action items"));
    assert!(prompt.contains("numbered list"));
    assert_eq!(
        prompt,
        format!("Extract all action items from this meeting transcript as a numbered list:\n\n{}", transcript)
    );
}

#[test]
fn actions_prompt_with_assignee() {
    let transcript = "John will follow up.";
    let prompt = actions_prompt(transcript, true);
    assert!(prompt.contains("assignee"));
    assert!(prompt.contains("deadline"));
    assert!(prompt.ends_with("Format as a numbered list:\n\nJohn will follow up."));
}

#[test]
fn decisions_prompt() {
    let transcript = "We decided to go with Option B.";
    let prompt = parrot::prompts::decisions_prompt(transcript);
    assert!(prompt.contains("decisions"));
    assert!(prompt.contains("stripping away"));
    assert!(prompt.ends_with(transcript));
}

#[test]
fn decisions_prompt_ends_with_transcript() {
    let prompt = parrot::prompts::decisions_prompt("X");
    assert!(prompt.starts_with("Extract all decisions that were made during this meeting."));
    assert!(prompt.ends_with(":\n\nX"));
}

#[test]
fn summarize_prompt_modes() {
    assert_eq!(
        summarize_prompt("T", true, true),
        "Provide a detailed, thorough summary of this meeting transcript:\n\nT"
    );
    assert_eq!(
        summarize_prompt("T", false, true),
        "Summarize this meeting transcript organized by topic sections:\n\nT"
    );
    assert_eq!(
        summarize_prompt("T", false, false),
        "Provide a concise TLDR and key points for this meeting transcript:\n\nT"
    );
}

#[test]
fn followup_prompt_channels() {
    assert!(followup_prompt("T", Some("slack")).starts_with("Draft a concise follow-up message for Slack"));
    assert!(followup_prompt("T", Some("email")).starts_with("Draft a professional follow-up email"));
    assert_eq!(
        followup_prompt("T", Some("teams")),
        "Draft a follow-up message for teams based on this meeting transcript:\n\nT"
    );
    assert_eq!(
        followup_prompt("T", None),
        "Draft a follow-up message based on this meeting transcript, including key points discussed, action items, and next steps:\n\nT"
    );
}

#[test]
fn doc_prompts() {
    assert_eq!(
        doc_tldr_prompt("T"),
        "Provide a concise TLDR (3-5 sentences) of this meeting transcript:\n\nT"
    );
    assert_eq!(short_decisions_prompt("T"), "Extract all decisions made during this meeting:\n\nT");
}
