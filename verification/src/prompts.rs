//! The instructions sent to the language model for each command.
use vstd::prelude::*;
use crate::text::str_eq;

verus! {

/// The instruction text followed by the transcript.
pub fn with_transcript(instruction: &str, transcript: &str) -> (r: String)
    ensures
        r@ == instruction@ + transcript@,
{
    let mut r = String::from_str(instruction);
    r.append(transcript);
    r
}

/// The action-items prompt, with speaker attribution when `assignee` is set.
pub open spec fn spec_actions_prompt(transcript: Seq<char>, assignee: bool) -> Seq<char> {
    if assignee {
        "Extract all action items from this meeting transcript. For each action item, identify who is responsible (the assignee), what they need to do, and any deadline mentioned. Format as a numbered list:\n\n"@
            + transcript
    } else {
        "Extract all action items from this meeting transcript as a numbered list:\n\n"@ + transcript
    }
}

/// The prompt for `actions`.
pub fn actions_prompt(transcript: &str, assignee: bool) -> (r: String)
    ensures
        r@ == spec_actions_prompt(transcript@, assignee),
{
    if assignee {
        with_transcript(
            "Extract all action items from this meeting transcript. For each action item, identify who is responsible (the assignee), what they need to do, and any deadline mentioned. Format as a numbered list:\n\n",
            transcript,
        )
    } else {
        with_transcript(
            "Extract all action items from this meeting transcript as a numbered list:\n\n",
            transcript,
        )
    }
}

/// The prompt for `decisions`.
pub fn decisions_prompt(transcript: &str) -> (r: String)
    ensures
        r@ == "Extract all decisions that were made during this meeting. List each decision clearly, stripping away the discussion that led to it:\n\n"@
            + transcript@,
{
    with_transcript(
        "Extract all decisions that were made during this meeting. List each decision clearly, stripping away the discussion that led to it:\n\n",
        transcript,
    )
}

/// The summary prompt: detailed when `detail` is set, else by topic
/// sections when `sections` is set, else a concise TLDR.
pub open spec fn spec_summarize_prompt(transcript: Seq<char>, detail: bool, sections: bool) -> Seq<char> {
    if detail {
        "Provide a detailed, thorough summary of this meeting transcript:\n\n"@ + transcript
    } else if sections {
        "Summarize this meeting transcript organized by topic sections:\n\n"@ + transcript
    } else {
        "Provide a concise TLDR and key points for this meeting transcript:\n\n"@ + transcript
    }
}

/// The prompt for `summarize`.
pub fn summarize_prompt(transcript: &str, detail: bool, sections: bool) -> (r: String)
    ensures
        r@ == spec_summarize_prompt(transcript@, detail, sections),
{
    if detail {
        with_transcript(
            "Provide a detailed, thorough summary of this meeting transcript:\n\n",
            transcript,
        )
    } else if sections {
        with_transcript(
            "Summarize this meeting transcript organized by topic sections:\n\n",
            transcript,
        )
    } else {
        with_transcript(
            "Provide a concise TLDR and key points for this meeting transcript:\n\n",
            transcript,
        )
    }
}

/// The follow-up prompt for a channel: Slack and email have their own;
/// another channel is named in a general prompt; no channel gives the
/// general prompt without one.
pub open spec fn spec_followup_prompt(transcript: Seq<char>, channel: Option<Seq<char>>) -> Seq<char> {
    match channel {
        Some(ch) => if ch == "slack"@ {
            "Draft a concise follow-up message for Slack based on this meeting transcript. Use Slack-friendly formatting (short paragraphs, bullet points, emoji headers):\n\n"@
                + transcript
        } else if ch == "email"@ {
            "Draft a professional follow-up email based on this meeting transcript. Include subject line, key points, action items, and next steps:\n\n"@
                + transcript
        } else {
            "Draft a follow-up message for "@ + ch + " based on this meeting transcript:\n\n"@
                + transcript
        },
        None => "Draft a follow-up message based on this meeting transcript, including key points discussed, action items, and next steps:\n\n"@
            + transcript,
    }
}

/// The prompt for `followup`.
pub fn followup_prompt(transcript: &str, channel: Option<&str>) -> (r: String)
    ensures
        r@ == spec_followup_prompt(transcript@, channel.deep_view()),
{
    match channel {
        Some(ch) => {
            if str_eq(ch, "slack") {
                with_transcript(
                    "Draft a concise follow-up message for Slack based on this meeting transcript. Use Slack-friendly formatting (short paragraphs, bullet points, emoji headers):\n\n",
                    transcript,
                )
            } else if str_eq(ch, "email") {
                with_transcript(
                    "Draft a professional follow-up email based on this meeting transcript. Include subject line, key points, action items, and next steps:\n\n",
                    transcript,
                )
            } else {
                let mut r = String::from_str("Draft a follow-up message for ");
                r.append(ch);
                r.append(" based on this meeting transcript:\n\n");
                r.append(transcript);
                r
            }
        },
        None => with_transcript(
            "Draft a follow-up message based on this meeting transcript, including key points discussed, action items, and next steps:\n\n",
            transcript,
        ),
    }
}

/// The TLDR prompt of `doc`.
pub fn doc_tldr_prompt(transcript: &str) -> (r: String)
    ensures
        r@ == "Provide a concise TLDR (3-5 sentences) of this meeting transcript:\n\n"@ + transcript@,
{
    with_transcript(
        "Provide a concise TLDR (3-5 sentences) of this meeting transcript:\n\n",
        transcript,
    )
}

/// The decisions prompt of `doc` and `digest`.
pub fn short_decisions_prompt(transcript: &str) -> (r: String)
    ensures
        r@ == "Extract all decisions made during this meeting:\n\n"@ + transcript@,
{
    with_transcript("Extract all decisions made during this meeting:\n\n", transcript)
}

} // verus!
