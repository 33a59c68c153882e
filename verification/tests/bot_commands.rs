use libvoice::bot::{
    error_reply, format_command_error, graph_caption, parse_command, progress_message, split_message,
    voice_usage_hint, BotCommand,
};
use libvoice::text::escape_html;

#[test]
fn parses_plain_commands() {
    assert_eq!(parse_command("/analyze"), Some(BotCommand::Analyze));
    assert_eq!(parse_command("/voice"), Some(BotCommand::Voice));
}

#[test]
fn parses_commands_with_bot_mentions_and_arguments() {
    assert_eq!(
        parse_command("/analyze@voicebot +graph"),
        Some(BotCommand::Analyze)
    );
    assert_eq!(
        parse_command("/voice@voicebot now"),
        Some(BotCommand::Voice)
    );
}

#[test]
fn ignores_unknown_commands() {
    assert_eq!(parse_command("/start"), None);
    assert_eq!(parse_command("hello"), None);
}

#[test]
fn command_is_read_from_first_word_after_leading_space() {
    assert_eq!(parse_command("   /voice  later"), Some(BotCommand::Voice));
    assert_eq!(parse_command(""), None);
    assert_eq!(parse_command("   "), None);
    assert_eq!(parse_command("analyze /analyze"), None);
}

#[test]
fn command_error_titles_and_escapes_detail() {
    assert_eq!(
        format_command_error(BotCommand::Analyze, "bad <input> & more"),
        "<b>Could not analyze that audio.</b>\n\nbad &lt;input&gt; &amp; more"
    );
    assert_eq!(
        format_command_error(BotCommand::Voice, "x"),
        "<b>Could not re-upload that audio as a voice message.</b>\n\nx"
    );
}

#[test]
fn voice_hint_names_the_command() {
    assert_eq!(
        voice_usage_hint(),
        "Reply to a voice message or audio file with <code>/voice</code>."
    );
}

#[test]
fn escape_html_replaces_the_three_special_characters() {
    assert_eq!(escape_html("a<b>&c"), "a&lt;b&gt;&amp;c");
    assert_eq!(escape_html("plain"), "plain");
    assert_eq!(escape_html(""), "");
    assert!(!escape_html("<<>>").contains('<'));
}

#[test]
fn short_message_is_sent_whole() {
    assert_eq!(split_message("one\ntwo", 100), vec!["one\ntwo".to_string()]);
    assert_eq!(split_message("", 0), vec!["".to_string()]);
}

#[test]
fn long_message_is_split_at_line_boundaries() {
    let chunks = split_message("aaaa\nbbbb\ncc\r\ndd", 10);
    assert_eq!(chunks, vec!["aaaa\nbbbb".to_string(), "cc\ndd".to_string()]);
    for chunk in &chunks {
        assert!(chunk.len() <= 10);
    }
}

#[test]
fn over_long_single_line_stays_one_chunk() {
    let chunks = split_message("abcdefghij\nxy", 5);
    assert_eq!(chunks, vec!["abcdefghij".to_string(), "xy".to_string()]);
}

#[test]
fn message_limit_counts_utf8_bytes() {
    // "é" takes two bytes: four of them are eight bytes.
    let chunks = split_message("éé\néé", 5);
    assert_eq!(chunks, vec!["éé".to_string(), "éé".to_string()]);
}

#[test]
fn progress_message_acknowledges_input() {
    assert_eq!(
        progress_message(BotCommand::Analyze, "a<b>.ogg"),
        "<b>Received</b> a&lt;b&gt;.ogg.\nDownloading and analyzing it now. This can take a few seconds."
    );
    assert_eq!(
        progress_message(BotCommand::Voice, "voice message"),
        "<b>Received</b> voice message.\nDownloading and preparing it as a voice message now. This can take a few seconds."
    );
}

#[test]
fn graph_caption_lists_titles() {
    let titles = vec!["Pitch".to_string(), "HNR & Loudness".to_string()];
    assert_eq!(
        graph_caption(&titles),
        "<b>Analysis graphs</b>\nPitch, HNR &amp; Loudness"
    );
    assert_eq!(graph_caption(&Vec::new()), "<b>Analysis graphs</b>\n");
}

#[test]
fn failures_are_answered_only_for_commands() {
    assert_eq!(
        error_reply(Some("/voice@bot"), "no <audio>"),
        Some("<b>Could not re-upload that audio as a voice message.</b>\n\nno &lt;audio&gt;".to_string())
    );
    assert_eq!(error_reply(Some("hello"), "x"), None);
    assert_eq!(error_reply(None, "x"), None);
}
