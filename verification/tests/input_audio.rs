use libvoice::input::{
    extract_audio_from_message, find_input_audio, is_audio_file_name, is_audio_name_or_mime,
    MediaType, MessageMedia,
};

fn media(top: &str, text: &str) -> MediaType {
    MediaType { top_level: top.to_string(), text: text.to_string() }
}

#[test]
fn audio_file_names_by_ending_in_any_case() {
    assert!(is_audio_file_name("take1.OGG"));
    assert!(is_audio_file_name("song.flac"));
    assert!(is_audio_file_name("memo.M4a"));
    assert!(is_audio_file_name(".opus"));
    assert!(!is_audio_file_name("notes.txt"));
    assert!(!is_audio_file_name("ogg"));
    assert!(!is_audio_file_name(""));
}

#[test]
fn audio_by_name_or_media_type() {
    assert!(is_audio_name_or_mime(Some("a.wav"), None));
    assert!(is_audio_name_or_mime(None, Some(&media("audio", "audio/x-foo"))));
    assert!(is_audio_name_or_mime(Some("a.bin"), Some(&media("application", "application/ogg"))));
    assert!(!is_audio_name_or_mime(Some("a.bin"), Some(&media("application", "application/pdf"))));
    assert!(!is_audio_name_or_mime(None, None));
}

#[test]
fn voice_message_is_always_taken() {
    let input = extract_audio_from_message(&MessageMedia::Voice {
        file_id: "v1".to_string(),
        duration_seconds: 7,
    })
    .unwrap();
    assert_eq!(input.file_id, "v1");
    assert_eq!(input.file_name.as_deref(), Some("voice.ogg"));
    assert_eq!(input.label, "voice message");
    assert_eq!(input.duration_seconds, Some(7));
    assert!(input.is_voice_message);
}

#[test]
fn audio_file_without_name_gets_generic_label() {
    let input = extract_audio_from_message(&MessageMedia::Audio {
        file_id: "a1".to_string(),
        file_name: None,
        mime_type: Some(media("audio", "audio/mpeg")),
        duration_seconds: 30,
    })
    .unwrap();
    assert_eq!(input.label, "audio file");
    assert_eq!(input.file_name, None);
    assert_eq!(input.duration_seconds, Some(30));
    assert!(!input.is_voice_message);
}

#[test]
fn unsupported_audio_and_documents_are_skipped() {
    assert!(extract_audio_from_message(&MessageMedia::Audio {
        file_id: "a2".to_string(),
        file_name: Some("clip.xyz".to_string()),
        mime_type: None,
        duration_seconds: 3,
    })
    .is_none());
    assert!(extract_audio_from_message(&MessageMedia::Document {
        file_id: "d1".to_string(),
        file_name: Some("report.pdf".to_string()),
        mime_type: Some(media("application", "application/pdf")),
    })
    .is_none());
    assert!(extract_audio_from_message(&MessageMedia::Other).is_none());
}

#[test]
fn document_is_named_after_its_file() {
    let input = extract_audio_from_message(&MessageMedia::Document {
        file_id: "d2".to_string(),
        file_name: Some("Take 2.WAV".to_string()),
        mime_type: None,
    })
    .unwrap();
    assert_eq!(input.label, "Take 2.WAV");
    assert_eq!(input.duration_seconds, None);
}

#[test]
fn reply_is_used_when_message_has_no_audio() {
    let reply = MessageMedia::Voice { file_id: "r".to_string(), duration_seconds: 2 };
    let found = find_input_audio(&MessageMedia::Other, Some(&reply)).unwrap();
    assert_eq!(found.file_id, "r");
    let own = MessageMedia::Voice { file_id: "own".to_string(), duration_seconds: 1 };
    assert_eq!(find_input_audio(&own, Some(&reply)).unwrap().file_id, "own");
    assert!(find_input_audio(&MessageMedia::Other, None).is_none());
}
