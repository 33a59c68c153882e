use libvoice::voice::input_suffix;

#[test]
fn keeps_original_extension_for_temp_input() {
    assert_eq!(input_suffix(Some("sample.m4a")), ".m4a");
}

#[test]
fn omits_suffix_when_no_extension_is_present() {
    assert_eq!(input_suffix(Some("sample")), "");
    assert_eq!(input_suffix(None), "");
}

use libvoice::voice::{prepare_voice_upload, transcode_outcome, VoiceUpload};

#[test]
fn voice_messages_are_passed_through() {
    match prepare_voice_upload(&[1, 2, 3], Some("voice.ogg"), true) {
        VoiceUpload::Ready(bytes) => assert_eq!(bytes, vec![1, 2, 3]),
        VoiceUpload::Transcode { .. } => panic!("voice messages need no transcoding"),
    }
}

#[test]
fn other_audio_is_transcoded_with_its_extension() {
    match prepare_voice_upload(&[9], Some("clip.MP3"), false) {
        VoiceUpload::Transcode { input_suffix } => assert_eq!(input_suffix, ".MP3"),
        VoiceUpload::Ready(_) => panic!("expected transcoding"),
    }
}

#[test]
fn transcoder_failures_report_detail_or_status() {
    assert_eq!(
        transcode_outcome(false, "exit status: 1", "", Vec::new()).unwrap_err(),
        "ffmpeg exited with exit status: 1"
    );
    assert_eq!(
        transcode_outcome(false, "exit status: 1", "bad codec", Vec::new()).unwrap_err(),
        "bad codec"
    );
    assert_eq!(
        transcode_outcome(true, "exit status: 0", "", Vec::new()).unwrap_err(),
        "ffmpeg produced an empty voice file"
    );
    assert_eq!(transcode_outcome(true, "", "", vec![7, 8]).unwrap(), vec![7, 8]);
}

#[test]
fn suffix_keeps_only_the_last_extension() {
    assert_eq!(input_suffix(Some("archive.tar.gz")), ".gz");
    assert_eq!(input_suffix(Some(".hidden")), "");
}
