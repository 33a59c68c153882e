use libvoice::paths::{dialog_audio_path, resolve_audio_path, starts_with_file_scheme, AudioPath};

fn url_bytes(result: Result<AudioPath, String>) -> Vec<u8> {
    match result {
        Ok(AudioPath::FromUrl(bytes)) => bytes,
        Ok(AudioPath::Plain(p)) => panic!("expected a path from a URL, got {p}"),
        Err(e) => panic!("expected a path, got the error {e}"),
    }
}

fn plain(result: Result<AudioPath, String>) -> String {
    match result {
        Ok(AudioPath::Plain(p)) => p,
        Ok(AudioPath::FromUrl(b)) => panic!("expected a plain path, got {b:?}"),
        Err(e) => panic!("expected a path, got the error {e}"),
    }
}

fn error(result: Result<AudioPath, String>) -> String {
    match result {
        Err(e) => e,
        Ok(_) => panic!("expected an error"),
    }
}

fn parse_message(url: &str) -> String {
    url::Url::parse(url).unwrap_err().to_string()
}

#[test]
fn recognises_the_file_scheme() {
    assert!(starts_with_file_scheme("file:///tmp/a.wav"));
    assert!(starts_with_file_scheme("file://"));
    assert!(!starts_with_file_scheme("file:/tmp/a.wav"));
    assert!(!starts_with_file_scheme("/tmp/file://a.wav"));
    assert!(!starts_with_file_scheme("FILE:///tmp/a.wav"));
    assert!(!starts_with_file_scheme(""));
}

#[test]
fn plain_paths_are_kept() {
    assert_eq!(plain(resolve_audio_path("/tmp/song.wav")), "/tmp/song.wav");
    assert_eq!(plain(resolve_audio_path("song.wav")), "song.wav");
    assert_eq!(plain(dialog_audio_path("relative/take 1.wav")), "relative/take 1.wav");
    assert_eq!(plain(dialog_audio_path("")), "");
}

#[test]
fn file_urls_become_decoded_paths() {
    assert_eq!(url_bytes(resolve_audio_path("file:///tmp/a%20b.wav")), b"/tmp/a b.wav".to_vec());
    assert_eq!(url_bytes(dialog_audio_path("file:///tmp/a%20b.wav")), b"/tmp/a b.wav".to_vec());
    assert_eq!(url_bytes(resolve_audio_path("file://localhost/etc/x.mp3")), b"/etc/x.mp3".to_vec());
}

#[test]
fn urls_that_do_not_parse_report_the_parser_message() {
    let url = "file://[bad/a.wav";
    assert_eq!(error(resolve_audio_path(url)), parse_message(url));
    assert_eq!(error(dialog_audio_path(url)), format!("Invalid file URL: {}", parse_message(url)));
}

#[test]
fn urls_on_other_hosts_name_no_local_file() {
    let url = "file://host/x.wav";
    assert_eq!(error(resolve_audio_path(url)), "Invalid file URL: file://host/x.wav");
    assert_eq!(error(dialog_audio_path(url)), "Invalid file URL path: file://host/x.wav");
}
