use vstd::prelude::*;

use crate::text::chars_of;

verus! {

/// What the `url` crate makes of a URL text on its way to a file path:
/// `Ok` with the bytes of the local path that `Url::to_file_path` gives,
/// `Err(Some(message))` with the text of the error when `Url::parse`
/// rejects the text, and `Err(None)` when the URL names no local file.
pub uninterp spec fn file_url_outcome(url: Seq<char>) -> Result<Seq<u8>, Option<Seq<char>>>;

/// Why a `file://` URL gave no path.
pub enum FileUrlError {
    /// The text is no URL; the parser's error message.
    Parse(String),
    /// The URL names no file on this machine.
    NotALocalPath,
}

/// A `file_url_path` result as a plain value.
pub open spec fn file_url_view(r: Result<Vec<u8>, FileUrlError>) -> Result<
    Seq<u8>,
    Option<Seq<char>>,
> {
    match r {
        Ok(bytes) => Ok(bytes@),
        Err(FileUrlError::Parse(message)) => Err(Some(message@)),
        Err(FileUrlError::NotALocalPath) => Err(None),
    }
}

/// Trusted: wraps `url::Url::parse` followed by `Url::to_file_path`.
/// The result is the name `file_url_outcome` applied to the URL text: a
/// parse error's message, no path when `to_file_path` refuses (the crate
/// documents a host other than `localhost`, and on some platforms a path
/// that cannot be one), or the path's bytes. How the percent-decoded path becomes a platform path is
/// left to the crate and not stated here.
#[verifier::external_body]
fn file_url_path(url: &str) -> (r: Result<Vec<u8>, FileUrlError>)
    ensures
        file_url_view(r) == file_url_outcome(url@),
{
    match url::Url::parse(url) {
        Err(e) => Err(FileUrlError::Parse(e.to_string())),
        Ok(parsed) => match parsed.to_file_path() {
            Ok(path) => Ok(path.into_os_string().into_encoded_bytes()),
            Err(()) => Err(FileUrlError::NotALocalPath),
        },
    }
}

/// The scheme prefix of a file URL.
pub open spec fn file_scheme() -> Seq<char> {
    seq!['f', 'i', 'l', 'e', ':', '/', '/']
}

/// Whether a text starts with `file://`.
pub open spec fn has_file_scheme(path: Seq<char>) -> bool {
    path.len() >= 7 && path.take(7) == file_scheme()
}

/// Whether a path starts with `file://`.
pub fn starts_with_file_scheme(path: &str) -> (b: bool)
    ensures
        b == has_file_scheme(path@),
{
    let c = chars_of(path);
    if c.len() < 7 {
        return false;
    }
    let b = c[0] == 'f' && c[1] == 'i' && c[2] == 'l' && c[3] == 'e' && c[4] == ':' && c[5] == '/'
        && c[6] == '/';
    if b {
        assert(c@.take(7) =~= file_scheme());
    } else {
        assert(c@.take(7)[0] == c@[0] && c@.take(7)[1] == c@[1] && c@.take(7)[2] == c@[2]
            && c@.take(7)[3] == c@[3] && c@.take(7)[4] == c@[4] && c@.take(7)[5] == c@[5]
            && c@.take(7)[6] == c@[6]);
    }
    b
}

/// Where an audio file is to be found: a path as it was given, or the bytes
/// of the local path that a `file://` URL names.
pub enum AudioPath {
    Plain(String),
    FromUrl(Vec<u8>),
}

/// The path that playback opens for a path from the file dialog: a
/// `file://` URL becomes the local path it names, anything else is kept.
/// A URL that does not parse fails with the parser's message; one that
/// names no local file fails with `Invalid file URL: ` and the path.
pub fn resolve_audio_path(path: &str) -> (r: Result<AudioPath, String>)
    ensures
        !has_file_scheme(path@) ==> (r matches Ok(AudioPath::Plain(p)) && p@ == path@),
        has_file_scheme(path@) ==> match file_url_outcome(path@) {
            Ok(bytes) => r matches Ok(AudioPath::FromUrl(b)) && b@ == bytes,
            Err(Some(message)) => r matches Err(e) && e@ == message,
            Err(None) => r matches Err(e) && e@ == "Invalid file URL: "@ + path@,
        },
{
    if !starts_with_file_scheme(path) {
        return Ok(AudioPath::Plain(String::from_str(path)));
    }
    match file_url_path(path) {
        Ok(bytes) => Ok(AudioPath::FromUrl(bytes)),
        Err(FileUrlError::Parse(message)) => Err(message),
        Err(FileUrlError::NotALocalPath) => {
            let mut e = String::from_str("Invalid file URL: ");
            e.append(path);
            Err(e)
        },
    }
}

/// The first step of taking a path from the file dialog for analysis: a
/// `file://` URL becomes the local path it names, anything else is kept.
/// A URL that does not parse fails with `Invalid file URL: ` and the
/// parser's message; one that names no local file fails with
/// `Invalid file URL path: ` and the path.
pub fn dialog_audio_path(path: &str) -> (r: Result<AudioPath, String>)
    ensures
        !has_file_scheme(path@) ==> (r matches Ok(AudioPath::Plain(p)) && p@ == path@),
        has_file_scheme(path@) ==> match file_url_outcome(path@) {
            Ok(bytes) => r matches Ok(AudioPath::FromUrl(b)) && b@ == bytes,
            Err(Some(message)) => r matches Err(e) && e@ == "Invalid file URL: "@ + message,
            Err(None) => r matches Err(e) && e@ == "Invalid file URL path: "@ + path@,
        },
{
    if !starts_with_file_scheme(path) {
        return Ok(AudioPath::Plain(String::from_str(path)));
    }
    match file_url_path(path) {
        Ok(bytes) => Ok(AudioPath::FromUrl(bytes)),
        Err(FileUrlError::Parse(message)) => {
            let mut e = String::from_str("Invalid file URL: ");
            e.append(message.as_str());
            Err(e)
        },
        Err(FileUrlError::NotALocalPath) => {
            let mut e = String::from_str("Invalid file URL path: ");
            e.append(path);
            Err(e)
        },
    }
}

} // verus!
