use vstd::prelude::*;

use crate::text::push_char;

verus! {

/// The extension that `std::path::Path::extension` reports for a file name,
/// as text (the text after the final `.` of the last path component, when
/// that component has a dot that does not begin it).
pub uninterp spec fn path_extension(name: Seq<char>) -> Option<Seq<char>>;

/// Trusted: wraps `std::path::Path::extension` followed by `OsStr::to_str`.
/// The result is the name `path_extension` applied to the given name; the
/// conversion to text cannot fail because the path came from a `&str`.
/// Which characters separate path components follows the target platform's
/// path rules; nothing else about the extension is stated here.
#[verifier::external_body]
fn file_extension(name: &str) -> (ext: Option<String>)
    ensures
        ext is Some <==> path_extension(name@) is Some,
        ext matches Some(e) ==> path_extension(name@) == Some(e@),
{
    std::path::Path::new(name).extension().and_then(|e| e.to_str()).map(|e| e.to_string())
}

/// The temporary-file suffix for an uploaded file: `.` followed by the file
/// name's extension, or nothing when there is no name or no (non-empty)
/// extension.
pub open spec fn spec_input_suffix(file_name: Option<Seq<char>>) -> Seq<char> {
    match file_name {
        Some(name) => match path_extension(name) {
            Some(ext) => if ext.len() > 0 {
                seq!['.'] + ext
            } else {
                Seq::empty()
            },
            None => Seq::empty(),
        },
        None => Seq::empty(),
    }
}

fn append_chars(out: &mut String, s: &String)
    ensures
        final(out)@ == old(out)@ + s@,
{
    let chars = crate::text::chars_of(s.as_str());
    let mut i: usize = 0;
    while i < chars.len()
        invariant
            chars@ == s@,
            i <= chars.len(),
            out@ == old(out)@ + chars@.take(i as int),
        decreases chars.len() - i,
    {
        push_char(out, chars[i]);
        i += 1;
        assert(out@ =~= old(out)@ + chars@.take(i as int));
    }
    assert(chars@.take(chars.len() as int) =~= chars@);
}

/// Keeps the uploaded file's extension for the temporary input file, so
/// that the transcoder can recognise its format.
pub fn input_suffix(file_name: Option<&str>) -> (suffix: String)
    ensures
        suffix@ == spec_input_suffix(
            match file_name {
                Some(n) => Some(n@),
                None => None,
            },
        ),
{
    let mut suffix = String::new();
    if let Some(name) = file_name {
        if let Some(ext) = file_extension(name) {
            if ext.as_str().unicode_len() > 0 {
                push_char(&mut suffix, '.');
                append_chars(&mut suffix, &ext);
                assert(suffix@ =~= seq!['.'] + ext@);
            }
        }
    }
    suffix
}

/// What to do with an audio file before it is sent back as a voice message.
#[derive(Debug)]
pub enum VoiceUpload {
    /// The bytes already are a voice message and are sent as they are.
    Ready(Vec<u8>),
    /// The bytes must be transcoded to Ogg/Opus; the input is written to a
    /// temporary file with this suffix.
    Transcode { input_suffix: String },
}

/// Decides how an uploaded file becomes a voice message: voice messages
/// are passed through unchanged, anything else is transcoded from a
/// temporary file that keeps the uploaded file's extension.
pub fn prepare_voice_upload(bytes: &[u8], file_name: Option<&str>, already_voice_message: bool) -> (plan: VoiceUpload)
    ensures
        already_voice_message ==> (plan matches VoiceUpload::Ready(b) && b@ == bytes@),
        !already_voice_message ==> (plan matches VoiceUpload::Transcode { input_suffix } && input_suffix@
            == spec_input_suffix(
            match file_name {
                Some(n) => Some(n@),
                None => None,
            },
        )),
{
    if already_voice_message {
        return VoiceUpload::Ready(vstd::slice::slice_to_vec(bytes));
    }
    VoiceUpload::Transcode { input_suffix: input_suffix(file_name) }
}

/// The outcome of running the transcoder.
pub open spec fn spec_transcode_outcome(
    succeeded: bool,
    status: Seq<char>,
    stderr_detail: Seq<char>,
    stdout: Seq<u8>,
) -> Result<Seq<u8>, Seq<char>> {
    if !succeeded {
        if stderr_detail.len() == 0 {
            Err("ffmpeg exited with "@ + status)
        } else {
            Err(stderr_detail)
        }
    } else if stdout.len() == 0 {
        Err("ffmpeg produced an empty voice file"@)
    } else {
        Ok(stdout)
    }
}

/// Turns the transcoder's exit status, its (trimmed) error output and its
/// standard output into the voice file or an error message: a failed run
/// reports its error output, or its exit status when that output is empty;
/// an empty result is an error.
pub fn transcode_outcome(succeeded: bool, status: &str, stderr_detail: &str, stdout: Vec<u8>) -> (r: Result<
    Vec<u8>,
    String,
>)
    ensures
        match (r, spec_transcode_outcome(succeeded, status@, stderr_detail@, stdout@)) {
            (Ok(v), Ok(w)) => v@ == w,
            (Err(m), Err(n)) => m@ == n,
            _ => false,
        },
{
    if !succeeded {
        if stderr_detail.unicode_len() == 0 {
            let mut message = String::from_str("ffmpeg exited with ");
            message.append(status);
            return Err(message);
        }
        return Err(String::from_str(stderr_detail));
    }
    if stdout.len() == 0 {
        return Err(String::from_str("ffmpeg produced an empty voice file"));
    }
    Ok(stdout)
}

} // verus!
