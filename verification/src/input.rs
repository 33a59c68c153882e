use vstd::prelude::*;

use crate::text::{chars_equal_from, chars_of};

verus! {

/// The media type of an attachment, as its parser gave it: the top-level
/// type (lower case, such as `audio`) and the whole text.
#[derive(Debug, Clone)]
pub struct MediaType {
    pub top_level: String,
    pub text: String,
}

/// The audio-like attachment of a chat message, as far as choosing an
/// input goes. A message carries at most one of these.
#[derive(Debug, Clone)]
pub enum MessageMedia {
    Voice { file_id: String, duration_seconds: u32 },
    Audio {
        file_id: String,
        file_name: Option<String>,
        mime_type: Option<MediaType>,
        duration_seconds: u32,
    },
    Document { file_id: String, file_name: Option<String>, mime_type: Option<MediaType> },
    Other,
}

/// The audio that a command works on.
#[derive(Debug, Clone)]
pub struct InputAudio {
    pub file_id: String,
    pub file_name: Option<String>,
    /// How the input is named in replies.
    pub label: String,
    pub duration_seconds: Option<u32>,
    pub is_voice_message: bool,
}

/// An input as plain values: file id, file name, label, duration and
/// whether it is a voice message.
pub type InputView = (Seq<char>, Option<Seq<char>>, Seq<char>, Option<u32>, bool);

pub open spec fn opt_text(o: Option<String>) -> Option<Seq<char>> {
    match o {
        Some(s) => Some(s@),
        None => None,
    }
}

pub open spec fn opt_media(o: Option<MediaType>) -> Option<(Seq<char>, Seq<char>)> {
    match o {
        Some(m) => Some((m.top_level@, m.text@)),
        None => None,
    }
}

impl InputAudio {
    pub open spec fn view_of(self) -> InputView {
        (self.file_id@, opt_text(self.file_name), self.label@, self.duration_seconds, self.is_voice_message)
    }
}

pub open spec fn opt_input(o: Option<InputAudio>) -> Option<InputView> {
    match o {
        Some(i) => Some(i.view_of()),
        None => None,
    }
}

/// ASCII lower case of a character; every other character stays.
pub open spec fn ascii_lower(c: char) -> char {
    if 'A' <= c && c <= 'Z' {
        ((c as u32) + 32) as char
    } else {
        c
    }
}

pub open spec fn ends_with(s: Seq<char>, suffix: Seq<char>) -> bool {
    s.len() >= suffix.len() && s.skip(s.len() - suffix.len()) == suffix
}

/// The file name endings of the audio formats that are accepted.
pub open spec fn audio_suffixes() -> Seq<Seq<char>> {
    seq![".ogg"@, ".oga"@, ".opus"@, ".wav"@, ".mp3"@, ".m4a"@, ".flac"@]
}

/// Whether a file name, ignoring ASCII case, ends in an accepted ending.
pub open spec fn audio_file_name(name: Seq<char>) -> bool {
    let lower = name.map_values(|c: char| ascii_lower(c));
    exists|k: int| 0 <= k < audio_suffixes().len() && ends_with(lower, #[trigger] audio_suffixes()[k])
}

/// Whether a media type names audio: its top-level type is `audio`, or it
/// is exactly `application/ogg`.
pub open spec fn audio_media_type(m: (Seq<char>, Seq<char>)) -> bool {
    m.0 == "audio"@ || m.1 == "application/ogg"@
}

/// Whether an attachment looks like audio by its name or its media type.
pub open spec fn audio_name_or_mime(
    name: Option<Seq<char>>,
    mime: Option<(Seq<char>, Seq<char>)>,
) -> bool {
    (name matches Some(n) && audio_file_name(n)) || (mime matches Some(m) && audio_media_type(m))
}

fn lower_chars(s: &str) -> (out: Vec<char>)
    ensures
        out@ == s@.map_values(|c: char| ascii_lower(c)),
{
    let chars = chars_of(s);
    let mut out: Vec<char> = Vec::new();
    let mut i: usize = 0;
    while i < chars.len()
        invariant
            i <= chars@.len(),
            chars@ == s@,
            out@ == chars@.take(i as int).map_values(|c: char| ascii_lower(c)),
        decreases chars@.len() - i,
    {
        let c = chars[i];
        let l = if 'A' <= c && c <= 'Z' {
            let code: u8 = (c as u8) + 32;
            code as char
        } else {
            c
        };
        out.push(l);
        assert(out@ =~= chars@.take(i + 1).map_values(|c: char| ascii_lower(c)));
        i += 1;
    }
    assert(chars@.take(chars@.len() as int) =~= chars@);
    out
}

fn ends_with_exec(t: &Vec<char>, suffix: &str) -> (b: bool)
    ensures
        b == ends_with(t@, suffix@),
{
    let n = suffix.unicode_len();
    if t.len() < n {
        return false;
    }
    chars_equal_from(t, t.len() - n, suffix)
}

/// Whether a file name ends in one of the accepted audio endings,
/// ignoring ASCII case.
pub fn is_audio_file_name(name: &str) -> (b: bool)
    ensures
        b == audio_file_name(name@),
{
    let lower = lower_chars(name);
    let suffixes: [&str; 7] = [".ogg", ".oga", ".opus", ".wav", ".mp3", ".m4a", ".flac"];
    let ghost all = audio_suffixes();
    let mut i: usize = 0;
    while i < 7
        invariant
            i <= 7,
            all == audio_suffixes(),
            lower@ == name@.map_values(|c: char| ascii_lower(c)),
            forall|j: int| 0 <= j < 7 ==> #[trigger] suffixes[j]@ == all[j],
            forall|j: int| 0 <= j < i ==> !ends_with(lower@, #[trigger] all[j]),
        decreases 7 - i,
    {
        if ends_with_exec(&lower, suffixes[i]) {
            assert(ends_with(lower@, all[i as int]));
            return true;
        }
        i += 1;
    }
    false
}

/// Whether an attachment looks like audio by its file name or its media
/// type.
pub fn is_audio_name_or_mime(file_name: Option<&str>, mime_type: Option<&MediaType>) -> (b: bool)
    ensures
        b == audio_name_or_mime(
            match file_name {
                Some(n) => Some(n@),
                None => None,
            },
            match mime_type {
                Some(m) => Some((m.top_level@, m.text@)),
                None => None,
            },
        ),
{
    let file_name_ok = match file_name {
        Some(name) => is_audio_file_name(name),
        None => false,
    };
    let mime_ok = match mime_type {
        Some(m) => {
            let top = m.top_level.as_str();
            let text = m.text.as_str();
            let top_chars = chars_of(top);
            let text_chars = chars_of(text);
            chars_equal_from(&top_chars, 0, "audio") || chars_equal_from(
                &text_chars,
                0,
                "application/ogg",
            )
        },
        None => false,
    };
    proof {
        if let Some(m) = mime_type {
            assert(m.top_level@.skip(0) =~= m.top_level@);
            assert(m.text@.skip(0) =~= m.text@);
        }
    }
    file_name_ok || mime_ok
}

/// The input that one attachment offers: a voice message always; an audio
/// file or a document when it looks like audio, named by its file name or
/// else `audio file`.
pub open spec fn extracted_input(m: MessageMedia) -> Option<InputView> {
    match m {
        MessageMedia::Voice { file_id, duration_seconds } => Some(
            (file_id@, Some("voice.ogg"@), "voice message"@, Some(duration_seconds), true),
        ),
        MessageMedia::Audio { file_id, file_name, mime_type, duration_seconds } => {
            if audio_name_or_mime(opt_text(file_name), opt_media(mime_type)) {
                Some(
                    (
                        file_id@,
                        opt_text(file_name),
                        match file_name {
                            Some(n) => n@,
                            None => "audio file"@,
                        },
                        Some(duration_seconds),
                        false,
                    ),
                )
            } else {
                None
            }
        },
        MessageMedia::Document { file_id, file_name, mime_type } => {
            if audio_name_or_mime(opt_text(file_name), opt_media(mime_type)) {
                Some(
                    (
                        file_id@,
                        opt_text(file_name),
                        match file_name {
                            Some(n) => n@,
                            None => "audio file"@,
                        },
                        None,
                        false,
                    ),
                )
            } else {
                None
            }
        },
        MessageMedia::Other => None,
    }
}

fn clone_name(o: &Option<String>) -> (r: Option<String>)
    ensures
        opt_text(r) == opt_text(*o),
{
    match o {
        Some(s) => Some(s.clone()),
        None => None,
    }
}

fn name_or_audio_file(o: &Option<String>) -> (r: String)
    ensures
        r@ == match *o {
            Some(n) => n@,
            None => "audio file"@,
        },
{
    match o {
        Some(s) => s.clone(),
        None => String::from_str("audio file"),
    }
}

fn name_as_str(o: &Option<String>) -> (r: Option<&str>)
    ensures
        match r {
            Some(n) => *o matches Some(s) && n@ == s@,
            None => *o is None,
        },
{
    match o {
        Some(s) => Some(s.as_str()),
        None => None,
    }
}

/// The input that one attachment offers, if any.
pub fn extract_audio_from_message(media: &MessageMedia) -> (input: Option<InputAudio>)
    ensures
        opt_input(input) == extracted_input(*media),
{
    match media {
        MessageMedia::Voice { file_id, duration_seconds } => Some(
            InputAudio {
                file_id: file_id.clone(),
                file_name: Some(String::from_str("voice.ogg")),
                label: String::from_str("voice message"),
                duration_seconds: Some(*duration_seconds),
                is_voice_message: true,
            },
        ),
        MessageMedia::Audio { file_id, file_name, mime_type, duration_seconds } => {
            let supported = is_audio_name_or_mime(name_as_str(file_name), mime_type.as_ref());
            if !supported {
                return None;
            }
            Some(
                InputAudio {
                    file_id: file_id.clone(),
                    file_name: clone_name(file_name),
                    label: name_or_audio_file(file_name),
                    duration_seconds: Some(*duration_seconds),
                    is_voice_message: false,
                },
            )
        },
        MessageMedia::Document { file_id, file_name, mime_type } => {
            let supported = is_audio_name_or_mime(name_as_str(file_name), mime_type.as_ref());
            if !supported {
                return None;
            }
            Some(
                InputAudio {
                    file_id: file_id.clone(),
                    file_name: clone_name(file_name),
                    label: name_or_audio_file(file_name),
                    duration_seconds: None,
                    is_voice_message: false,
                },
            )
        },
        MessageMedia::Other => None,
    }
}

/// The input of a command: the message's own audio, else that of the
/// message it replies to.
pub open spec fn chosen_input(message: MessageMedia, reply_to: Option<MessageMedia>) -> Option<
    InputView,
> {
    match extracted_input(message) {
        Some(i) => Some(i),
        None => match reply_to {
            Some(r) => extracted_input(r),
            None => None,
        },
    }
}

/// Finds the audio that a command works on.
pub fn find_input_audio(message: &MessageMedia, reply_to: Option<&MessageMedia>) -> (input: Option<
    InputAudio,
>)
    ensures
        opt_input(input) == chosen_input(
            *message,
            match reply_to {
                Some(r) => Some(*r),
                None => None,
            },
        ),
{
    match extract_audio_from_message(message) {
        Some(found) => Some(found),
        None => match reply_to {
            Some(r) => extract_audio_from_message(r),
            None => None,
        },
    }
}

/// A file name is taken for audio exactly when, ignoring ASCII case, it
/// ends in `.ogg`, `.oga`, `.opus`, `.wav`, `.mp3`, `.m4a` or `.flac`.
pub proof fn lemma_audio_file_endings(name: Seq<char>, lower: Seq<char>)
    requires
        lower.len() == name.len(),
        forall|i: int| 0 <= i < name.len() ==> lower[i] == ascii_lower(#[trigger] name[i]),
    ensures
        audio_file_name(name) <==> (
            ends_with(lower, ".ogg"@)
            || ends_with(lower, ".oga"@)
            || ends_with(lower, ".opus"@)
            || ends_with(lower, ".wav"@)
            || ends_with(lower, ".mp3"@)
            || ends_with(lower, ".m4a"@)
            || ends_with(lower, ".flac"@)
        ),
{
    let l = name.map_values(|c: char| ascii_lower(c));
    assert(l =~= lower);
        assert(audio_suffixes()[0] == ".ogg"@);
        assert(audio_suffixes()[1] == ".oga"@);
        assert(audio_suffixes()[2] == ".opus"@);
        assert(audio_suffixes()[3] == ".wav"@);
        assert(audio_suffixes()[4] == ".mp3"@);
        assert(audio_suffixes()[5] == ".m4a"@);
        assert(audio_suffixes()[6] == ".flac"@);
    if audio_file_name(name) {
        let k = choose|k: int| 0 <= k < audio_suffixes().len() && ends_with(l, #[trigger] audio_suffixes()[k]);
        assert(0 <= k < 7);
    }
}

} // verus!
