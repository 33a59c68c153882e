use vstd::prelude::*;

use crate::text::{chars_of, is_space, is_space_exec, string_of};

verus! {

/// The text without its leading white space.
pub open spec fn trim_start(s: Seq<char>) -> Seq<char>
    decreases s.len(),
{
    if s.len() > 0 && is_space(s[0]) {
        trim_start(s.skip(1))
    } else {
        s
    }
}

/// The text without its trailing white space.
pub open spec fn trim_end(s: Seq<char>) -> Seq<char>
    decreases s.len(),
{
    if s.len() > 0 && is_space(s.last()) {
        trim_end(s.drop_last())
    } else {
        s
    }
}

/// The text without white space at either end, as `str::trim` gives it.
pub open spec fn trimmed(s: Seq<char>) -> Seq<char> {
    trim_end(trim_start(s))
}

proof fn lemma_trim_start_at(s: Seq<char>, i: int)
    requires
        0 <= i <= s.len(),
        forall|k: int| 0 <= k < i ==> is_space(#[trigger] s[k]),
        i == s.len() || !is_space(s[i]),
    ensures
        trim_start(s) == s.skip(i),
    decreases i,
{
    if i == 0 {
        assert(s.skip(0) =~= s);
    } else {
        let t = s.skip(1);
        assert forall|k: int| 0 <= k < i - 1 implies is_space(#[trigger] t[k]) by {
            assert(t[k] == s[k + 1]);
        }
        if i < s.len() {
            assert(t[i - 1] == s[i]);
        }
        lemma_trim_start_at(t, i - 1);
        assert(t.skip(i - 1) =~= s.skip(i));
    }
}

proof fn lemma_trim_end_at(s: Seq<char>, j: int)
    requires
        0 <= j <= s.len(),
        forall|k: int| j <= k < s.len() ==> is_space(#[trigger] s[k]),
        j == 0 || !is_space(s[j - 1]),
    ensures
        trim_end(s) == s.take(j),
    decreases s.len() - j,
{
    if j == s.len() {
        assert(s.take(j) =~= s);
    } else {
        let t = s.drop_last();
        assert forall|k: int| j <= k < t.len() implies is_space(#[trigger] t[k]) by {
            assert(t[k] == s[k]);
        }
        if j > 0 {
            assert(t[j - 1] == s[j - 1]);
        }
        lemma_trim_end_at(t, j);
        assert(t.take(j) =~= s.take(j));
    }
}

/// The characters of a text without white space at either end.
pub fn trim_chars(s: &str) -> (out: Vec<char>)
    ensures
        out@ == trimmed(s@),
{
    let chars = chars_of(s);
    let mut i: usize = 0;
    while i < chars.len() && is_space_exec(chars[i])
        invariant
            i <= chars@.len(),
            forall|k: int| 0 <= k < i ==> is_space(#[trigger] chars@[k]),
        decreases chars@.len() - i,
    {
        i += 1;
    }
    proof {
        lemma_trim_start_at(chars@, i as int);
    }
    let ghost rest = chars@.skip(i as int);
    let mut j: usize = chars.len();
    while j > i && is_space_exec(chars[j - 1])
        invariant
            i <= j <= chars@.len(),
            forall|k: int| j <= k < chars@.len() ==> is_space(#[trigger] chars@[k]),
        decreases j,
    {
        j -= 1;
    }
    proof {
        assert forall|k: int| j - i <= k < rest.len() implies is_space(#[trigger] rest[k]) by {
            assert(rest[k] == chars@[k + i]);
        }
        if j > i {
            assert(rest[j - i - 1] == chars@[j - 1]);
        }
        lemma_trim_end_at(rest, j - i);
    }
    let mut out: Vec<char> = Vec::new();
    let mut k: usize = i;
    while k < j
        invariant
            i <= k <= j,
            j <= chars@.len(),
            out@ == chars@.subrange(i as int, k as int),
        decreases j - k,
    {
        out.push(chars[k]);
        k += 1;
        assert(out@ =~= chars@.subrange(i as int, k as int));
    }
    assert(rest.take(j - i) =~= chars@.subrange(i as int, j as int));
    out
}

/// Why text is not a number, as the standard library's integer parser
/// tells it.
#[derive(Debug, Clone, Copy, PartialEq, Eq, Structural)]
pub enum IntErrorKind {
    Empty,
    InvalidDigit,
    PosOverflow,
}

/// The message that the standard library gives for each kind.
pub open spec fn int_error_text(kind: IntErrorKind) -> Seq<char> {
    match kind {
        IntErrorKind::Empty => "cannot parse integer from empty string"@,
        IntErrorKind::InvalidDigit => "invalid digit found in string"@,
        IntErrorKind::PosOverflow => "number too large to fit in target type"@,
    }
}

/// The value of an ASCII decimal digit.
pub open spec fn digit_value(c: char) -> Option<nat> {
    if '0' <= c && c <= '9' {
        Some((c as u32 - 48) as nat)
    } else {
        None
    }
}

/// Reads decimal digits left to right onto `acc`: a character that is not
/// a digit, or a value past `u32::MAX`, stops the reading at once.
pub open spec fn scan_u32(digits: Seq<char>, acc: nat) -> Result<nat, IntErrorKind>
    decreases digits.len(),
{
    if digits.len() == 0 {
        Ok(acc)
    } else {
        match digit_value(digits[0]) {
            None => Err(IntErrorKind::InvalidDigit),
            Some(d) => if acc * 10 + d > u32::MAX {
                Err(IntErrorKind::PosOverflow)
            } else {
                scan_u32(digits.skip(1), acc * 10 + d)
            },
        }
    }
}

/// How `str::parse::<u32>` reads a text: not empty, an optional leading
/// `+`, then decimal digits whose value fits.
pub open spec fn parse_u32_outcome(s: Seq<char>) -> Result<nat, IntErrorKind> {
    if s.len() == 0 {
        Err(IntErrorKind::Empty)
    } else if s == seq!['+'] || s == seq!['-'] {
        Err(IntErrorKind::InvalidDigit)
    } else if s[0] == '+' {
        scan_u32(s.skip(1), 0)
    } else {
        scan_u32(s, 0)
    }
}

/// Parses a text as `str::parse::<u32>` does.
pub fn parse_u32(chars: &Vec<char>) -> (r: Result<u32, IntErrorKind>)
    ensures
        match (r, parse_u32_outcome(chars@)) {
            (Ok(v), Ok(w)) => v == w,
            (Err(a), Err(b)) => a == b,
            _ => false,
        },
{
    let n = chars.len();
    if n == 0 {
        return Err(IntErrorKind::Empty);
    }
    if n == 1 && (chars[0] == '+' || chars[0] == '-') {
        assert(chars@ =~= seq![chars@[0]]);
        return Err(IntErrorKind::InvalidDigit);
    }
    proof {
        if chars@ == seq!['+'] || chars@ == seq!['-'] {
            assert(chars@.len() == 1);
        }
    }
    let start: usize = if chars[0] == '+' {
        1
    } else {
        0
    };
    let ghost digits = chars@.skip(start as int);
    assert(start == 0 ==> digits =~= chars@);
    assert(parse_u32_outcome(chars@) == scan_u32(digits, 0));
    let mut acc: u64 = 0;
    let mut i: usize = start;
    while i < n
        invariant
            n == chars@.len(),
            parse_u32_outcome(chars@) == scan_u32(digits, 0),
            start <= i <= n,
            digits == chars@.skip(start as int),
            acc <= u32::MAX,
            scan_u32(digits, 0) == scan_u32(chars@.skip(i as int), acc as nat),
        decreases n - i,
    {
        let c = chars[i];
        let ghost rest = chars@.skip(i as int);
        assert(rest[0] == c);
        if !('0' <= c && c <= '9') {
            assert(digit_value(rest[0]) is None);
            assert(scan_u32(rest, acc as nat) == Err::<nat, IntErrorKind>(IntErrorKind::InvalidDigit));
            return Err(IntErrorKind::InvalidDigit);
        }
        let d: u64 = ((c as u32) - 48) as u64;
        assert(digit_value(rest[0]) == Some(d as nat));
        let next = acc * 10 + d;
        if next > 4294967295u64 {
            assert(scan_u32(rest, acc as nat) == Err::<nat, IntErrorKind>(IntErrorKind::PosOverflow));
            return Err(IntErrorKind::PosOverflow);
        }
        assert(rest.skip(1) =~= chars@.skip(i + 1));
        acc = next;
        i += 1;
    }
    assert(chars@.skip(n as int) =~= Seq::<char>::empty());
    Ok(acc as u32)
}

/// What the prober's output means: its trimmed text as a positive sample
/// rate, else why it is not one.
pub open spec fn probed_rate_outcome(output: Seq<char>) -> Result<nat, Seq<char>> {
    match parse_u32_outcome(trimmed(output)) {
        Err(kind) => Err("failed to parse ffprobe sample rate: "@ + int_error_text(kind)),
        Ok(v) => if v == 0 {
            Err("ffprobe reported a zero sample rate"@)
        } else {
            Ok(v)
        },
    }
}

/// Reads the sample rate that the prober printed.
pub fn parse_probed_sample_rate(output: &str) -> (r: Result<u32, String>)
    ensures
        match (r, probed_rate_outcome(output@)) {
            (Ok(v), Ok(w)) => v == w,
            (Err(e), Err(m)) => e@ == m,
            _ => false,
        },
{
    let text = trim_chars(output);
    match parse_u32(&text) {
        Err(kind) => {
            let mut message = String::from_str("failed to parse ffprobe sample rate: ");
            match kind {
                IntErrorKind::Empty => message.append("cannot parse integer from empty string"),
                IntErrorKind::InvalidDigit => message.append("invalid digit found in string"),
                IntErrorKind::PosOverflow => message.append("number too large to fit in target type"),
            }
            Err(message)
        },
        Ok(rate) => {
            if rate == 0 {
                Err(String::from_str("ffprobe reported a zero sample rate"))
            } else {
                Ok(rate)
            }
        },
    }
}

/// The samples from `start` up to, not including, `end`; refused unless
/// that is a non-empty range within the samples.
pub fn clip_samples<T: Copy>(samples: &[T], start: usize, end: usize) -> (r: Result<Vec<T>, String>)
    ensures
        (start < end && end <= samples@.len()) ==> (r matches Ok(v) && v@ == samples@.subrange(
            start as int,
            end as int,
        )),
        !(start < end && end <= samples@.len()) ==> (r matches Err(e) && e@
            == "invalid audio clip range"@),
{
    if start >= end || end > samples.len() {
        return Err(String::from_str("invalid audio clip range"));
    }
    let mut out: Vec<T> = Vec::new();
    let mut i: usize = start;
    while i < end
        invariant
            start <= i <= end,
            end <= samples@.len(),
            out@ == samples@.subrange(start as int, i as int),
        decreases end - i,
    {
        out.push(samples[i]);
        i += 1;
        assert(out@ =~= samples@.subrange(start as int, i as int));
    }
    Ok(out)
}

/// The number of 32-bit float samples in the decoder's output, which must
/// be a whole number of them.
pub fn f32_sample_count(byte_len: usize) -> (r: Result<usize, String>)
    ensures
        byte_len % 4 == 0 ==> r == Ok::<usize, String>(byte_len / 4),
        byte_len % 4 != 0 ==> (r matches Err(e) && e@
            == "ffmpeg output length was not aligned to f32 samples"@),
{
    if byte_len % 4 != 0 {
        return Err(String::from_str("ffmpeg output length was not aligned to f32 samples"));
    }
    Ok(byte_len / 4)
}

/// The trimmed error output of a helper program, as a string.
pub fn trimmed_detail(stderr_text: &str) -> (s: String)
    ensures
        s@ == trimmed(stderr_text@),
{
    let chars = trim_chars(stderr_text);
    string_of(&chars)
}

/// What reading the next packet of a container gave.
pub enum PacketRead {
    /// A packet of the given track.
    Packet { track_id: u32 },
    /// The stream ended.
    EndOfStream,
    /// The decoder must be reset: a chained stream.
    ResetRequired,
    /// Any other read failure, with its message.
    Failed(String),
}

/// What decoding a packet gave.
pub enum PacketDecode {
    /// Audio to keep.
    Decoded,
    /// The stream ended inside the packet.
    EndOfStream,
    /// The packet holds corrupt data.
    Corrupt,
    /// Any other decode failure, with its message.
    Failed(String),
}

/// What the decode loop does next.
pub enum DecodeStep {
    /// Decode the packet, or keep its audio.
    Take,
    /// Go on to the next packet.
    Skip,
    /// All audio has been read.
    Finish,
    /// Decoding fails with this message.
    Fail(String),
}

/// The decode loop's step after a packet read: packets of the decoded track
/// are taken, others skipped; the end of the stream finishes; a reset or
/// any other read failure fails.
pub fn after_packet_read(read: PacketRead, track_id: u32) -> (step: DecodeStep)
    ensures
        match read {
            PacketRead::Packet { track_id: id } => if id == track_id {
                step is Take
            } else {
                step is Skip
            },
            PacketRead::EndOfStream => step is Finish,
            PacketRead::ResetRequired => step matches DecodeStep::Fail(m) && m@
                == "decoder reset required; chained streams are not supported"@,
            PacketRead::Failed(e) => step matches DecodeStep::Fail(m) && m@
                == "failed while reading packets: "@ + e@,
        },
{
    match read {
        PacketRead::Packet { track_id: id } => if id == track_id {
            DecodeStep::Take
        } else {
            DecodeStep::Skip
        },
        PacketRead::EndOfStream => DecodeStep::Finish,
        PacketRead::ResetRequired => DecodeStep::Fail(
            String::from_str("decoder reset required; chained streams are not supported"),
        ),
        PacketRead::Failed(e) => {
            let mut m = String::from_str("failed while reading packets: ");
            m.append(e.as_str());
            DecodeStep::Fail(m)
        },
    }
}

/// The decode loop's step after decoding a packet: its audio is kept, a
/// corrupt packet is skipped, the end of the stream finishes, and any other
/// failure fails.
pub fn after_packet_decode(decode: PacketDecode) -> (step: DecodeStep)
    ensures
        match decode {
            PacketDecode::Decoded => step is Take,
            PacketDecode::EndOfStream => step is Finish,
            PacketDecode::Corrupt => step is Skip,
            PacketDecode::Failed(e) => step matches DecodeStep::Fail(m) && m@ == "decode failed: "@
                + e@,
        },
{
    match decode {
        PacketDecode::Decoded => DecodeStep::Take,
        PacketDecode::EndOfStream => DecodeStep::Finish,
        PacketDecode::Corrupt => DecodeStep::Skip,
        PacketDecode::Failed(e) => {
            let mut m = String::from_str("decode failed: ");
            m.append(e.as_str());
            DecodeStep::Fail(m)
        },
    }
}

} // verus!
