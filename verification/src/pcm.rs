use vstd::prelude::*;

use crate::config::WindowOverrideError;

verus! {

/// How raw PCM bytes encode samples.
#[derive(Debug, Clone, Copy, PartialEq, Eq, Structural)]
pub enum PcmEncoding {
    /// Not raw PCM: the container is probed.
    Auto,
    /// 32-bit little-endian floats.
    F32Le,
    /// 16-bit little-endian signed integers.
    S16Le,
}

/// The HTTP status class of a refused request.
#[derive(Debug, Clone, Copy, PartialEq, Eq, Structural)]
pub enum ApiStatus {
    BadRequest,
    UnsupportedMediaType,
}

/// A refused request: its status and the message that is sent back.
#[derive(Debug)]
pub struct ApiError {
    pub status: ApiStatus,
    pub message: String,
}

/// The numeric HTTP status of a status class.
pub open spec fn status_number(status: ApiStatus) -> u16 {
    match status {
        ApiStatus::BadRequest => 400,
        ApiStatus::UnsupportedMediaType => 415,
    }
}

impl ApiError {
    /// The numeric HTTP status of the error.
    pub fn status_code(&self) -> (code: u16)
        ensures
            code == status_number(self.status),
    {
        match self.status {
            ApiStatus::BadRequest => 400,
            ApiStatus::UnsupportedMediaType => 415,
        }
    }
}

/// A request refused as malformed.
pub fn bad_request(message: &str) -> (e: ApiError)
    ensures
        e.status == ApiStatus::BadRequest,
        e.message@ == message@,
{
    ApiError { status: ApiStatus::BadRequest, message: String::from_str(message) }
}

/// A request refused because its audio cannot be read.
pub fn unsupported_media(message: &str) -> (e: ApiError)
    ensures
        e.status == ApiStatus::UnsupportedMediaType,
        e.message@ == message@,
{
    ApiError { status: ApiStatus::UnsupportedMediaType, message: String::from_str(message) }
}

/// A one-shot request must carry a body.
pub fn require_body(len: usize) -> (r: Result<(), ApiError>)
    ensures
        len > 0 <==> r is Ok,
        r matches Err(e) ==> e.status == ApiStatus::BadRequest && e.message@
            == "request body was empty"@,
{
    if len == 0 {
        Err(bad_request("request body was empty"))
    } else {
        Ok(())
    }
}

/// The message with which a refused window override is answered.
pub open spec fn window_error_text(e: WindowOverrideError) -> Seq<char> {
    match e {
        WindowOverrideError::FrameTooSmall => "`frame_size` must be at least 8"@,
        WindowOverrideError::HopZero => "`hop_size` must be greater than 0"@,
        WindowOverrideError::HopExceedsFrame => "`hop_size` must be less than or equal to `frame_size`"@,
    }
}

/// Answers a refused window override as a malformed request.
pub fn window_error_response(e: WindowOverrideError) -> (r: ApiError)
    ensures
        r.status == ApiStatus::BadRequest,
        r.message@ == window_error_text(e),
{
    match e {
        WindowOverrideError::FrameTooSmall => bad_request("`frame_size` must be at least 8"),
        WindowOverrideError::HopZero => bad_request("`hop_size` must be greater than 0"),
        WindowOverrideError::HopExceedsFrame => bad_request(
            "`hop_size` must be less than or equal to `frame_size`",
        ),
    }
}

/// Bytes per sample of one channel, for a raw encoding.
pub open spec fn channel_bytes(encoding: PcmEncoding) -> nat {
    match encoding {
        PcmEncoding::F32Le => 4,
        PcmEncoding::S16Le => 2,
        PcmEncoding::Auto => 0,
    }
}

/// The size in bytes of one frame (a sample of every channel), or why
/// there is none.
pub open spec fn frame_bytes_outcome(encoding: PcmEncoding, channels: nat) -> Result<nat, Seq<char>> {
    if encoding == PcmEncoding::Auto {
        Err("PCM decoding requires an explicit encoding"@)
    } else if channel_bytes(encoding) * channels > usize::MAX {
        Err("PCM channel count was too large"@)
    } else if channel_bytes(encoding) * channels == 0 {
        Err("PCM frame size was zero"@)
    } else {
        Ok(channel_bytes(encoding) * channels)
    }
}

/// The size in bytes of one frame of raw PCM.
pub fn pcm_frame_bytes(encoding: PcmEncoding, channels: usize) -> (r: Result<usize, String>)
    ensures
        match (r, frame_bytes_outcome(encoding, channels as nat)) {
            (Ok(n), Ok(m)) => n == m,
            (Err(e), Err(m)) => e@ == m,
            _ => false,
        },
{
    let per_channel: usize = match encoding {
        PcmEncoding::F32Le => 4,
        PcmEncoding::S16Le => 2,
        PcmEncoding::Auto => {
            return Err(String::from_str("PCM decoding requires an explicit encoding"));
        },
    };
    match per_channel.checked_mul(channels) {
        None => Err(String::from_str("PCM channel count was too large")),
        Some(frame_bytes) => {
            if frame_bytes == 0 {
                Err(String::from_str("PCM frame size was zero"))
            } else {
                Ok(frame_bytes)
            }
        },
    }
}

/// How many bytes of `len` make whole frames.
pub open spec fn whole_frame_bytes(len: nat, frame_bytes: nat) -> nat {
    (len / frame_bytes) * frame_bytes
}

/// Takes the whole frames off the front of the pending bytes and returns
/// them; what is left is shorter than one frame. On error nothing changes.
pub fn drain_pcm_frames(pending: &mut Vec<u8>, encoding: PcmEncoding, channels: usize) -> (r: Result<
    Vec<u8>,
    String,
>)
    ensures
        match (r, frame_bytes_outcome(encoding, channels as nat)) {
            (Ok(frames), Ok(fb)) => {
                &&& frames@ == old(pending)@.take(whole_frame_bytes(old(pending)@.len(), fb) as int)
                &&& final(pending)@ == old(pending)@.skip(
                    whole_frame_bytes(old(pending)@.len(), fb) as int,
                )
            },
            (Err(e), Err(m)) => e@ == m && final(pending)@ == old(pending)@,
            _ => false,
        },
{
    let frame_bytes = match pcm_frame_bytes(encoding, channels) {
        Ok(n) => n,
        Err(e) => return Err(e),
    };
    let rem = pending.len() % frame_bytes;
    proof {
        vstd::arithmetic::div_mod::lemma_fundamental_div_mod(pending@.len() as int, frame_bytes as int);
        assert(frame_bytes * (pending@.len() / (frame_bytes as nat)) >= 0) by (nonlinear_arith)
            requires
                frame_bytes > 0,
        ;
    }
    let complete = pending.len() - rem;
    proof {
        let len = pending@.len();
        vstd::arithmetic::div_mod::lemma_fundamental_div_mod(len as int, frame_bytes as int);
        assert((len / (frame_bytes as nat)) * frame_bytes == frame_bytes * (len / (frame_bytes as nat)))
            by (nonlinear_arith);
        assert(complete == whole_frame_bytes(len, frame_bytes as nat));
    }
    let mut frames: Vec<u8> = Vec::new();
    let mut i: usize = 0;
    while i < complete
        invariant
            complete <= pending@.len(),
            i <= complete,
            frames@ == pending@.take(i as int),
        decreases complete - i,
    {
        frames.push(pending[i]);
        i += 1;
        assert(frames@ =~= pending@.take(i as int));
    }
    let ghost before = pending@;
    let mut rest: Vec<u8> = Vec::new();
    let mut j: usize = complete;
    while j < pending.len()
        invariant
            complete <= j <= pending@.len(),
            pending@ == before,
            rest@ == before.subrange(complete as int, j as int),
        decreases pending@.len() - j,
    {
        rest.push(pending[j]);
        j += 1;
        assert(rest@ =~= before.subrange(complete as int, j as int));
    }
    *pending = rest;
    assert(pending@ =~= before.skip(complete as int));
    Ok(frames)
}

/// Bytes received and bytes handed on by a stream that takes whole frames
/// as soon as they are complete: the pieces are joined in order and the
/// whole frames taken off after each piece.
pub open spec fn stream_split(pieces: Seq<Seq<u8>>, frame_bytes: nat) -> (Seq<u8>, Seq<u8>)
    decreases pieces.len(),
{
    if pieces.len() == 0 {
        (Seq::empty(), Seq::empty())
    } else {
        let (emitted, pending) = stream_split(pieces.drop_last(), frame_bytes);
        let joined = pending + pieces.last();
        let n = whole_frame_bytes(joined.len(), frame_bytes) as int;
        (emitted + joined.take(n), joined.skip(n))
    }
}

/// All the pieces joined.
pub open spec fn joined(pieces: Seq<Seq<u8>>) -> Seq<u8>
    decreases pieces.len(),
{
    if pieces.len() == 0 {
        Seq::empty()
    } else {
        joined(pieces.drop_last()) + pieces.last()
    }
}

proof fn lemma_whole_frames(a: nat, b: nat, fb: nat)
    requires
        fb > 0,
        a % fb == 0,
    ensures
        whole_frame_bytes(a + b, fb) == a + whole_frame_bytes(b, fb),
        whole_frame_bytes(b, fb) <= b,
        (b - whole_frame_bytes(b, fb)) < fb,
{
    vstd::arithmetic::div_mod::lemma_fundamental_div_mod(a as int, fb as int);
    vstd::arithmetic::div_mod::lemma_fundamental_div_mod(b as int, fb as int);
    let q = a / fb;
    let p = b / fb;
    let r = b % fb;
    assert(0 <= r < fb);
    assert(a == fb * q);
    assert(b == fb * p + r);
    assert(a + b == fb * (q + p) + r) by (nonlinear_arith)
        requires
            a == fb * q,
            b == fb * p + r,
    ;
    vstd::arithmetic::div_mod::lemma_div_multiples_vanish_fancy((q + p) as int, r as int, fb as int);
    assert((a + b) / fb == q + p);
    assert((q + p) * fb == a + p * fb) by (nonlinear_arith)
        requires
            a == fb * q,
    ;
    assert(p * fb == fb * p) by (nonlinear_arith);
}

/// Taking whole frames piece by piece hands on exactly the bytes that
/// taking them once from everything received would: the largest
/// whole-frame prefix of all the bytes, with the rest still pending.
pub proof fn lemma_streaming_drain_matches_one_shot(pieces: Seq<Seq<u8>>, frame_bytes: nat)
    requires
        frame_bytes > 0,
    ensures
        stream_split(pieces, frame_bytes).0 == joined(pieces).take(
            whole_frame_bytes(joined(pieces).len(), frame_bytes) as int,
        ),
        stream_split(pieces, frame_bytes).1 == joined(pieces).skip(
            whole_frame_bytes(joined(pieces).len(), frame_bytes) as int,
        ),
        stream_split(pieces, frame_bytes).1.len() < frame_bytes,
    decreases pieces.len(),
{
    let all = joined(pieces);
    if pieces.len() == 0 {
        assert(whole_frame_bytes(0, frame_bytes) == 0) by {
            lemma_whole_frames(0, 0, frame_bytes);
        }
        assert(all.take(0) =~= Seq::<u8>::empty());
        assert(all.skip(0) =~= Seq::<u8>::empty());
    } else {
        let prev = pieces.drop_last();
        lemma_streaming_drain_matches_one_shot(prev, frame_bytes);
        let (emitted, pending) = stream_split(prev, frame_bytes);
        let before = joined(prev);
        let k = whole_frame_bytes(before.len(), frame_bytes);
        let piece = pieces.last();
        let j = pending + piece;
        let n = whole_frame_bytes(j.len(), frame_bytes);
        assert(all == before + piece);
        assert(k % frame_bytes == 0) by {
            vstd::arithmetic::div_mod::lemma_mod_multiples_basic(
                (before.len() / frame_bytes) as int,
                frame_bytes as int,
            );
        }
        assert(k <= before.len()) by {
            lemma_whole_frames(0, before.len(), frame_bytes);
        }
        assert(pending.len() == before.len() - k);
        lemma_whole_frames(k, j.len(), frame_bytes);
        assert(all.len() == k + j.len());
        assert(whole_frame_bytes(all.len(), frame_bytes) == k + n);
        assert(emitted + j.take(n as int) =~= all.take((k + n) as int));
        assert(j.skip(n as int) =~= all.skip((k + n) as int));
    }
}

/// A raw PCM stream being received: whole frames are handed on as soon as
/// they are complete; fewer bytes than a frame wait for the next piece.
pub struct PcmStream {
    encoding: PcmEncoding,
    channels: usize,
    frame_bytes: usize,
    pending: Vec<u8>,
    frames_received: usize,
}

impl PcmStream {
    /// The stream is consistent: its frame size is that of its encoding
    /// and channels, and less than a frame is pending.
    pub closed spec fn wf(&self) -> bool {
        &&& frame_bytes_outcome(self.encoding, self.channels as nat) == Ok::<nat, Seq<char>>(
            self.frame_bytes as nat,
        )
        &&& self.pending@.len() < self.frame_bytes
    }

    /// Size in bytes of one frame.
    pub closed spec fn spec_frame_bytes(&self) -> nat {
        self.frame_bytes as nat
    }

    /// Bytes received that do not make a whole frame yet.
    pub closed spec fn spec_pending(&self) -> Seq<u8> {
        self.pending@
    }

    /// Frames handed on so far.
    pub closed spec fn spec_frames_received(&self) -> nat {
        self.frames_received as nat
    }

    pub closed spec fn spec_encoding(&self) -> PcmEncoding {
        self.encoding
    }

    pub closed spec fn spec_channels(&self) -> nat {
        self.channels as nat
    }

    /// Opens a stream for the encoding and channel count asked for.
    pub fn open(encoding: PcmEncoding, channels: usize) -> (r: Result<PcmStream, String>)
        ensures
            match (r, frame_bytes_outcome(encoding, channels as nat)) {
                (Ok(s), Ok(fb)) => {
                    &&& s.wf()
                    &&& s.spec_frame_bytes() == fb
                    &&& s.spec_pending() == Seq::<u8>::empty()
                    &&& s.spec_frames_received() == 0
                    &&& s.spec_encoding() == encoding
                    &&& s.spec_channels() == channels
                },
                (Err(e), Err(m)) => e@ == m,
                _ => false,
            },
    {
        match pcm_frame_bytes(encoding, channels) {
            Ok(frame_bytes) => Ok(
                PcmStream {
                    encoding,
                    channels,
                    frame_bytes,
                    pending: Vec::new(),
                    frames_received: 0,
                },
            ),
            Err(e) => Err(e),
        }
    }

    /// The encoding of the stream.
    pub fn encoding(&self) -> (e: PcmEncoding)
        ensures
            e == self.spec_encoding(),
    {
        self.encoding
    }

    /// The channel count of the stream.
    pub fn channels(&self) -> (c: usize)
        ensures
            c == self.spec_channels(),
    {
        self.channels
    }

    /// Frames handed on so far.
    pub fn frames_received(&self) -> (n: usize)
        ensures
            n == self.spec_frames_received(),
    {
        self.frames_received
    }

    /// Receives a piece of the body and hands on the whole frames that are
    /// now complete, in order; the count of frames saturates.
    pub fn push(&mut self, bytes: &[u8]) -> (frames: Vec<u8>)
        requires
            old(self).wf(),
        ensures
            final(self).wf(),
            final(self).spec_frame_bytes() == old(self).spec_frame_bytes(),
            final(self).spec_encoding() == old(self).spec_encoding(),
            final(self).spec_channels() == old(self).spec_channels(),
            ({
                let joined = old(self).spec_pending() + bytes@;
                let n = whole_frame_bytes(joined.len(), old(self).spec_frame_bytes()) as int;
                &&& frames@ == joined.take(n)
                &&& final(self).spec_pending() == joined.skip(n)
            }),
            final(self).spec_frames_received() == if old(self).spec_frames_received() + frames@.len()
                / old(self).spec_frame_bytes() <= usize::MAX {
                old(self).spec_frames_received() + frames@.len() / old(self).spec_frame_bytes()
            } else {
                usize::MAX as nat
            },
    {
        let ghost joined = self.pending@ + bytes@;
        let mut i: usize = 0;
        while i < bytes.len()
            invariant
                i <= bytes@.len(),
                self.pending@ == old(self).pending@ + bytes@.take(i as int),
                self.frame_bytes == old(self).frame_bytes,
                self.encoding == old(self).encoding,
                self.channels == old(self).channels,
                self.frames_received == old(self).frames_received,
            decreases bytes@.len() - i,
        {
            self.pending.push(bytes[i]);
            i += 1;
            assert(self.pending@ =~= old(self).pending@ + bytes@.take(i as int));
        }
        assert(bytes@.take(bytes@.len() as int) =~= bytes@);
        let r = drain_pcm_frames(&mut self.pending, self.encoding, self.channels);
        let frames = match r {
            Ok(frames) => frames,
            Err(_) => Vec::new(),
        };
        proof {
            let fb = self.frame_bytes as nat;
            vstd::arithmetic::div_mod::lemma_fundamental_div_mod(joined.len() as int, fb as int);
            vstd::arithmetic::div_mod::lemma_mod_multiples_basic(
                (joined.len() / fb) as int,
                fb as int,
            );
        }
        let count = frames.len() / self.frame_bytes;
        self.frames_received = if self.frames_received > usize::MAX - count {
            usize::MAX
        } else {
            self.frames_received + count
        };
        frames
    }

    /// Ends the stream: refused when bytes of a partial frame are left.
    pub fn finish(&self) -> (r: Result<(), String>)
        ensures
            r is Ok <==> self.spec_pending().len() == 0,
            r matches Err(e) ==> e@ == "request body ended with a partial PCM sample"@,
    {
        if self.pending.len() == 0 {
            Ok(())
        } else {
            Err(String::from_str("request body ended with a partial PCM sample"))
        }
    }
}

/// What a streaming request asks for, once checked.
#[derive(Debug, Clone, Copy)]
pub struct StreamRequest {
    pub encoding: PcmEncoding,
    pub sample_rate: u32,
    pub channels: usize,
}

/// The checks of a streaming request, in order: an explicit raw encoding,
/// a sample rate, a positive sample rate, a positive channel count (one
/// when not given).
pub open spec fn stream_request_outcome(
    encoding: Option<PcmEncoding>,
    sample_rate: Option<u32>,
    channels: Option<usize>,
) -> Result<StreamRequest, Seq<char>> {
    let enc = match encoding {
        Some(e) => e,
        None => PcmEncoding::Auto,
    };
    let ch = match channels {
        Some(c) => c,
        None => 1,
    };
    if enc == PcmEncoding::Auto {
        Err("streaming requires `pcm_encoding=f32_le` or `pcm_encoding=s16_le`"@)
    } else if sample_rate is None {
        Err("streaming requires `sample_rate`"@)
    } else if sample_rate == Some(0u32) {
        Err("`sample_rate` must be greater than 0"@)
    } else if ch == 0 {
        Err("`channels` must be greater than 0"@)
    } else {
        Ok(StreamRequest { encoding: enc, sample_rate: sample_rate->0, channels: ch })
    }
}

/// Checks the parameters of a streaming request.
pub fn check_stream_request(
    encoding: Option<PcmEncoding>,
    sample_rate: Option<u32>,
    channels: Option<usize>,
) -> (r: Result<StreamRequest, ApiError>)
    ensures
        match (r, stream_request_outcome(encoding, sample_rate, channels)) {
            (Ok(q), Ok(s)) => q == s,
            (Err(e), Err(m)) => e.status == ApiStatus::BadRequest && e.message@ == m,
            _ => false,
        },
{
    let enc = match encoding {
        Some(e) => e,
        None => PcmEncoding::Auto,
    };
    if let PcmEncoding::Auto = enc {
        return Err(
            bad_request("streaming requires `pcm_encoding=f32_le` or `pcm_encoding=s16_le`"),
        );
    }
    let rate = match sample_rate {
        Some(r) => r,
        None => return Err(bad_request("streaming requires `sample_rate`")),
    };
    if rate == 0 {
        return Err(bad_request("`sample_rate` must be greater than 0"));
    }
    let ch = match channels {
        Some(c) => c,
        None => 1,
    };
    if ch == 0 {
        return Err(bad_request("`channels` must be greater than 0"));
    }
    Ok(StreamRequest { encoding: enc, sample_rate: rate, channels: ch })
}

/// How a one-shot request's body is read.
#[derive(Debug, Clone, Copy)]
pub enum BodyDecoding {
    /// Probe the container and decode it.
    Probe,
    /// Raw PCM with the given parameters.
    Raw { encoding: PcmEncoding, sample_rate: u32, channels: usize },
}

/// How a one-shot request's body is read: probed when no raw encoding is
/// asked for, else raw, which needs a sample rate; one channel unless
/// given.
pub open spec fn body_decoding_outcome(
    encoding: Option<PcmEncoding>,
    sample_rate: Option<u32>,
    channels: Option<usize>,
) -> Result<BodyDecoding, Seq<char>> {
    let enc = match encoding {
        Some(e) => e,
        None => PcmEncoding::Auto,
    };
    if enc == PcmEncoding::Auto {
        Ok(BodyDecoding::Probe)
    } else {
        match sample_rate {
            None => Err("PCM input requires `sample_rate`"@),
            Some(rate) => Ok(
                BodyDecoding::Raw {
                    encoding: enc,
                    sample_rate: rate,
                    channels: match channels {
                        Some(c) => c,
                        None => 1,
                    },
                },
            ),
        }
    }
}

/// Decides how a one-shot request's body is read.
pub fn body_decoding(
    encoding: Option<PcmEncoding>,
    sample_rate: Option<u32>,
    channels: Option<usize>,
) -> (r: Result<BodyDecoding, ApiError>)
    ensures
        match (r, body_decoding_outcome(encoding, sample_rate, channels)) {
            (Ok(d), Ok(s)) => d == s,
            (Err(e), Err(m)) => e.status == ApiStatus::BadRequest && e.message@ == m,
            _ => false,
        },
{
    let enc = match encoding {
        Some(e) => e,
        None => PcmEncoding::Auto,
    };
    match enc {
        PcmEncoding::Auto => Ok(BodyDecoding::Probe),
        _ => match sample_rate {
            None => Err(bad_request("PCM input requires `sample_rate`")),
            Some(rate) => Ok(
                BodyDecoding::Raw {
                    encoding: enc,
                    sample_rate: rate,
                    channels: match channels {
                        Some(c) => c,
                        None => 1,
                    },
                },
            ),
        },
    }
}

/// The name under which raw PCM input is reported.
pub open spec fn pcm_backend_name(encoding: PcmEncoding) -> Seq<char> {
    match encoding {
        PcmEncoding::F32Le => "pcm_f32le"@,
        PcmEncoding::S16Le => "pcm_s16le"@,
        PcmEncoding::Auto => "auto"@,
    }
}

/// The checks and split of a whole raw PCM body: positive sample rate,
/// positive channel count, a valid frame size, and no partial frame at the
/// end.
pub open spec fn raw_body_outcome(
    bytes: Seq<u8>,
    encoding: PcmEncoding,
    sample_rate: u32,
    channels: nat,
) -> Result<Seq<u8>, Seq<char>> {
    if sample_rate == 0 {
        Err("`sample_rate` must be greater than 0"@)
    } else if channels == 0 {
        Err("`channels` must be greater than 0"@)
    } else {
        match frame_bytes_outcome(encoding, channels) {
            Err(m) => Err(m),
            Ok(fb) => if whole_frame_bytes(bytes.len(), fb) < bytes.len() {
                Err("request body ended with a partial PCM sample"@)
            } else {
                Ok(bytes)
            },
        }
    }
}

/// Checks a whole raw PCM body and returns its frames with the name of the
/// decoder; every refusal is a malformed request.
pub fn decode_pcm_body(bytes: &[u8], encoding: PcmEncoding, sample_rate: u32, channels: usize) -> (r:
    Result<(Vec<u8>, &'static str), ApiError>)
    ensures
        match (r, raw_body_outcome(bytes@, encoding, sample_rate, channels as nat)) {
            (Ok((frames, backend)), Ok(s)) => frames@ == s && backend@ == pcm_backend_name(
                encoding,
            ),
            (Err(e), Err(m)) => e.status == ApiStatus::BadRequest && e.message@ == m,
            _ => false,
        },
{
    if sample_rate == 0 {
        return Err(bad_request("`sample_rate` must be greater than 0"));
    }
    if channels == 0 {
        return Err(bad_request("`channels` must be greater than 0"));
    }
    let mut pending: Vec<u8> = Vec::new();
    let mut i: usize = 0;
    while i < bytes.len()
        invariant
            i <= bytes@.len(),
            pending@ == bytes@.take(i as int),
        decreases bytes@.len() - i,
    {
        pending.push(bytes[i]);
        i += 1;
        assert(pending@ =~= bytes@.take(i as int));
    }
    assert(bytes@.take(bytes@.len() as int) =~= bytes@);
    let frames = match drain_pcm_frames(&mut pending, encoding, channels) {
        Ok(f) => f,
        Err(e) => {
            let err = ApiError { status: ApiStatus::BadRequest, message: e };
            return Err(err);
        },
    };
    proof {
        let fb = frame_bytes_outcome(encoding, channels as nat)->Ok_0;
        lemma_whole_frames(0, bytes@.len(), fb);
    }
    if pending.len() != 0 {
        return Err(bad_request("request body ended with a partial PCM sample"));
    }
    assert(bytes@.take(bytes@.len() as int) =~= bytes@);
    let backend = match encoding {
        PcmEncoding::F32Le => "pcm_f32le",
        PcmEncoding::S16Le => "pcm_s16le",
        PcmEncoding::Auto => "auto",
    };
    Ok((frames, backend))
}

/// How a one-shot body is read: without a raw encoding (or with `Auto`) it
/// is probed; a raw encoding without a sample rate is refused; otherwise it
/// is raw PCM in that encoding at that rate, with the channel count given,
/// or one channel (mono) when none is.
pub proof fn lemma_body_decoding_defaults(
    encoding: PcmEncoding,
    sample_rate: u32,
    channels: usize,
)
    ensures
        body_decoding_outcome(None, Some(sample_rate), Some(channels)) == Ok::<
            BodyDecoding,
            Seq<char>,
        >(BodyDecoding::Probe),
        body_decoding_outcome(Some(PcmEncoding::Auto), None, None) == Ok::<BodyDecoding, Seq<char>>(
            BodyDecoding::Probe,
        ),
        encoding != PcmEncoding::Auto ==> body_decoding_outcome(Some(encoding), None, Some(channels))
            is Err,
        encoding != PcmEncoding::Auto ==> body_decoding_outcome(
            Some(encoding),
            Some(sample_rate),
            None,
        ) == Ok::<BodyDecoding, Seq<char>>(
            BodyDecoding::Raw { encoding, sample_rate, channels: 1 },
        ),
        encoding != PcmEncoding::Auto ==> body_decoding_outcome(
            Some(encoding),
            Some(sample_rate),
            Some(channels),
        ) == Ok::<BodyDecoding, Seq<char>>(
            BodyDecoding::Raw { encoding, sample_rate, channels },
        ),
{
}

} // verus!
