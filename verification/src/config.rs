use vstd::prelude::*;

verus! {

/// A rejected analyzer configuration, carrying a fixed description of what
/// is wrong with it.
#[derive(Debug, Clone, PartialEq, Eq)]
pub struct ConfigError {
    message: &'static str,
}

impl ConfigError {
    pub fn new(message: &'static str) -> (e: Self)
        ensures
            e.spec_message() == message@,
    {
        Self { message }
    }

    /// The description of the problem.
    pub closed spec fn spec_message(&self) -> Seq<char> {
        self.message@
    }

    /// The description of the problem, as shown to users.
    pub fn message(&self) -> (m: &'static str)
        ensures
            m@ == self.spec_message(),
    {
        self.message
    }
}

/// Which optional outputs an analysis produces besides its summaries.
pub struct AnalysisOutputOptions {
    /// Keep one record per voiced frame.
    pub frame_analysis: bool,
    /// Keep the averaged FFT magnitudes of the voiced frames.
    pub fft_spectrum: bool,
}

impl Default for AnalysisOutputOptions {
    /// Per-frame records on, FFT export off.
    fn default() -> (o: Self)
        ensures
            o.frame_analysis,
            !o.fft_spectrum,
    {
        AnalysisOutputOptions { frame_analysis: true, fft_spectrum: false }
    }
}

/// Frame length for a sample rate: 6144 samples at 44.1 kHz and above,
/// 4096 from 24 kHz, 2048 below.
pub open spec fn default_frame_size(sample_rate: u32) -> usize {
    if sample_rate >= 44_100 {
        6_144
    } else if sample_rate >= 24_000 {
        4_096
    } else {
        2_048
    }
}

/// Higher sample rates never get shorter default frames.
pub proof fn lemma_default_frame_size_monotonic(low: u32, high: u32)
    requires
        low <= high,
    ensures
        default_frame_size(low) <= default_frame_size(high),
{
}

/// Default frame and hop sizes: the hop is a quarter of the frame.
pub fn default_window_sizes(sample_rate: u32) -> (sizes: (usize, usize))
    ensures
        sizes.0 == default_frame_size(sample_rate),
        sizes.1 == default_frame_size(sample_rate) / 4,
{
    let frame_size: usize = if sample_rate >= 44_100 {
        6_144
    } else if sample_rate >= 24_000 {
        4_096
    } else {
        2_048
    };
    (frame_size, frame_size / 4)
}

/// The integer geometry checks of a configuration, in the order in which
/// they are made, each with its message.
pub fn validate_window(sample_rate: u32, frame_size: usize, hop_size: usize) -> (r: Result<
    (),
    ConfigError,
>)
    ensures
        sample_rate == 0 ==> (r matches Err(e) && e.spec_message()
            == "sample_rate must be greater than zero"@),
        sample_rate != 0 && frame_size < 3 ==> (r matches Err(e) && e.spec_message()
            == "frame_size must be at least 3"@),
        sample_rate != 0 && frame_size >= 3 && (hop_size == 0 || hop_size > frame_size) ==> (
        r matches Err(e) && e.spec_message() == "hop_size must be between 1 and frame_size"@),
        r is Ok <==> (sample_rate != 0 && frame_size >= 3 && 1 <= hop_size <= frame_size),
{
    if sample_rate == 0 {
        return Err(ConfigError::new("sample_rate must be greater than zero"));
    }
    if frame_size < 3 {
        return Err(ConfigError::new("frame_size must be at least 3"));
    }
    if hop_size == 0 || hop_size > frame_size {
        return Err(ConfigError::new("hop_size must be between 1 and frame_size"));
    }
    Ok(())
}

/// Why a caller-supplied frame or hop size was refused.
#[derive(Debug, Clone, Copy, PartialEq, Eq)]
pub enum WindowOverrideError {
    /// A frame size below eight samples was asked for.
    FrameTooSmall,
    /// A hop size of zero was asked for.
    HopZero,
    /// The hop is longer than the frame.
    HopExceedsFrame,
}

/// Applies optional frame and hop size overrides to the current sizes:
/// an override frame size must be at least 8, an override hop size at
/// least 1; the frame is checked first.
pub fn apply_window_overrides(
    frame_size: usize,
    hop_size: usize,
    frame_override: Option<usize>,
    hop_override: Option<usize>,
) -> (r: Result<(usize, usize), WindowOverrideError>)
    ensures
        (frame_override matches Some(f) && f < 8) ==> r == Err::<(usize, usize), _>(
            WindowOverrideError::FrameTooSmall,
        ),
        !(frame_override matches Some(f) && f < 8) && hop_override == Some(0usize) ==> r == Err::<
            (usize, usize),
            _,
        >(WindowOverrideError::HopZero),
        !(frame_override matches Some(f) && f < 8) && hop_override != Some(0usize) ==> r == Ok::<
            _,
            WindowOverrideError,
        >(
            (
                match frame_override {
                    Some(f) => f,
                    None => frame_size,
                },
                match hop_override {
                    Some(h) => h,
                    None => hop_size,
                },
            ),
        ),
{
    let mut frame = frame_size;
    let mut hop = hop_size;
    if let Some(f) = frame_override {
        if f < 8 {
            return Err(WindowOverrideError::FrameTooSmall);
        }
        frame = f;
    }
    if let Some(h) = hop_override {
        if h == 0 {
            return Err(WindowOverrideError::HopZero);
        }
        hop = h;
    }
    Ok((frame, hop))
}

/// The last window check of a patched configuration: the hop may not be
/// longer than the frame.
pub fn check_hop_within_frame(frame_size: usize, hop_size: usize) -> (r: Result<
    (),
    WindowOverrideError,
>)
    ensures
        r is Ok <==> hop_size <= frame_size,
        r is Err ==> r == Err::<(), _>(WindowOverrideError::HopExceedsFrame),
{
    if hop_size > frame_size {
        Err(WindowOverrideError::HopExceedsFrame)
    } else {
        Ok(())
    }
}

} // verus!
