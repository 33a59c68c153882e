use vstd::prelude::*;

verus! {

/// Sample rate that live pitch tracking asks the input device for.
pub const CAPTURE_SAMPLE_RATE: u32 = 44100;

/// Samples analyzed per pitch estimate.
pub const FFT_SIZE: usize = 4096;

/// Samples between pitch estimates.
pub const HOP_SIZE: usize = 512;

/// One range of input configurations that a device supports.
#[derive(Debug, Clone, Copy)]
pub struct InputConfigRange {
    pub channels: u16,
    pub min_sample_rate: u32,
    pub max_sample_rate: u32,
    pub default_sample_rate: u32,
}

/// Whether a range offers the given sample rate.
pub open spec fn supports_rate(c: InputConfigRange, rate: u32) -> bool {
    c.min_sample_rate <= rate && rate <= c.max_sample_rate
}

/// Whether a range has few enough channels: mono or stereo.
pub open spec fn usable(c: InputConfigRange) -> bool {
    c.channels <= 2
}

/// Picks the input configuration range for capture: the first usable one
/// that offers the rate, else the first usable one, else none.
pub fn choose_input_config(configs: &[InputConfigRange], rate: u32) -> (r: Option<usize>)
    ensures
        match r {
            Some(i) => {
                &&& i < configs@.len()
                &&& usable(configs@[i as int])
                &&& (supports_rate(configs@[i as int], rate) || forall|j: int|
                    0 <= j < configs@.len() ==> !(usable(#[trigger] configs@[j]) && supports_rate(
                        configs@[j],
                        rate,
                    )))
                &&& forall|j: int|
                    0 <= j < i ==> !(usable(#[trigger] configs@[j]) && supports_rate(configs@[j], rate))
                &&& !supports_rate(configs@[i as int], rate) ==> forall|j: int|
                    0 <= j < i ==> !usable(#[trigger] configs@[j])
            },
            None => forall|j: int| 0 <= j < configs@.len() ==> !usable(#[trigger] configs@[j]),
        },
{
    let mut best: Option<usize> = None;
    let mut i: usize = 0;
    while i < configs.len()
        invariant
            i <= configs@.len(),
            forall|j: int|
                0 <= j < i ==> !(usable(#[trigger] configs@[j]) && supports_rate(configs@[j], rate)),
            match best {
                Some(b) => b < i && usable(configs@[b as int]) && forall|j: int|
                    0 <= j < b ==> !usable(#[trigger] configs@[j]),
                None => forall|j: int| 0 <= j < i ==> !usable(#[trigger] configs@[j]),
            },
        decreases configs@.len() - i,
    {
        let c = configs[i];
        if c.channels <= 2 {
            if c.min_sample_rate <= rate && c.max_sample_rate >= rate {
                return Some(i);
            }
            if best.is_none() {
                best = Some(i);
            }
        }
        i += 1;
    }
    best
}

/// The sample rate to capture at with a chosen range: the wanted rate
/// when the range offers it, else the range's default.
pub fn capture_sample_rate(config: &InputConfigRange, rate: u32) -> (r: u32)
    ensures
        r == if supports_rate(*config, rate) {
            rate
        } else {
            config.default_sample_rate
        },
{
    if config.min_sample_rate <= rate && config.max_sample_rate >= rate {
        rate
    } else {
        config.default_sample_rate
    }
}

/// What the capture loop learns while it waits.
#[derive(Debug, Clone, Copy, PartialEq, Eq, Structural)]
pub enum CaptureEvent {
    /// A stop was asked for.
    StopRequested,
    /// The device delivered a chunk of samples.
    Chunk,
    /// Nothing arrived in time.
    Timeout,
    /// The device side went away.
    Disconnected,
}

/// What the capture loop does next.
#[derive(Debug, Clone, Copy, PartialEq, Eq, Structural)]
pub enum CaptureAction {
    /// Leave the loop.
    Stop,
    /// Wait again.
    Wait,
    /// Estimate the pitch of the most recent samples.
    Analyze,
    /// A chunk that is not analyzed: pitch is estimated on every second
    /// chunk only.
    Skip,
}

/// The capture loop's state: the chunks seen so far, counted modulo the
/// machine word.
#[derive(Debug, Clone, Copy)]
pub struct CaptureLoop {
    pub hop_counter: usize,
}

/// The next state and action of the capture loop.
pub open spec fn capture_transition(hop_counter: usize, event: CaptureEvent) -> (usize, CaptureAction) {
    match event {
        CaptureEvent::StopRequested => (hop_counter, CaptureAction::Stop),
        CaptureEvent::Disconnected => (hop_counter, CaptureAction::Stop),
        CaptureEvent::Timeout => (hop_counter, CaptureAction::Wait),
        CaptureEvent::Chunk => {
            let next = if hop_counter == usize::MAX {
                0
            } else {
                (hop_counter + 1) as usize
            };
            (next, if next % 2 == 0 {
                CaptureAction::Analyze
            } else {
                CaptureAction::Skip
            })
        },
    }
}

impl CaptureLoop {
    /// A loop that has seen no chunk.
    pub fn new() -> (l: Self)
        ensures
            l.hop_counter == 0,
    {
        CaptureLoop { hop_counter: 0 }
    }

    /// Takes one event and says what to do.
    pub fn step(&mut self, event: CaptureEvent) -> (action: CaptureAction)
        ensures
            (final(self).hop_counter, action) == capture_transition(old(self).hop_counter, event),
    {
        match event {
            CaptureEvent::StopRequested => CaptureAction::Stop,
            CaptureEvent::Disconnected => CaptureAction::Stop,
            CaptureEvent::Timeout => CaptureAction::Wait,
            CaptureEvent::Chunk => {
                self.hop_counter = self.hop_counter.wrapping_add(1);
                if self.hop_counter % 2 == 0 {
                    CaptureAction::Analyze
                } else {
                    CaptureAction::Skip
                }
            },
        }
    }
}

/// Of two chunks in a row, exactly one is analyzed.
pub proof fn lemma_every_second_chunk_analyzed(hop_counter: usize)
    ensures
        ({
            let (mid, first) = capture_transition(hop_counter, CaptureEvent::Chunk);
            let (_, second) = capture_transition(mid, CaptureEvent::Chunk);
            (first == CaptureAction::Analyze) != (second == CaptureAction::Analyze)
        }),
{
    assert(usize::MAX == 0xffff_ffff || usize::MAX == 0xffff_ffff_ffff_ffff);
}

/// What the playback loop does on one of its ticks.
#[derive(Debug, Clone, Copy, PartialEq, Eq, Structural)]
pub enum PlaybackAction {
    /// Stop playing and leave the loop.
    Stop,
    /// Announce that a new beat has begun.
    Beat,
    /// Nothing to announce; wait for the next tick.
    Wait,
}

/// The playback loop's memory: the last beat announced, or `-1` before the
/// first.
#[derive(Debug, Clone, Copy)]
pub struct PlaybackTicker {
    pub last_beat: i64,
}

/// The next state and action of the playback loop, given whether a stop
/// was asked for, whether the audio has run out, and the beat that the
/// elapsed time falls in.
pub open spec fn playback_transition(
    last_beat: i64,
    stop_requested: bool,
    finished: bool,
    beat: i64,
) -> (i64, PlaybackAction) {
    if stop_requested || finished {
        (last_beat, PlaybackAction::Stop)
    } else if beat != last_beat {
        (beat, PlaybackAction::Beat)
    } else {
        (last_beat, PlaybackAction::Wait)
    }
}

impl PlaybackTicker {
    /// A ticker that has announced no beat.
    pub fn new() -> (t: Self)
        ensures
            t.last_beat == -1,
    {
        PlaybackTicker { last_beat: -1 }
    }

    /// Takes one tick of the playback loop.
    pub fn tick(&mut self, stop_requested: bool, finished: bool, beat: i64) -> (action: PlaybackAction)
        ensures
            (final(self).last_beat, action) == playback_transition(
                old(self).last_beat,
                stop_requested,
                finished,
                beat,
            ),
    {
        if stop_requested || finished {
            return PlaybackAction::Stop;
        }
        if beat != self.last_beat {
            self.last_beat = beat;
            PlaybackAction::Beat
        } else {
            PlaybackAction::Wait
        }
    }
}

/// A beat is announced once: the tick after an announcement, with the same
/// beat, only waits.
pub proof fn lemma_beat_announced_once(last_beat: i64, beat: i64)
    ensures
        ({
            let (after, first) = playback_transition(last_beat, false, false, beat);
            let (_, second) = playback_transition(after, false, false, beat);
            second == PlaybackAction::Wait && (first == PlaybackAction::Beat <==> beat != last_beat)
        }),
{
}

/// Whether capture and playback are running.
#[derive(Debug, Clone, Copy)]
pub struct Transport {
    pub capturing: bool,
    pub playing: bool,
}

impl Transport {
    /// Nothing running.
    pub fn new() -> (t: Self)
        ensures
            !t.capturing && !t.playing,
    {
        Transport { capturing: false, playing: false }
    }

    /// Marks capture as running; says whether it has to be started, which
    /// it has not when it already runs.
    pub fn begin_capture(&mut self) -> (start: bool)
        ensures
            start == !old(self).capturing,
            final(self).capturing,
            final(self).playing == old(self).playing,
    {
        if self.capturing {
            return false;
        }
        self.capturing = true;
        true
    }

    /// Marks capture as stopped.
    pub fn end_capture(&mut self)
        ensures
            !final(self).capturing,
            final(self).playing == old(self).playing,
    {
        self.capturing = false;
    }

    /// Marks playback as running; says whether it has to be started.
    pub fn begin_playback(&mut self) -> (start: bool)
        ensures
            start == !old(self).playing,
            final(self).playing,
            final(self).capturing == old(self).capturing,
    {
        if self.playing {
            return false;
        }
        self.playing = true;
        true
    }

    /// Marks playback as stopped.
    pub fn end_playback(&mut self)
        ensures
            !final(self).playing,
            final(self).capturing == old(self).capturing,
    {
        self.playing = false;
    }
}

} // verus!
