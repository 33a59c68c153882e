use vstd::prelude::*;

use midly::{MetaMessage, MidiMessage, Smf, Timing, TrackEventKind};

verus! {

/// How the ticks of a MIDI file relate to time.
#[derive(Debug, Clone, Copy, PartialEq, Eq)]
pub enum MidiTiming {
    /// Ticks per beat (quarter note).
    Metrical(u16),
    /// SMPTE timecode: frames per second (24, 25, 29 for 29.97, or 30) and
    /// ticks per frame.
    Timecode { fps: u8, subdivisions: u8 },
}

/// The part of a track event that the note reader looks at.
#[derive(Debug, Clone, Copy, PartialEq, Eq)]
pub enum MidiEventKind {
    NoteOn { channel: u8, key: u8, velocity: u8 },
    NoteOff { channel: u8, key: u8 },
    /// Microseconds per beat.
    Tempo(u32),
    /// Numerator and the power of two of the denominator.
    TimeSignature { numerator: u8, denominator_power: u8 },
    Other,
}

/// A track event: ticks since the previous event of the track, and what
/// happens.
#[derive(Debug, Clone, Copy, PartialEq, Eq)]
pub struct MidiEvent {
    pub delta: u32,
    pub kind: MidiEventKind,
}

#[verifier::external_type_specification]
#[verifier::external_body]
pub struct ExSmf<'a>(Smf<'a>);

/// What `midly::Smf::parse` reads from a byte string: its timing and, for
/// each track in order, its events; `None` when the bytes are rejected.
pub uninterp spec fn parsed_midi(data: Seq<u8>) -> Option<(MidiTiming, Seq<Seq<MidiEvent>>)>;

/// The events that a parsed file holds, track by track.
pub uninterp spec fn smf_events(smf: Smf<'_>) -> Seq<Seq<MidiEvent>>;

/// The timing in a parsed file's header.
pub uninterp spec fn smf_timing(smf: Smf<'_>) -> MidiTiming;

/// Trusted: wraps `midly::Smf::parse`. Parsing is a function of the bytes:
/// it succeeds exactly when `parsed_midi` has a value, and the parsed file
/// then holds that timing and those events. The error text is midly's
/// description of the problem and is left unstated.
#[verifier::external_body]
fn parse_smf<'a>(data: &'a [u8]) -> (r: Result<Smf<'a>, String>)
    ensures
        r is Ok <==> parsed_midi(data@) is Some,
        r matches Ok(smf) ==> parsed_midi(data@) == Some((smf_timing(smf), smf_events(smf))),
{
    Smf::parse(data).map_err(|error| error.to_string())
}

/// Trusted: reads `smf.header.timing`, as midly's `Timing` enum, into the
/// library's own enum, with `u15::as_int` and `Fps::as_int`.
#[verifier::external_body]
fn timing_of(smf: &Smf<'_>) -> (t: MidiTiming)
    ensures
        t == smf_timing(*smf),
{
    match smf.header.timing {
        Timing::Metrical(tpb) => MidiTiming::Metrical(tpb.as_int()),
        Timing::Timecode(fps, sub) => MidiTiming::Timecode { fps: fps.as_int(), subdivisions: sub },
    }
}

/// Trusted: `smf.tracks.len()`.
#[verifier::external_body]
fn track_count(smf: &Smf<'_>) -> (n: usize)
    ensures
        n == smf_events(*smf).len(),
{
    smf.tracks.len()
}

/// Trusted: `smf.tracks[track].len()`.
#[verifier::external_body]
fn track_len(smf: &Smf<'_>, track: usize) -> (n: usize)
    requires
        track < smf_events(*smf).len(),
    ensures
        n == smf_events(*smf)[track as int].len(),
{
    smf.tracks[track].len()
}

/// Trusted: reads event `index` of track `track` into the library's own
/// event type, telling midly's event variants apart and taking their
/// fields with `as_int`.
#[verifier::external_body]
fn event_at(smf: &Smf<'_>, track: usize, index: usize) -> (e: MidiEvent)
    requires
        track < smf_events(*smf).len(),
        index < smf_events(*smf)[track as int].len(),
    ensures
        e == smf_events(*smf)[track as int][index as int],
{
    let event = &smf.tracks[track][index];
    let kind = match event.kind {
        TrackEventKind::Midi { channel: c, message: MidiMessage::NoteOn { key, vel } } =>
            MidiEventKind::NoteOn { channel: c.as_int(), key: key.as_int(), velocity: vel.as_int() },
        TrackEventKind::Midi { channel: c, message: MidiMessage::NoteOff { key, .. } } =>
            MidiEventKind::NoteOff { channel: c.as_int(), key: key.as_int() },
        TrackEventKind::Meta(MetaMessage::Tempo(t)) => MidiEventKind::Tempo(t.as_int()),
        TrackEventKind::Meta(MetaMessage::TimeSignature(n, d, _, _)) =>
            MidiEventKind::TimeSignature { numerator: n, denominator_power: d },
        _ => MidiEventKind::Other,
    };
    MidiEvent { delta: event.delta.as_int(), kind }
}

} // verus!

verus! {

/// A note found in a track, timed in ticks from the start of its track.
#[derive(Debug, Clone, Copy, PartialEq, Eq)]
pub struct TickNote {
    pub start_tick: u32,
    pub end_tick: u32,
    pub pitch: u8,
    pub velocity: u8,
    pub channel: u8,
}

/// A note that has started and not yet ended.
#[derive(Debug, Clone, Copy, PartialEq, Eq)]
pub struct ActiveNote {
    pub channel: u8,
    pub pitch: u8,
    pub start_tick: u32,
    pub velocity: u8,
}

/// The reader's state within one track.
///
/// The sounding notes are a sequence with at most one entry per channel and
/// key, found by `find_active`, rather than a hash map keyed by channel and
/// key: the notes still sounding when a track ends are written out in the
/// order of this collection, and a hash map's iteration order changes from
/// process to process with its random seed, so it could not be stated. The
/// sequence keeps each channel and key where it first began sounding, which
/// makes the result a function of the file.
pub struct TrackState {
    pub tick: int,
    pub active: Seq<ActiveNote>,
    pub notes: Seq<TickNote>,
}

/// Index of the first active note on this channel and key.
pub open spec fn find_active(active: Seq<ActiveNote>, channel: u8, pitch: u8) -> Option<int>
    decreases active.len(),
{
    if active.len() == 0 {
        None
    } else {
        match find_active(active.drop_last(), channel, pitch) {
            Some(i) => Some(i),
            None => if active.last().channel == channel && active.last().pitch == pitch {
                Some(active.len() - 1)
            } else {
                None
            },
        }
    }
}

/// Ends the note on this channel and key, if one is sounding, at `tick`.
pub open spec fn close_note(st: TrackState, channel: u8, pitch: u8, tick: int) -> TrackState {
    match find_active(st.active, channel, pitch) {
        Some(i) => TrackState {
            tick,
            active: st.active.remove(i),
            notes: st.notes.push(
                TickNote {
                    start_tick: st.active[i].start_tick,
                    end_tick: tick as u32,
                    pitch,
                    velocity: st.active[i].velocity,
                    channel,
                },
            ),
        },
        None => TrackState { tick, active: st.active, notes: st.notes },
    }
}

/// Starts (or restarts) the note on this channel and key at `tick`.
pub open spec fn open_note(st: TrackState, channel: u8, pitch: u8, velocity: u8, tick: int) -> TrackState {
    let started = ActiveNote { channel, pitch, start_tick: tick as u32, velocity };
    TrackState {
        tick,
        active: match find_active(st.active, channel, pitch) {
            Some(i) => st.active.update(i, started),
            None => st.active.push(started),
        },
        notes: st.notes,
    }
}

/// One event of a track: the clock advances by its delta; a note-on with a
/// positive velocity starts a note, a note-on with velocity zero or a
/// note-off ends one.
pub open spec fn track_step(st: TrackState, e: MidiEvent) -> TrackState {
    let tick = st.tick + e.delta;
    match e.kind {
        MidiEventKind::NoteOn { channel, key, velocity } => if velocity > 0 {
            open_note(st, channel, key, velocity, tick)
        } else {
            close_note(st, channel, key, tick)
        },
        MidiEventKind::NoteOff { channel, key } => close_note(st, channel, key, tick),
        _ => TrackState { tick, active: st.active, notes: st.notes },
    }
}

/// The reader's state after the given events of one track.
pub open spec fn run_track(events: Seq<MidiEvent>) -> TrackState
    decreases events.len(),
{
    if events.len() == 0 {
        TrackState { tick: 0, active: Seq::empty(), notes: Seq::empty() }
    } else {
        track_step(run_track(events.drop_last()), events.last())
    }
}

/// A note still sounding when its track ends lasts until the track's last
/// tick.
pub open spec fn close_at_end(a: ActiveNote, tick: int) -> TickNote {
    TickNote {
        start_tick: a.start_tick,
        end_tick: tick as u32,
        pitch: a.pitch,
        velocity: a.velocity,
        channel: a.channel,
    }
}

/// The notes of one track: those ended within the track, then those still
/// sounding at its end.
pub open spec fn track_notes(events: Seq<MidiEvent>) -> Seq<TickNote> {
    let st = run_track(events);
    st.notes + st.active.map_values(|a: ActiveNote| close_at_end(a, st.tick))
}

/// The notes of all tracks, track after track.
pub open spec fn all_track_notes(tracks: Seq<Seq<MidiEvent>>) -> Seq<TickNote>
    decreases tracks.len(),
{
    if tracks.len() == 0 {
        Seq::empty()
    } else {
        all_track_notes(tracks.drop_last()) + track_notes(tracks.last())
    }
}

/// Sum of the deltas of a track: the tick of its last event.
pub open spec fn track_length(events: Seq<MidiEvent>) -> int
    decreases events.len(),
{
    if events.len() == 0 {
        0
    } else {
        track_length(events.drop_last()) + events.last().delta
    }
}

/// The largest track length, or 0 for no tracks.
pub open spec fn longest_track(tracks: Seq<Seq<MidiEvent>>) -> int
    decreases tracks.len(),
{
    if tracks.len() == 0 {
        0
    } else {
        let rest = longest_track(tracks.drop_last());
        let last = track_length(tracks.last());
        if last > rest {
            last
        } else {
            rest
        }
    }
}

/// `2^p` for a time-signature denominator power.
pub open spec fn pow2_u8(p: u8) -> int
    decreases p,
{
    if p == 0 {
        1
    } else {
        2 * pow2_u8((p - 1) as u8)
    }
}

/// Tempo and time signature after the given events: the last tempo event
/// and the last time-signature event win.
pub open spec fn meta_after(events: Seq<MidiEvent>) -> (u32, u8, u8)
    decreases events.len(),
{
    if events.len() == 0 {
        (500_000, 4, 4)
    } else {
        let st = meta_after(events.drop_last());
        match events.last().kind {
            MidiEventKind::Tempo(t) => (t, st.1, st.2),
            MidiEventKind::TimeSignature { numerator, denominator_power } => (
                st.0,
                numerator,
                pow2_u8(denominator_power) as u8,
            ),
            _ => st,
        }
    }
}

/// A file the reader can take: every track's clock fits in 32 bits and
/// every time-signature denominator fits in a byte.
pub open spec fn readable_tracks(tracks: Seq<Seq<MidiEvent>>) -> bool {
    &&& forall|t: int| 0 <= t < tracks.len() ==> #[trigger] track_length(tracks[t]) <= u32::MAX
    &&& forall|t: int, i: int|
        0 <= t < tracks.len() && 0 <= i < tracks[t].len() ==> match #[trigger] tracks[t][i].kind {
            MidiEventKind::TimeSignature { denominator_power, .. } => denominator_power <= 7,
            _ => true,
        }
}

/// Keyed entries ordered by their keys.
pub open spec fn sorted_by_key<T>(entries: Seq<(u64, T)>) -> bool {
    forall|i: int, j: int| 0 <= i <= j < entries.len() ==> entries[i].0 <= entries[j].0
}

/// Whether an entry has the given key.
pub open spec fn has_key<T>(key: u64) -> spec_fn((u64, T)) -> bool {
    |e: (u64, T)| e.0 == key
}

/// The entries with the given key, in their order.
pub open spec fn entries_with_key<T>(entries: Seq<(u64, T)>, key: u64) -> Seq<(u64, T)> {
    entries.filter(has_key(key))
}

/// What the reader takes from a MIDI file's tracks.
pub struct MidiScore {
    /// All notes, track after track: in each track the notes in the order
    /// they end, then those still sounding at its end. Ordering them by
    /// start time is `sort_by_key`'s work.
    pub notes: Vec<TickNote>,
    /// Microseconds per beat (500000, that is 120 BPM, when no tempo event is present).
    pub tempo_us: u32,
    pub time_sig_num: u8,
    pub time_sig_den: u8,
    /// Length of the longest track in ticks.
    pub total_ticks: u32,
}

} // verus!

verus! {

proof fn lemma_find_extends(s: Seq<ActiveNote>, n: int, channel: u8, pitch: u8)
    requires
        0 <= n <= s.len(),
        find_active(s.take(n), channel, pitch) is Some,
    ensures
        find_active(s, channel, pitch) == find_active(s.take(n), channel, pitch),
    decreases s.len() - n,
{
    if n < s.len() {
        assert(s.take(n + 1).drop_last() =~= s.take(n));
        lemma_find_extends(s, n + 1, channel, pitch);
    } else {
        assert(s.take(n) =~= s);
    }
}

proof fn lemma_find_in_range(s: Seq<ActiveNote>, channel: u8, pitch: u8)
    ensures
        find_active(s, channel, pitch) matches Some(i) ==> 0 <= i < s.len() && s[i].channel
            == channel && s[i].pitch == pitch,
    decreases s.len(),
{
    if s.len() > 0 {
        lemma_find_in_range(s.drop_last(), channel, pitch);
    }
}

fn find_active_exec(active: &Vec<ActiveNote>, channel: u8, pitch: u8) -> (r: Option<usize>)
    ensures
        match r {
            Some(i) => find_active(active@, channel, pitch) == Some(i as int),
            None => find_active(active@, channel, pitch) is None,
        },
        r matches Some(i) ==> i < active@.len(),
{
    let mut i: usize = 0;
    while i < active.len()
        invariant
            i <= active@.len(),
            find_active(active@.take(i as int), channel, pitch) is None,
        decreases active@.len() - i,
    {
        assert(active@.take(i + 1).drop_last() =~= active@.take(i as int));
        if active[i].channel == channel && active[i].pitch == pitch {
            proof {
                lemma_find_extends(active@, i + 1, channel, pitch);
            }
            return Some(i);
        }
        i += 1;
    }
    assert(active@.take(active@.len() as int) =~= active@);
    None
}

proof fn lemma_run_track_tick(events: Seq<MidiEvent>)
    ensures
        run_track(events).tick == track_length(events),
    decreases events.len(),
{
    if events.len() > 0 {
        lemma_run_track_tick(events.drop_last());
    }
}

proof fn lemma_track_length_prefix(events: Seq<MidiEvent>, n: int)
    requires
        0 <= n <= events.len(),
    ensures
        0 <= track_length(events.take(n)) <= track_length(events),
    decreases events.len() - n,
{
    if n < events.len() {
        lemma_track_length_prefix(events, n + 1);
        assert(events.take(n + 1).drop_last() =~= events.take(n));
        lemma_track_length_nonnegative(events.take(n));
    } else {
        assert(events.take(n) =~= events);
        lemma_track_length_nonnegative(events);
    }
}

proof fn lemma_track_length_nonnegative(events: Seq<MidiEvent>)
    ensures
        track_length(events) >= 0,
    decreases events.len(),
{
    if events.len() > 0 {
        lemma_track_length_nonnegative(events.drop_last());
    }
}

/// Reads the notes of one track and appends them to `notes`; returns the
/// tick of the track's last event.
fn read_track(events: &Vec<MidiEvent>, notes: &mut Vec<TickNote>) -> (end_tick: u32)
    requires
        track_length(events@) <= u32::MAX,
    ensures
        final(notes)@ == old(notes)@ + track_notes(events@),
        end_tick == track_length(events@),
{
    let mut tick: u32 = 0;
    let mut active: Vec<ActiveNote> = Vec::new();
    let mut ended: Vec<TickNote> = Vec::new();
    let mut i: usize = 0;
    while i < events.len()
        invariant
            i <= events@.len(),
            track_length(events@) <= u32::MAX,
            tick == run_track(events@.take(i as int)).tick,
            active@ == run_track(events@.take(i as int)).active,
            ended@ == run_track(events@.take(i as int)).notes,
        decreases events@.len() - i,
    {
        let event = events[i];
        proof {
            assert(events@.take(i + 1).drop_last() =~= events@.take(i as int));
            lemma_track_length_prefix(events@, i + 1);
            lemma_run_track_tick(events@.take(i + 1));
            lemma_run_track_tick(events@.take(i as int));
        }
        let ghost before = run_track(events@.take(i as int));
        tick = tick + event.delta;
        match event.kind {
            MidiEventKind::NoteOn { channel, key, velocity } => {
                if velocity > 0 {
                    let started = ActiveNote { channel, pitch: key, start_tick: tick, velocity };
                    match find_active_exec(&active, channel, key) {
                        Some(k) => {
                            active.set(k, started);
                        },
                        None => {
                            active.push(started);
                        },
                    }
                } else {
                    proof {
                        lemma_find_in_range(active@, channel, key);
                    }
                    if let Some(k) = find_active_exec(&active, channel, key) {
                        let note = active.remove(k);
                        ended.push(
                            TickNote {
                                start_tick: note.start_tick,
                                end_tick: tick,
                                pitch: key,
                                velocity: note.velocity,
                                channel,
                            },
                        );
                    }
                }
            },
            MidiEventKind::NoteOff { channel, key } => {
                proof {
                    lemma_find_in_range(active@, channel, key);
                }
                if let Some(k) = find_active_exec(&active, channel, key) {
                    let note = active.remove(k);
                    ended.push(
                        TickNote {
                            start_tick: note.start_tick,
                            end_tick: tick,
                            pitch: key,
                            velocity: note.velocity,
                            channel,
                        },
                    );
                }
            },
            _ => {},
        }
        i += 1;
        assert(active@ =~= run_track(events@.take(i as int)).active);
        assert(ended@ =~= run_track(events@.take(i as int)).notes);
    }
    assert(events@.take(events@.len() as int) =~= events@);
    proof {
        lemma_run_track_tick(events@);
    }
    let ghost st = run_track(events@);
    let mut k: usize = 0;
    while k < active.len()
        invariant
            k <= active@.len(),
            active@ == st.active,
            tick == st.tick,
            ended@ == st.notes + st.active.take(k as int).map_values(
                |a: ActiveNote| close_at_end(a, st.tick),
            ),
        decreases active@.len() - k,
    {
        let a = active[k];
        ended.push(
            TickNote {
                start_tick: a.start_tick,
                end_tick: tick,
                pitch: a.pitch,
                velocity: a.velocity,
                channel: a.channel,
            },
        );
        k += 1;
        assert(ended@ =~= st.notes + st.active.take(k as int).map_values(
            |a: ActiveNote| close_at_end(a, st.tick),
        ));
    }
    assert(st.active.take(active@.len() as int) =~= st.active);
    let mut j: usize = 0;
    while j < ended.len()
        invariant
            j <= ended@.len(),
            notes@ == old(notes)@ + ended@.take(j as int),
        decreases ended@.len() - j,
    {
        notes.push(ended[j]);
        j += 1;
        assert(notes@ =~= old(notes)@ + ended@.take(j as int));
    }
    assert(ended@.take(ended@.len() as int) =~= ended@);
    tick
}

} // verus!

verus! {

fn pow2_exec(p: u8) -> (v: u8)
    requires
        p <= 7,
    ensures
        v == pow2_u8(p),
{
    proof {
        reveal_with_fuel(pow2_u8, 8);
    }
    match p {
        0 => 1,
        1 => 2,
        2 => 4,
        3 => 8,
        4 => 16,
        5 => 32,
        6 => 64,
        _ => 128,
    }
}

/// The events of all tracks as sequences.
pub open spec fn events_view(tracks: Seq<Vec<MidiEvent>>) -> Seq<Seq<MidiEvent>> {
    tracks.map_values(|t: Vec<MidiEvent>| t@)
}

proof fn lemma_flatten_step(tracks: Seq<Seq<MidiEvent>>, t: int, i: int)
    requires
        0 <= t < tracks.len(),
        0 <= i < tracks[t].len(),
    ensures
        (tracks.take(t).flatten() + tracks[t].take(i + 1)).drop_last() =~= tracks.take(t).flatten()
            + tracks[t].take(i),
        (tracks.take(t).flatten() + tracks[t].take(i + 1)).last() == tracks[t][i],
{
}

proof fn lemma_flatten_next_track(tracks: Seq<Seq<MidiEvent>>, t: int)
    requires
        0 <= t < tracks.len(),
    ensures
        tracks.take(t + 1).flatten() =~= tracks.take(t).flatten() + tracks[t].take(
            tracks[t].len() as int,
        ),
{
    assert(tracks.take(t + 1) =~= tracks.take(t).push(tracks[t]));
    tracks.take(t).lemma_flatten_push(tracks[t]);
    assert(tracks[t].take(tracks[t].len() as int) =~= tracks[t]);
}

/// Tempo and time signature of the whole file: the last such events over
/// all tracks, in order.
fn read_meta(tracks: &Vec<Vec<MidiEvent>>) -> (meta: (u32, u8, u8))
    requires
        readable_tracks(events_view(tracks@)),
    ensures
        meta == meta_after(events_view(tracks@).flatten()),
{
    let ghost all = events_view(tracks@);
    let mut tempo_us: u32 = 500_000;
    let mut num: u8 = 4;
    let mut den: u8 = 4;
    let mut t: usize = 0;
    assert(all.take(0).flatten() =~= Seq::empty());
    while t < tracks.len()
        invariant
            t <= tracks@.len(),
            all == events_view(tracks@),
            readable_tracks(all),
            (tempo_us, num, den) == meta_after(all.take(t as int).flatten()),
        decreases tracks@.len() - t,
    {
        let track = &tracks[t];
        assert(all.len() == tracks@.len());
        let mut i: usize = 0;
        assert(all.take(t as int).flatten() + all[t as int].take(0) =~= all.take(
            t as int,
        ).flatten());
        while i < track.len()
            invariant
                t < tracks@.len(),
                all.len() == tracks@.len(),
                track@ == all[t as int],
                i <= track@.len(),
                readable_tracks(all),
                (tempo_us, num, den) == meta_after(
                    all.take(t as int).flatten() + all[t as int].take(i as int),
                ),
            decreases track@.len() - i,
        {
            proof {
                lemma_flatten_step(all, t as int, i as int);
            }
            match track[i].kind {
                MidiEventKind::Tempo(value) => {
                    tempo_us = value;
                },
                MidiEventKind::TimeSignature { numerator, denominator_power } => {
                    assert(match all[t as int][i as int].kind {
                        MidiEventKind::TimeSignature { denominator_power, .. } => denominator_power
                            <= 7,
                        _ => true,
                    });
                    num = numerator;
                    den = pow2_exec(denominator_power);
                },
                _ => {},
            }
            i += 1;
        }
        proof {
            lemma_flatten_next_track(all, t as int);
        }
        t += 1;
    }
    assert(all.take(tracks@.len() as int) =~= all);
    (tempo_us, num, den)
}

proof fn lemma_insert_to_multiset<T>(s: Seq<T>, p: int, x: T)
    requires
        0 <= p <= s.len(),
    ensures
        s.insert(p, x).to_multiset() =~= s.to_multiset().insert(x),
{
    broadcast use vstd::seq_lib::group_to_multiset_ensures;

    let t = s.insert(p, x);
    assert(t.remove(p) =~= s);
    assert(t[p] == x);
    assert(t.to_multiset().count(x) > 0);
}

proof fn lemma_none_with_key<T>(s: Seq<(u64, T)>, key: u64)
    requires
        forall|k: int| 0 <= k < s.len() ==> s[k].0 != key,
    ensures
        entries_with_key(s, key) == Seq::<(u64, T)>::empty(),
    decreases s.len(),
{
    reveal(Seq::filter);
    if s.len() > 0 {
        lemma_none_with_key(s.drop_last(), key);
    }
}

proof fn lemma_with_key_one<T>(x: (u64, T), key: u64)
    ensures
        entries_with_key(seq![x], key) == (if x.0 == key {
            seq![x]
        } else {
            Seq::<(u64, T)>::empty()
        }),
{
    reveal(Seq::filter);
    assert(seq![x].drop_last() =~= Seq::<(u64, T)>::empty());
    lemma_none_with_key(Seq::<(u64, T)>::empty(), key);
}

proof fn lemma_with_key_push<T>(s: Seq<(u64, T)>, x: (u64, T), key: u64)
    ensures
        entries_with_key(s.push(x), key) == entries_with_key(s, key) + entries_with_key(
            seq![x],
            key,
        ),
{
    assert(s.push(x) =~= s + seq![x]);
    Seq::filter_distributes_over_add(s, seq![x], has_key(key));
}

proof fn lemma_with_key_insert<T>(s: Seq<(u64, T)>, p: int, x: (u64, T), key: u64)
    requires
        0 <= p <= s.len(),
        forall|k: int| p <= k < s.len() ==> s[k].0 > x.0,
    ensures
        entries_with_key(s.insert(p, x), key) == entries_with_key(s.push(x), key),
{
    let f = has_key::<T>(key);
    let a = s.take(p);
    let b = s.skip(p);
    assert(s.insert(p, x) =~= (a + seq![x]) + b);
    assert(s =~= a + b);
    Seq::filter_distributes_over_add(a + seq![x], b, f);
    Seq::filter_distributes_over_add(a, seq![x], f);
    Seq::filter_distributes_over_add(a, b, f);
    lemma_with_key_push(s, x, key);
    lemma_with_key_one(x, key);
    if x.0 == key {
        lemma_none_with_key(b, key);
        assert(entries_with_key(s.insert(p, x), key) =~= entries_with_key(a, key) + seq![x]);
        assert(entries_with_key(s, key) =~= entries_with_key(a, key));
    } else {
        assert(entries_with_key(s.insert(p, x), key) =~= entries_with_key(a, key)
            + entries_with_key(b, key));
    }
}

/// The entries in order of their keys, keeping the order of entries with
/// equal keys.
pub fn sort_by_key<T: Copy>(entries: &Vec<(u64, T)>) -> (sorted: Vec<(u64, T)>)
    ensures
        sorted_by_key(sorted@),
        sorted@.to_multiset() == entries@.to_multiset(),
        forall|key: u64| #[trigger]
            entries_with_key(sorted@, key) == entries_with_key(entries@, key),
{
    broadcast use vstd::seq_lib::group_to_multiset_ensures;

    let mut sorted: Vec<(u64, T)> = Vec::new();
    let mut i: usize = 0;
    while i < entries.len()
        invariant
            i <= entries@.len(),
            sorted_by_key(sorted@),
            sorted@.to_multiset() == entries@.take(i as int).to_multiset(),
            forall|key: u64| #[trigger]
                entries_with_key(sorted@, key) == entries_with_key(entries@.take(i as int), key),
        decreases entries@.len() - i,
    {
        let x = entries[i];
        let mut p: usize = 0;
        while p < sorted.len() && sorted[p].0 <= x.0
            invariant
                p <= sorted@.len(),
                forall|k: int| 0 <= k < p ==> sorted@[k].0 <= x.0,
            decreases sorted@.len() - p,
        {
            p += 1;
        }
        let ghost before = sorted@;
        proof {
            lemma_insert_to_multiset(before, p as int, x);
            assert(entries@.take(i + 1) =~= entries@.take(i as int).push(x));
        }
        sorted.insert(p, x);
        assert(sorted@.to_multiset() == entries@.take(i + 1).to_multiset()) by {
            assert(sorted@ == before.insert(p as int, x));
            vstd::seq_lib::to_multiset_build(entries@.take(i as int), x);
            assert(entries@.take(i as int).push(x).to_multiset() == entries@.take(
                i as int,
            ).to_multiset().insert(x));
        }
        assert(sorted_by_key(sorted@)) by {
            assert forall|a: int, b: int| 0 <= a <= b < sorted@.len() implies sorted@[a].0
                <= sorted@[b].0 by {
                if b < p {
                } else if a > p {
                } else if a == p && b == p {
                } else if a < p && b == p {
                } else if a < p {
                    assert(before[a].0 <= before[b - 1].0);
                } else {
                    assert(p < before.len());
                    assert(before[p as int].0 > x.0);
                    assert(before[p as int].0 <= before[b - 1].0);
                }
            }
        }
        assert forall|key: u64| #[trigger]
            entries_with_key(sorted@, key) == entries_with_key(entries@.take(i + 1), key) by {
            assert forall|k: int| p <= k < before.len() implies before[k].0 > x.0 by {
                if p < before.len() {
                    assert(before[p as int].0 <= before[k].0);
                }
            }
            lemma_with_key_insert(before, p as int, x, key);
            lemma_with_key_push(before, x, key);
            lemma_with_key_push(entries@.take(i as int), x, key);
        }
        i += 1;
    }
    assert(entries@.take(entries@.len() as int) =~= entries@);
    sorted
}

} // verus!

verus! {

/// The reader's result matches the tracks: the notes of the tracks, track
/// after track, tempo and time signature from the last such events, and the
/// length of the longest track.
pub open spec fn score_of(tracks: Seq<Seq<MidiEvent>>, score: MidiScore) -> bool {
    &&& score.notes@ == all_track_notes(tracks)
    &&& (score.tempo_us, score.time_sig_num, score.time_sig_den) == meta_after(tracks.flatten())
    &&& score.total_ticks == longest_track(tracks)
}

proof fn lemma_longest_is_a_track_length(tracks: Seq<Seq<MidiEvent>>)
    ensures
        forall|t: int| 0 <= t < tracks.len() ==> #[trigger] track_length(tracks[t]) <= longest_track(
            tracks,
        ),
        tracks.len() == 0 ==> longest_track(tracks) == 0,
        tracks.len() > 0 ==> exists|t: int|
            0 <= t < tracks.len() && longest_track(tracks) == #[trigger] track_length(tracks[t]),
    decreases tracks.len(),
{
    if tracks.len() > 0 {
        let rest = tracks.drop_last();
        lemma_longest_is_a_track_length(rest);
        assert forall|t: int| 0 <= t < tracks.len() implies #[trigger] track_length(tracks[t])
            <= longest_track(tracks) by {
            if t < rest.len() {
                assert(rest[t] == tracks[t]);
            }
        }
        if track_length(tracks.last()) > longest_track(rest) || rest.len() == 0 {
            if rest.len() == 0 {
                assert(longest_track(rest) == 0);
                lemma_track_length_nonnegative(tracks.last());
            }
            assert(longest_track(tracks) == track_length(tracks[tracks.len() - 1]));
        } else {
            let t = choose|t: int|
                0 <= t < rest.len() && longest_track(rest) == #[trigger] track_length(rest[t]);
            assert(rest[t] == tracks[t]);
            assert(longest_track(tracks) == track_length(tracks[t]));
        }
    }
}

/// The length that the reader reports is that of the longest track: no
/// track is longer, and one track (if there is any) is exactly that long;
/// with no tracks it is zero.
pub proof fn lemma_score_length_is_longest_track(tracks: Seq<Seq<MidiEvent>>, score: MidiScore)
    requires
        score_of(tracks, score),
    ensures
        forall|t: int| 0 <= t < tracks.len() ==> #[trigger] track_length(tracks[t]) <= score.total_ticks,
        tracks.len() == 0 ==> score.total_ticks == 0,
        tracks.len() > 0 ==> exists|t: int|
            0 <= t < tracks.len() && score.total_ticks == #[trigger] track_length(tracks[t]),
{
    lemma_longest_is_a_track_length(tracks);
}

proof fn lemma_longest_bounded(tracks: Seq<Seq<MidiEvent>>)
    requires
        forall|t: int| 0 <= t < tracks.len() ==> #[trigger] track_length(tracks[t]) <= u32::MAX,
    ensures
        0 <= longest_track(tracks) <= u32::MAX,
    decreases tracks.len(),
{
    if tracks.len() > 0 {
        assert forall|t: int| 0 <= t < tracks.drop_last().len() implies #[trigger] track_length(
            tracks.drop_last()[t],
        ) <= u32::MAX by {
            assert(tracks.drop_last()[t] == tracks[t]);
        }
        lemma_longest_bounded(tracks.drop_last());
        lemma_track_length_nonnegative(tracks.last());
        assert(track_length(tracks[tracks.len() - 1]) <= u32::MAX);
    }
}

/// Reads the notes, tempo, time signature and length of a file's tracks.
pub fn collect_midi_notes(tracks: &Vec<Vec<MidiEvent>>) -> (score: MidiScore)
    requires
        readable_tracks(events_view(tracks@)),
    ensures
        score_of(events_view(tracks@), score),
{
    let ghost all = events_view(tracks@);
    let meta = read_meta(tracks);
    let mut notes: Vec<TickNote> = Vec::new();
    let mut total_ticks: u32 = 0;
    let mut t: usize = 0;
    while t < tracks.len()
        invariant
            t <= tracks@.len(),
            all == events_view(tracks@),
            all.len() == tracks@.len(),
            readable_tracks(all),
            notes@ == all_track_notes(all.take(t as int)),
            total_ticks == longest_track(all.take(t as int)),
        decreases tracks@.len() - t,
    {
        assert(all.take(t + 1).drop_last() =~= all.take(t as int));
        assert(all[t as int] == tracks@[t as int]@);
        assert(track_length(all[t as int]) <= u32::MAX);
        let end = read_track(&tracks[t], &mut notes);
        if end > total_ticks {
            total_ticks = end;
        }
        t += 1;
    }
    assert(all.take(tracks@.len() as int) =~= all);
    MidiScore {
        notes,
        tempo_us: meta.0,
        time_sig_num: meta.1,
        time_sig_den: meta.2,
        total_ticks,
    }
}

/// Whether the reader can take these tracks without a clock or a
/// denominator overflowing.
fn check_readable(tracks: &Vec<Vec<MidiEvent>>) -> (ok: bool)
    ensures
        ok == readable_tracks(events_view(tracks@)),
{
    let ghost all = events_view(tracks@);
    let mut t: usize = 0;
    while t < tracks.len()
        invariant
            t <= tracks@.len(),
            all == events_view(tracks@),
            all.len() == tracks@.len(),
            forall|u: int| 0 <= u < t ==> #[trigger] track_length(all[u]) <= u32::MAX,
            forall|u: int, i: int|
                0 <= u < t && 0 <= i < all[u].len() ==> match #[trigger] all[u][i].kind {
                    MidiEventKind::TimeSignature { denominator_power, .. } => denominator_power <= 7,
                    _ => true,
                },
        decreases tracks@.len() - t,
    {
        let track = &tracks[t];
        assert(track@ == all[t as int]);
        let mut sum: u64 = 0;
        let mut i: usize = 0;
        while i < track.len()
            invariant
                t < all.len(),
                all == events_view(tracks@),
                track@ == all[t as int],
                i <= track@.len(),
                sum == track_length(track@.take(i as int)),
                sum <= u32::MAX,
                forall|k: int|
                    0 <= k < i ==> match #[trigger] track@[k].kind {
                        MidiEventKind::TimeSignature { denominator_power, .. } => denominator_power
                            <= 7,
                        _ => true,
                    },
            decreases track@.len() - i,
        {
            assert(track@.take(i + 1).drop_last() =~= track@.take(i as int));
            sum = sum + track[i].delta as u64;
            if sum > 0xffff_ffff {
                proof {
                    lemma_track_length_prefix(track@, i + 1);
                }
                assert(track_length(all[t as int]) > u32::MAX);
                assert(!readable_tracks(all));
                return false;
            }
            if let MidiEventKind::TimeSignature { denominator_power, .. } = track[i].kind {
                if denominator_power > 7 {
                    assert(match all[t as int][i as int].kind {
                        MidiEventKind::TimeSignature { denominator_power, .. } => denominator_power
                            > 7,
                        _ => false,
                    });
                    assert(!readable_tracks(all));
                    return false;
                }
            }
            i += 1;
        }
        assert(track@.take(track@.len() as int) =~= track@);
        t += 1;
    }
    true
}

/// Why a MIDI file could not be read.
#[derive(Debug)]
pub enum MidiReadError {
    /// The bytes are not a MIDI file; midly's description of the problem.
    Parse(String),
    /// A track's clock passes 2^32 ticks or a time signature's denominator
    /// does not fit in a byte.
    Unsupported,
}

/// Parses a MIDI file and reads its timing, notes, tempo, time signature
/// and length.
pub fn read_midi(data: &[u8]) -> (r: Result<(MidiTiming, MidiScore), MidiReadError>)
    ensures
        parsed_midi(data@) is None ==> (r matches Err(MidiReadError::Parse(_))),
        parsed_midi(data@) matches Some((timing, tracks)) ==> if readable_tracks(tracks) {
            r matches Ok((t, score)) && t == timing && score_of(tracks, score)
        } else {
            r matches Err(MidiReadError::Unsupported)
        },
{
    let smf = match parse_smf(data) {
        Ok(smf) => smf,
        Err(message) => return Err(MidiReadError::Parse(message)),
    };
    let timing = timing_of(&smf);
    let count = track_count(&smf);
    let ghost events = smf_events(smf);
    let mut tracks: Vec<Vec<MidiEvent>> = Vec::new();
    let mut t: usize = 0;
    while t < count
        invariant
            t <= count,
            count == events.len(),
            events == smf_events(smf),
            events_view(tracks@) == events.take(t as int),
        decreases count - t,
    {
        let len = track_len(&smf, t);
        let mut track: Vec<MidiEvent> = Vec::new();
        let mut i: usize = 0;
        while i < len
            invariant
                t < count,
                count == events.len(),
                events == smf_events(smf),
                len == events[t as int].len(),
                i <= len,
                track@ == events[t as int].take(i as int),
            decreases len - i,
        {
            track.push(event_at(&smf, t, i));
            i += 1;
            assert(track@ =~= events[t as int].take(i as int));
        }
        assert(events[t as int].take(len as int) =~= events[t as int]);
        let ghost before = tracks@;
        let ghost added = track@;
        tracks.push(track);
        t += 1;
        assert(events_view(tracks@) =~= events.take(t as int)) by {
            assert(events_view(tracks@) =~= events_view(before).push(added));
        }
    }
    assert(events.take(count as int) =~= events);
    if !check_readable(&tracks) {
        return Err(MidiReadError::Unsupported);
    }
    Ok((timing, collect_midi_notes(&tracks)))
}

} // verus!
