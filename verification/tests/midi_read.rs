use libvoice::midi::{read_midi, MidiReadError, MidiTiming, TickNote};
use libvoice::notes::{clamp_midi_note, midi_to_note_name};

fn smf(track: &[u8], division: u16) -> Vec<u8> {
    let mut bytes = b"MThd".to_vec();
    bytes.extend_from_slice(&[0, 0, 0, 6, 0, 0, 0, 1]);
    bytes.extend_from_slice(&division.to_be_bytes());
    bytes.extend_from_slice(b"MTrk");
    bytes.extend_from_slice(&(track.len() as u32).to_be_bytes());
    bytes.extend_from_slice(track);
    bytes
}

#[test]
fn reads_notes_tempo_and_length() {
    let track = [
        0x00, 0xFF, 0x51, 0x03, 0x07, 0xA1, 0x20, // tempo 500000
        0x00, 0xFF, 0x58, 0x04, 0x03, 0x03, 0x18, 0x08, // 3/8
        0x00, 0x90, 0x3C, 0x64, // C4 on
        0x83, 0x60, 0x80, 0x3C, 0x40, // 480 ticks later, C4 off
        0x00, 0x91, 0x40, 0x50, // E4 on, channel 1
        0x81, 0x70, 0x91, 0x40, 0x00, // 240 ticks later, off by velocity 0
        0x00, 0xFF, 0x2F, 0x00,
    ];
    let (timing, score) = read_midi(&smf(&track, 480)).unwrap();
    assert_eq!(timing, MidiTiming::Metrical(480));
    assert_eq!(score.tempo_us, 500_000);
    assert_eq!(score.time_sig_num, 3);
    assert_eq!(score.time_sig_den, 8);
    assert_eq!(score.total_ticks, 720);
    assert_eq!(
        score.notes,
        vec![
            TickNote { start_tick: 0, end_tick: 480, pitch: 60, velocity: 100, channel: 0 },
            TickNote { start_tick: 480, end_tick: 720, pitch: 64, velocity: 80, channel: 1 },
        ]
    );
}

#[test]
fn open_notes_close_at_track_end_and_defaults_apply() {
    let track = [
        0x00, 0x90, 0x45, 0x40, // A4 on, never released
        0x60, 0xFF, 0x2F, 0x00, // end of track at tick 96
    ];
    let (_, score) = read_midi(&smf(&track, 96)).unwrap();
    assert_eq!(score.tempo_us, 500_000);
    assert_eq!(score.time_sig_num, 4);
    assert_eq!(score.time_sig_den, 4);
    assert_eq!(
        score.notes,
        vec![TickNote { start_tick: 0, end_tick: 96, pitch: 69, velocity: 64, channel: 0 }]
    );
}

#[test]
fn garbage_is_a_parse_error() {
    assert!(matches!(read_midi(b"not a midi file"), Err(MidiReadError::Parse(_))));
    assert!(matches!(read_midi(&[]), Err(MidiReadError::Parse(_))));
}

#[test]
fn note_names_and_clamping() {
    assert_eq!(midi_to_note_name(69), "A4");
    assert_eq!(midi_to_note_name(60), "C4");
    assert_eq!(midi_to_note_name(61), "C#4");
    assert_eq!(midi_to_note_name(0), "C-1");
    assert_eq!(midi_to_note_name(127), "G9");
    assert_eq!(clamp_midi_note(-5), 0);
    assert_eq!(clamp_midi_note(64), 64);
    assert_eq!(clamp_midi_note(300), 127);
}

#[test]
fn oversized_time_signature_denominator_is_unsupported() {
    let track = [
        0x00, 0xFF, 0x58, 0x04, 0x04, 0x08, 0x18, 0x08, // 4/256: power 8 does not fit a byte
        0x00, 0xFF, 0x2F, 0x00,
    ];
    assert!(matches!(read_midi(&smf(&track, 480)), Err(MidiReadError::Unsupported)));
}

#[test]
fn tempo_and_signature_of_later_tracks_win() {
    let mut bytes = b"MThd".to_vec();
    bytes.extend_from_slice(&[0, 0, 0, 6, 0, 1, 0, 2, 0x01, 0xE0]);
    let first = [0x00, 0xFF, 0x51, 0x03, 0x07, 0xA1, 0x20, 0x00, 0xFF, 0x2F, 0x00];
    let second = [
        0x00, 0xFF, 0x51, 0x03, 0x0F, 0x42, 0x40, // tempo 1000000
        0x00, 0xFF, 0x58, 0x04, 0x06, 0x03, 0x18, 0x08, // 6/8
        0x8F, 0x00, 0xFF, 0x2F, 0x00, // ends at tick 1920
    ];
    for track in [&first[..], &second[..]] {
        bytes.extend_from_slice(b"MTrk");
        bytes.extend_from_slice(&(track.len() as u32).to_be_bytes());
        bytes.extend_from_slice(track);
    }
    let (timing, score) = read_midi(&bytes).unwrap();
    assert_eq!(timing, MidiTiming::Metrical(480));
    assert_eq!(score.tempo_us, 1_000_000);
    assert_eq!((score.time_sig_num, score.time_sig_den), (6, 8));
    assert_eq!(score.total_ticks, 1920);
    assert!(score.notes.is_empty());
}

#[test]
fn notes_starting_together_keep_the_order_they_end_in() {
    let track = [
        0x00, 0x90, 0x3C, 0x50, // C4 on at 0
        0x00, 0x90, 0x40, 0x60, // E4 on at 0
        0x0A, 0x80, 0x40, 0x40, // E4 off at 10
        0x0A, 0x80, 0x3C, 0x40, // C4 off at 20
        0x00, 0x90, 0x43, 0x70, // G4 on at 20
        0x05, 0x80, 0x43, 0x40, // G4 off at 25
        0x00, 0xFF, 0x2F, 0x00,
    ];
    let (_, score) = read_midi(&smf(&track, 96)).unwrap();
    assert_eq!(
        score.notes,
        vec![
            TickNote { start_tick: 0, end_tick: 10, pitch: 64, velocity: 96, channel: 0 },
            TickNote { start_tick: 0, end_tick: 20, pitch: 60, velocity: 80, channel: 0 },
            TickNote { start_tick: 20, end_tick: 25, pitch: 67, velocity: 112, channel: 0 },
        ]
    );
}

use libvoice::midi::sort_by_key;

fn note(start_tick: u32, pitch: u8) -> TickNote {
    TickNote { start_tick, end_tick: start_tick + 10, pitch, velocity: 90, channel: 0 }
}

#[test]
fn sorting_by_key_is_stable() {
    let entries = vec![(5, note(5, 60)), (1, note(1, 61)), (5, note(5, 62)), (0, note(0, 63)), (1, note(1, 64))];
    let pitches: Vec<u8> = sort_by_key(&entries).into_iter().map(|(_, n)| n.pitch).collect();
    assert_eq!(pitches, vec![63, 61, 64, 60, 62]);
}

#[test]
fn falling_keys_reverse_the_notes() {
    let entries = vec![(9, note(0, 60)), (7, note(10, 61)), (7, note(10, 62)), (3, note(20, 63))];
    let pitches: Vec<u8> = sort_by_key(&entries).into_iter().map(|(_, n)| n.pitch).collect();
    assert_eq!(pitches, vec![63, 61, 62, 60]);
    assert!(sort_by_key::<TickNote>(&Vec::new()).is_empty());
}
