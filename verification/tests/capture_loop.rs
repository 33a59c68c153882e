use libvoice::capture::{
    capture_sample_rate, choose_input_config, CaptureAction, CaptureEvent, CaptureLoop,
    InputConfigRange, PlaybackAction, PlaybackTicker, Transport, CAPTURE_SAMPLE_RATE,
};

fn range(channels: u16, min: u32, max: u32, default: u32) -> InputConfigRange {
    InputConfigRange {
        channels,
        min_sample_rate: min,
        max_sample_rate: max,
        default_sample_rate: default,
    }
}

#[test]
fn prefers_a_range_with_the_wanted_rate() {
    let configs = [
        range(8, 8000, 96000, 48000),
        range(2, 8000, 22050, 22050),
        range(1, 8000, 48000, 48000),
    ];
    assert_eq!(choose_input_config(&configs, CAPTURE_SAMPLE_RATE), Some(2));
}

#[test]
fn falls_back_to_first_usable_range() {
    let configs = [range(6, 8000, 96000, 48000), range(2, 8000, 22050, 22050), range(1, 8000, 16000, 16000)];
    assert_eq!(choose_input_config(&configs, 44_100), Some(1));
    assert_eq!(choose_input_config(&[range(4, 0, 96000, 48000)], 44_100), None);
    assert_eq!(choose_input_config(&[], 44_100), None);
}

#[test]
fn capture_rate_is_wanted_or_default() {
    assert_eq!(capture_sample_rate(&range(1, 8000, 48000, 48000), 44_100), 44_100);
    assert_eq!(capture_sample_rate(&range(1, 8000, 22050, 22050), 44_100), 22_050);
}

#[test]
fn every_second_chunk_is_analyzed() {
    let mut state = CaptureLoop::new();
    assert_eq!(state.step(CaptureEvent::Chunk), CaptureAction::Skip);
    assert_eq!(state.step(CaptureEvent::Timeout), CaptureAction::Wait);
    assert_eq!(state.step(CaptureEvent::Chunk), CaptureAction::Analyze);
    assert_eq!(state.step(CaptureEvent::Chunk), CaptureAction::Skip);
    assert_eq!(state.step(CaptureEvent::Chunk), CaptureAction::Analyze);
    assert_eq!(state.hop_counter, 4);
    assert_eq!(state.step(CaptureEvent::StopRequested), CaptureAction::Stop);
    assert_eq!(state.step(CaptureEvent::Disconnected), CaptureAction::Stop);
}

#[test]
fn transport_starts_each_side_once() {
    let mut transport = Transport::new();
    assert!(transport.begin_capture());
    assert!(!transport.begin_capture());
    assert!(transport.begin_playback());
    assert!(!transport.begin_playback());
    transport.end_capture();
    assert!(!transport.capturing);
    assert!(transport.playing);
    transport.end_playback();
    assert!(!transport.playing);
    assert!(transport.begin_capture());
}

#[test]
fn playback_announces_each_beat_once() {
    let mut ticker = PlaybackTicker::new();
    assert_eq!(ticker.tick(false, false, 0), PlaybackAction::Beat);
    assert_eq!(ticker.tick(false, false, 0), PlaybackAction::Wait);
    assert_eq!(ticker.tick(false, false, 1), PlaybackAction::Beat);
    assert_eq!(ticker.last_beat, 1);
    assert_eq!(ticker.tick(false, true, 2), PlaybackAction::Stop);
    assert_eq!(ticker.tick(true, false, 2), PlaybackAction::Stop);
    assert_eq!(ticker.last_beat, 1);
}
