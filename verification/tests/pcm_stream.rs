use libvoice::config::WindowOverrideError;
use libvoice::pcm::{
    bad_request, body_decoding, check_stream_request, decode_pcm_body, drain_pcm_frames,
    pcm_frame_bytes, require_body, unsupported_media, window_error_response, ApiStatus, BodyDecoding,
    PcmEncoding, PcmStream,
};

#[test]
fn frame_size_from_encoding_and_channels() {
    assert_eq!(pcm_frame_bytes(PcmEncoding::F32Le, 2).unwrap(), 8);
    assert_eq!(pcm_frame_bytes(PcmEncoding::S16Le, 1).unwrap(), 2);
    assert_eq!(
        pcm_frame_bytes(PcmEncoding::Auto, 1).unwrap_err(),
        "PCM decoding requires an explicit encoding"
    );
    assert_eq!(pcm_frame_bytes(PcmEncoding::S16Le, 0).unwrap_err(), "PCM frame size was zero");
    assert_eq!(
        pcm_frame_bytes(PcmEncoding::F32Le, usize::MAX).unwrap_err(),
        "PCM channel count was too large"
    );
}

#[test]
fn drain_takes_whole_frames_only() {
    let mut pending = vec![1u8, 2, 3, 4, 5];
    let frames = drain_pcm_frames(&mut pending, PcmEncoding::S16Le, 1).unwrap();
    assert_eq!(frames, vec![1, 2, 3, 4]);
    assert_eq!(pending, vec![5]);

    let mut pending = vec![1u8, 2, 3];
    assert!(drain_pcm_frames(&mut pending, PcmEncoding::Auto, 1).is_err());
    assert_eq!(pending, vec![1, 2, 3]);
}

#[test]
fn streamed_pieces_give_same_bytes_as_one_drain() {
    let all: Vec<u8> = (0u8..23).collect();
    let mut stream = PcmStream::open(PcmEncoding::F32Le, 1).unwrap();
    let mut streamed = Vec::new();
    for piece in [&all[0..3], &all[3..9], &all[9..10], &all[10..23]] {
        streamed.extend(stream.push(piece));
    }
    let mut pending = all.clone();
    let once = drain_pcm_frames(&mut pending, PcmEncoding::F32Le, 1).unwrap();
    assert_eq!(streamed, once);
    assert_eq!(stream.frames_received(), 5);
    assert_eq!(
        stream.finish().unwrap_err(),
        "request body ended with a partial PCM sample"
    );
}

#[test]
fn stream_ending_on_frame_boundary_finishes() {
    let mut stream = PcmStream::open(PcmEncoding::S16Le, 2).unwrap();
    assert_eq!(stream.push(&[1, 2, 3]), Vec::<u8>::new());
    assert_eq!(stream.push(&[4, 5, 6, 7, 8]), vec![1, 2, 3, 4, 5, 6, 7, 8]);
    assert!(stream.finish().is_ok());
    assert_eq!(stream.channels(), 2);
    assert_eq!(stream.encoding(), PcmEncoding::S16Le);
}

#[test]
fn stream_requests_are_checked_in_order() {
    let e = check_stream_request(None, Some(16_000), None).unwrap_err();
    assert_eq!(e.message, "streaming requires `pcm_encoding=f32_le` or `pcm_encoding=s16_le`");
    assert_eq!(e.status_code(), 400);
    let e = check_stream_request(Some(PcmEncoding::F32Le), None, None).unwrap_err();
    assert_eq!(e.message, "streaming requires `sample_rate`");
    let e = check_stream_request(Some(PcmEncoding::F32Le), Some(0), None).unwrap_err();
    assert_eq!(e.message, "`sample_rate` must be greater than 0");
    let e = check_stream_request(Some(PcmEncoding::S16Le), Some(8000), Some(0)).unwrap_err();
    assert_eq!(e.message, "`channels` must be greater than 0");
    let ok = check_stream_request(Some(PcmEncoding::S16Le), Some(8000), None).unwrap();
    assert_eq!(ok.channels, 1);
    assert_eq!(ok.sample_rate, 8000);
}

#[test]
fn one_shot_body_is_probed_or_raw() {
    assert!(matches!(body_decoding(None, None, None).unwrap(), BodyDecoding::Probe));
    let e = body_decoding(Some(PcmEncoding::S16Le), None, None).unwrap_err();
    assert_eq!(e.message, "PCM input requires `sample_rate`");
    match body_decoding(Some(PcmEncoding::F32Le), Some(22_050), Some(2)).unwrap() {
        BodyDecoding::Raw { encoding, sample_rate, channels } => {
            assert_eq!(encoding, PcmEncoding::F32Le);
            assert_eq!(sample_rate, 22_050);
            assert_eq!(channels, 2);
        }
        BodyDecoding::Probe => panic!("expected raw PCM"),
    }
}

#[test]
fn raw_body_must_hold_whole_frames() {
    let (frames, backend) = decode_pcm_body(&[1, 2, 3, 4], PcmEncoding::S16Le, 8000, 2).unwrap();
    assert_eq!(frames, vec![1, 2, 3, 4]);
    assert_eq!(backend, "pcm_s16le");
    let e = decode_pcm_body(&[1, 2, 3], PcmEncoding::S16Le, 8000, 1).unwrap_err();
    assert_eq!(e.message, "request body ended with a partial PCM sample");
    let e = decode_pcm_body(&[1, 2], PcmEncoding::S16Le, 0, 1).unwrap_err();
    assert_eq!(e.message, "`sample_rate` must be greater than 0");
    let e = decode_pcm_body(&[1, 2], PcmEncoding::S16Le, 8000, 0).unwrap_err();
    assert_eq!(e.message, "`channels` must be greater than 0");
}

#[test]
fn api_errors_carry_status() {
    let e = bad_request("nope");
    assert_eq!(e.status, ApiStatus::BadRequest);
    assert_eq!(e.status_code(), 400);
    let e = unsupported_media("no track");
    assert_eq!(e.status_code(), 415);
    assert_eq!(e.message, "no track");
    assert_eq!(
        window_error_response(WindowOverrideError::FrameTooSmall).message,
        "`frame_size` must be at least 8"
    );
    assert_eq!(
        window_error_response(WindowOverrideError::HopExceedsFrame).message,
        "`hop_size` must be less than or equal to `frame_size`"
    );
}

#[test]
fn one_shot_requests_need_a_body() {
    let e = require_body(0).unwrap_err();
    assert_eq!(e.message, "request body was empty");
    assert_eq!(e.status_code(), 400);
    assert!(require_body(1).is_ok());
}
