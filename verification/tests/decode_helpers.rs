use libvoice::decode::{
    clip_samples, f32_sample_count, parse_probed_sample_rate, parse_u32, trim_chars,
    trimmed_detail, IntErrorKind,
};

fn chars(s: &str) -> Vec<char> {
    s.chars().collect()
}

#[test]
fn parses_unsigned_integers_like_std() {
    for text in ["0", "42", "+7", "4294967295", "007"] {
        assert_eq!(parse_u32(&chars(text)).ok(), text.parse::<u32>().ok());
    }
    assert_eq!(parse_u32(&chars("")), Err(IntErrorKind::Empty));
    assert_eq!(parse_u32(&chars("+")), Err(IntErrorKind::InvalidDigit));
    assert_eq!(parse_u32(&chars("-")), Err(IntErrorKind::InvalidDigit));
    assert_eq!(parse_u32(&chars("-1")), Err(IntErrorKind::InvalidDigit));
    assert_eq!(parse_u32(&chars("12a")), Err(IntErrorKind::InvalidDigit));
    assert_eq!(parse_u32(&chars("4294967296")), Err(IntErrorKind::PosOverflow));
    assert_eq!(parse_u32(&chars("99999999999x")), Err(IntErrorKind::PosOverflow));
}

#[test]
fn probed_rate_is_trimmed_and_positive() {
    assert_eq!(parse_probed_sample_rate("48000\n").unwrap(), 48_000);
    assert_eq!(parse_probed_sample_rate("  44100  ").unwrap(), 44_100);
    assert_eq!(
        parse_probed_sample_rate("0").unwrap_err(),
        "ffprobe reported a zero sample rate"
    );
    assert_eq!(
        parse_probed_sample_rate("N/A").unwrap_err(),
        format!("failed to parse ffprobe sample rate: {}", "N/A".parse::<u32>().unwrap_err())
    );
    assert_eq!(
        parse_probed_sample_rate("\n").unwrap_err(),
        format!("failed to parse ffprobe sample rate: {}", "".parse::<u32>().unwrap_err())
    );
    assert_eq!(
        parse_probed_sample_rate("99999999999").unwrap_err(),
        format!(
            "failed to parse ffprobe sample rate: {}",
            "99999999999".parse::<u32>().unwrap_err()
        )
    );
}

#[test]
fn trimming_matches_str_trim() {
    for text in ["", "  ", " a b ", "\u{3000}x\t\n", "x"] {
        let trimmed: String = trim_chars(text).into_iter().collect();
        assert_eq!(trimmed, text.trim());
        assert_eq!(trimmed_detail(text), text.trim());
    }
}

#[test]
fn clips_need_a_range_inside_the_samples() {
    let samples = [0.0f32, 1.0, 2.0, 3.0];
    assert_eq!(clip_samples(&samples, 1, 3).unwrap(), vec![1.0, 2.0]);
    assert_eq!(clip_samples(&samples, 2, 2).unwrap_err(), "invalid audio clip range");
    assert_eq!(clip_samples(&samples, 3, 5).unwrap_err(), "invalid audio clip range");
}

#[test]
fn decoder_output_must_hold_whole_floats() {
    assert_eq!(f32_sample_count(16).unwrap(), 4);
    assert_eq!(
        f32_sample_count(10).unwrap_err(),
        "ffmpeg output length was not aligned to f32 samples"
    );
}

use libvoice::decode::{after_packet_decode, after_packet_read, DecodeStep, PacketDecode, PacketRead};

fn failure(step: DecodeStep) -> String {
    match step {
        DecodeStep::Fail(message) => message,
        _ => panic!("expected a failure"),
    }
}

#[test]
fn packet_reads_decide_the_loop() {
    assert!(matches!(after_packet_read(PacketRead::Packet { track_id: 3 }, 3), DecodeStep::Take));
    assert!(matches!(after_packet_read(PacketRead::Packet { track_id: 4 }, 3), DecodeStep::Skip));
    assert!(matches!(after_packet_read(PacketRead::EndOfStream, 3), DecodeStep::Finish));
    assert_eq!(
        failure(after_packet_read(PacketRead::ResetRequired, 3)),
        "decoder reset required; chained streams are not supported"
    );
    assert_eq!(
        failure(after_packet_read(PacketRead::Failed("bad box".to_string()), 3)),
        "failed while reading packets: bad box"
    );
}

#[test]
fn packet_decodes_decide_the_loop() {
    assert!(matches!(after_packet_decode(PacketDecode::Decoded), DecodeStep::Take));
    assert!(matches!(after_packet_decode(PacketDecode::Corrupt), DecodeStep::Skip));
    assert!(matches!(after_packet_decode(PacketDecode::EndOfStream), DecodeStep::Finish));
    assert_eq!(
        failure(after_packet_decode(PacketDecode::Failed("unsupported".to_string()))),
        "decode failed: unsupported"
    );
}
