use libvoice::config::{
    apply_window_overrides, check_hop_within_frame, default_window_sizes, validate_window,
    AnalysisOutputOptions, ConfigError, WindowOverrideError,
};
use libvoice::harmonic::HarmonicAnalyzer;

#[test]
fn rejects_configurations_that_could_hang_or_panic() {
    let (frame_size, hop_size) = default_window_sizes(16_000);
    assert!(validate_window(16_000, frame_size, 0).is_err());
    assert!(validate_window(16_000, 0, hop_size).is_err());
    assert!(validate_window(0, frame_size, hop_size).is_err());
}

#[test]
fn window_checks_name_the_problem() {
    assert_eq!(
        validate_window(0, 2048, 512).unwrap_err().message(),
        "sample_rate must be greater than zero"
    );
    assert_eq!(validate_window(16_000, 2, 1).unwrap_err().message(), "frame_size must be at least 3");
    assert_eq!(
        validate_window(16_000, 2048, 4096).unwrap_err().message(),
        "hop_size must be between 1 and frame_size"
    );
    assert!(validate_window(16_000, 2048, 2048).is_ok());
}

#[test]
fn default_windows_grow_with_sample_rate() {
    assert_eq!(default_window_sizes(16_000), (2048, 512));
    assert_eq!(default_window_sizes(24_000), (4096, 1024));
    assert_eq!(default_window_sizes(48_000), (6144, 1536));
    assert_eq!(default_window_sizes(44_100), (6144, 1536));
}

#[test]
fn overrides_are_checked_frame_first() {
    assert_eq!(apply_window_overrides(2048, 512, None, None), Ok((2048, 512)));
    assert_eq!(apply_window_overrides(2048, 512, Some(1024), Some(256)), Ok((1024, 256)));
    assert_eq!(
        apply_window_overrides(2048, 512, Some(4), Some(0)),
        Err(WindowOverrideError::FrameTooSmall)
    );
    assert_eq!(
        apply_window_overrides(2048, 512, Some(8), Some(0)),
        Err(WindowOverrideError::HopZero)
    );
    assert_eq!(check_hop_within_frame(8, 9), Err(WindowOverrideError::HopExceedsFrame));
    assert_eq!(check_hop_within_frame(8, 8), Ok(()));
}

#[test]
fn output_options_default_to_frames_without_spectrum() {
    let options = AnalysisOutputOptions::default();
    assert!(options.frame_analysis);
    assert!(!options.fft_spectrum);
}

#[test]
fn config_error_keeps_its_message() {
    assert_eq!(ConfigError::new("bad window").message(), "bad window");
    let _analyzer = HarmonicAnalyzer::new();
}
