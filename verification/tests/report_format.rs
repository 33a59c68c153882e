use libvoice::options::{parse_analyze_options, AnalyzeOptions};
use libvoice::report::{
    format_channels, format_details, format_report_label, format_report_text,
    format_sample_rate, format_time_millis, format_voiced_frames, report_sections, ReportSection,
};

#[test]
fn sample_rate_in_whole_kilohertz() {
    assert_eq!(format_sample_rate(48_000), "48 kHz");
    assert_eq!(format_sample_rate(16_000), "16 kHz");
    assert_eq!(format_sample_rate(44_100), "44100 Hz");
    assert_eq!(format_sample_rate(0), "0 kHz");
}

#[test]
fn voiced_frames_singular_and_plural() {
    assert_eq!(format_voiced_frames(1), "1 voiced frame");
    assert_eq!(format_voiced_frames(0), "0 voiced frames");
    assert_eq!(format_voiced_frames(42), "42 voiced frames");
}

#[test]
fn channel_counts_have_names() {
    assert_eq!(format_channels(1), "mono");
    assert_eq!(format_channels(2), "stereo");
    assert_eq!(format_channels(6), "6 channels");
}

#[test]
fn details_block_lines_up_names() {
    assert_eq!(
        format_details("1.50 s", 48_000, 2, 1, "symphonia"),
        "duration : 1.50 s\nrate     : 48 kHz\nchannels : stereo\nvoiced   : 1 voiced frame\ndecoder  : symphonia"
    );
}

#[test]
fn default_options_plan_core_and_spectral() {
    let options = AnalyzeOptions::default();
    assert_eq!(report_sections(&options), vec![ReportSection::Core, ReportSection::Spectral]);
}

#[test]
fn section_plan_follows_options() {
    let options = parse_analyze_options("/analyze -pitch -hnr -spectral").unwrap();
    assert!(report_sections(&options).is_empty());
    let options = parse_analyze_options("/analyze -pitch +energy +formants").unwrap();
    assert_eq!(
        report_sections(&options),
        vec![
            ReportSection::Core,
            ReportSection::Spectral,
            ReportSection::Energy,
            ReportSection::Formants
        ]
    );
}

const TIP: &str = "<i>Tip:</i> <code>+energy</code>, <code>+formants</code>, and <code>+graph</code> add more detail. Use <code>-feature</code> to hide a section.";

#[test]
fn report_without_sections_says_so() {
    let report = format_report_text("a<b", "x & y", &Vec::new());
    assert_eq!(
        report,
        format!(
            "<b>Voice Analysis</b>\na&lt;b\n<pre>x &amp; y</pre>\n\nNo sections are enabled for this report.\n\n{TIP}"
        )
    );
}

#[test]
fn report_prints_sections_in_order() {
    let sections = vec![
        (ReportSection::Core, "pitch <1>".to_string()),
        (ReportSection::Energy, "e".to_string()),
    ];
    let report = format_report_text("voice message", "d", &sections);
    assert_eq!(
        report,
        format!(
            "<b>Voice Analysis</b>\nvoice message\n<pre>d</pre>\n\n<b>Core</b>\n<pre>pitch &lt;1&gt;</pre>\n\n<b>Energy</b>\n<pre>e</pre>\n\n{TIP}"
        )
    );
}

#[test]
fn clip_times_are_minutes_seconds_and_millis() {
    assert_eq!(format_time_millis(20_000), "20s");
    assert_eq!(format_time_millis(100_000), "1m40s");
    assert_eq!(format_time_millis(61_005), "1m01.005s");
    assert_eq!(format_time_millis(5), "0.005s");
    assert_eq!(format_time_millis(0), "0s");
    assert_eq!(format_time_millis(3_723_500), "62m03.500s");
}

#[test]
fn report_label_shows_clip_bounds() {
    assert_eq!(
        format_report_label("voice message", Some((20_000, 100_000))),
        "voice message [20s .. 1m40s]"
    );
    assert_eq!(format_report_label("song.mp3", None), "song.mp3");
}
