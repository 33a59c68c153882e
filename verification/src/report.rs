use vstd::prelude::*;

use crate::options::AnalyzeOptions;
use crate::text::{decimal, digit, digit_char, escape_html, escaped_html, push_char, push_decimal};

verus! {

/// How a sample rate is shown: whole kilohertz as `N kHz`, else `N Hz`.
pub open spec fn sample_rate_text(rate: u32) -> Seq<char> {
    if rate % 1000 == 0 {
        decimal((rate / 1000) as nat) + " kHz"@
    } else {
        decimal(rate as nat) + " Hz"@
    }
}

/// How a count of voiced frames is shown, singular for one.
pub open spec fn voiced_frames_text(count: nat) -> Seq<char> {
    if count == 1 {
        "1 voiced frame"@
    } else {
        decimal(count) + " voiced frames"@
    }
}

/// How a channel count is shown: `mono`, `stereo`, else `N channels`.
pub open spec fn channels_text(count: nat) -> Seq<char> {
    if count == 1 {
        "mono"@
    } else if count == 2 {
        "stereo"@
    } else {
        decimal(count) + " channels"@
    }
}

/// Formats a sample rate for the report header.
pub fn format_sample_rate(sample_rate: u32) -> (s: String)
    ensures
        s@ == sample_rate_text(sample_rate),
{
    let mut out = String::new();
    if sample_rate % 1000 == 0 {
        push_decimal(&mut out, (sample_rate / 1000) as u64);
        out.append(" kHz");
    } else {
        push_decimal(&mut out, sample_rate as u64);
        out.append(" Hz");
    }
    out
}

/// Formats the number of voiced frames for the report header.
pub fn format_voiced_frames(frame_count: usize) -> (s: String)
    ensures
        s@ == voiced_frames_text(frame_count as nat),
{
    if frame_count == 1 {
        String::from_str("1 voiced frame")
    } else {
        let mut out = String::new();
        push_decimal(&mut out, frame_count as u64);
        out.append(" voiced frames");
        out
    }
}

/// Formats a channel count for the report header.
pub fn format_channels(channels: usize) -> (s: String)
    ensures
        s@ == channels_text(channels as nat),
{
    if channels == 1 {
        String::from_str("mono")
    } else if channels == 2 {
        String::from_str("stereo")
    } else {
        let mut out = String::new();
        push_decimal(&mut out, channels as u64);
        out.append(" channels");
        out
    }
}

/// The header block of a report, before HTML escaping: one aligned
/// `name : value` line per property of the decoded audio.
pub open spec fn details_text(
    duration: Seq<char>,
    sample_rate: u32,
    channels: nat,
    frame_count: nat,
    backend: Seq<char>,
) -> Seq<char> {
    "duration : "@ + duration + "\nrate     : "@ + sample_rate_text(sample_rate)
        + "\nchannels : "@ + channels_text(channels) + "\nvoiced   : "@ + voiced_frames_text(
        frame_count,
    ) + "\ndecoder  : "@ + backend
}

/// Builds the header block of a report from the already formatted
/// duration and the properties of the decoded audio.
pub fn format_details(
    duration: &str,
    sample_rate: u32,
    channels: usize,
    frame_count: usize,
    backend: &str,
) -> (s: String)
    ensures
        s@ == details_text(duration@, sample_rate, channels as nat, frame_count as nat, backend@),
{
    let mut out = String::from_str("duration : ");
    out.append(duration);
    out.append("\nrate     : ");
    let rate = format_sample_rate(sample_rate);
    out.append(rate.as_str());
    out.append("\nchannels : ");
    let ch = format_channels(channels);
    out.append(ch.as_str());
    out.append("\nvoiced   : ");
    let frames = format_voiced_frames(frame_count);
    out.append(frames.as_str());
    out.append("\ndecoder  : ");
    out.append(backend);
    out
}

/// A section of the chat report.
#[derive(Debug, Clone, Copy, PartialEq, Eq, Structural)]
pub enum ReportSection {
    Core,
    Spectral,
    Energy,
    Formants,
}

/// The title that a section is printed under.
pub open spec fn section_title(section: ReportSection) -> Seq<char> {
    match section {
        ReportSection::Core => "Core"@,
        ReportSection::Spectral => "Spectral"@,
        ReportSection::Energy => "Energy"@,
        ReportSection::Formants => "Formants"@,
    }
}

/// The sections that a report holds, in order: the core section when pitch
/// or HNR is on, then spectral, energy and formants as each is on.
pub open spec fn report_plan(
    pitch: bool,
    hnr: bool,
    spectral: bool,
    energy: bool,
    formants: bool,
) -> Seq<ReportSection> {
    (if pitch || hnr {
        seq![ReportSection::Core]
    } else {
        Seq::empty()
    }) + (if spectral {
        seq![ReportSection::Spectral]
    } else {
        Seq::empty()
    }) + (if energy {
        seq![ReportSection::Energy]
    } else {
        Seq::empty()
    }) + (if formants {
        seq![ReportSection::Formants]
    } else {
        Seq::empty()
    })
}

/// The sections that a report for these options holds, in print order.
pub fn report_sections(options: &AnalyzeOptions) -> (plan: Vec<ReportSection>)
    ensures
        plan@ == report_plan(
            options.pitch,
            options.hnr,
            options.spectral,
            options.energy,
            options.formants,
        ),
{
    let mut plan: Vec<ReportSection> = Vec::new();
    if options.pitch || options.hnr {
        plan.push(ReportSection::Core);
    }
    if options.spectral {
        plan.push(ReportSection::Spectral);
    }
    if options.energy {
        plan.push(ReportSection::Energy);
    }
    if options.formants {
        plan.push(ReportSection::Formants);
    }
    assert(plan@ =~= report_plan(
        options.pitch,
        options.hnr,
        options.spectral,
        options.energy,
        options.formants,
    ));
    plan
}

/// The closing tip of every report.
pub open spec fn report_tip() -> Seq<char> {
    "<i>Tip:</i> <code>+energy</code>, <code>+formants</code>, and <code>+graph</code> add more detail. Use <code>-feature</code> to hide a section."@
}

/// One printed section: a blank line, its bold title and its escaped body
/// as preformatted text.
pub open spec fn section_block(section: ReportSection, body: Seq<char>) -> Seq<char> {
    "\n<b>"@ + section_title(section) + "</b>\n<pre>"@ + escaped_html(body) + "</pre>\n"@
}

/// The printed sections, in the order given.
pub open spec fn section_blocks(sections: Seq<(ReportSection, Seq<char>)>) -> Seq<char>
    decreases sections.len(),
{
    if sections.len() == 0 {
        Seq::empty()
    } else {
        section_blocks(sections.drop_last()) + section_block(
            sections.last().0,
            sections.last().1,
        )
    }
}

/// The whole chat report: title, escaped label, escaped header block, the
/// sections (or a note that none is enabled) and the closing tip.
pub open spec fn report_text(
    label: Seq<char>,
    details: Seq<char>,
    sections: Seq<(ReportSection, Seq<char>)>,
) -> Seq<char> {
    "<b>Voice Analysis</b>\n"@ + escaped_html(label) + "\n<pre>"@ + escaped_html(details)
        + "</pre>\n"@ + section_blocks(sections) + (if sections.len() == 0 {
        "\nNo sections are enabled for this report.\n"@
    } else {
        Seq::empty()
    }) + "\n"@ + report_tip()
}

/// The views of section bodies.
pub open spec fn sections_view(v: Seq<(ReportSection, String)>) -> Seq<(ReportSection, Seq<char>)> {
    v.map_values(|p: (ReportSection, String)| (p.0, p.1@))
}

fn section_title_str(section: ReportSection) -> (t: &'static str)
    ensures
        t@ == section_title(section),
{
    match section {
        ReportSection::Core => "Core",
        ReportSection::Spectral => "Spectral",
        ReportSection::Energy => "Energy",
        ReportSection::Formants => "Formants",
    }
}

/// Assembles the chat report from the label, the header block and the
/// bodies of the sections, in the order given.
pub fn format_report_text(
    label: &str,
    details: &str,
    sections: &Vec<(ReportSection, String)>,
) -> (report: String)
    ensures
        report@ == report_text(label@, details@, sections_view(sections@)),
{
    let mut out = String::from_str("<b>Voice Analysis</b>\n");
    let esc_label = escape_html(label);
    out.append(esc_label.as_str());
    out.append("\n<pre>");
    let esc_details = escape_html(details);
    out.append(esc_details.as_str());
    out.append("</pre>\n");
    let ghost head = out@;
    let mut i: usize = 0;
    while i < sections.len()
        invariant
            i <= sections@.len(),
            out@ == head + section_blocks(sections_view(sections@).take(i as int)),
        decreases sections@.len() - i,
    {
        let ghost before = out@;
        let (section, body) = &sections[i];
        out.append("\n<b>");
        out.append(section_title_str(*section));
        out.append("</b>\n<pre>");
        let esc_body = escape_html(body.as_str());
        out.append(esc_body.as_str());
        out.append("</pre>\n");
        proof {
            let sv = sections_view(sections@);
            assert(sv.take(i + 1).drop_last() =~= sv.take(i as int));
            assert(sv.take(i + 1).last() == sv[i as int]);
            assert(sv[i as int] == (*section, body@));
            assert(out@ =~= before + section_block(*section, body@));
        }
        i += 1;
    }
    assert(sections_view(sections@).take(sections@.len() as int) =~= sections_view(sections@));
    if sections.len() == 0 {
        out.append("\nNo sections are enabled for this report.\n");
    }
    out.append("\n");
    out.append(
        "<i>Tip:</i> <code>+energy</code>, <code>+formants</code>, and <code>+graph</code> add more detail. Use <code>-feature</code> to hide a section.",
    );
    out
}

/// A value below one hundred as two digits.
pub open spec fn two_digits(n: nat) -> Seq<char> {
    seq![digit_char(n / 10), digit_char(n % 10)]
}

/// A value below one thousand as three digits.
pub open spec fn three_digits(n: nat) -> Seq<char> {
    seq![digit_char(n / 100), digit_char((n / 10) % 10), digit_char(n % 10)]
}

/// A time in whole milliseconds as printed in a clip label: `MmSSs` from a
/// minute on, else `Ss`, with `.mmm` before the `s` unless the
/// milliseconds are zero.
pub open spec fn time_text(total_millis: nat) -> Seq<char> {
    let total_seconds = total_millis / 1000;
    let minutes = total_seconds / 60;
    let secs = total_seconds % 60;
    let millis = total_millis % 1000;
    let tail = if millis == 0 {
        "s"@
    } else {
        "."@ + three_digits(millis) + "s"@
    };
    if minutes > 0 {
        decimal(minutes) + "m"@ + two_digits(secs) + tail
    } else {
        decimal(secs) + tail
    }
}

fn push_two_digits(out: &mut String, n: u64)
    requires
        n < 100,
    ensures
        final(out)@ == old(out)@ + two_digits(n as nat),
{
    push_char(out, digit(n / 10));
    push_char(out, digit(n % 10));
    assert(final(out)@ =~= old(out)@ + two_digits(n as nat));
}

fn push_three_digits(out: &mut String, n: u64)
    requires
        n < 1000,
    ensures
        final(out)@ == old(out)@ + three_digits(n as nat),
{
    push_char(out, digit(n / 100));
    push_char(out, digit((n / 10) % 10));
    push_char(out, digit(n % 10));
    assert(final(out)@ =~= old(out)@ + three_digits(n as nat));
}

/// Formats a time, given in whole milliseconds, for a clip label.
pub fn format_time_millis(total_millis: u64) -> (s: String)
    ensures
        s@ == time_text(total_millis as nat),
{
    let total_seconds = total_millis / 1000;
    let minutes = total_seconds / 60;
    let secs = total_seconds % 60;
    let millis = total_millis % 1000;
    let mut out = String::new();
    if minutes > 0 {
        push_decimal(&mut out, minutes);
        out.append("m");
        push_two_digits(&mut out, secs);
    } else {
        push_decimal(&mut out, secs);
    }
    if millis != 0 {
        out.append(".");
        push_three_digits(&mut out, millis);
    }
    out.append("s");
    proof {
        if millis != 0 {
            assert("."@ + three_digits(millis as nat) + "s"@ =~= ("."@ + three_digits(millis as nat))
                + "s"@);
        }
    }
    assert(out@ =~= time_text(total_millis as nat));
    out
}

/// The label of a report: the input's name, followed by the clip's bounds
/// in brackets when only a part of the audio was analyzed.
pub open spec fn report_label_text(label: Seq<char>, clip: Option<(u64, u64)>) -> Seq<char> {
    match clip {
        Some((from, to)) => label + " ["@ + time_text(from as nat) + " .. "@ + time_text(
            to as nat,
        ) + "]"@,
        None => label,
    }
}

/// Labels a report, with the clip's bounds given in whole milliseconds.
pub fn format_report_label(label: &str, clip_millis: Option<(u64, u64)>) -> (s: String)
    ensures
        s@ == report_label_text(label@, clip_millis),
{
    let mut out = String::from_str(label);
    match clip_millis {
        Some((from, to)) => {
            out.append(" [");
            let a = format_time_millis(from);
            out.append(a.as_str());
            out.append(" .. ");
            let b = format_time_millis(to);
            out.append(b.as_str());
            out.append("]");
        },
        None => {},
    }
    out
}

} // verus!
