use vstd::prelude::*;

use crate::text::{decimal, push_char, push_decimal};

verus! {

/// How the command-line analyzer prints its results.
#[derive(Debug, Clone, Copy, PartialEq, Eq, Structural)]
pub enum OutputFormat {
    Text,
    Json,
    FramesJson,
    VoicedIntervalsJson,
}

/// The command-line settings that decide what a run does, apart from the
/// analyzer's own numeric settings.
#[derive(Debug, Clone, Copy)]
pub struct RunOptions {
    pub format: OutputFormat,
    /// Worker threads asked for, if any.
    pub threads: Option<usize>,
    /// First frame to print; `0` means from the start.
    pub frame_from: Option<usize>,
    /// Last frame to print; `0` means to the end.
    pub frame_to: Option<usize>,
    /// Whether a directory for graphs was given.
    pub graph_dir_set: bool,
    /// Whether the spectrum graphs were asked for.
    pub spectrum_graphs: bool,
}

/// What checking the settings gives: nothing, or the message to exit with.
pub open spec fn validation_outcome(o: RunOptions) -> Option<Seq<char>> {
    if o.frame_from matches Some(from) && o.frame_to matches Some(to) && from != 0 && to != 0
        && from > to {
        Some("--frame-from must be less than or equal to --frame-to"@)
    } else if o.spectrum_graphs && !o.graph_dir_set {
        Some("--spectrum-graphs requires --graph-dir"@)
    } else {
        None
    }
}

/// Checks the settings that cannot hold together.
pub fn validate_args(options: &RunOptions) -> (r: Result<(), String>)
    ensures
        r is Ok <==> validation_outcome(*options) is None,
        r matches Err(message) ==> validation_outcome(*options) == Some(message@),
{
    if let (Some(frame_from), Some(frame_to)) = (options.frame_from, options.frame_to) {
        if frame_from != 0 && frame_to != 0 && frame_from > frame_to {
            return Err(String::from_str("--frame-from must be less than or equal to --frame-to"));
        }
    }
    if options.spectrum_graphs && !options.graph_dir_set {
        return Err(String::from_str("--spectrum-graphs requires --graph-dir"));
    }
    Ok(())
}

/// The size of the worker pool: the requested count, or none to leave the
/// choice to the pool; a request for zero threads is refused.
pub fn thread_count(threads: Option<usize>) -> (r: Result<Option<usize>, String>)
    ensures
        threads == Some(0usize) ==> (r matches Err(message) && message@
            == "--threads must be greater than 0"@),
        threads != Some(0usize) ==> r == Ok::<Option<usize>, String>(threads),
{
    match threads {
        Some(0) => Err(String::from_str("--threads must be greater than 0")),
        other => Ok(other),
    }
}

/// Whether the run needs a record of every voiced frame: for graphs, for
/// every JSON output, and for text output with a frame range.
pub open spec fn needs_frame_analysis(o: RunOptions) -> bool {
    o.graph_dir_set || match o.format {
        OutputFormat::Text => o.frame_from is Some || o.frame_to is Some,
        _ => true,
    }
}

/// Whether the run needs a record of every voiced frame.
pub fn requires_frame_analysis(options: &RunOptions) -> (b: bool)
    ensures
        b == needs_frame_analysis(*options),
{
    if options.graph_dir_set {
        return true;
    }
    match options.format {
        OutputFormat::Text => options.frame_from.is_some() || options.frame_to.is_some(),
        OutputFormat::Json | OutputFormat::FramesJson | OutputFormat::VoicedIntervalsJson => true,
    }
}

/// The first frame index of a range bound; absent or zero means the start.
pub open spec fn range_start(from: Option<usize>) -> usize {
    match from {
        Some(v) => v,
        None => 0,
    }
}

/// The last frame index of a range bound; absent or zero means no limit.
pub open spec fn range_end(to: Option<usize>) -> usize {
    match to {
        Some(v) => if v == 0 {
            usize::MAX
        } else {
            v
        },
        None => usize::MAX,
    }
}

/// The inclusive range of frame indices that the bounds select.
pub fn resolved_frame_range(frame_from: Option<usize>, frame_to: Option<usize>) -> (r: (usize, usize))
    ensures
        r == (range_start(frame_from), range_end(frame_to)),
{
    let start = match frame_from {
        Some(value) => value,
        None => 0,
    };
    let end = match frame_to {
        Some(0) | None => usize::MAX,
        Some(value) => value,
    };
    (start, end)
}

/// The positions, in order, of the frames whose index lies in the range.
pub open spec fn selected_positions(indices: Seq<usize>, start: usize, end: usize) -> Seq<usize>
    decreases indices.len(),
{
    if indices.len() == 0 {
        Seq::empty()
    } else {
        let rest = selected_positions(indices.drop_last(), start, end);
        let last = indices.last();
        if start <= last && last <= end {
            rest.push((indices.len() - 1) as usize)
        } else {
            rest
        }
    }
}

/// Picks, in order, the positions of the frames whose index lies in the
/// range that the bounds select.
pub fn select_frames(
    frame_indices: &[usize],
    frame_from: Option<usize>,
    frame_to: Option<usize>,
) -> (positions: Vec<usize>)
    ensures
        positions@ == selected_positions(
            frame_indices@,
            range_start(frame_from),
            range_end(frame_to),
        ),
{
    let (start, end) = resolved_frame_range(frame_from, frame_to);
    let mut positions: Vec<usize> = Vec::new();
    let mut i: usize = 0;
    while i < frame_indices.len()
        invariant
            i <= frame_indices@.len(),
            start == range_start(frame_from),
            end == range_end(frame_to),
            positions@ == selected_positions(frame_indices@.take(i as int), start, end),
        decreases frame_indices@.len() - i,
    {
        proof {
            let t = frame_indices@.take(i + 1);
            assert(t.drop_last() =~= frame_indices@.take(i as int));
            assert(t.last() == frame_indices@[i as int]);
        }
        if frame_indices[i] >= start && frame_indices[i] <= end {
            positions.push(i);
        }
        i += 1;
    }
    assert(frame_indices@.take(frame_indices@.len() as int) =~= frame_indices@);
    positions
}

/// How a range bound is printed: the word for an open end, else the number.
pub open spec fn bound_text(bound: Option<usize>, open_word: Seq<char>) -> Seq<char> {
    match bound {
        Some(v) => if v == 0 {
            open_word
        } else {
            decimal(v as nat)
        },
        None => open_word,
    }
}

/// The lower bound of a frame range as printed.
pub fn start_display(start: Option<usize>) -> (s: String)
    ensures
        s@ == bound_text(start, "start"@),
{
    match start {
        Some(v) => {
            if v == 0 {
                String::from_str("start")
            } else {
                let mut out = String::new();
                push_decimal(&mut out, v as u64);
                out
            }
        },
        None => String::from_str("start"),
    }
}

/// The upper bound of a frame range as printed.
pub fn end_display(end: Option<usize>) -> (s: String)
    ensures
        s@ == bound_text(end, "end"@),
{
    match end {
        Some(v) => {
            if v == 0 {
                String::from_str("end")
            } else {
                let mut out = String::new();
                push_decimal(&mut out, v as u64);
                out
            }
        },
        None => String::from_str("end"),
    }
}

/// The line that introduces the printed frames.
pub fn frame_range_line(frame_from: Option<usize>, frame_to: Option<usize>) -> (s: String)
    ensures
        s@ == "Frame range: "@ + bound_text(frame_from, "start"@) + "..="@ + bound_text(
            frame_to,
            "end"@,
        ) + "\n"@,
{
    let mut out = String::from_str("Frame range: ");
    let a = start_display(frame_from);
    out.append(a.as_str());
    out.append("..=");
    let b = end_display(frame_to);
    out.append(b.as_str());
    out.append("\n");
    out
}

/// Whether a character may stand in a directory name as it is.
pub open spec fn keeps_in_dir_name(c: char) -> bool {
    ('0' <= c && c <= '9') || ('a' <= c && c <= 'z') || ('A' <= c && c <= 'Z') || c == '.' || c
        == '-' || c == '_'
}

/// A character of a directory name: itself when it may stay, else `_`.
pub open spec fn dir_name_char(c: char) -> char {
    if keeps_in_dir_name(c) {
        c
    } else {
        '_'
    }
}

/// The directory name for an input's graphs: its path with every other
/// character turned into `_`, or `input` for an empty path.
pub open spec fn dir_name_for(path: Seq<char>) -> Seq<char> {
    if path.len() == 0 {
        "input"@
    } else {
        path.map_values(|c: char| dir_name_char(c))
    }
}

/// Names the directory that the graphs of one input are written to.
pub fn graph_output_dir_name(path_text: &str) -> (name: String)
    ensures
        name@ == dir_name_for(path_text@),
{
    let chars = crate::text::chars_of(path_text);
    if chars.len() == 0 {
        return String::from_str("input");
    }
    let mut out = String::new();
    let mut i: usize = 0;
    while i < chars.len()
        invariant
            i <= chars@.len(),
            chars@ == path_text@,
            out@ == chars@.take(i as int).map_values(|c: char| dir_name_char(c)),
        decreases chars@.len() - i,
    {
        let ch = chars[i];
        let keep = ('0' <= ch && ch <= '9') || ('a' <= ch && ch <= 'z') || ('A' <= ch && ch <= 'Z')
            || ch == '.' || ch == '-' || ch == '_';
        if keep {
            push_char(&mut out, ch);
        } else {
            push_char(&mut out, '_');
        }
        assert(out@ =~= chars@.take(i + 1).map_values(|c: char| dir_name_char(c)));
        i += 1;
    }
    assert(chars@.take(chars@.len() as int) =~= chars@);
    out
}

} // verus!
