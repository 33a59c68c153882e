use libvoice::cli::{
    end_display, frame_range_line, graph_output_dir_name, requires_frame_analysis,
    resolved_frame_range, select_frames, start_display, thread_count, validate_args,
    OutputFormat, RunOptions,
};

fn run(format: OutputFormat) -> RunOptions {
    RunOptions {
        format,
        threads: None,
        frame_from: None,
        frame_to: None,
        graph_dir_set: false,
        spectrum_graphs: false,
    }
}

#[test]
fn frame_range_must_not_be_reversed() {
    let mut options = run(OutputFormat::Text);
    options.frame_from = Some(5);
    options.frame_to = Some(3);
    assert_eq!(
        validate_args(&options).unwrap_err(),
        "--frame-from must be less than or equal to --frame-to"
    );
    options.frame_to = Some(0);
    assert!(validate_args(&options).is_ok());
    options.frame_to = Some(5);
    assert!(validate_args(&options).is_ok());
}

#[test]
fn spectrum_graphs_need_a_graph_directory() {
    let mut options = run(OutputFormat::Text);
    options.spectrum_graphs = true;
    assert_eq!(
        validate_args(&options).unwrap_err(),
        "--spectrum-graphs requires --graph-dir"
    );
    options.graph_dir_set = true;
    assert!(validate_args(&options).is_ok());
}

#[test]
fn zero_threads_are_refused() {
    assert_eq!(thread_count(Some(0)).unwrap_err(), "--threads must be greater than 0");
    assert_eq!(thread_count(Some(4)).unwrap(), Some(4));
    assert_eq!(thread_count(None).unwrap(), None);
}

#[test]
fn frame_records_are_kept_when_needed() {
    assert!(!requires_frame_analysis(&run(OutputFormat::Text)));
    assert!(requires_frame_analysis(&run(OutputFormat::Json)));
    assert!(requires_frame_analysis(&run(OutputFormat::FramesJson)));
    assert!(requires_frame_analysis(&run(OutputFormat::VoicedIntervalsJson)));
    let mut options = run(OutputFormat::Text);
    options.frame_to = Some(0);
    assert!(requires_frame_analysis(&options));
    let mut options = run(OutputFormat::Text);
    options.graph_dir_set = true;
    assert!(requires_frame_analysis(&options));
}

#[test]
fn zero_bounds_mean_open_ends() {
    assert_eq!(resolved_frame_range(None, None), (0, usize::MAX));
    assert_eq!(resolved_frame_range(Some(0), Some(0)), (0, usize::MAX));
    assert_eq!(resolved_frame_range(Some(3), Some(9)), (3, 9));
}

#[test]
fn frames_are_selected_by_index() {
    let indices = [0usize, 1, 4, 7, 9];
    assert_eq!(select_frames(&indices, Some(1), Some(7)), vec![1, 2, 3]);
    assert_eq!(select_frames(&indices, None, None), vec![0, 1, 2, 3, 4]);
    assert_eq!(select_frames(&indices, Some(10), None), Vec::<usize>::new());
}

#[test]
fn range_bounds_print_as_words_or_numbers() {
    assert_eq!(start_display(None), "start");
    assert_eq!(start_display(Some(0)), "start");
    assert_eq!(start_display(Some(12)), "12");
    assert_eq!(end_display(Some(0)), "end");
    assert_eq!(end_display(Some(7)), "7");
    assert_eq!(frame_range_line(Some(2), None), "Frame range: 2..=end\n");
}

#[test]
fn graph_directory_names_are_sanitised() {
    assert_eq!(graph_output_dir_name("dir/My Song.wav"), "dir_My_Song.wav");
    assert_eq!(graph_output_dir_name("a-b_c.9"), "a-b_c.9");
    assert_eq!(graph_output_dir_name("été"), "_t_");
    assert_eq!(graph_output_dir_name(""), "input");
}
