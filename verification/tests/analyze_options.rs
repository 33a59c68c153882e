use libvoice::options::{
    analyze_usage_hint, parse_analyze_options, ClipEnd, TimeUnit, TimeValue,
};

fn seconds(value: &TimeValue) -> f32 {
    value
        .terms
        .iter()
        .map(|term| {
            let number: f32 = term.number.parse().unwrap();
            match term.unit {
                TimeUnit::Hours => number * 3600.0,
                TimeUnit::Minutes => number * 60.0,
                TimeUnit::Seconds => number,
                TimeUnit::Milliseconds => number / 1000.0,
            }
        })
        .sum()
}

#[test]
fn parses_from_to_clip() {
    let options =
        parse_analyze_options("/analyze +graph +spectrum +from 20s +to 1m40s").unwrap();
    let clip = options.clip.unwrap();
    assert_eq!(seconds(&clip.from), 20.0);
    match clip.to {
        ClipEnd::To(value) => assert_eq!(seconds(&value), 100.0),
        ClipEnd::Duration(_) => panic!("expected an end time"),
    }
    assert!(options.graph);
    assert!(options.spectrum);
}

#[test]
fn parses_from_duration_clip() {
    let options = parse_analyze_options("/analyze +from 20s +dur 20s").unwrap();
    let clip = options.clip.unwrap();
    assert_eq!(seconds(&clip.from), 20.0);
    match clip.to {
        ClipEnd::Duration(value) => assert_eq!(seconds(&value), 20.0),
        ClipEnd::To(_) => panic!("expected a duration"),
    }
}

#[test]
fn rejects_to_without_from() {
    let error = parse_analyze_options("/analyze +to 10s").unwrap_err();
    assert!(error.contains("requires `+from`"));
}

#[test]
fn rejects_from_without_end() {
    let error = parse_analyze_options("/analyze +from 10s").unwrap_err();
    assert!(error.contains("requires either `+to` or `+dur`"));
}

#[test]
fn default_sections_without_arguments() {
    let options = parse_analyze_options("/analyze").unwrap();
    assert!(options.pitch && options.hnr && options.spectral);
    assert!(!options.spectrum && !options.energy && !options.formants && !options.graph);
    assert!(options.clip.is_none());
}

#[test]
fn plus_and_minus_toggle_sections() {
    let options = parse_analyze_options("/analyze -pitch +energy +formants -spectral").unwrap();
    assert!(!options.pitch);
    assert!(options.hnr);
    assert!(!options.spectral);
    assert!(options.energy);
    assert!(options.formants);
}

#[test]
fn unknown_option_is_refused() {
    let error = parse_analyze_options("/analyze +loud").unwrap_err();
    assert!(error.starts_with("Unknown feature `+loud`."));
}

#[test]
fn words_without_sign_are_ignored() {
    let options = parse_analyze_options("/analyze graph please").unwrap();
    assert!(!options.graph);
}

#[test]
fn clip_errors_name_the_problem() {
    assert_eq!(
        parse_analyze_options("/analyze -from 1s").unwrap_err(),
        "`+from` expects a time value; `-from` is not supported."
    );
    assert_eq!(
        parse_analyze_options("/analyze +dur").unwrap_err(),
        "`+dur` requires a value like `20s`."
    );
    assert_eq!(
        parse_analyze_options("/analyze +from 1s +to 3s +dur 2s").unwrap_err(),
        "Use either `+to` or `+dur`, not both."
    );
    assert_eq!(
        parse_analyze_options("/analyze +dur 2s").unwrap_err(),
        "`+dur` requires `+from`."
    );
    assert_eq!(
        parse_analyze_options("/analyze +from 0s +dur 2s").unwrap_err(),
        "Time value for `+from` must be greater than zero."
    );
    assert_eq!(
        parse_analyze_options("/analyze +from 2x +dur 2s").unwrap_err(),
        "Invalid time value for `+from`: `2x`."
    );
}

#[test]
fn all_switches_every_section() {
    let options = parse_analyze_options("/analyze -all +pitch").unwrap();
    assert!(options.pitch);
    assert!(!options.hnr && !options.spectral && !options.spectrum);
    assert!(!options.energy && !options.formants && !options.graph);
}

#[test]
fn compound_time_values_add_up() {
    let options = parse_analyze_options("/analyze +from 1h2m3s500ms +dur 0.5s").unwrap();
    let clip = options.clip.unwrap();
    assert_eq!(seconds(&clip.from), 3723.5);
}

#[test]
fn usage_hint_mentions_analyze() {
    assert!(analyze_usage_hint().contains("/analyze"));
}

#[test]
fn last_switch_of_a_section_wins() {
    assert!(!parse_analyze_options("/analyze +energy -energy").unwrap().energy);
    assert!(parse_analyze_options("/analyze -pitch +from 1s +dur 2s +pitch").unwrap().pitch);
    let options = parse_analyze_options("/analyze +graph -all").unwrap();
    assert!(!options.graph && !options.pitch && !options.hnr);
}
