use moviola::tools::trim_silence::{
    default_output_path, silence_marker_pairs, silencedetect_args, usage, value_after_marker,
    SilencePair,
};
use moviola::Error;

fn pair(start: &str, end: &str) -> SilencePair {
    SilencePair { start: start.to_string(), end: end.to_string() }
}

/// Reads the pairs as numbers, keeping those whose end is after their start.
fn ranges(output: &str) -> Vec<(f64, f64)> {
    silence_marker_pairs(output)
        .into_iter()
        .filter_map(|p| match (p.start.parse::<f64>(), p.end.parse::<f64>()) {
            (Ok(start), Ok(end)) if end > start => Some((start, end)),
            _ => None,
        })
        .collect()
}

#[test]
fn parses_silencedetect_ranges() {
    let output = "[silencedetect @ 0x] silence_start: 1.25\n[silencedetect @ 0x] silence_end: 2.5 | silence_duration: 1.25";
    assert_eq!(ranges(output), vec![(1.25, 2.5)]);
}

#[test]
fn value_after_marker_takes_the_next_word() {
    assert_eq!(value_after_marker("x silence_end: 2.5 | d: 1", "silence_end:"), Some("2.5"));
    assert_eq!(value_after_marker("silence_start:\t 7", "silence_start:"), Some("7"));
    assert_eq!(value_after_marker("silence_start:   ", "silence_start:"), None);
    assert_eq!(value_after_marker("no marker here", "silence_start:"), None);
    assert_eq!(value_after_marker("a: 1 a: 2", "a:"), Some("1"));
}

#[test]
fn value_after_marker_on_an_empty_line() {
    assert_eq!(value_after_marker("", "silence_end:"), None);
    assert_eq!(value_after_marker("ab", "abc"), None);
}

#[test]
fn pairs_keep_order_and_raw_values() {
    let output = "silence_start: 1\nsilence_end: 2\nother line\nsilence_start: 5\nsilence_end: 4\n";
    assert_eq!(silence_marker_pairs(output), vec![pair("1", "2"), pair("5", "4")]);
    assert_eq!(ranges(output), vec![(1.0, 2.0)]);
}

#[test]
fn an_end_without_a_start_is_dropped() {
    let output = "silence_end: 2\nsilence_start: 3\nsilence_end: 4\nsilence_end: 5";
    assert_eq!(silence_marker_pairs(output), vec![pair("3", "4")]);
}

#[test]
fn a_later_start_replaces_an_open_one() {
    let output = "silence_start: 1\nsilence_start: 3\nsilence_end: 4";
    assert_eq!(silence_marker_pairs(output), vec![pair("3", "4")]);
}

#[test]
fn a_start_never_closed_is_dropped() {
    assert_eq!(silence_marker_pairs("silence_start: 1\n"), vec![]);
    assert_eq!(silence_marker_pairs(""), vec![]);
}

#[test]
fn crlf_lines_are_read() {
    let output = "silence_start: 0.5\r\nsilence_end: 1.5\r\n";
    assert_eq!(silence_marker_pairs(output), vec![pair("0.5", "1.5")]);
}

#[test]
fn a_start_marker_wins_on_a_line_with_both() {
    let output = "silence_start: 1\nsilence_end: 2 silence_start: 3\nsilence_end: 4";
    assert_eq!(silence_marker_pairs(output), vec![pair("3", "4")]);
}

#[test]
fn an_unreadable_start_value_still_closes_the_pair() {
    let output = "silence_start: abc\nsilence_end: 2\nsilence_end: 3";
    assert_eq!(silence_marker_pairs(output), vec![pair("abc", "2")]);
    assert_eq!(ranges(output), vec![]);
}

#[test]
fn default_output_path_is_next_to_the_input() {
    assert_eq!(default_output_path("/videos/talk.mov"), "/videos/talk_silence_trimmed.mp4");
    assert_eq!(default_output_path("clip.mp4"), "clip_silence_trimmed.mp4");
    assert_eq!(default_output_path("/"), "output_silence_trimmed.mp4");
}

#[test]
fn usage_reports_the_missing_input() {
    let e = usage();
    assert_eq!(e, Error::MissingInput);
    assert_eq!(
        e.message(),
        "Missing required INPUT. Usage: make trim-silence INPUT=/path/to/video.mp4 [OUTPUT=/path/out.mp4] [SILENCE_THRESHOLD=-20] [MIN_SILENCE_MS=250]"
    );
}

#[test]
fn silencedetect_arguments() {
    assert_eq!(
        silencedetect_args("in.mp4", "-20", "0.25"),
        vec!["-hide_banner", "-nostats", "-i", "in.mp4", "-af", "silencedetect=noise=-20dB:d=0.25", "-f", "null", "-"]
    );
}
