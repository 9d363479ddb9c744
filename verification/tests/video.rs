use moviola::media::video::{
    default_mp4_output_path, default_video_encoder, duration_probe_args,
    is_quicktime_compatible_container, output_parent_to_create, render_time_ranges_args,
    supported_extension_names, time_range_filter, transcode_for_delivery_args, validate_video_path,
    EncoderSettings,
};
use moviola::Error;

fn settings(encoder: Option<&str>, bitrate: Option<&str>, macos: bool) -> EncoderSettings {
    EncoderSettings {
        video_encoder: encoder.map(String::from),
        video_bitrate: bitrate.map(String::from),
        target_is_macos: macos,
    }
}

#[test]
fn rejects_non_video_extensions() {
    let error = validate_video_path("notes.txt", false, false).unwrap_err().message();
    assert!(error.contains("Unsupported"));
}

#[test]
fn unsupported_extension_message_lists_the_supported_ones() {
    let error = validate_video_path("notes.txt", true, true).unwrap_err();
    assert_eq!(error, Error::UnsupportedExtension { extension: "txt".to_string() });
    assert_eq!(
        error.message(),
        "Unsupported file extension '.txt'. Supported video extensions: mp4, mov, m4v, mkv, webm, avi, mpeg, mpg"
    );
}

#[test]
fn a_path_without_extension_is_rejected() {
    let error = validate_video_path("/videos/clip", true, true).unwrap_err();
    assert_eq!(error, Error::MissingVideoExtension);
    assert_eq!(error.message(), "Input file must have a video extension");
}

#[test]
fn extension_case_does_not_matter() {
    assert_eq!(validate_video_path("/v/a.MP4", true, true), Ok(()));
    assert_eq!(validate_video_path("/v/a.WebM", true, true), Ok(()));
    assert_eq!(validate_video_path("/v/a.mpg", true, true), Ok(()));
}

#[test]
fn missing_and_non_file_inputs_are_rejected() {
    let error = validate_video_path("/v/a.mkv", false, false).unwrap_err();
    assert_eq!(error, Error::InputNotFound { path: "/v/a.mkv".to_string() });
    assert_eq!(error.message(), "Input file does not exist: /v/a.mkv");
    let error = validate_video_path("/v/a.mkv", true, false).unwrap_err();
    assert_eq!(error, Error::InputNotAFile { path: "/v/a.mkv".to_string() });
    assert_eq!(error.message(), "Input path is not a file: /v/a.mkv");
}

#[test]
fn supported_extensions_are_listed() {
    assert_eq!(supported_extension_names(), &["mp4", "mov", "m4v", "mkv", "webm", "avi", "mpeg", "mpg"]);
}

#[test]
fn quicktime_containers() {
    assert!(is_quicktime_compatible_container("out.mp4"));
    assert!(is_quicktime_compatible_container("/a/out.MOV"));
    assert!(is_quicktime_compatible_container("out.m4v"));
    assert!(!is_quicktime_compatible_container("out.mkv"));
    assert!(!is_quicktime_compatible_container("out"));
    // A QuickTime container is also an accepted input.
    assert_eq!(validate_video_path("/a/out.MOV", true, true), Ok(()));
}

#[test]
fn default_encoder_depends_on_the_target() {
    assert_eq!(default_video_encoder(true), "h264_videotoolbox");
    assert_eq!(default_video_encoder(false), "libx264");
}

const AUDIO_ARGS: [&str; 10] = [
    "-c:a", "aac", "-b:a", "192k", "-ar", "48000", "-movflags", "+faststart", "-video_track_timescale", "600",
];

fn expected(prefix: &[&str], codec: &[&str], output: &str) -> Vec<String> {
    let mut v: Vec<String> = prefix.iter().map(|s| s.to_string()).collect();
    v.extend(codec.iter().map(|s| s.to_string()));
    if !codec.is_empty() {
        v.extend(AUDIO_ARGS.iter().map(|s| s.to_string()));
    }
    v.push(output.to_string());
    v
}

const TRANSCODE_PREFIX: [&str; 10] =
    ["-y", "-hide_banner", "-nostats", "-i", "in.mkv", "-map", "0:v:0", "-map", "0:a:0?", "-shortest"];

#[test]
fn transcode_with_libx264_by_default_off_macos() {
    let libx264 = [
        "-c:v", "libx264", "-preset", "veryfast", "-crf", "23", "-pix_fmt", "yuv420p", "-profile:v", "high",
        "-level", "4.1",
    ];
    assert_eq!(
        transcode_for_delivery_args("in.mkv", "out.mp4", &settings(None, None, false)),
        expected(&TRANSCODE_PREFIX, &libx264, "out.mp4")
    );
    assert_eq!(
        transcode_for_delivery_args("in.mkv", "out.mp4", &settings(Some("other"), None, true)),
        expected(&TRANSCODE_PREFIX, &libx264, "out.mp4")
    );
}

#[test]
fn transcode_with_the_hardware_encoder() {
    let hw = |rate: &'static str| {
        vec!["-c:v", "h264_videotoolbox", "-b:v", rate, "-allow_sw", "1", "-pix_fmt", "yuv420p"]
    };
    assert_eq!(
        transcode_for_delivery_args("in.mkv", "out.mov", &settings(None, None, true)),
        expected(&TRANSCODE_PREFIX, &hw("6000k"), "out.mov")
    );
    assert_eq!(
        transcode_for_delivery_args("in.mkv", "out.mp4", &settings(Some("h264_videotoolbox"), Some("8M"), false)),
        expected(&TRANSCODE_PREFIX, &hw("8M"), "out.mp4")
    );
}

#[test]
fn no_encoding_arguments_for_other_containers() {
    assert_eq!(
        transcode_for_delivery_args("in.mkv", "out.mkv", &settings(None, None, true)),
        expected(&TRANSCODE_PREFIX, &[], "out.mkv")
    );
}

#[test]
fn filter_for_two_ranges() {
    let ranges = vec![
        ("0.000000".to_string(), "2.000000".to_string()),
        ("3.000000".to_string(), "7.000000".to_string()),
    ];
    assert_eq!(
        time_range_filter(&ranges),
        "[0:v]trim=start=0.000000:end=2.000000,setpts=PTS-STARTPTS[v0];\
[0:a]atrim=start=0.000000:end=2.000000,asetpts=PTS-STARTPTS[a0];\
[0:v]trim=start=3.000000:end=7.000000,setpts=PTS-STARTPTS[v1];\
[0:a]atrim=start=3.000000:end=7.000000,asetpts=PTS-STARTPTS[a1];\
[v0][a0][v1][a1]concat=n=2:v=1:a=1[outv][outa]"
    );
}

#[test]
fn filter_indices_past_nine() {
    let ranges: Vec<(String, String)> = (0..12).map(|i| (i.to_string(), (i + 1).to_string())).collect();
    let filter = time_range_filter(&ranges);
    assert!(filter.contains("[v10][a10][v11][a11]concat=n=12:v=1:a=1[outv][outa]"));
    assert!(filter.contains("[0:a]atrim=start=11:end=12,asetpts=PTS-STARTPTS[a11];"));
}

#[test]
fn filter_for_no_ranges() {
    assert_eq!(time_range_filter(&vec![]), "concat=n=0:v=1:a=1[outv][outa]");
}

#[test]
fn render_arguments() {
    let args = render_time_ranges_args("in.mp4", "out.webm", "F", &settings(None, None, false));
    assert_eq!(
        args,
        vec!["-y", "-hide_banner", "-nostats", "-i", "in.mp4", "-filter_complex", "F", "-map", "[outv]", "-map", "[outa]", "out.webm"]
    );
}

#[test]
fn probe_arguments() {
    assert_eq!(
        duration_probe_args("in.mp4"),
        vec!["-v", "error", "-show_entries", "format=duration", "-of", "default=noprint_wrappers=1:nokey=1", "in.mp4"]
    );
}

#[test]
fn parent_directories_to_create() {
    assert_eq!(output_parent_to_create("/tmp/out/a.mp4"), Some("/tmp/out".to_string()));
    assert_eq!(output_parent_to_create("a.mp4"), None);
    assert_eq!(output_parent_to_create("/"), None);
}

#[test]
fn mp4_output_paths() {
    assert_eq!(default_mp4_output_path("/v/clip.final.mkv", "x"), "/v/clip.final_x.mp4");
    assert_eq!(default_mp4_output_path("rel/dir/.hidden", "x"), "rel/dir/.hidden_x.mp4");
}
