use vstd::prelude::*;

use crate::env::option_text;
use crate::text::{ascii_lower_code, lemma_case_variants_match, decimal, decimal_text, eq_ignore_ascii_case, eq_ignore_ascii_case_text, push_all, push_text};
use crate::{Error, Result};

verus! {

/// The extension of the path `path`, as `std::path::Path::extension` gives it.
pub uninterp spec fn std_path_extension(path: Seq<char>) -> Option<Seq<char>>;

/// The parent of the path `path`, as `std::path::Path::parent` gives it.
pub uninterp spec fn std_path_parent(path: Seq<char>) -> Option<Seq<char>>;

/// The stem of the file name of the path `path`, as `std::path::Path::file_stem` gives it.
pub uninterp spec fn std_path_file_stem(path: Seq<char>) -> Option<Seq<char>>;

/// The path `name` joined onto `base`, as `std::path::Path::join` gives it.
pub uninterp spec fn std_path_join(base: Seq<char>, name: Seq<char>) -> Seq<char>;

/// Calls `std::path::Path::extension` on `path`. Claimed: the result, as text, is the value
/// named `std_path_extension` of the path's text; what that value is on a given path is left
/// to the standard library.
#[verifier::external_body]
fn path_extension(path: &str) -> (r: Option<String>)
    ensures
        option_text(r) == std_path_extension(path@),
{
    Some(std::path::Path::new(path).extension()?.to_str()?.to_string())
}

/// Calls `std::path::Path::parent` on `path`. Claimed: the result, as text, is the value named
/// `std_path_parent` of the path's text.
#[verifier::external_body]
fn path_parent(path: &str) -> (r: Option<String>)
    ensures
        option_text(r) == std_path_parent(path@),
{
    Some(std::path::Path::new(path).parent()?.to_str()?.to_string())
}

/// Calls `std::path::Path::file_stem` on `path`. Claimed: the result, as text, is the value
/// named `std_path_file_stem` of the path's text.
#[verifier::external_body]
fn path_file_stem(path: &str) -> (r: Option<String>)
    ensures
        option_text(r) == std_path_file_stem(path@),
{
    Some(std::path::Path::new(path).file_stem()?.to_str()?.to_string())
}

/// Calls `std::path::Path::join` on `base` and `name`. Claimed: the result, as text, is the
/// value named `std_path_join` of the two texts.
#[verifier::external_body]
fn path_join(base: &str, name: &str) -> (r: String)
    ensures
        r@ == std_path_join(base@, name@),
{
    std::path::Path::new(base).join(name).to_string_lossy().into_owned()
}

/// The video extensions that the tools accept, in the order in which they are listed.
pub open spec fn supported_video_extensions() -> Seq<Seq<char>> {
    seq!["mp4"@, "mov"@, "m4v"@, "mkv"@, "webm"@, "avi"@, "mpeg"@, "mpg"@]
}

/// The extensions of the containers that QuickTime plays.
pub open spec fn quicktime_extensions() -> Seq<Seq<char>> {
    seq!["mp4"@, "mov"@, "m4v"@]
}

/// `ext` matches one of `names`, ASCII case-insensitively.
pub open spec fn matches_any_ignoring_case(ext: Seq<char>, names: Seq<Seq<char>>) -> bool {
    exists|i: int| 0 <= i < names.len() && eq_ignore_ascii_case_text(ext, #[trigger] names[i])
}

/// The video extensions that the tools accept.
pub fn supported_extension_names() -> (names: &'static [&'static str])
    ensures
        names@.map_values(|s: &str| s@) == supported_video_extensions(),
{
    let names: &'static [&'static str] = &["mp4", "mov", "m4v", "mkv", "webm", "avi", "mpeg", "mpg"];
    assert(names@.map_values(|s: &str| s@) =~= supported_video_extensions());
    names
}

fn matches_any(ext: &str, names: &[&str]) -> (r: bool)
    ensures
        r == matches_any_ignoring_case(ext@, names@.map_values(|s: &str| s@)),
{
    let ghost texts = names@.map_values(|s: &str| s@);
    let mut i: usize = 0;
    while i < names.len()
        invariant
            texts == names@.map_values(|s: &str| s@),
            i <= names.len(),
            forall|j: int| 0 <= j < i ==> !eq_ignore_ascii_case_text(ext@, #[trigger] texts[j]),
        decreases names.len() - i,
    {
        if eq_ignore_ascii_case(ext, names[i]) {
            assert(eq_ignore_ascii_case_text(ext@, texts[i as int]));
            return true;
        }
        i = i + 1;
    }
    false
}

/// Checks an input video path: it must have one of the supported video extensions (in any ASCII
/// case), and `exists` and `is_file` must say that it names an existing file.
pub fn validate_video_path(path: &str, exists: bool, is_file: bool) -> (r: Result<()>)
    ensures
        match std_path_extension(path@) {
            None => r matches Err(Error::MissingVideoExtension),
            Some(ext) => if !matches_any_ignoring_case(ext, supported_video_extensions()) {
                r matches Err(Error::UnsupportedExtension { extension: e }) && e@ == ext
            } else if !exists {
                r matches Err(Error::InputNotFound { path: p }) && p@ == path@
            } else if !is_file {
                r matches Err(Error::InputNotAFile { path: p }) && p@ == path@
            } else {
                r is Ok
            },
        },
{
    let extension = match path_extension(path) {
        None => {
            return Err(Error::MissingVideoExtension);
        },
        Some(e) => e,
    };
    if !matches_any(extension.as_str(), supported_extension_names()) {
        return Err(Error::UnsupportedExtension { extension });
    }
    if !exists {
        return Err(Error::InputNotFound { path: String::from_str(path) });
    }
    if !is_file {
        return Err(Error::InputNotAFile { path: String::from_str(path) });
    }
    Ok(())
}

/// The path's extension names a container that QuickTime plays.
pub open spec fn is_quicktime_container(path: Seq<char>) -> bool {
    match std_path_extension(path) {
        Some(ext) => matches_any_ignoring_case(ext, quicktime_extensions()),
        None => false,
    }
}

/// Whether the output path's extension names a container that QuickTime plays.
pub fn is_quicktime_compatible_container(output_path: &str) -> (r: bool)
    ensures
        r == is_quicktime_container(output_path@),
{
    match path_extension(output_path) {
        None => false,
        Some(extension) => {
            let names: &[&str] = &["mp4", "mov", "m4v"];
            assert(names@.map_values(|s: &str| s@) =~= quicktime_extensions());
            matches_any(extension.as_str(), names)
        },
    }
}

/// The video encoder used when none is configured: the hardware encoder on macOS, `libx264`
/// elsewhere.
pub fn default_video_encoder(target_is_macos: bool) -> (encoder: &'static str)
    ensures
        encoder@ == (if target_is_macos {
            "h264_videotoolbox"@
        } else {
            "libx264"@
        }),
{
    if target_is_macos {
        "h264_videotoolbox"
    } else {
        "libx264"
    }
}

/// How delivery encoding is configured: the `VIDEO_ENCODER` and `VIDEO_BITRATE` settings (`None`
/// when unset), and whether the program was built for macOS.
pub struct EncoderSettings {
    pub video_encoder: Option<String>,
    pub video_bitrate: Option<String>,
    pub target_is_macos: bool,
}

impl EncoderSettings {
    /// The encoder in use: the configured one, or the default for the target.
    pub open spec fn encoder(&self) -> Seq<char> {
        match self.video_encoder {
            Some(e) => e@,
            None => if self.target_is_macos {
                "h264_videotoolbox"@
            } else {
                "libx264"@
            },
        }
    }

    /// The bitrate for the hardware encoder: the configured one, or 6000k.
    pub open spec fn bitrate(&self) -> Seq<char> {
        match self.video_bitrate {
            Some(b) => b@,
            None => "6000k"@,
        }
    }
}

/// The ffmpeg encoding arguments for an output file: none unless its container is one that
/// QuickTime plays; then the video codec arguments for the encoder in use (the hardware encoder
/// with its bitrate, or libx264 for any other encoder name), then the AAC audio and MP4 muxing
/// arguments.
pub open spec fn delivery_encoding_args(output_path: Seq<char>, settings: EncoderSettings) -> Seq<
    Seq<char>,
> {
    if !is_quicktime_container(output_path) {
        seq![]
    } else {
        (if settings.encoder() == "h264_videotoolbox"@ {
            seq![
                "-c:v"@,
                "h264_videotoolbox"@,
                "-b:v"@,
                settings.bitrate(),
                "-allow_sw"@,
                "1"@,
                "-pix_fmt"@,
                "yuv420p"@,
            ]
        } else {
            seq![
                "-c:v"@,
                "libx264"@,
                "-preset"@,
                "veryfast"@,
                "-crf"@,
                "23"@,
                "-pix_fmt"@,
                "yuv420p"@,
                "-profile:v"@,
                "high"@,
                "-level"@,
                "4.1"@,
            ]
        }) + seq![
            "-c:a"@,
            "aac"@,
            "-b:a"@,
            "192k"@,
            "-ar"@,
            "48000"@,
            "-movflags"@,
            "+faststart"@,
            "-video_track_timescale"@,
            "600"@,
        ]
    }
}

/// Appends the delivery encoding arguments for `output_path` to `args`.
pub fn add_delivery_encoding_args(args: &mut Vec<String>, output_path: &str, settings: &EncoderSettings)
    ensures
        final(args).deep_view() == old(args).deep_view() + delivery_encoding_args(output_path@, *settings),
{
    if !is_quicktime_compatible_container(output_path) {
        assert(old(args).deep_view() + seq![] =~= old(args).deep_view());
        return;
    }
    let ghost start = args.deep_view();
    let encoder = match &settings.video_encoder {
        Some(e) => e.as_str(),
        None => default_video_encoder(settings.target_is_macos),
    };
    let hardware = String::from_str(encoder) == String::from_str("h264_videotoolbox");
    let ghost codec;
    if hardware {
        let bitrate = match &settings.video_bitrate {
            Some(b) => b.as_str(),
            None => "6000k",
        };
        push_all(args, &["-c:v", "h264_videotoolbox", "-b:v"]);
        push_text(args, bitrate);
        push_all(args, &["-allow_sw", "1", "-pix_fmt", "yuv420p"]);
        proof {
            codec = seq![
                "-c:v"@,
                "h264_videotoolbox"@,
                "-b:v"@,
                settings.bitrate(),
                "-allow_sw"@,
                "1"@,
                "-pix_fmt"@,
                "yuv420p"@,
            ];
            assert(args.deep_view() =~= start + codec);
        }
    } else {
        push_all(
            args,
            &[
                "-c:v",
                "libx264",
                "-preset",
                "veryfast",
                "-crf",
                "23",
                "-pix_fmt",
                "yuv420p",
                "-profile:v",
                "high",
                "-level",
                "4.1",
            ],
        );
        proof {
            codec = seq![
                "-c:v"@,
                "libx264"@,
                "-preset"@,
                "veryfast"@,
                "-crf"@,
                "23"@,
                "-pix_fmt"@,
                "yuv420p"@,
                "-profile:v"@,
                "high"@,
                "-level"@,
                "4.1"@,
            ];
            assert(args.deep_view() =~= start + codec);
        }
    }
    let ghost middle = args.deep_view();
    push_all(
        args,
        &[
            "-c:a",
            "aac",
            "-b:a",
            "192k",
            "-ar",
            "48000",
            "-movflags",
            "+faststart",
            "-video_track_timescale",
            "600",
        ],
    );
    assert(args.deep_view() =~= start + delivery_encoding_args(output_path@, *settings));
}

/// The ffmpeg arguments that re-encode the first video stream and the first audio stream (if
/// any) of `input_path` into `output_path`.
pub open spec fn transcode_args(input_path: Seq<char>, output_path: Seq<char>, settings: EncoderSettings) -> Seq<
    Seq<char>,
> {
    seq![
        "-y"@,
        "-hide_banner"@,
        "-nostats"@,
        "-i"@,
        input_path,
        "-map"@,
        "0:v:0"@,
        "-map"@,
        "0:a:0?"@,
        "-shortest"@,
    ] + delivery_encoding_args(output_path, settings) + seq![output_path]
}

/// The ffmpeg arguments with which `transcode_for_delivery` runs ffmpeg.
pub fn transcode_for_delivery_args(input_path: &str, output_path: &str, settings: &EncoderSettings) -> (args:
    Vec<String>)
    ensures
        args.deep_view() == transcode_args(input_path@, output_path@, *settings),
{
    let mut args: Vec<String> = Vec::new();
    push_all(&mut args, &["-y", "-hide_banner", "-nostats", "-i"]);
    push_text(&mut args, input_path);
    push_all(&mut args, &["-map", "0:v:0", "-map", "0:a:0?", "-shortest"]);
    add_delivery_encoding_args(&mut args, output_path, settings);
    push_text(&mut args, output_path);
    assert(args.deep_view() =~= transcode_args(input_path@, output_path@, *settings));
    args
}

/// The filter steps that cut the range `[start, end]` (both as text) out of the video and the
/// audio stream, labelled with `index`.
pub open spec fn trim_step(start: Seq<char>, end: Seq<char>, index: nat) -> Seq<char> {
    "[0:v]trim=start="@ + start + ":end="@ + end + ",setpts=PTS-STARTPTS[v"@ + decimal_text(index)
        + "];"@ + "[0:a]atrim=start="@ + start + ":end="@ + end + ",asetpts=PTS-STARTPTS[a"@
        + decimal_text(index) + "];"@
}

/// The trim steps for the first `n` of `ranges`.
pub open spec fn trim_steps(ranges: Seq<(Seq<char>, Seq<char>)>, n: nat) -> Seq<char>
    decreases n,
{
    if n == 0 {
        seq![]
    } else {
        trim_steps(ranges, (n - 1) as nat) + trim_step(ranges[n - 1].0, ranges[n - 1].1, (n - 1) as nat)
    }
}

/// The inputs of the concat filter for the first `n` cut ranges.
pub open spec fn concat_inputs(n: nat) -> Seq<char>
    decreases n,
{
    if n == 0 {
        seq![]
    } else {
        concat_inputs((n - 1) as nat) + "[v"@ + decimal_text((n - 1) as nat) + "][a"@ + decimal_text(
            (n - 1) as nat,
        ) + "]"@
    }
}

/// The ffmpeg filter graph that cuts each of `ranges` (start and end as text) out of the input and
/// joins the pieces in order.
pub open spec fn time_range_filter_text(ranges: Seq<(Seq<char>, Seq<char>)>) -> Seq<char> {
    trim_steps(ranges, ranges.len()) + concat_inputs(ranges.len()) + "concat=n="@ + decimal_text(
        ranges.len(),
    ) + ":v=1:a=1[outv][outa]"@
}

/// The texts of a list of ranges.
pub open spec fn range_texts(ranges: Seq<(String, String)>) -> Seq<(Seq<char>, Seq<char>)> {
    ranges.map_values(|r: (String, String)| (r.0@, r.1@))
}

/// The filter graph that keeps `ranges` of the input, each given by its start and end written
/// with six decimals.
pub fn time_range_filter(ranges: &Vec<(String, String)>) -> (filter: String)
    ensures
        filter@ == time_range_filter_text(range_texts(ranges@)),
{
    let ghost texts = range_texts(ranges@);
    let mut filter = String::new();
    let mut i: usize = 0;
    while i < ranges.len()
        invariant
            texts == range_texts(ranges@),
            i <= ranges.len(),
            filter@ == trim_steps(texts, i as nat),
        decreases ranges.len() - i,
    {
        let index = decimal(i);
        let start = ranges[i].0.as_str();
        let end = ranges[i].1.as_str();
        filter.append("[0:v]trim=start=");
        filter.append(start);
        filter.append(":end=");
        filter.append(end);
        filter.append(",setpts=PTS-STARTPTS[v");
        filter.append(index.as_str());
        filter.append("];");
        filter.append("[0:a]atrim=start=");
        filter.append(start);
        filter.append(":end=");
        filter.append(end);
        filter.append(",asetpts=PTS-STARTPTS[a");
        filter.append(index.as_str());
        filter.append("];");
        assert(texts[i as int] == (start@, end@));
        assert(filter@ =~= trim_steps(texts, (i + 1) as nat));
        i = i + 1;
    }
    let mut j: usize = 0;
    while j < ranges.len()
        invariant
            texts == range_texts(ranges@),
            j <= ranges.len(),
            filter@ == trim_steps(texts, ranges.len() as nat) + concat_inputs(j as nat),
        decreases ranges.len() - j,
    {
        let index = decimal(j);
        filter.append("[v");
        filter.append(index.as_str());
        filter.append("][a");
        filter.append(index.as_str());
        filter.append("]");
        assert(filter@ =~= trim_steps(texts, ranges.len() as nat) + concat_inputs((j + 1) as nat));
        j = j + 1;
    }
    let count = decimal(ranges.len());
    filter.append("concat=n=");
    filter.append(count.as_str());
    filter.append(":v=1:a=1[outv][outa]");
    assert(filter@ =~= time_range_filter_text(texts));
    filter
}

/// The ffmpeg arguments that apply the filter graph `filter` to `input_path` and encode the result
/// into `output_path`.
pub open spec fn render_args(
    input_path: Seq<char>,
    output_path: Seq<char>,
    filter: Seq<char>,
    settings: EncoderSettings,
) -> Seq<Seq<char>> {
    seq![
        "-y"@,
        "-hide_banner"@,
        "-nostats"@,
        "-i"@,
        input_path,
        "-filter_complex"@,
        filter,
        "-map"@,
        "[outv]"@,
        "-map"@,
        "[outa]"@,
    ] + delivery_encoding_args(output_path, settings) + seq![output_path]
}

/// The ffmpeg arguments with which `render_time_ranges` runs ffmpeg, for the filter graph
/// `filter`.
pub fn render_time_ranges_args(
    input_path: &str,
    output_path: &str,
    filter: &str,
    settings: &EncoderSettings,
) -> (args: Vec<String>)
    ensures
        args.deep_view() == render_args(input_path@, output_path@, filter@, *settings),
{
    let mut args: Vec<String> = Vec::new();
    push_all(&mut args, &["-y", "-hide_banner", "-nostats", "-i"]);
    push_text(&mut args, input_path);
    push_text(&mut args, "-filter_complex");
    push_text(&mut args, filter);
    push_all(&mut args, &["-map", "[outv]", "-map", "[outa]"]);
    add_delivery_encoding_args(&mut args, output_path, settings);
    push_text(&mut args, output_path);
    assert(args.deep_view() =~= render_args(input_path@, output_path@, filter@, *settings));
    args
}

/// The ffprobe arguments that print the duration of `input_path` in seconds, alone on a line.
pub fn duration_probe_args(input_path: &str) -> (args: Vec<String>)
    ensures
        args.deep_view() == seq![
            "-v"@,
            "error"@,
            "-show_entries"@,
            "format=duration"@,
            "-of"@,
            "default=noprint_wrappers=1:nokey=1"@,
            input_path@,
        ],
{
    let mut args: Vec<String> = Vec::new();
    push_all(
        &mut args,
        &["-v", "error", "-show_entries", "format=duration", "-of", "default=noprint_wrappers=1:nokey=1"],
    );
    push_text(&mut args, input_path);
    assert(args.deep_view() =~= seq![
        "-v"@,
        "error"@,
        "-show_entries"@,
        "format=duration"@,
        "-of"@,
        "default=noprint_wrappers=1:nokey=1"@,
        input_path@,
    ]);
    args
}

/// The directory that must exist before `output_path` can be written: its parent, unless it has
/// none or the parent is empty.
pub open spec fn parent_to_create(output_path: Seq<char>) -> Option<Seq<char>> {
    match std_path_parent(output_path) {
        Some(parent) => if parent.len() > 0 {
            Some(parent)
        } else {
            None
        },
        None => None,
    }
}

/// The directory that `ensure_output_parent_exists` creates for `output_path`, if any.
pub fn output_parent_to_create(output_path: &str) -> (r: Option<String>)
    ensures
        option_text(r) == parent_to_create(output_path@),
{
    match path_parent(output_path) {
        Some(parent) => {
            if parent.as_str().is_empty() {
                None
            } else {
                Some(parent)
            }
        },
        None => None,
    }
}

/// The MP4 path next to `input_path` named after its stem and `suffix`: `<stem>_<suffix>.mp4` in
/// the input's parent directory, with `output` for a missing stem and the current directory for
/// a missing parent.
pub open spec fn mp4_output_path(input_path: Seq<char>, suffix: Seq<char>) -> Seq<char> {
    let parent = match std_path_parent(input_path) {
        Some(p) => p,
        None => seq![],
    };
    let stem = match std_path_file_stem(input_path) {
        Some(s) => s,
        None => "output"@,
    };
    std_path_join(parent, stem + "_"@ + suffix + ".mp4"@)
}

/// The default MP4 output path for `input_path` and `suffix`.
pub fn default_mp4_output_path(input_path: &str, suffix: &str) -> (r: String)
    ensures
        r@ == mp4_output_path(input_path@, suffix@),
{
    let parent = match path_parent(input_path) {
        Some(p) => p,
        None => String::new(),
    };
    let mut name = match path_file_stem(input_path) {
        Some(s) => s,
        None => String::from_str("output"),
    };
    name.append("_");
    name.append(suffix);
    name.append(".mp4");
    path_join(parent.as_str(), name.as_str())
}

/// Every output container that gets QuickTime delivery encoding is also a supported input video
/// extension.
pub proof fn lemma_quicktime_containers_are_supported_videos(path: Seq<char>)
    requires
        is_quicktime_container(path),
    ensures
        std_path_extension(path) matches Some(ext) && matches_any_ignoring_case(
            ext,
            supported_video_extensions(),
        ),
{
    let ext = std_path_extension(path)->0;
    let i = choose|i: int|
        0 <= i < quicktime_extensions().len() && eq_ignore_ascii_case_text(
            ext,
            #[trigger] quicktime_extensions()[i],
        );
    assert(supported_video_extensions()[i] == quicktime_extensions()[i]);
}

/// Whether an extension is accepted does not depend on the ASCII case in which it is written.
pub proof fn lemma_extension_case_does_not_matter(a: Seq<char>, b: Seq<char>, names: Seq<Seq<char>>)
    requires
        eq_ignore_ascii_case_text(a, b),
    ensures
        matches_any_ignoring_case(a, names) == matches_any_ignoring_case(b, names),
{
    if matches_any_ignoring_case(a, names) {
        let i = choose|i: int| 0 <= i < names.len() && eq_ignore_ascii_case_text(a, #[trigger] names[i]);
        assert forall|k: int| 0 <= k < b.len() implies ascii_lower_code(#[trigger] b[k])
            == ascii_lower_code(names[i][k]) by {
            assert(ascii_lower_code(a[k]) == ascii_lower_code(names[i][k]));
        }
    }
    if matches_any_ignoring_case(b, names) {
        let i = choose|i: int| 0 <= i < names.len() && eq_ignore_ascii_case_text(b, #[trigger] names[i]);
        assert forall|k: int| 0 <= k < a.len() implies ascii_lower_code(#[trigger] a[k])
            == ascii_lower_code(names[i][k]) by {
            assert(ascii_lower_code(b[k]) == ascii_lower_code(names[i][k]));
        }
    }
}

/// The hardware encoder is in use: configured by name, or the default on macOS.
pub open spec fn uses_hardware_encoder(settings: EncoderSettings) -> bool {
    match settings.video_encoder {
        Some(e) => e@ == "h264_videotoolbox"@,
        None => settings.target_is_macos,
    }
}

/// When a QuickTime container is encoded with the hardware encoder, the argument after `-b:v` is
/// the configured bitrate if there is one, whether the encoder was configured or is the platform
/// default, and 6000k otherwise; in the transcode command it stands at the same place after the
/// ten input arguments.
pub proof fn lemma_hardware_bitrate(input_path: Seq<char>, output_path: Seq<char>, settings: EncoderSettings)
    requires
        is_quicktime_container(output_path),
        uses_hardware_encoder(settings),
    ensures
        delivery_encoding_args(output_path, settings).len() > 3,
        delivery_encoding_args(output_path, settings)[0] == "-c:v"@,
        delivery_encoding_args(output_path, settings)[1] == "h264_videotoolbox"@,
        delivery_encoding_args(output_path, settings)[2] == "-b:v"@,
        settings.video_bitrate matches Some(b) ==> delivery_encoding_args(output_path, settings)[3]
            == b@,
        settings.video_bitrate is None ==> delivery_encoding_args(output_path, settings)[3]
            == "6000k"@,
        transcode_args(input_path, output_path, settings)[12] == "-b:v"@,
        transcode_args(input_path, output_path, settings)[13] == delivery_encoding_args(
            output_path,
            settings,
        )[3],
{
    let d = delivery_encoding_args(output_path, settings);
    let t = transcode_args(input_path, output_path, settings);
    assert(t[12] == d[2]);
    assert(t[13] == d[3]);
}

/// The output path is the last argument of the transcode and of the render command, and in both
/// the delivery encoding arguments stand right before it: the render command ends exactly as the
/// transcode command does.
pub proof fn lemma_output_path_comes_last(
    input_path: Seq<char>,
    output_path: Seq<char>,
    filter: Seq<char>,
    settings: EncoderSettings,
)
    ensures
        transcode_args(input_path, output_path, settings).last() == output_path,
        render_args(input_path, output_path, filter, settings).last() == output_path,
        transcode_args(input_path, output_path, settings).subrange(
            10,
            transcode_args(input_path, output_path, settings).len() - 1,
        ) == delivery_encoding_args(output_path, settings),
        render_args(input_path, output_path, filter, settings).subrange(
            11,
            render_args(input_path, output_path, filter, settings).len() - 1,
        ) == delivery_encoding_args(output_path, settings),
        render_args(input_path, output_path, filter, settings).skip(11) == transcode_args(
            input_path,
            output_path,
            settings,
        ).skip(10),
        render_args(input_path, output_path, filter, settings)[9] == "-map"@,
        render_args(input_path, output_path, filter, settings)[10] == "[outa]"@,
{
    let d = delivery_encoding_args(output_path, settings);
    let t = transcode_args(input_path, output_path, settings);
    let r = render_args(input_path, output_path, filter, settings);
    assert(t.subrange(10, t.len() - 1) =~= d);
    assert(r.subrange(11, r.len() - 1) =~= d);
    assert(r.skip(11) =~= d + seq![output_path]);
    assert(t.skip(10) =~= d + seq![output_path]);
}

/// An extension written with any of the letters of a supported extension in upper case is
/// accepted.
pub proof fn lemma_upper_case_extensions_are_supported(ext: Seq<char>, i: int)
    requires
        0 <= i < supported_video_extensions().len(),
        ext.len() == supported_video_extensions()[i].len(),
        forall|k: int|
            0 <= k < ext.len() ==> #[trigger] ext[k] == supported_video_extensions()[i][k] || ('a'
                <= supported_video_extensions()[i][k] && supported_video_extensions()[i][k] <= 'z'
                && ext[k] as u32 + 32 == supported_video_extensions()[i][k] as u32),
    ensures
        matches_any_ignoring_case(ext, supported_video_extensions()),
{
    lemma_case_variants_match(ext, supported_video_extensions()[i]);
}

/// `t` stands in `s` at position `p`.
pub open spec fn stands_at(s: Seq<char>, t: Seq<char>, p: int) -> bool {
    0 <= p && p + t.len() <= s.len() && s.subrange(p, p + t.len()) == t
}

proof fn lemma_trim_steps_prefix(ranges: Seq<(Seq<char>, Seq<char>)>, i: nat, n: nat)
    requires
        i <= n,
    ensures
        trim_steps(ranges, i).len() <= trim_steps(ranges, n).len(),
        trim_steps(ranges, n).subrange(0, trim_steps(ranges, i).len() as int) == trim_steps(ranges, i),
    decreases n,
{
    if i < n {
        lemma_trim_steps_prefix(ranges, i, (n - 1) as nat);
        let a = trim_steps(ranges, (n - 1) as nat);
        let b = trim_steps(ranges, n);
        assert(b.subrange(0, a.len() as int) =~= a);
        assert(b.subrange(0, trim_steps(ranges, i).len() as int) =~= a.subrange(
            0,
            trim_steps(ranges, i).len() as int,
        ));
    } else {
        assert(trim_steps(ranges, n).subrange(0, trim_steps(ranges, n).len() as int) =~= trim_steps(
            ranges,
            n,
        ));
    }
}

proof fn lemma_concat_inputs_prefix(i: nat, n: nat)
    requires
        i <= n,
    ensures
        concat_inputs(i).len() <= concat_inputs(n).len(),
        concat_inputs(n).subrange(0, concat_inputs(i).len() as int) == concat_inputs(i),
    decreases n,
{
    if i < n {
        lemma_concat_inputs_prefix(i, (n - 1) as nat);
        let a = concat_inputs((n - 1) as nat);
        let b = concat_inputs(n);
        assert(b.subrange(0, a.len() as int) =~= a);
        assert(b.subrange(0, concat_inputs(i).len() as int) =~= a.subrange(
            0,
            concat_inputs(i).len() as int,
        ));
    } else {
        assert(concat_inputs(n).subrange(0, concat_inputs(n).len() as int) =~= concat_inputs(n));
    }
}

/// The video trim step for range `i`, labelled `[v<i>]`.
pub open spec fn video_trim(start: Seq<char>, end: Seq<char>, i: nat) -> Seq<char> {
    "[0:v]trim=start="@ + start + ":end="@ + end + ",setpts=PTS-STARTPTS[v"@ + decimal_text(i) + "];"@
}

/// The audio trim step for range `i`, labelled `[a<i>]`.
pub open spec fn audio_trim(start: Seq<char>, end: Seq<char>, i: nat) -> Seq<char> {
    "[0:a]atrim=start="@ + start + ":end="@ + end + ",asetpts=PTS-STARTPTS[a"@ + decimal_text(i)
        + "];"@
}

proof fn lemma_stands_between(x: Seq<char>, t: Seq<char>, y: Seq<char>)
    ensures
        stands_at(x + t + y, t, x.len() as int),
{
    assert((x + t + y).subrange(x.len() as int, (x.len() + t.len()) as int) =~= t);
}

proof fn lemma_stands_in_prefix(s: Seq<char>, pre: Seq<char>, t: Seq<char>, p: int)
    requires
        pre.len() <= s.len(),
        s.subrange(0, pre.len() as int) == pre,
        stands_at(pre, t, p),
    ensures
        stands_at(s, t, p),
{
    assert(s.subrange(p, p + t.len()) =~= pre.subrange(p, p + t.len()));
}

proof fn lemma_stands_after(x: Seq<char>, s: Seq<char>, t: Seq<char>, p: int)
    requires
        stands_at(s, t, p),
    ensures
        stands_at(x + s, t, x.len() + p),
{
    assert((x + s).subrange(x.len() + p, x.len() + p + t.len()) =~= s.subrange(p, p + t.len()));
}

proof fn lemma_trim_pieces_stand(ranges: Seq<(Seq<char>, Seq<char>)>, i: int)
    requires
        0 <= i < ranges.len(),
    ensures
        stands_at(
            trim_steps(ranges, ranges.len()),
            video_trim(ranges[i].0, ranges[i].1, i as nat),
            trim_steps(ranges, i as nat).len() as int,
        ),
        stands_at(
            trim_steps(ranges, ranges.len()),
            audio_trim(ranges[i].0, ranges[i].1, i as nat),
            (trim_steps(ranges, i as nat).len() + video_trim(ranges[i].0, ranges[i].1, i as nat).len()) as int,
        ),
{
    let v = video_trim(ranges[i].0, ranges[i].1, i as nat);
    let a = audio_trim(ranges[i].0, ranges[i].1, i as nat);
    let before = trim_steps(ranges, i as nat);
    let upto = trim_steps(ranges, (i + 1) as nat);
    assert(upto =~= before + v + a);
    lemma_stands_between(before, v, a);
    lemma_stands_between(before + v, a, seq![]);
    assert(before + v + a + seq![] =~= upto);
    lemma_trim_steps_prefix(ranges, (i + 1) as nat, ranges.len());
    lemma_stands_in_prefix(trim_steps(ranges, ranges.len()), upto, v, before.len() as int);
    lemma_stands_in_prefix(trim_steps(ranges, ranges.len()), upto, a, (before.len() + v.len()) as int);
}

proof fn lemma_concat_input_stands(i: nat, n: nat)
    requires
        i < n,
    ensures
        stands_at(
            concat_inputs(n),
            "[v"@ + decimal_text(i) + "][a"@ + decimal_text(i) + "]"@,
            concat_inputs(i).len() as int,
        ),
{
    let c = "[v"@ + decimal_text(i) + "][a"@ + decimal_text(i) + "]"@;
    let cb = concat_inputs(i);
    assert(concat_inputs(i + 1) =~= cb + c);
    lemma_stands_between(cb, c, seq![]);
    assert(cb + c + seq![] =~= concat_inputs(i + 1));
    lemma_concat_inputs_prefix(i + 1, n);
    lemma_stands_in_prefix(concat_inputs(n), concat_inputs(i + 1), c, cb.len() as int);
}

/// For every range `i`, the filter graph trims the range out of the video into `[v<i>]` and out of
/// the audio into `[a<i>]`, in that order, and the concat filter reads `[v<i>][a<i>]`, after all
/// the trim steps.
pub proof fn lemma_filter_labels_every_range(ranges: Seq<(Seq<char>, Seq<char>)>, i: int)
    requires
        0 <= i < ranges.len(),
    ensures
        ({
            let f = time_range_filter_text(ranges);
            let v = video_trim(ranges[i].0, ranges[i].1, i as nat);
            let a = audio_trim(ranges[i].0, ranges[i].1, i as nat);
            let c = "[v"@ + decimal_text(i as nat) + "][a"@ + decimal_text(i as nat) + "]"@;
            exists|p: int, q: int|
                #[trigger] stands_at(f, v, p) && stands_at(f, a, p + v.len()) && #[trigger] stands_at(
                    f,
                    c,
                    q,
                ) && p + v.len() + a.len() <= q
        }),
{
    let n = ranges.len();
    let f = time_range_filter_text(ranges);
    let v = video_trim(ranges[i].0, ranges[i].1, i as nat);
    let a = audio_trim(ranges[i].0, ranges[i].1, i as nat);
    let c = "[v"@ + decimal_text(i as nat) + "][a"@ + decimal_text(i as nat) + "]"@;
    let steps = trim_steps(ranges, n);
    let inputs = concat_inputs(n);
    let p = trim_steps(ranges, i as nat).len() as int;
    lemma_trim_pieces_stand(ranges, i);
    lemma_concat_input_stands(i as nat, n);
    let q: int = (steps.len() + concat_inputs(i as nat).len()) as int;
    lemma_stands_after(steps, inputs, c, concat_inputs(i as nat).len() as int);
    let head = steps + inputs;
    assert(f.subrange(0, head.len() as int) =~= head);
    lemma_stands_in_prefix(f, head, c, q);
    assert(head.subrange(0, steps.len() as int) =~= steps);
    lemma_stands_in_prefix(head, steps, v, p);
    lemma_stands_in_prefix(head, steps, a, (p + v.len()) as int);
    lemma_stands_in_prefix(f, head, v, p);
    lemma_stands_in_prefix(f, head, a, (p + v.len()) as int);
    assert(stands_at(f, v, p) && stands_at(f, a, (p + v.len()) as int) && stands_at(f, c, q) && p
        + v.len() + a.len() <= q);
}

} // verus!
