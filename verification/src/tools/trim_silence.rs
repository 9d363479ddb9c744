use vstd::prelude::*;

use crate::media::video::{default_mp4_output_path, mp4_output_path};
use crate::text::{
    chars_of, line_end, lines, lines_from, next_line_feed_in, push_all, push_text,
    word_after_marker, word_after_marker_in,
};
use crate::Error;

verus! {

/// The word after the first occurrence of `marker` in `line`, if both exist.
pub fn value_after_marker<'a>(line: &'a str, marker: &str) -> (r: Option<&'a str>)
    ensures
        match r {
            None => word_after_marker(line@, marker@) is None,
            Some(value) => word_after_marker(line@, marker@) == Some(value@),
        },
{
    let chars = chars_of(line);
    let marker_chars = chars_of(marker);
    match word_after_marker_in(&chars, 0, chars.len(), &marker_chars) {
        None => {
            assert(chars@.subrange(0, chars@.len() as int) =~= line@);
            None
        },
        Some((a, b)) => {
            assert(chars@.subrange(0, chars@.len() as int) =~= line@);
            Some(line.substring_char(a, b))
        },
    }
}

/// A silence as ffmpeg's `silencedetect` reported it: the text after a `silence_start:` marker
/// and the text after the `silence_end:` marker that closes it, both not yet read as numbers.
#[derive(Debug, Clone, PartialEq, Eq)]
pub struct SilencePair {
    pub start: String,
    pub end: String,
}

impl View for SilencePair {
    type V = (Seq<char>, Seq<char>);

    open spec fn view(&self) -> (Seq<char>, Seq<char>) {
        (self.start@, self.end@)
    }
}

/// What a line of `silencedetect` output reports: `(true, value)` for the value after a
/// `silence_start:` marker, `(false, value)` for the value after a `silence_end:` marker (a
/// start marker wins when a line holds both), nothing otherwise.
pub open spec fn silence_marker(line: Seq<char>) -> Option<(bool, Seq<char>)> {
    match word_after_marker(line, "silence_start:"@) {
        Some(value) => Some((true, value)),
        None => match word_after_marker(line, "silence_end:"@) {
            Some(value) => Some((false, value)),
            None => None,
        },
    }
}

/// Pairs the markers of `lines` in order. `pending` is the value of the last start marker not yet
/// closed. A start marker replaces the pending value; an end marker closes the pending value,
/// if there is one, and leaves none pending either way.
pub open spec fn pair_markers(lines: Seq<Seq<char>>, pending: Option<Seq<char>>) -> Seq<
    (Seq<char>, Seq<char>),
>
    decreases lines.len(),
{
    if lines.len() == 0 {
        seq![]
    } else {
        let rest = lines.drop_first();
        match silence_marker(lines[0]) {
            Some((true, value)) => pair_markers(rest, Some(value)),
            Some((false, value)) => match pending {
                Some(start) => seq![(start, value)] + pair_markers(rest, None),
                None => pair_markers(rest, None),
            },
            None => pair_markers(rest, pending),
        }
    }
}

/// The start and end values of the silences that `silencedetect` output reports, line by line.
pub open spec fn silence_pairs_of(output: Seq<char>) -> Seq<(Seq<char>, Seq<char>)> {
    pair_markers(lines(output), None)
}

spec fn pending_text(chars: Seq<char>, pending: Option<(usize, usize)>) -> Option<Seq<char>> {
    match pending {
        Some((a, b)) => Some(chars.subrange(a as int, b as int)),
        None => None,
    }
}

/// Reads the output of ffmpeg's `silencedetect` filter: for each reported silence, the value after
/// its `silence_start:` marker and the value after the `silence_end:` marker that closes it.
pub fn silence_marker_pairs(output: &str) -> (pairs: Vec<SilencePair>)
    ensures
        pairs@.map_values(|p: SilencePair| p@) == silence_pairs_of(output@),
{
    let chars = chars_of(output);
    let start_marker = chars_of("silence_start:");
    let end_marker = chars_of("silence_end:");
    let mut pairs: Vec<SilencePair> = Vec::new();
    let mut pending: Option<(usize, usize)> = None;
    let mut pos: usize = 0;
    assert(pairs@.map_values(|p: SilencePair| p@) =~= seq![]);
    while pos < chars.len()
        invariant
            chars@ == output@,
            start_marker@ == "silence_start:"@,
            end_marker@ == "silence_end:"@,
            pos <= chars.len(),
            pending matches Some((a, b)) ==> a <= b <= chars.len(),
            silence_pairs_of(output@) == pairs@.map_values(|p: SilencePair| p@) + pair_markers(
                lines_from(chars@, pos as int),
                pending_text(chars@, pending),
            ),
        decreases chars.len() - pos,
    {
        let ghost old_pairs = pairs@;
        let ghost old_pending = pending_text(chars@, pending);
        let feed = next_line_feed_in(&chars, pos);
        let end = if feed < chars.len() && feed > pos && chars[feed - 1] == '\r' {
            feed - 1
        } else {
            feed
        };
        let ghost line = chars@.subrange(pos as int, end as int);
        let ghost rest = lines_from(chars@, feed + 1);
        assert(end == line_end(chars@, pos as int));
        assert(lines_from(chars@, pos as int) == seq![line] + rest);
        assert((seq![line] + rest).drop_first() =~= rest);
        assert((seq![line] + rest)[0] == line);
        match word_after_marker_in(&chars, pos, end, &start_marker) {
            Some((a, b)) => {
                pending = Some((a, b));
            },
            None => {
                match word_after_marker_in(&chars, pos, end, &end_marker) {
                    Some((c0, c1)) => {
                        if let Some((s0, s1)) = pending {
                            let start = String::from_str(output.substring_char(s0, s1));
                            let value = String::from_str(output.substring_char(c0, c1));
                            pairs.push(SilencePair { start, end: value });
                        }
                        pending = None;
                    },
                    None => {},
                }
            },
        }
        proof {
            let f = |p: SilencePair| p@;
            if pairs@.len() > old_pairs.len() {
                assert(pairs@.map_values(f) =~= old_pairs.map_values(f).push(f(pairs@.last())));
            }
        }
        if feed < chars.len() {
            pos = feed + 1;
        } else {
            assert(lines_from(chars@, feed + 1) =~= seq![]);
            pos = feed;
        }
    }
    assert(lines_from(chars@, pos as int) =~= seq![]);
    pairs
}

/// The output path used when none is given: `<input_stem>_silence_trimmed.mp4` next to the input.
pub fn default_output_path(input_path: &str) -> (r: String)
    ensures
        r@ == mp4_output_path(input_path@, "silence_trimmed"@),
{
    default_mp4_output_path(input_path, "silence_trimmed")
}

/// The error that reports a missing input, with how the tool is used.
pub fn usage() -> (e: Error)
    ensures
        e matches Error::MissingInput,
{
    Error::MissingInput
}

/// The `silencedetect` filter for a noise threshold and a minimum silence duration, both as text.
pub open spec fn silencedetect_filter(threshold_db: Seq<char>, min_duration_seconds: Seq<char>) -> Seq<
    char,
> {
    "silencedetect=noise="@ + threshold_db + "dB:d="@ + min_duration_seconds
}

/// The ffmpeg arguments that run the `silencedetect` filter over the audio of `input_path` (the
/// noise threshold in dB and the minimum silence in seconds given as text) and discard the output.
pub fn silencedetect_args(input_path: &str, threshold_db: &str, min_duration_seconds: &str) -> (args:
    Vec<String>)
    ensures
        args.deep_view() == seq![
            "-hide_banner"@,
            "-nostats"@,
            "-i"@,
            input_path@,
            "-af"@,
            silencedetect_filter(threshold_db@, min_duration_seconds@),
            "-f"@,
            "null"@,
            "-"@,
        ],
{
    let mut filter = String::from_str("silencedetect=noise=");
    filter.append(threshold_db);
    filter.append("dB:d=");
    filter.append(min_duration_seconds);
    let mut args: Vec<String> = Vec::new();
    push_all(&mut args, &["-hide_banner", "-nostats", "-i"]);
    push_text(&mut args, input_path);
    push_text(&mut args, "-af");
    push_text(&mut args, filter.as_str());
    push_all(&mut args, &["-f", "null", "-"]);
    assert(args.deep_view() =~= seq![
        "-hide_banner"@,
        "-nostats"@,
        "-i"@,
        input_path@,
        "-af"@,
        silencedetect_filter(threshold_db@, min_duration_seconds@),
        "-f"@,
        "null"@,
        "-"@,
    ]);
    args
}

/// Line `j` of `lines` reports the end of a silence with value `end`, and the start value `start`
/// is either `pending` or reported by a line before `j`.
pub open spec fn closes_silence(
    lines: Seq<Seq<char>>,
    pending: Option<Seq<char>>,
    start: Seq<char>,
    end: Seq<char>,
    j: int,
) -> bool {
    &&& 0 <= j < lines.len()
    &&& silence_marker(lines[j]) == Some((false, end))
    &&& (pending == Some(start) || exists|i: int|
        0 <= i < j && #[trigger] silence_marker(lines[i]) == Some((true, start)))
}

proof fn lemma_pair_origin(lines: Seq<Seq<char>>, pending: Option<Seq<char>>, k: int)
    requires
        0 <= k < pair_markers(lines, pending).len(),
    ensures
        exists|j: int|
            closes_silence(
                lines,
                pending,
                pair_markers(lines, pending)[k].0,
                pair_markers(lines, pending)[k].1,
                j,
            ),
    decreases lines.len(),
{
    let rest = lines.drop_first();
    let pr = pair_markers(lines, pending)[k];
    match silence_marker(lines[0]) {
        Some((true, value)) => {
            lemma_pair_origin(rest, Some(value), k);
            let j = choose|j: int| closes_silence(rest, Some(value), pr.0, pr.1, j);
            if Some(value) == Some(pr.0) {
                assert(silence_marker(lines[0]) == Some((true, pr.0)));
            } else {
                let i = choose|i: int|
                    0 <= i < j && #[trigger] silence_marker(rest[i]) == Some((true, pr.0));
                assert(silence_marker(lines[i + 1]) == Some((true, pr.0)));
            }
            assert(closes_silence(lines, pending, pr.0, pr.1, j + 1));
        },
        Some((false, value)) => {
            let tail = pair_markers(rest, None);
            if pending is Some && k == 0 {
                assert(closes_silence(lines, pending, pr.0, pr.1, 0));
            } else {
                let k2 = if pending is Some {
                    k - 1
                } else {
                    k
                };
                assert(pr == tail[k2]);
                lemma_pair_origin(rest, None, k2);
                let j = choose|j: int| closes_silence(rest, None, pr.0, pr.1, j);
                let i = choose|i: int|
                    0 <= i < j && #[trigger] silence_marker(rest[i]) == Some((true, pr.0));
                assert(silence_marker(lines[i + 1]) == Some((true, pr.0)));
                assert(closes_silence(lines, pending, pr.0, pr.1, j + 1));
            }
        },
        None => {
            lemma_pair_origin(rest, pending, k);
            let j = choose|j: int| closes_silence(rest, pending, pr.0, pr.1, j);
            if pending != Some(pr.0) {
                let i = choose|i: int|
                    0 <= i < j && #[trigger] silence_marker(rest[i]) == Some((true, pr.0));
                assert(silence_marker(lines[i + 1]) == Some((true, pr.0)));
            }
            assert(closes_silence(lines, pending, pr.0, pr.1, j + 1));
        },
    }
}

/// Every silence read from `silencedetect` output pairs the value of a `silence_start:` line with
/// the value of a later `silence_end:` line.
pub proof fn lemma_silences_come_from_marker_lines(output: Seq<char>, k: int)
    requires
        0 <= k < silence_pairs_of(output).len(),
    ensures
        exists|i: int, j: int|
            0 <= i < j < lines(output).len() && #[trigger] silence_marker(lines(output)[i]) == Some(
                (true, silence_pairs_of(output)[k].0),
            ) && #[trigger] silence_marker(lines(output)[j]) == Some(
                (false, silence_pairs_of(output)[k].1),
            ),
{
    let pr = silence_pairs_of(output)[k];
    lemma_pair_origin(lines(output), None, k);
    let j = choose|j: int| closes_silence(lines(output), None, pr.0, pr.1, j);
    let i = choose|i: int|
        0 <= i < j && #[trigger] silence_marker(lines(output)[i]) == Some((true, pr.0));
    assert(silence_marker(lines(output)[i]) == Some((true, pr.0)));
    assert(silence_marker(lines(output)[j]) == Some((false, pr.1)));
}

/// A line that carries no silence marker changes nothing: inserting it anywhere, in particular
/// between a start line and the end line that closes it, leaves the pairs as they were.
pub proof fn lemma_unmarked_lines_do_not_matter(
    before: Seq<Seq<char>>,
    line: Seq<char>,
    after: Seq<Seq<char>>,
    pending: Option<Seq<char>>,
)
    requires
        silence_marker(line) is None,
    ensures
        pair_markers(before + seq![line] + after, pending) == pair_markers(before + after, pending),
    decreases before.len(),
{
    let x = before + seq![line] + after;
    let y = before + after;
    if before.len() == 0 {
        assert(x.drop_first() =~= after);
        assert(y =~= after);
        assert(x[0] == line);
    } else {
        let rest = before.drop_first();
        assert(x.drop_first() =~= rest + seq![line] + after);
        assert(y.drop_first() =~= rest + after);
        assert(x[0] == before[0]);
        assert(y[0] == before[0]);
        match silence_marker(before[0]) {
            Some((true, value)) => {
                lemma_unmarked_lines_do_not_matter(rest, line, after, Some(value));
            },
            Some((false, _)) => {
                lemma_unmarked_lines_do_not_matter(rest, line, after, None);
            },
            None => {
                lemma_unmarked_lines_do_not_matter(rest, line, after, pending);
            },
        }
    }
}

/// A start line, any number of lines without a marker, and an end line give exactly one silence:
/// from the start line's value to the end line's value.
pub proof fn lemma_start_and_end_make_one_silence(
    start_line: Seq<char>,
    middle: Seq<Seq<char>>,
    end_line: Seq<char>,
    start: Seq<char>,
    end: Seq<char>,
)
    requires
        silence_marker(start_line) == Some((true, start)),
        silence_marker(end_line) == Some((false, end)),
        forall|k: int| 0 <= k < middle.len() ==> silence_marker(#[trigger] middle[k]) is None,
    ensures
        pair_markers(seq![start_line] + middle + seq![end_line], None) == seq![(start, end)],
    decreases middle.len(),
{
    if middle.len() == 0 {
        let l = seq![start_line] + middle + seq![end_line];
        assert(l =~= seq![start_line, end_line]);
        assert(l.drop_first() =~= seq![end_line]);
        assert(l.drop_first().drop_first() =~= Seq::<Seq<char>>::empty());
        assert(pair_markers(l.drop_first(), Some(start)) == seq![(start, end)] + pair_markers(
            l.drop_first().drop_first(),
            None,
        ));
        assert(seq![(start, end)] + Seq::<(Seq<char>, Seq<char>)>::empty() =~= seq![(start, end)]);
    } else {
        let shorter = middle.drop_last();
        assert(silence_marker(middle.last()) is None);
        lemma_unmarked_lines_do_not_matter(
            seq![start_line] + shorter,
            middle.last(),
            seq![end_line],
            None,
        );
        assert(seq![start_line] + shorter + seq![middle.last()] + seq![end_line] =~= seq![start_line]
            + middle + seq![end_line]);
        assert(forall|k: int| 0 <= k < shorter.len() ==> #[trigger] shorter[k] == middle[k]);
        lemma_start_and_end_make_one_silence(start_line, shorter, end_line, start, end);
    }
}

} // verus!
