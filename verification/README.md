# moviola

Video tools driven by ffmpeg, selected with `MOVIOLA_TOOL`. The one tool, `trim-silence`,
removes the stretches of a clip where the audio stays below a dB threshold.

- `src/` is the verified library: choosing the tool, reading required and optional settings,
  checking input paths, reading ffmpeg's `silencedetect` output, and building the ffmpeg and
  ffprobe argument lists and filter graphs, each with a contract proved by Verus.
- `app/` is the program around it: it reads the environment, runs ffmpeg and ffprobe, creates
  directories, and does the floating-point work (thresholds, durations, and the ranges to keep).
- `tests/` runs the library on concrete inputs.
