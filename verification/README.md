# audio_waveform

The rendering core of a terminal previewer for audio files: a box of
metadata sections (summary, format, audio, tags, iXML, BEXT, technical,
loudness) and a braille waveform, drawn with ANSI colours.

- `src/` is the library, written in Verus: every function carries a
  contract, and the laws of the layout (row widths, word-preserving
  wrapping, waveform shape, case-insensitive lookups) are proved there.
- `app/` is the program around it: it runs `ffprobe` and `ffmpeg`, hands
  their output bytes to the library (which parses the probe report with
  serde_json and reads its fields), converts the duration text to seconds,
  and prints the frames the library builds.
- `tests/` checks the library on concrete inputs.
