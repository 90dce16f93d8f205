# mastacraf

An audio mastering pipeline built around FFmpeg, with its core verified in
Verus.

- `src/` is the verified library: reading ffmpeg's stream metadata and
  measurement output, the loudnorm JSON block, the mastering filter chain,
  encoder selection, the arguments of every ffmpeg run, picture and
  comparison generation, where preset files are looked for, completing a
  preset file's TOML table, listing presets, and where a master run writes
  its files. Running ffmpeg, the file system and the environment are reached
  through functions the caller hands in.
- `app/` is the command-line program: argument parsing, spawning ffmpeg,
  reading and writing files, the floating-point measurements and settings
  (loudness targets, filter frequencies, analysis statistics), console output
  and the JSON report.
- `tests/` exercises the library on concrete inputs.
