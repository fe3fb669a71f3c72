# camwatch-motion-detection

Motion detection for RTSP streams and local video files. ffmpeg delivers small frames for
motion analysis and full-size frames for snapshots; each motion session yields one or more JPEG
snapshots that are published over MQTT and/or written to a directory with TOML metadata.

## Layout

- `src/` is the library, written in Verus. Its functions carry contracts that Verus proves; the
  few calls into outside crates (JPEG encoding, Base64, date formatting, file-system queries) go
  through small wrappers whose contracts are stated, not proved.
  - `config`: input sources, the `[motion_detection]` settings, validation and the search for
    a configuration file.
  - `ffmpeg`: frames, the ffmpeg command line, frame sizes and the source-size answer of ffprobe.
  - `motion`: grayscale sampling, whole-frame and per-tile change scores, JPEG snapshots.
  - `session` / `session_laws` / `session_bounds` / `session_runs` / `session_history`: the motion session state
    machine that chooses snapshots, and its proved properties (per step, on where captured
    frames lie, and over whole runs).
  - `processor` / `processor_laws`: pairing chosen snapshots with full-size frames, and its
    proved properties.
  - `output`: captures, MQTT payload fields, metadata fields and file names.
  - `worker`: the reconnect policy of the stream workers.
  - `mqtt`, `error`, `text`, `benchmark`: smaller pieces.
- `app/` is the program around the library: command line, TOML loading, ffmpeg processes,
  threads, the floating-point background model, MQTT and file writing. Its first argument
  `benchmark-resolution` runs the resolution benchmark.
- `tests/` exercises the library on concrete values.

Floating-point settings (`motion_ratio_threshold`, `local_motion_ratio_threshold`,
`background_alpha`) are held by the library as the bit patterns of their `f32` values, and change
scores as exact fractions.
