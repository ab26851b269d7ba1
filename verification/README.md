# Screen Recorder

A tray application for macOS and Windows that takes timed screenshots and
turns each day's screenshots into a time-lapse video.

- `src/` is the verified library: screenshot and geometry-record names,
  configuration values, the choice and numbering of screens, the layout of
  a multi-screen batch, duplicate detection, sequence reservation, the
  capture timer, the tray's commands, status and icon, the history window's
  rules, the list of working directories, log rotation, the encoder's
  arguments and every user-facing text. Each public function states its
  result in `ensures`; the laws that relate several functions are public
  proof functions (`lemma_*`).
- `app/` is the program around it: the tray and windows, screen capture,
  image files, the encoder process, configuration and state files.
- `tests/` runs the library on concrete values.
