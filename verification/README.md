# lym

The core of LYM (Linux Yukkuri Maker), a timeline-based video editor, as a
Verus-verified library, with the desktop front end around it.

- `src/` — the verified library. Times are `i64` microseconds and zoom levels
  thousandths of a pixel per second; frame rates are exact fractions.
  - `state` — the project (tracks of clips), its editing operations and their
    laws, and the application state.
  - `undo` — the bounded undo/redo history.
  - `timeline` — track and clip geometry, hit testing, the ruler, the
    playhead, wheel zoom and scroll.
  - `labels` — the status bar and properties panel texts.
  - `utils::time`, `utils::file` — duration text, stems and extensions.
  - `video` — reading the probe of a video file, frame times, the frame cache.
  - `preview`, `project`, `voice`, `media`, `text`, `parse` — the rest.
- `tests/` — tests run against the compiled library.
- `app/` — the FLTK window, project files (serde JSON) and the ffprobe/ffmpeg
  processes; it calls the library for the editor's decisions, and keeps only
  the floating-point placement of the timeline's scroll thumb for itself.
