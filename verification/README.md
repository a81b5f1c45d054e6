# Instant Local Stream

A host that captures a monitor, a window or a test pattern, encodes it in a few quality groups and
sends it to browsers over WebRTC.

- `src/` is the library: configuration, encoder plans, frame timing, quality groups, viewer
  sessions, the media port, stream control, previews and the model of the window. All of it is
  Verus code; what each function does is stated in its contract and proved.
- `tests/` runs the library on concrete values.
- `app/` is the program around it: arguments, files, processes, sockets, peer connections and the
  window.

The library computes on plain values. A time is a number of nanoseconds, a measured number is the
bits of its IEEE 754 encoding, and what only the program can hold (an encoder, a socket, a texture)
is a number that the program hands in. Where an operation needs the outside world in between, the
library gives an action and takes the outcome; see `control`, `settings_change`, `groups` and
`window_reader`.

What is trusted, not proved, are the wrappers around outside functions. Each has a doc comment
that says what its contract claims: `text` (`String::push`), `config` and `random` (`rand`), `media`
and `audio` (names of codecs in `rtc`), `udp_mux` (`std::str::from_utf8`), `web` (`mime_guess`),
`sessions` (`uuid`) and `ui::thumbnail` (`png`).

Two compiler flags build files into the program. With `--cfg bundled_ffmpeg` it carries the encoder
program and the licence that `ILS_FFMPEG_PATH` and `ILS_FFMPEG_LICENSE_PATH` name; with
`--cfg bundled_assets` it carries the picture of the test pattern and the licence notices, from
`assets/`, `packaging/` and the root.
