# niri_dictation

Speech dictation for a Wayland compositor, with its logic written and proved in
[Verus](https://github.com/verus-lang/verus).

A session captures the microphone, cuts the audio into utterances, has a
whisper.cpp server transcribe them and puts the text into the focused
application: as preedit and commits where that speaks `text-input-v3`, and as key
events on the current keymap where it does not. A paperclip in the corner shows
that the microphone is open.

## Layout

- `src/` is the verified library.
  - `dictation/` holds the session (`mod.rs`) and its steps: `audio`, `chunker`,
    `whisper`, `keymap`, `injector`. A step takes an event and what is known of
    the surroundings, changes the state, and appends what is to be done to a list
    of effects (`effect`). The `*_laws` modules state what holds over all inputs
    and over more than one step.
  - `ui/dictation_indicator.rs` decides when the clip is on the screen, with which
    words, and which of its textures are still good.
  - `config/` holds the settings, how a partial section is laid over them, and the
    reading of the `hot-edges` block.
  - `text.rs` holds trimming, splitting and joining of text.
- `app/` is ordinary Rust around it: PipeWire, the threads that post to the
  server, the seat, cairo, and the configuration file. Whether a frame is speech
  is judged there too, in floating point; the chunker takes the verdicts.
- `tests/` runs the library.

## What is taken on trust

The contracts of a few outside functions are stated and not proved:
`serde_json::from_str`, `serde_json::Value::get`, `serde_json::Value::as_str`,
`char::is_alphabetic` and `str::to_lowercase`, all in `dictation/whisper.rs`.
