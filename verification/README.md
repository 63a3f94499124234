# zwave_editor_lib

The verified core of zwaveEditor, a multitrack sound editor. The library is
written in Verus: the functions in `src/` carry contracts that Verus proves,
except a few small trusted wrappers around the standard library (path
handling and `Arc::clone`), marked `#[verifier::external_body]`, whose
contracts are taken on trust.

Samples are a type parameter. The library only moves samples around (cut,
crop, copy, paste, reverse, repeat, fill, deinterleave, interleave) and keeps
clips with their undo history, so its results are exact for any sample type.
Arithmetic on samples, which is floating point, is done by the caller and
handed in as closures where an edit needs it.

- `src/audio/decode.rs` — planar clips, deinterleaving, and the per-packet
  decisions of a decode loop.
- `src/audio/edit.rs` — the edits, with laws such as "cutting a selection and
  pasting it back restores the clip".
- `src/audio/mod.rs` — the clip store with bounded undo, and the clipboard.
- `src/audio/export.rs`, `src/audio/recording.rs` — laying channels out for a
  WAV file and splitting a recording into channels.
- `src/commands.rs` — startup files and the names given to exported files.
- `app/` — the Tauri shell: file decoding with symphonia, playback and
  recording with cpal, the mixer, peaks, WAV writing with hound, and the
  floating-point edits (volume, fades, pitch, time, rate conversion).
- `tests/` — tests of the library on concrete audio.
