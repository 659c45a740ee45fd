# lartycc

The core of the LarTycc digital audio workstation, written in Verus: every
function in `src/` carries a contract that Verus proves, except two small
trusted wrappers whose contracts Verus takes on trust: `text::push_char`
(std's `String::push`) and `webview::compact_json` (`serde_json`'s parse and
compact printing of a JSON text).

## Layout

- `src/project.rs` — the project model, edit commands and their inverses,
  with the laws that successful edits keep a project well formed and that an
  inverse reverts its command.
- `src/session.rs` — the editing session with undo and redo histories, and
  the first audio track that an empty project is given.
- `src/json.rs` — the project file: writing it, and reading it back as a
  character-level parser with an exact specification.
- `src/round_trip.rs` — the proof that reading a written project file gives
  the project back.
- `src/host.rs` — the decisions of the native-host command router: envelope
  checks, command routing, optimistic revision checks and project edits.
- `src/webview.rs` — the webview seam: asset path checks, media types, the
  navigation filter, the IPC size limit and the response script.
- `src/waveform.rs` — peak buckets for waveform drawing.
- `src/audio.rs` — values exchanged with the native audio host.
- `src/ai_runtime.rs` — local model tiers and their context budgets.
- `src/text.rs` — character helpers shared by the parsers and formatters.
- `app/` — the desktop program around the library: argument handling, files,
  the JSON protocol envelopes (serde), the native audio host's C interface,
  floating-point tempo text, and the Wry webview shell.

Tempos and audio samples are carried as IEEE-754 bit patterns, so the library
does no floating-point arithmetic; `app/` converts at the edges.
