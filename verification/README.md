# audioscan

Decode an audio file once and report its format, EBU R128 loudness and silence
windows as JSON.

- `src/` is the verified library: the decode loop's decisions (`decode.rs`),
  the warnings, status and strict-mode verdict of a finished decode
  (`report.rs`), silence detection over fixed analysis windows (`silence.rs`),
  container labels and audio-file selection from paths (`paths.rs`), batch
  summaries (`batch.rs`), error messages (`error.rs`) and text helpers
  (`text.rs`). Verus proves every function there against its contract, except
  two small wrappers that are trusted, not proved: one calls `str::to_lowercase`
  (its result is named, not defined) and one renders an I/O error's
  description (nothing is promised of it).
- `app/` is the command-line program and the C interface around it: it opens
  and decodes files with symphonia, measures loudness with ebur128, computes
  the per-window RMS levels and every other floating-point figure, fans batch
  runs out with rayon and writes JSON with serde.
- `tests/` exercises the library on concrete inputs.
