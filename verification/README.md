# evtap

evtap measures typing on a Linux keyboard: how often each key is pressed, how
long keys are held (dwell time), the gaps between keys (flight time), the speed
of two-key sequences (bigrams) and backspace-based correction signals. Sessions
are kept in a local SQLite database.

The library under `src/` is written in Verus and proved against its contracts:

- `metric/`: the six session metrics, their snapshots and restores, and the
  session-wide aggregate (`session_metrics.rs`).
- `payload.rs`, `roundtrip.rs`: the JSON snapshot format, its reader and writer,
  and the proof that reading a written payload gives the values back.
- `table.rs`, `sorting.rs`: the ordered maps and the sorting the metrics use.
- `input.rs`, `session.rs`, `working_session.rs`, `capture.rs`: key events,
  saved sessions, recovery of their metrics, the session being captured and the
  events it is fed.
- `storage.rs`, `persistence.rs`, `database.rs`, `settings.rs`, `paths.rs`,
  `rename.rs`: what is saved when, the storage state machine (requests, replies,
  saves and session boundaries), the storage rules, the settings and their checks.
- `scanner.rs`, `listener.rs`, `keymaps.rs`: keyboard detection, key values and
  the keymap names offered.
- `labels.rs`, `tokens.rs`, `text.rs`: the text shown for counts, sessions and
  produced characters.

`app/` holds the program around it: the SQLite repository, the settings file,
the storage thread, device and keyboard I/O, and the number formatting that
needs floating point.
