# game_debug (verified core)

The verified core of the planet debug viewer, written in Verus.

- `src/text.rs` — whitespace trimming (`str::trim` semantics), unsigned
  decimal parsing (`str::parse` semantics for unsigned integers), decimal
  rendering, and the laws that tie them together.
- `src/params.rs` — the Inputs panel: subdivisions field parsing and range
  check, inline hints, the `10·4^N+2` cost hint, the warning threshold and
  the Regenerate gate.
- `src/stats.rs` — thousands-grouped counts and the short mesh-hash label.
- `src/timestamp.rs` — UTC `yyyymmdd-hhmmss` capture timestamps over the
  proleptic Gregorian calendar, with the calendar laws.
- `src/cli.rs` — the command-line scan as a step machine.
- `src/view.rs` — VIEW-button presets, camera-mode labels, held movement keys.

`app/` holds what the library cannot: the floating-point radius field, the
command-line driver that hands capture presets and sizes to the capture
harness, and the float geometry helpers.
