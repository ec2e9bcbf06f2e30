# ucal

The rendering, file-format and clock-reasoning library of the `ucal` command
line (Universe Calendar: absolute time as a count of Planck ticks), written in
Verus and verified.

## Layout

- `src/` — the library. Every function in it carries a contract that Verus
  proves.
  - `text`, `error` — characters, decimals and the diagnostic catalogue.
  - `style`, `table`, `emit` — painting text in roles, the strip invariant,
    wrapping, tables, and the `Doc` that renders as text or as versioned JSON.
  - `strip_law` — the proof that colour changes no character of a rendered
    document whose strings hold no escape character: lines are padded,
    wrapped and trimmed by what a reader sees.
  - `json_law` — what the JSON writer escapes reads back as the text, the
    JSON holds no raw control character but the line break, and a table is
    written exactly as the section of its rows.
  - `wrap_law` — the lines of a painted wrap: each fits its width, none
    breaks inside an escape sequence, and only breaks and hanging indents are
    added.
  - `cert` — how a rendered number says whether it is exact, rounded or a bound.
  - `ticks`, `clock` — 512-bit tick counts, the session clock that never reads
    backwards, and what a host clock can resolve.
  - `body_file`, `anchor_file`, `ephem_file`, `body_export` — the checks and
    the text of the declarative body, anchor and ephemeris files.
  - `cosmo` — what the cosmology commands refuse before any arithmetic.
  - `explain` — the per-field reasons behind `ucal explain --why`.
  - `wallclock` — themes, the dial, the digit glyphs, the frame-to-text
    conversion, the face's hand positions, and the layout of the plain and
    LCARS faces as panes of styled text (`paint`).
- `tests/` — tests run against the compiled library; `tests/face.rs` draws the
  face layouts with ratatui and reads the frame back.
- `app/` — a small command line over the library: the wall-clock theme list,
  shell completions and the manual page, with the `--color`, `--json`,
  `--width` and `--tick-sep` choices. The commands that read or convert
  instants, calendars, bodies and cosmology, and the live clock, need the
  time-model crates of the full `ucal` workspace, which this project does not
  carry, and are not part of it.

## Trusted boundary

The library calls out for a handful of operations it does not prove: painting
through `anstyle`, the layout solver of `ratatui`, `String::push`, two `char`
classifications and `char::from_u32`, `str::trim_end` and `str::to_uppercase`.
Each is a small wrapper whose doc comment says what its contract claims.
