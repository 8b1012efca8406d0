# tchart_core

A verified parser for TCML (Timing Chart Markup Language): it turns TCML
text into a timing-chart document model (rows of signals, titles and
skips, styles, overlays, anchors and arrows). The code is written in
Verus, and every function carries a contract that Verus proves.

## Layout

- `src/lib.rs` — the crate root; `parse` is the entry point.
- `src/parser/` — the parser: source lines (`source`), quoting and escapes
  (`text_quote`), attribute helpers (`attr`), anchors (`anchor_scan`),
  waveform strings (`waveform`, `transition`), value directives
  (`directive`), `@clock(...)` lists (`clock`), arrows (`arrow`,
  `arrow_order`), run merging (`merge_law`) and the line-by-line driver
  (`state`).
- `src/svg_parts.rs` — the parts of SVG output that need no geometry:
  escaping, layer grouping, don't-care hatch patterns and fill sides, row
  background colours and arrow dash values.
- `src/line.rs`, `src/style.rs`, `src/document.rs`, `src/arrow.rs`,
  `src/anchor.rs`, `src/clock.rs`, `src/text.rs`, `src/color.rs`,
  `src/units.rs`, `src/number.rs` — the document model and its values.
- `src/errors.rs`, `src/message.rs` — parse errors and their messages.
- `tests/` — scenario tests and tests of the library's laws.

Lengths are kept in millionths (`Px`, `Ratio`) so that every value is an
integer the verifier can reason about exactly. Directive values are
limited to 10^9 units; overlay coordinates and clock mark values are read
up to 10^12 units.

Carriage returns that end lines are dropped before the text is read, so
CRLF and LF text parse alike.
