# kou

Virtual terminal automation: a VT100/ANSI screen emulator, readers that
describe a screen for people and language models, keyboard input encoding,
colour themes, and the kitty / iTerm2 inline graphics protocols.

The library under `src/` is written in Verus; every function in it carries a
contract that Verus proves.

- `grid` — the mathematical model of a screen (cells, cursor, pen,
  scrollback) and of every emulator operation.
- `screen` — the executable `Screen`, proved to follow `grid`; bytes are
  parsed by `vte` (`vt` holds the bindings).
- `graphics` — kitty and iTerm2 encoding, kitty APC extraction and chunk
  reassembly, the inline image store.
- `read` — raw, boxed and structured readings of a screen.
- `paint` — what rendering a screen paints, cell by cell.
- `keys` — text input and named key sequences as terminal bytes.
- `theme`, `font`, `session` — colour themes, font families and sources,
  session reports.
- `text`, `width` — string helpers and display width.

`app/` is the `kou` command and everything that touches the operating
system: pseudo-terminals and reader threads, font files and downloads, and
rasterising glyphs and images into PNGs.
