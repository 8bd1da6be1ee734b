# pyroclear

A terminal `clear` replacement that burns the screen down before wiping it.

The crate is a Verus-verified library (`src/`) and a thin program around it
(`app/`).

- `rng` — the xorshift64* generator (state never zero, steps injective).
- `fire` — the heat grid: fresh grids, spreading, source cooling, peak heat.
- `render` — one frame of ANSI text from a grid and a palette.
- `burn` — the burn as a state machine driven by clock, size and Ctrl-C.
- `color` — `#rrggbb` parsing, gradient and palette swatches, the fire ramp.
- `choice` — the named palettes, validation, display names, resolution.
- `config` — the saved `config.toml`: its text, its parsing, the round trip.
- `cli` — the command line's flags, modes and refusals.
- `picker` — key decoding, the colour prompt, list moves, the picker screen.
- `banner` — the coloured banner and palette-list lines.
- `console` — terminal size fallback and Windows console mode bits.
- `text` — characters, trimming, UTF-8 sizes, digits and escape sequences.

`app/` holds what the library cannot: terminal and file I/O, signals,
threads, sleeping, and the floating-point HSV colour math.
