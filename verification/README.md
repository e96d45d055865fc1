# matrix_rain

A Matrix-style digital rain for the terminal. The library in `src/` is
verified with Verus:

- `config` — command-line options: themes, glyph styles, the frame rate,
  error messages, and the walk over the argument list.
- `column` — the glyph alphabets, random glyphs, and the state of a column
  (its trail and its start delay).
- `input` — what a key press or a resize asks for.
- `renderer` — which cells the columns light, the frame they make, and the
  exact set of cells to redraw between two frames.

`app/` is the program around it: the terminal, the frame loop, and the
floating-point parts (each head's position and speed, the colour gradient
and shimmer, and the fractional options).
