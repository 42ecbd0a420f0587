# bezel

The parts of a document editor and a terminal that can be proved: a library in
Verus, with the code that draws, reads files and talks to the platform kept
around it.

- `src/terminal` — an emulator over `alacritty_terminal`: a scanner that splits
  pictures, render holds and directory reports off the stream, placements that
  move with the cells they are anchored to, and the frames a view is served.
- `src/markdown` — a document as a list of blocks, quotes that find their text
  again after it has changed, and what each block is painted as.
- `src/editor` — what each key means, what each edit does to the positions in a
  document, and how it is taken back.
- `src/theme`, `src/gallery` — which palette shows, comment threads, and the
  formatting ribbon.
- `src/terminal/screen.rs` holds everything that is taken on trust of
  `alacritty_terminal`; the rest is verified.
- `app` — floating point, files, settings and the platform.
- `tests` — the library run from outside, with the real terminal under it.
