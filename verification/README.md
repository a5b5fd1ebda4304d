# rime

The core of a GPU terminal emulator that draws its text with its own
TrueType parser, written in Verus.

- `src/ttf`: the font file. `be` reads big-endian integers, `tables` says
  what each table of the file means as functions of its bytes, and
  `parser` reads the table directory, the metrics, the `cmap` mapping and
  simple and compound glyph outlines, each proved to give what `tables`
  says. `font` holds the outlines and their edges.
- `src/terminal`: the character grid, writing, deleting and resizing.
- `src/window`: the glyph atlas allocator, the text engine's caches and
  what window events do to the terminal.
- `app/`: the window and GPU front end (winit, wgpu), the scanline
  rasterizer, and reading the font file.
