# pxlr

A pixel-art document library whose behaviour is stated in Verus contracts and
proved by Verus.

- `src/collections`: bit masks, braille renderings of masks, blocked row-major
  layouts and chains of byte buffers.
- `src/color`: pixel layouts (channels), colour values and pixel views, blend
  and compositing modes.
- `src/canvas`: rectangles, sparse stencils and canvases that index their
  stencils in an R-tree.
- `src/document`: document nodes and the commands and patches that change
  them, with their undo pairs; the binary document formats (headers, index
  rows, partition tables, node chunks) and the document files built on them.
- `src/editor.rs`: the editor's viewport state and what each message makes
  the host do.
- `src/cli.rs`: pixel formats named on the command line, and finding a
  revision by the start of its hash and a node by the start of its
  identifier.
- `app/`: what stays outside the verified library: floating-point colour
  arithmetic, sampling and transforms, command-line parsing, JSON messages and uuid
  conversions.
- `tests/`: tests of the library.
