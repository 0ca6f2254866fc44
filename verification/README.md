# bnkterm_grid

The screen model of a terminal, verified with Verus: the cell grid, the cursor, the
scrollback, and the operations that a byte-stream parser drives.

- `screen` holds the state; `vt` is the interface a parser drives it through, and `dispatch`
  is what each sequence does.
- `cell`, `attrs`, `color`, `row`, `buffer` are the storage; `buffer_resize`, `reflow` and
  `screen_resize` change its size.
- `style` stands apart: a packed form of a cell, for a caller that keeps cells of its own.
  The screen stores plain cells and does not use it.
- `print`, `edit`, `sgr`, `modes`, `osc`, `query` are the operations; `links`, `collect` and
  `link` look after hyperlinks; `viewport`, `select` and `snapshot` read the screen.
- `width`, `grapheme`, `codec`, `fields`, `text`, `input`, `mouse`, `ids` are what these use.
- `laws`, `restore`, `reflow_laws`, `rejoin` and `report` state what holds across operations.

Every operation says what it makes of the screen as a function on `ScreenView`, and keeps
`wf`: whole rows, whole wide characters, the cursor on the screen, every table within its cap.
`text` holds the few declarations about the standard library's strings that are taken on
trust, and `buffer::row_mut` the one about its ring of rows.
