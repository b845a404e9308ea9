# md_editor

A Markdown editor that renders the document inline and edits it with Vim
keys: every line is shown as rendered Markdown except the raw region under
the cursor (a whole table when the cursor is in one).

## Layout

- `src/` — the library, verified with Verus: text and table analysis, the
  document model (`editor`), the Vim engine (`vim*`), the colour
  configuration format (`config`, `theme`), the toolbar's formatting
  actions, the Insert-mode key bindings, and `laws`, the properties that
  relate several functions (round trips, undo and redo, block reuse).
- `tests/` — tests of the library on concrete values.
- `app/` — the window around it, built with iced: widgets, styles, file
  dialogs, reading and writing the configuration file.
