# bevy_bc_ime_text_field

The editing model of an IME-aware text field for Bevy, verified with Verus.

A field's text is kept as three parts around the selection: the text before
it, the selected text and the text after it. Each keyboard or IME input is a
function on these parts and the field's selection record, and every such
function in `src/` carries a contract that says exactly what it returns.

- `src/tool.rs`: character-based string operations and `split_text`.
- `src/input/control.rs`: word-wise (Ctrl) and line-wise movement points.
- `src/input/select_list.rs`: moving between lines (as `str::lines` counts
  them) and moving text between the three parts.
- `src/input/select_input.rs`: arrow keys, with and without Shift and Ctrl.
- `src/input/text_input.rs`: typing, deleting, the clipboard, select-all,
  undo and redo (the history is kept by `undo_2`).
- `src/input/input.rs`: turning IME and keyboard events into commands and
  applying a frame's commands to a field, with the maximal length.
- `src/text_field.rs`, `src/selection.rs`, `src/text_field_style.rs`: the
  field's records, focus and placeholder rules, the cursor and the password
  mask.

`app/` holds the Bevy components, events and systems, which read the engine's
input, call the library and write the results back.
