# vim_textarea

A text area with Vim editing, verified with Verus: a text with a cursor and atomic elements (such as
placeholders for pasted content), Normal, Insert and Replace mode, counts, operators, text objects,
finds, dot repeat and undo.

The text is modelled as its UTF-8 bytes. `textarea::AreaView` is the model of the whole state; every
operation states the state after it as a function of the state before it, and keeps `TextArea::wf`:
the text is valid, elements are in order and never cut, and the cursor stands on a character boundary
outside every element.

- `text`, `lines`, `words`, `buffer`: positions, lines, words, and edits of a text with elements
- `segment`: grapheme clusters and word boundaries, from the `unicode-segmentation` crate
- `textarea`, `editing`, `typing`, `paste_burst`, `line_edits`: editing
- `operators`, `finds`, `search`, `text_objects`, `actions`: motions, operators and their targets
- `vim`: modes, undo and recorded keys; `vim_commands`: recorded changes and their replay
- `keys`, `keymap`, `input`: what each key does
- `undo_laws`, `dot_laws`, `command_laws`, `session_laws`, `replace_laws`, `line_laws`,
  `block_laws`, `shift_laws`, `object_laws`: what holds across operations

`app/` hands terminal events to the text area.
