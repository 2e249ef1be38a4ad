# flyleaf-core

The document behind Tommy Flyleaf, a TOML editor that shows a file as a tree
and writes back what was not edited as it was: comments, key order and
formatting included, wherever `toml_edit` writes a parsed file back as it
read it, which it does for all but a few dotted-key and header spellings. The library is written in Verus, and every operation in
it is proved against its contract.

## Layout

- `src/document.rs`: a document as a file. Parsing records the byte order
  mark, the line ending and the final newline, which `toml_edit` does not
  keep, and rendering puts them back; a baseline says whether anything has
  been edited; the history of rendered texts is what undo and redo walk, with
  changes in one row coalescing into one step.
- `src/kind.rs`: the eleven kinds of value, what a new one starts as, and what
  one converts to. Floating-point work is left to a function the caller
  passes in.
- `src/comment.rs`: the comments above, beside and after things, read and
  rewritten in place.
- `src/array.rs`: an element added in the array's own style, removed,
  changed or converted.
- `src/position.rs`: the lines of the rendered text a row occupies.
- `src/shell.rs`: what the window decides: its title and the prompt before
  unsaved changes are lost.
- `src/text.rs`: characters, whitespace and lines, as the rest needs them.
- `src/toml_api.rs`: the contracts this library relies on from `toml_edit`.
- `app/`: the window itself (`eframe`, `egui`, `rfd`), reading and writing
  files (`tempfile`), floating-point conversion, and the language setting
  (`potext`).
- `tests/`: the library's tests, run against the real `toml_edit`.
