# helix_term

The commands of a modal text editor, as functions on plain values with proved
contracts.

A command runs on a `Context` (`src/editor.rs`): the focused view and its
document, the registers and the message line. What it changes there it changes
at once; what only the running editor can do it adds to a list of effects. What
commands need to know of text segmentation, syntax and language servers comes in
as functions, and the contracts say what is made of their answers.

- `text`, `strings`, `selection`, `change`, `registers`, `lsp`: the values that
  commands work on. `text` holds what is relied on of `ropey`, `search` what is
  relied on of `regex`, `lsp` what is relied on of `url`, and `strings` what is
  relied on of the standard library.
- `movement`, `select`, `view`, `goto`, `search`, `window`: commands that move
  the cursor, the selection and the view.
- `edit`, `insert`, `lines`, `open`: commands that change the text.
- `language`: questions to a language server and its answers.
- `command`, `execute`, `typed`, `cmd`: commands by name, and the prompt for typed
  ones.
- `laws`, `line_laws`: what holds of the commands taken together.

`app/` runs the commands in an editor; `tests/` runs the library on examples.
