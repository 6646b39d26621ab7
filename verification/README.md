# nanolike

A nano-style terminal text editor: tabs, shift-selection, undo and redo,
case-insensitive search and replace, encoding detection on open and the same
encoding on save, and key bindings read from a JSON file.

The editor is a verified library (`src/`) and a thin terminal front end
(`app/`).

- `src/text.rs`, `src/search.rs`: chars, UTF-8 offsets, word classes, matching.
- `src/undo.rs`, `src/editor.rs`: the buffer of a tab and its editing operations,
  each specified over the lines as sequences of chars.
- `src/encoding.rs`: byte-order marks, charset detection and decoding (through
  `encoding_rs` and `chardetng`), and the bytes written on save.
- `src/config.rs`, `src/keys.rs`: actions, settings, key bindings, key names.
  A key bound to several actions runs the first of them in the order in which
  `Action` declares them. By default `Ctrl+W` is bound both to `search` and to
  `close_tab`; `search` is declared first, so `Ctrl+W` searches. To close a tab
  with it, rebind `search` in the key-binding file (for example to `["ctrl+f"]`).
- `src/bindings_file.rs`: the key-binding file's text (read and written with
  `serde_json`) and the bindings it gives.
- `src/workspace.rs`: the session. A key press or the answer to a question
  changes the session and returns a request for outside work (a question, a
  file to write or read); the front end performs it and hands back the reply.
- `src/screen.rs`, `src/text_area.rs`, `src/prompt.rs`, `src/completion.rs`,
  `src/help.rs`: the texts and places of everything drawn on the screen, the
  prompt line and path completion.
- `src/laws.rs`: properties that relate several operations.
- `app/`: arguments, the terminal (crossterm), files, the settings file
  (serde_json) and the home directory (dirs).
