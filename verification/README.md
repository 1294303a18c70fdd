# collab_notes

A terminal notes editor in which two instances, one listening and one
connecting, tell each other where their cursors are.

- `src/` is the library, verified with Verus:
  - `text.rs`: text as a sequence of chars addressed by UTF-8 byte offsets;
    char boundaries; the `String` edits the editor uses.
  - `app.rs`: notes, the note being edited with its cursors, and the
    application state (selection and mode), with the editing laws.
  - `history.rs`: the laws over whole sequences of operations on the
    application.
  - `input.rs`: what each key and each collaborator command does to the
    application state.
  - `syntax.rs` and `messenger.rs`: the message protocol (`pos:<note>:<pos>`),
    reading received bytes as commands, and the connection mode.
  - `collaboration.rs`: the commands.
  - `ui.rs`: the cursor's screen cell, the menu title and the footer line.
- `app/` is the program: terminal, rendering, TCP connection and channels.
- `tests/` runs the library on concrete values.
