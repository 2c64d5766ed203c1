# docsort

A keyboard-driven terminal UI for filing documents from inbox folders into
an organised archive, with its logic verified by Verus.

## Layout

- `src/` — the verified library.
  - `app.rs` — the application state machine. `App::handle_event` takes a
    key press and the time; it answers with an action for the event loop or
    asks for outside work (previews, folders, moves), whose outcome goes to
    `App::resume`. Every transition is stated as a spec function over
    `AppView`.
  - `properties.rs` — properties across events: releases are ignored, two
    Ctrl+C presses within a second quit, cursors stay in their lists, a
    successful move is recorded and committed, Space toggles the preview,
    recently used folders are listed first.
  - `inbox.rs` — inbox files, their subfolders and group keys, and the
    newest-first listing order.
  - `dest.rs` — the index of archive folders, fuzzy search (scores from
    `nucleo-matcher`), and folder listings.
  - `ui.rs`, `screen.rs` — what each screen shows: shortened rows, the
    visible window of a list, labels and colours, the naming form, the
    hint bar and the summary line after a move.
  - `config.rs`, `quicklook.rs`, `paths.rs`, `names.rs`, `text.rs` —
    configuration, preview state, and path, name and text helpers.
- `app/` — the front end: configuration file, disk, terminal drawing with
  ratatui, keyboard with crossterm, and the `qlmanage` preview process.
- `tests/` — tests of the library.

## Configuration

Create `.docsort.toml` in the current directory (or an ancestor of it) or
in the home directory, or pass `--config <path>`:

```toml
[[inboxes]]
label = "Downloads"          # optional; defaults to the folder name
path = "/path/to/inbox"

[destination]
root = "/path/to/archive"
```
