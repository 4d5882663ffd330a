# rusty_cleaner

Finds build outputs and package folders (`target`, `node_modules`, `venv`,
`__pycache__`, ...) under a folder, groups them by the language that made
them, and lets the user pick which to delete in a terminal screen.

- `src/` is the library, verified with Verus:
  - `text.rs`: the byte order of texts, used to keep categories sorted;
  - `language.rs`: which folder names are targets, the marker files, and
    the language a target folder belongs to;
  - `catalog.rs`: the folders found, numbered and grouped by category;
  - `sizes.rs`: exact size totals and the deletion progress;
  - `browser.rs`: the selection screen as a state machine over key presses,
    with its laws;
  - `rows.rs`: the rows the list shows, and which of them is highlighted.
- `app/` is the program: walking the disk, measuring folders, the terminal
  screen and the deletion itself.
