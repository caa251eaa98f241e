# helix_addons

Editor features for a modal text editor, written in Verus. Every function in
`src/` carries a contract; Verus proves all of them except six small
wrappers around `std` (`Path::join`, `Path::parent`, `Path::strip_prefix`,
`Path::is_absolute`, `str::to_lowercase`, `String::push`), whose contracts
state what `std` documents and are trusted.

- `github`, `pr_diff`, `github_commands`: pull-request data, the filters and
  `gh` arguments that list them, the diff buffer (its text, its hunk and file
  lines) and moving between files and hunks.
- `oil`, `oil_commands`, `oil_editor`: a directory edited as a buffer: the
  listing's text, reading an edited buffer back into create, delete and rename
  operations, and the overlay's state machine.
- `quickfix`, `recent_files`, `diagnostics`: the quickfix list, the list of
  recently opened files and the diagnostics popup.
- `symbol_tree`: the document-symbol side panel, a tree that folds and unfolds
  with a cursor over its visible rows.
- `mouse_hover`: when a hover request under the mouse is sent, dropped or shown.
- `text`, `path`: string helpers, the path operations used by the above,
  and lexical normalization of absolute paths.

Public proof functions named `law_*` state properties that hold across calls
(a round trip of the recent-files text, a toggle undone by a second toggle,
a full cycle through the quickfix list, and so on).

`app/` holds what talks to the outside world: the `gh` command, the
filesystem and the cache directory. `tests/` runs the library on concrete
values.
