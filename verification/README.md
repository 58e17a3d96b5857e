# riteed core

The verified core of riteed, a GTK text editor, written in Verus. Each
module states in its contracts what it computes, and Verus proves the code
against them.

- `text`, `model`, `diff`: line slicing, the line diff (through the
  `similar` crate) and the row model with its line identity and hunks.
- `presentation`, `display`, `presentation_display`, `unified`, `inline`,
  `gutter`, `minimap_rows`: how a compare is shown: side by side, with
  unchanged runs collapsed, as one unified flow, with inline highlights,
  gutter numbers and minimap rows.
- `navigation`, `row_reveal`, `status`, `clipboard`, `target`: moving
  between hunks, revealing collapsed rows, the status line, copying from
  the unified view, and what a compare compares with.
- `review`, `review_session`: a review of a repository's changed files
  rendered as one text, with navigation, a change list and reveals.
- `find_in_files`, `minimap_diff`, `chunking`, `banner`, `state`, `zoom`,
  `error`, `git_process`, `i18n`: find in files, source-control minimap
  bands, chunked loading, banners, request bookkeeping, zoom, errors and
  translation (through `gettext-rs`).

The widgets, dialogs and file and process I/O of the editor are not part of
this crate. The tests under `tests/` run the library with the real outside
crates linked.
