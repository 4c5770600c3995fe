# dscribe

A note tool: pick a note with a fuzzy finder, open it in `$EDITOR` with its
front matter (the lines between the first two `---` lines) kept aside in a
cache file, then put the front matter back in front of the edited body.
An optional calendar picker selects dates.

- `src/` is the verified library: splitting and joining notes
  (`front_matter.rs`), the line encoding of files and delimiter lines
  (`text.rs`), cache file names and paths (`paths.rs`), finder entries
  (`searcher.rs`), the date picker's state machine (`calendar.rs`) and the
  command line (`cli.rs`).
- `app/` is the program around it: argument parsing, files, the editor,
  the finder UI and the terminal calendar.
- `tests/` runs the library on concrete notes, paths and dates.
