# rgx

A terminal file explorer that searches the names and contents of a directory's
items with a regular expression, highlights what matched, and previews the
matches in each file.

    rgx [regex] [path]

Keys: `q` quit, `j`/`k` down/up, `g`/`G` top/bottom, `l` enter (on `(..)`: go
up), `h` go up, `n`/`N` next/previous item with a match, Ctrl-`h` toggle hidden
files.

## Layout

- `src/` is verified with Verus:
  - `text.rs`: character-level string functions (dash and line-break removal,
    substring search, path components).
  - `pattern.rs`: `Matcher`, the compiled regular expression, and the trusted
    wrappers around the `regex` crate.
  - `service.rs`: the entries of a listed directory (`filter_by_regex`).
  - `ui.rs`: the lines of the list and the preview pane.
  - `browser.rs`: the key handling of the explorer as a state machine.
  - `lite.rs`: a lighter listing with a content flag instead of a preview.
- `app/main.rs` reads the directory and the files, runs the terminal (termion,
  tui) and performs what the state machine asks for.
- `tests/` exercises the library on concrete values.
