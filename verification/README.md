# rfi

Tracks the state of Rust RFCs. For each RFC text in the `rust-lang/rfcs`
repository it reads the RFC's number and short title from the file name,
finds the GitHub issues that its "Rust Issue" section links to, asks GitHub
about each of them, and prints the RFC with the states of its issues.

## Layout

- `src/` — the library, verified with Verus.
  - `text.rs` — characters of strings, decimal digits, reading a `u32`.
  - `links.rs` — the grammar of GitHub issue and pull-request links, and
    the laws that a single link reads back as the issue it names.
  - `markdown.rs` — markdown events, as the `pulldown_cmark` parser
    produces them.
  - `rfc/` — RFC file names, the tracking section of an RFC's markdown,
    and the loading of an RFC: asking GitHub about its tracking issues one
    after the other (`RfcLoad`).
  - `github/` — issues, their states, the API token, the GraphQL query and
    the meaning of GitHub's answers.
  - `display.rs` — colours and texts of the printed lines.
  - `errors.rs` — the library's errors.
- `app/` — the program: git and file access, HTTP requests, JSON, the
  terminal output.
- `tests/` — tests of the library.
