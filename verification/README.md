# spruce

Formatting, querying and tree views for JSON and XML, with terminal colors.

- `src/` is the library, verified with Verus:
  - `format.rs` detects the format and pretty-prints; `highlight.rs` colors JSON and
    XML and draws their trees; `query.rs` answers dot-notation queries on JSON and
    path queries on XML; `paint.rs` writes colored pieces to the terminal;
    `ansi.rs` reads terminal colors back into runs of one color;
    `window.rs` holds the state of the desktop window and what its actions do;
    `cli.rs` the commands of the command line; `errors.rs` the errors and their
    messages; `laws.rs` the properties that hold across functions.
  - `json.rs`, `xml.rs` and `text.rs` hold the small trusted functions through which the
    library calls `serde_json`, `quick_xml` and std, each with the contract it relies on.
- `app/` is the `spruce` command: argument parsing, reading and writing files.
- `tests/` runs the library on concrete inputs.
