# BinOcular

Schema-driven binary inspection: a YAML schema describes where typed fields sit in a
file, and the interpreter reads them out of the bytes, reporting per field what it found
or why it could not.

The library in `src/` is written in Verus; each function's behaviour is stated in its
`requires`/`ensures` contract and proved.

- `ast`, `schema_error`, `error` — the schema model and the error types.
- `yaml`, `parser` — YAML decoding into the schema model and schema validation.
- `loader` — loading a schema file together with the files it includes, as a state
  machine driven by the caller's file reads (with include-cycle detection).
- `buffer`, `interpret` — byte sources and the field interpreter.
- `search` — hex search patterns and pattern search over a buffer.
- `render`, `text` — the text shown for offsets, types and values.
- `viewer`, `document`, `panes` — the viewer's logic: matching fields to schema lines,
  the field table, diagnostics, search navigation and the state of an open document.

`app/` is the command-line program: argument handling, file reading and JSON output
around the library.
