# omir-validate

Conformance validation of OMIR R1 Bundles (`.omir` documents), as a verified
library with a thin command-line front end.

- `src/` — the library, verified with Verus: the JSON model, structural
  dispatch against the R1 JSON Schemas (through `jsonschema`), reference
  integrity, version presence, report assembly and the human rendering, and
  the laws that relate them (`src/laws.rs`).
- `app/` — the `omir-validate` command: argument handling, file I/O, the JSON
  report output.
- `tests/` — the conformance corpus and tests of each finding code and of the
  rendering.
