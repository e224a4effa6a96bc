# proofstorm-mcp

The decision logic of the Proofstorm MCP gateway, verified with Verus: request
bounds and coded errors, continuation cursors, JSON pointer reads and bounded
slices, topology and status searches, submission admission, runtime-action
admission, evidence exports and configuration-schema reads.

## Layout

- `src/` — the verified library. Every executable function carries a
  `requires`/`ensures` contract over spec models (`Seq`, `Map`, views of the
  library's types). Laws that relate several functions (cursor round trips,
  pointer resolution, submission edits) are public proof functions beside the
  code they speak of. Calls into `regex` and `reqwest::Url` go through small
  trusted wrappers whose contracts are stated in their doc comments.
- `tests/` — executable tests of the library on concrete values.
- `app/` — ordinary Rust around the library: argument handling, reading and
  decoding cell files (with a `--topology <file>` report), serde conversions
  between wire JSON and the library's `Json` model, error payloads, tool
  schema transforms and a configuration-search page. The durable store and
  the MCP tool router are not part of this build, so no server runs.
