# crate_helper

A language server for `Cargo.toml` files: completion of crate names and
versions, a hover that lists the latest releases as click-to-replace links,
quick fixes that swap a dependency's version, and inline hints (`✓` or
`⭡ x.y.z`) that tell whether a dependency is up to date.

The decisions are a library verified with Verus (`src/`); the program in
`app/` speaks LSP, talks to crates.io and serves the hover links.

- `toml_model.rs`, `toml_parser.rs`: the line-based reader of dependencies
  and the cursor context, with their mathematical model.
- `line_index.rs`, `position.rs`, `text.rs`: positions, offsets and text.
- `versions.rs`, `crates_client.rs`, `popular_crates.rs`: index entries,
  version order and status, search results.
- `server.rs`, `hover.rs`: completions, hover text, quick fixes and hints.
- `percent.rs`, `replacer.rs`: link encoding and the endpoint behind the
  hover links.
- `binary_lookup.rs`: how the editor extension finds the server program.
- `toml_laws.rs`, `section_laws.rs`, `edit_laws.rs`, `link_laws.rs`,
  `client_laws.rs`: the properties that span several functions, proved.
