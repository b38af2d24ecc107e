# graphite

Graphite is a compiled knowledge graph for software engineering: `.node` files with a
small YAML frontmatter (`id`, `category`) and a Markdown body, linked by `[edge:X]`
references and tied to source code by `[evidence:X]` references and
`@graphite:evidence` anchors. This crate is its library, written in Verus. Every
function in `src/` carries a contract; Verus proves each one, except the small
`external_body` wrappers around `serde_yaml`, `serde_json`, `pulldown-cmark` and parts
of `std`, whose contracts are trusted as they state what those calls return.

Layout:

- `src/lib.rs` — the data model (nodes, diagnostics, schema, graph) and its ordered maps.
- `src/node_parser.rs`, `src/schema.rs`, `src/config.rs` — reading `.node` files,
  `graph.schema` and `graphite.yaml`.
- `src/validation.rs` — the structural checks of a graph, with the laws that say when
  each check stays silent.
- `src/anchor_scanner.rs`, `src/sidecar.rs` — finding evidence anchors in source files
  and through `.graphite` sidecar files; the directory walk is a state machine that the
  caller drives with the results of file-system calls.
- `src/render.rs`, `src/markdown.rs`, `src/style.rs` — static HTML pages.
- `src/cli.rs` — the decisions and reports of the command-line tool.
- `src/text.rs`, `src/ordering.rs`, `src/paths.rs`, `src/yaml.rs`, `src/json.rs` —
  text, ordering and path helpers, and the calls into `serde_yaml`, `serde_json` and
  `std::path`, each behind a small trusted wrapper whose contract names its result.
- `app/main.rs` — the command-line program: argument parsing, file and process I/O,
  JSON output.
- `tests/` — tests of the library on concrete values.
