# forgexalith

The verified core of a personal knowledge-management engine for vaults of
Markdown notes: note formats, link extraction, vault paths, the folder tree,
editor tabs and auto-save, the file-watcher reload decision, the backlink
graph, the linked notes and degrees the graph view draws, and the canvas.

- `src/` — the library, written in Verus. Every public function carries a
  contract over a mathematical model of its data (sequences of characters,
  maps, multisets), and the laws that tie operations together are proof
  functions (`law_*`). Calls into `petgraph`, `pulldown-cmark`, `ammonia`,
  `serde_yaml`, `serde_json` and `uuid` go through small trusted wrappers.
  Their contracts state what the crates' sources show, or give a name to a
  result that only the crate computes; their `requires` keep out the
  inputs on which the crate would panic.
- `app/` — plain Rust around the library: floating-point geometry and
  layout, serializable copies of library types, the settings sanitizer for
  floating-point fields, and the driver that performs the editor's save
  actions.
- `tests/` — tests of the library on concrete values.
