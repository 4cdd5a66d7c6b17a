# codegraph

Verified core of a code-graph indexer: the parts that decide what goes
into the graph, proved with Verus.

- `src/config/` — build manifests (`tsconfig.json`, `go.mod`,
  `composer.json`, `Package.swift`, `pubspec.yaml`, Maven/Gradle,
  `Cargo.toml`, `.csproj`) folded into per-workspace configuration.
- `src/lang/` — COBOL preprocessing, embedded `EXEC` blocks, JCL jobs,
  Prisma schemas, HTML form actions and script references.
- `src/semantic/` — symbol table, declared-type environment, tiered call
  resolution, member visibility rules, framework detection, dependency
  injection bindings, route extractors, HTTP client calls, Markdown links.
- `src/pipeline/` — the statements the graph phases write: import
  resolution and import cycles, routes and MCP tools, community
  enrichment, embeddings, full-text indexes.
- `src/search.rs` — keyword-search query text and statements.
- `src/pattern.rs`, `src/chars.rs` — the `regex` crate and std's Unicode
  character properties, behind stated contracts.
- `app/` — the runtime around the library: file and database I/O,
  manifest parsing with serde, embeddings, and floating-point scores.
