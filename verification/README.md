# agent_memory

Memory for an AI agent, served over HTTP: a short-term buffer of conversation
events that keeps the most recent ones, a trace of reasoning steps, and a
long-term knowledge graph of facts joined by relations. Every change is first
appended to a write-ahead log (`memory.wal`), and on start the server replays
that log to rebuild its state.

Layout:

- `src/` is the verified library.
  - `layers.rs`: the bounded short-term buffer and the reasoning trace.
  - `memory.rs`: the knowledge graph, with de-duplication by identifier and by
    content and type, keyword search and recency ordering.
  - `graph.rs`: the `petgraph` graph that stores the nodes and edges.
  - `wal.rs`: the logged commands and what replaying them does.
  - `writes.rs`: each write is applied only after its log append succeeded.
  - `mcp.rs`: the JSON-RPC bridge's answer to each input line, including
    which HTTP call each tool makes.
  - `text.rs`, `clock.rs`: case folding and substring search; the clock and
    fresh identifiers.
- `app/` is the program: the HTTP server (`axum`), the log file, the embedding
  service, similarity ranking over floating-point embeddings, and the JSON-RPC
  bridge's input and output loop (run with the argument `mcp`).
- `tests/` exercises the library.
