//! Agent memory: a bounded short-term event buffer and reasoning trace, a
//! deduplicating knowledge graph, the replay of the write-ahead log that
//! rebuilds both after a restart, and the planning of the calls that the
//! JSON-RPC tool bridge makes to the memory server.

pub mod clock;
pub mod layers;
pub mod graph;
pub mod memory;
pub mod text;
pub mod wal;
pub mod mcp;
pub mod ranking;
pub mod writes;
