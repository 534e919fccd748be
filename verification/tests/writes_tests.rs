use agent_memory::layers::{MemoryLayers, ReasoningStep, ShortTermEvent};
use agent_memory::memory::{AgentMemory, MemoryEdge, MemoryNode};
use agent_memory::writes::{write_edge, write_event, write_node, write_step, WriteOutcome};
use std::collections::HashMap;

fn node(id: &str, content: &str) -> MemoryNode {
    MemoryNode::from_request_at(Some(id.to_string()), content.to_string(), "fact".to_string(), None, None, 9)
}

fn edge() -> MemoryEdge {
    MemoryEdge { relation: "r".to_string(), weight_bits: 0, created_at: 1 }
}

#[test]
fn logged_node_write_is_applied() {
    let mut m = AgentMemory::new();
    let out = write_node(&mut m, node("a", "A"), Ok(()));
    assert!(matches!(out, WriteOutcome::Applied));
    assert_eq!(out.status(), 200);
    assert_eq!(out.error_text(), None);
    assert_eq!(m.len(), 1);
}

#[test]
fn failed_log_leaves_memory_untouched() {
    let mut m = AgentMemory::new();
    let out = write_node(&mut m, node("a", "A"), Err("disk full".to_string()));
    assert_eq!(out.status(), 500);
    assert_eq!(out.error_text(), Some("WAL error: disk full".to_string()));
    assert_eq!(m.len(), 0);
    let mut layers = MemoryLayers::new(5);
    let ev = ShortTermEvent::stamped("e".into(), "user".into(), "hi".into(), 3, serde_json::Value::Null);
    let out = write_event(&mut layers, ev, Err("no space".into()));
    assert_eq!(out.status(), 500);
    assert!(layers.get_short_term_context(10).is_empty());
    let st = ReasoningStep::stamped("s".into(), "thought".into(), "x".into(), 3, None, None);
    let out = write_step(&mut layers, st, Err("no space".into()));
    assert_eq!(out.status(), 500);
    assert!(layers.get_reasoning_trace(10).is_empty());
}

#[test]
fn refused_write_answers_with_library_message() {
    let mut m = AgentMemory::new();
    write_node(&mut m, node("a", "A"), Ok(()));
    let out = write_node(&mut m, node("b", "A"), Ok(()));
    assert_eq!(out.status(), 400);
    assert_eq!(out.error_text(), Some("Duplicate node: content 'A' type 'fact' already exists".to_string()));
    let out = write_edge(&mut m, "a".into(), "zz".into(), edge(), Ok(()));
    assert_eq!(out.status(), 400);
    assert_eq!(out.error_text(), Some("To node not found".to_string()));
    assert_eq!(m.edge_count(), 0);
    let out = write_edge(&mut m, "a".into(), "a".into(), edge(), Ok(()));
    assert_eq!(out.status(), 200);
    assert_eq!(m.edge_count(), 1);
    assert_eq!(m.len(), 1);
}

#[test]
fn logged_layer_writes_are_applied() {
    let mut layers = MemoryLayers::new(5);
    let ev = ShortTermEvent::stamped("e".into(), "user".into(), "hi".into(), 3, serde_json::Value::Null);
    assert_eq!(write_event(&mut layers, ev, Ok(())).status(), 200);
    let st = ReasoningStep::stamped("s".into(), "thought".into(), "x".into(), 3, None, None);
    assert_eq!(write_step(&mut layers, st, Ok(())).status(), 200);
    assert_eq!(layers.get_short_term_context(10)[0].id, "e");
    assert_eq!(layers.get_reasoning_trace(10)[0].timestamp, 3);
}

#[test]
fn stamped_constructors_keep_their_fields() {
    let n = MemoryNode::from_request_at(None, "c".into(), "t".into(), Some(HashMap::new()), None, 42);
    assert_eq!(n.created_at, 42);
    assert_eq!(n.id.len(), 36);
    let ev = ShortTermEvent::stamped("i".into(), "r".into(), "c".into(), 5, serde_json::Value::Bool(false));
    assert_eq!((ev.id.as_str(), ev.role.as_str(), ev.content.as_str(), ev.timestamp), ("i", "r", "c", 5));
}
