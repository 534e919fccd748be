use agent_memory::layers::{MemoryLayers, ReasoningStep, ShortTermEvent};
use agent_memory::memory::{AgentMemory, MemoryEdge, MemoryNode};
use agent_memory::wal::{collect_layer_records, replay_graph_commands, WalCommand};
use std::collections::HashMap;

fn node(id: &str, content: &str, created_at: u64) -> MemoryNode {
    MemoryNode {
        id: id.to_string(),
        content: content.to_string(),
        mem_type: "fact".to_string(),
        created_at,
        metadata: HashMap::new(),
        embedding_bits: None,
    }
}

fn add_node(id: &str, content: &str) -> WalCommand {
    WalCommand::AddNode { node: node(id, content, 1) }
}

fn add_edge(from: &str, to: &str) -> WalCommand {
    WalCommand::AddEdge {
        from_id: from.to_string(),
        to_id: to.to_string(),
        edge: MemoryEdge { relation: "rel".to_string(), weight_bits: 0, created_at: 1 },
    }
}

fn event(id: &str) -> WalCommand {
    WalCommand::AddShortTermEvent {
        event: ShortTermEvent {
            id: id.to_string(),
            role: "user".to_string(),
            content: "hi".to_string(),
            timestamp: 1,
            metadata: serde_json::Value::Null,
        },
    }
}

fn step(id: &str) -> WalCommand {
    WalCommand::AddReasoningStep {
        step: ReasoningStep {
            id: id.to_string(),
            step_type: "thought".to_string(),
            content: "think".to_string(),
            timestamp: 1,
            parent_id: None,
            tool_calls: None,
        },
    }
}

fn node_ids(m: &AgentMemory) -> Vec<String> {
    m.nodes().iter().map(|n| n.id.clone()).collect()
}

#[test]
fn replay_applies_graph_commands_in_order() {
    let mut m = AgentMemory::new();
    let cmds = vec![add_node("a", "A"), event("e1"), add_node("b", "B"), add_edge("a", "b"), step("s1")];
    let count = replay_graph_commands(&mut m, cmds);
    assert_eq!(count, Ok(3));
    assert_eq!(node_ids(&m), vec!["a", "b"]);
    assert_eq!(m.edge_count(), 1);
}

#[test]
fn replay_counts_and_skips_failing_commands() {
    let mut m = AgentMemory::new();
    let cmds = vec![
        add_node("a", "A"),
        add_node("a", "other"),
        add_node("c", "A"),
        add_edge("a", "missing"),
        add_edge("missing", "a"),
    ];
    let count = replay_graph_commands(&mut m, cmds);
    assert_eq!(count, Ok(5));
    assert_eq!(node_ids(&m), vec!["a"]);
    assert_eq!(m.edge_count(), 0);
}

#[test]
fn replay_matches_live_updates() {
    let mut live = AgentMemory::new();
    let _ = live.add_node(node("a", "A", 1));
    let _ = live.add_node(node("b", "B", 1));
    let _ = live.add_node(node("a", "dup", 1));
    let _ = live.add_edge("a", "b", MemoryEdge { relation: "rel".to_string(), weight_bits: 0, created_at: 1 });
    let mut replayed = AgentMemory::new();
    replay_graph_commands(
        &mut replayed,
        vec![add_node("a", "A"), add_node("b", "B"), add_node("a", "dup"), add_edge("a", "b")],
    )
    .unwrap();
    assert_eq!(node_ids(&replayed), node_ids(&live));
    assert_eq!(replayed.edge_count(), live.edge_count());
}

#[test]
fn replay_in_two_parts_matches_whole() {
    let mut whole = AgentMemory::new();
    replay_graph_commands(&mut whole, vec![add_node("a", "A"), add_node("b", "B"), add_edge("b", "a")]).unwrap();
    let mut parts = AgentMemory::new();
    replay_graph_commands(&mut parts, vec![add_node("a", "A")]).unwrap();
    replay_graph_commands(&mut parts, vec![add_node("b", "B"), add_edge("b", "a")]).unwrap();
    assert_eq!(node_ids(&whole), node_ids(&parts));
    assert_eq!(whole.edge_count(), parts.edge_count());
}

#[test]
fn repeated_node_command_counts_once() {
    let mut m = AgentMemory::new();
    replay_graph_commands(&mut m, vec![add_node("a", "A"), add_node("a", "A")]).unwrap();
    assert_eq!(m.len(), 1);
}

#[test]
fn empty_log_changes_nothing() {
    let mut m = AgentMemory::new();
    assert_eq!(replay_graph_commands(&mut m, vec![]), Ok(0));
    assert_eq!(m.len(), 0);
    let (events, steps) = collect_layer_records(vec![]);
    assert!(events.is_empty() && steps.is_empty());
}

#[test]
fn layer_records_keep_their_order() {
    let cmds = vec![event("e1"), add_node("a", "A"), step("s1"), event("e2"), step("s2"), add_edge("a", "a")];
    let (events, steps) = collect_layer_records(cmds);
    let e: Vec<&str> = events.iter().map(|e| e.id.as_str()).collect();
    let s: Vec<&str> = steps.iter().map(|s| s.id.as_str()).collect();
    assert_eq!(e, vec!["e1", "e2"]);
    assert_eq!(s, vec!["s1", "s2"]);
}

#[test]
fn recovered_layers_match_live_layers() {
    let cmds = vec![event("e1"), event("e2"), step("s1"), event("e3")];
    let (events, steps) = collect_layer_records(cmds);
    let mut layers = MemoryLayers::new(2);
    layers.restore_short_term(events);
    layers.restore_reasoning(steps);
    let ctx: Vec<&str> = layers.get_short_term_context(10).iter().map(|e| e.id.as_str()).collect();
    assert_eq!(ctx, vec!["e3", "e2"]);
    let trace: Vec<&str> = layers.get_reasoning_trace(10).iter().map(|s| s.id.as_str()).collect();
    assert_eq!(trace, vec!["s1"]);
}
