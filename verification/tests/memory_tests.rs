use agent_memory::memory::{AgentMemory, MemoryEdge, MemoryNode};
use std::collections::HashMap;

fn node(id: &str, content: &str, mem_type: &str, created_at: u64) -> MemoryNode {
    MemoryNode {
        id: id.to_string(),
        content: content.to_string(),
        mem_type: mem_type.to_string(),
        created_at,
        metadata: HashMap::new(),
        embedding_bits: None,
    }
}

fn edge(relation: &str) -> MemoryEdge {
    MemoryEdge { relation: relation.to_string(), weight_bits: 1.0f32.to_bits(), created_at: 5 }
}

fn ids(nodes: &[&MemoryNode]) -> Vec<String> {
    nodes.iter().map(|n| n.id.clone()).collect()
}

#[test]
fn new_memory_is_empty() {
    let m = AgentMemory::new();
    assert_eq!(m.len(), 0);
    assert_eq!(m.edge_count(), 0);
    let d = AgentMemory::default();
    assert_eq!(d.len(), 0);
}

#[test]
fn add_node_appends() {
    let mut m = AgentMemory::new();
    assert_eq!(m.add_node(node("1", "sky is blue", "fact", 10)), Ok(()));
    assert_eq!(m.add_node(node("2", "grass is green", "fact", 11)), Ok(()));
    assert_eq!(m.len(), 2);
    assert_eq!(ids(&m.nodes()), vec!["1", "2"]);
}

#[test]
fn duplicate_content_and_type_is_refused() {
    let mut m = AgentMemory::new();
    m.add_node(node("1", "sky is blue", "fact", 10)).unwrap();
    let err = m.add_node(node("2", "sky is blue", "fact", 12)).unwrap_err();
    assert_eq!(err, "Duplicate node: content 'sky is blue' type 'fact' already exists");
    assert_eq!(m.len(), 1);
    // Same content with another type is a different node.
    assert_eq!(m.add_node(node("3", "sky is blue", "opinion", 12)), Ok(()));
    assert_eq!(m.len(), 2);
}

#[test]
fn duplicate_id_is_refused() {
    let mut m = AgentMemory::new();
    m.add_node(node("1", "sky is blue", "fact", 10)).unwrap();
    let err = m.add_node(node("1", "other", "fact", 12)).unwrap_err();
    assert_eq!(err, "Node with id 1 already exists");
    assert_eq!(m.len(), 1);
}

#[test]
fn content_check_comes_before_id_check() {
    let mut m = AgentMemory::new();
    m.add_node(node("1", "x", "t", 10)).unwrap();
    let err = m.add_node(node("1", "x", "t", 10)).unwrap_err();
    assert_eq!(err, "Duplicate node: content 'x' type 't' already exists");
}

#[test]
fn adding_a_node_twice_keeps_one_copy() {
    let mut m = AgentMemory::new();
    let n = node("a", "remember me", "fact", 3);
    assert!(m.add_node(n.clone()).is_ok());
    assert!(m.add_node(n).is_err());
    assert_eq!(m.len(), 1);
}

#[test]
fn add_edge_between_existing_nodes() {
    let mut m = AgentMemory::new();
    m.add_node(node("a", "A", "fact", 1)).unwrap();
    m.add_node(node("b", "B", "fact", 2)).unwrap();
    assert_eq!(m.add_edge("a", "b", edge("likes")), Ok(()));
    assert_eq!(m.add_edge("a", "b", edge("likes")), Ok(()));
    assert_eq!(m.edge_count(), 2);
}

#[test]
fn add_edge_reports_missing_endpoint() {
    let mut m = AgentMemory::new();
    m.add_node(node("a", "A", "fact", 1)).unwrap();
    assert_eq!(m.add_edge("x", "a", edge("r")), Err("From node not found".to_string()));
    assert_eq!(m.add_edge("a", "x", edge("r")), Err("To node not found".to_string()));
    assert_eq!(m.add_edge("x", "y", edge("r")), Err("From node not found".to_string()));
    assert_eq!(m.edge_count(), 0);
}

#[test]
fn keyword_search_ignores_case() {
    let mut m = AgentMemory::new();
    m.add_node(node("1", "Rust Is Great", "fact", 1)).unwrap();
    m.add_node(node("2", "python is fine", "fact", 2)).unwrap();
    m.add_node(node("3", "I TRUST rustaceans", "fact", 3)).unwrap();
    assert_eq!(ids(&m.search_by_keyword("rust")), vec!["1", "3"]);
    assert_eq!(ids(&m.search_by_keyword("RUST")), vec!["1", "3"]);
    assert_eq!(ids(&m.search_by_keyword("Python")), vec!["2"]);
    assert!(m.search_by_keyword("java").is_empty());
    assert_eq!(ids(&m.search_by_keyword("")), vec!["1", "2", "3"]);
}

#[test]
fn keyword_search_handles_non_ascii() {
    let mut m = AgentMemory::new();
    m.add_node(node("1", "Привет МИР", "fact", 1)).unwrap();
    assert_eq!(ids(&m.search_by_keyword("мир")), vec!["1"]);
    assert!(m.search_by_keyword("мира").is_empty());
}

#[test]
fn recent_nodes_newest_first() {
    let mut m = AgentMemory::new();
    m.add_node(node("1", "a", "t", 5)).unwrap();
    m.add_node(node("2", "b", "t", 9)).unwrap();
    m.add_node(node("3", "c", "t", 1)).unwrap();
    m.add_node(node("4", "d", "t", 7)).unwrap();
    assert_eq!(ids(&m.get_recent(10)), vec!["2", "4", "1", "3"]);
    assert_eq!(ids(&m.get_recent(2)), vec!["2", "4"]);
    assert!(m.get_recent(0).is_empty());
}

#[test]
fn recent_nodes_with_equal_times_keep_insertion_order() {
    let mut m = AgentMemory::new();
    m.add_node(node("1", "a", "t", 5)).unwrap();
    m.add_node(node("2", "b", "t", 5)).unwrap();
    m.add_node(node("3", "c", "t", 8)).unwrap();
    m.add_node(node("4", "d", "t", 5)).unwrap();
    assert_eq!(ids(&m.get_recent(10)), vec!["3", "1", "2", "4"]);
    assert_eq!(ids(&m.get_recent(3)), vec!["3", "1", "2"]);
}

#[test]
fn node_from_request_keeps_given_fields() {
    let mut meta = HashMap::new();
    meta.insert("source".to_string(), "chat".to_string());
    let n = MemoryNode::from_request(
        Some("given".to_string()),
        "c".to_string(),
        "fact".to_string(),
        Some(meta.clone()),
        Some(vec![0.5f32.to_bits()]),
    )
    .unwrap();
    assert_eq!(n.id, "given");
    assert_eq!(n.content, "c");
    assert_eq!(n.mem_type, "fact");
    assert_eq!(n.metadata, meta);
    assert_eq!(n.embedding_bits, Some(vec![0.5f32.to_bits()]));
    assert!(n.created_at > 1_577_836_800);
}

#[test]
fn node_from_request_fills_defaults() {
    let n = MemoryNode::from_request(None, "c".to_string(), "fact".to_string(), None, None).unwrap();
    assert_eq!(n.id.len(), 36);
    assert_eq!(n.id.chars().nth(14), Some('4'));
    assert!(n.metadata.is_empty());
    assert_eq!(n.embedding_bits, None);
}

fn embedded(id: &str, content: &str) -> MemoryNode {
    let mut n = node(id, content, "fact", 1);
    n.embedding_bits = Some(vec![1.0f32.to_bits()]);
    n
}

fn ranked_ids(ranked: &[(&MemoryNode, u32)]) -> Vec<(String, f32)> {
    ranked.iter().map(|(n, b)| (n.id.clone(), f32::from_bits(*b))).collect()
}

#[test]
fn rank_by_score_orders_highest_first() {
    let mut m = AgentMemory::new();
    m.add_node(embedded("a", "A")).unwrap();
    m.add_node(node("b", "B", "fact", 1)).unwrap();
    m.add_node(embedded("c", "C")).unwrap();
    m.add_node(embedded("d", "D")).unwrap();
    m.add_node(embedded("e", "E")).unwrap();
    let scores = vec![
        Some(0.25f32.to_bits()),
        None,
        Some((-0.5f32).to_bits()),
        Some(0.9f32.to_bits()),
        Some((-0.1f32).to_bits()),
    ];
    let ranked = m.rank_by_score(scores, 10);
    assert_eq!(
        ranked_ids(&ranked),
        vec![("d".to_string(), 0.9), ("a".to_string(), 0.25), ("e".to_string(), -0.1), ("c".to_string(), -0.5)]
    );
}

#[test]
fn rank_by_score_keeps_ties_in_order_and_truncates() {
    let mut m = AgentMemory::new();
    m.add_node(embedded("a", "A")).unwrap();
    m.add_node(embedded("b", "B")).unwrap();
    m.add_node(embedded("c", "C")).unwrap();
    m.add_node(embedded("d", "D")).unwrap();
    // 0.0 and -0.0 compare equal, so they keep their order.
    let scores = vec![
        Some((-0.0f32).to_bits()),
        Some(0.5f32.to_bits()),
        Some(0.0f32.to_bits()),
        Some(0.5f32.to_bits()),
    ];
    let ranked = m.rank_by_score(scores, 3);
    let ids: Vec<String> = ranked.iter().map(|(n, _)| n.id.clone()).collect();
    assert_eq!(ids, vec!["b", "d", "a"]);
}

#[test]
fn rank_by_score_with_extremes() {
    let mut m = AgentMemory::new();
    m.add_node(embedded("a", "A")).unwrap();
    m.add_node(embedded("b", "B")).unwrap();
    m.add_node(embedded("c", "C")).unwrap();
    let scores = vec![
        Some(f32::NEG_INFINITY.to_bits()),
        Some(f32::INFINITY.to_bits()),
        Some(f32::MIN_POSITIVE.to_bits()),
    ];
    let ranked = m.rank_by_score(scores, 10);
    let ids: Vec<String> = ranked.iter().map(|(n, _)| n.id.clone()).collect();
    assert_eq!(ids, vec!["b", "c", "a"]);
    assert!(m.rank_by_score(vec![Some(0), Some(0), Some(0)], 0).is_empty());
}

#[test]
fn accepts_node_and_edge_follow_add_rules() {
    let mut m = AgentMemory::new();
    let a = node("a", "A", "fact", 1);
    assert!(m.accepts_node(&a));
    m.add_node(a.clone()).unwrap();
    assert!(!m.accepts_node(&a));
    assert!(!m.accepts_node(&node("a", "other", "fact", 1)));
    assert!(!m.accepts_node(&node("z", "A", "fact", 1)));
    assert!(m.accepts_node(&node("z", "A", "opinion", 1)));
    assert!(m.accepts_edge("a", "a"));
    assert!(!m.accepts_edge("a", "b"));
    assert!(!m.accepts_edge("b", "a"));
}
