use agent_memory::layers::{MemoryLayers, ReasoningStep, ShortTermEvent, ToolCall};

fn event(id: &str) -> ShortTermEvent {
    ShortTermEvent {
        id: id.to_string(),
        role: "user".to_string(),
        content: format!("content {}", id),
        timestamp: 1,
        metadata: serde_json::Value::Null,
    }
}

fn step(id: &str) -> ReasoningStep {
    ReasoningStep {
        id: id.to_string(),
        step_type: "thought".to_string(),
        content: format!("step {}", id),
        timestamp: 1,
        parent_id: None,
        tool_calls: None,
    }
}

fn ids(events: &[&ShortTermEvent]) -> Vec<String> {
    events.iter().map(|e| e.id.clone()).collect()
}

fn step_ids(steps: &[&ReasoningStep]) -> Vec<String> {
    steps.iter().map(|s| s.id.clone()).collect()
}

fn is_uuid_v4(s: &str) -> bool {
    let c: Vec<char> = s.chars().collect();
    c.len() == 36
        && c.iter().enumerate().all(|(i, ch)| {
            if i == 8 || i == 13 || i == 18 || i == 23 {
                *ch == '-'
            } else {
                ch.is_ascii_digit() || ('a'..='f').contains(ch)
            }
        })
        && c[14] == '4'
        && "89ab".contains(c[19])
}

#[test]
fn new_layers_are_empty() {
    let layers = MemoryLayers::new(3);
    assert!(layers.get_short_term_context(10).is_empty());
    assert!(layers.get_reasoning_trace(10).is_empty());
}

#[test]
fn short_term_context_is_newest_first() {
    let mut layers = MemoryLayers::new(5);
    layers.add_short_term_event(event("a"));
    layers.add_short_term_event(event("b"));
    layers.add_short_term_event(event("c"));
    assert_eq!(ids(&layers.get_short_term_context(10)), vec!["c", "b", "a"]);
    assert_eq!(ids(&layers.get_short_term_context(2)), vec!["c", "b"]);
    assert!(layers.get_short_term_context(0).is_empty());
}

#[test]
fn full_buffer_drops_oldest_event() {
    let mut layers = MemoryLayers::new(2);
    layers.add_short_term_event(event("a"));
    layers.add_short_term_event(event("b"));
    layers.add_short_term_event(event("c"));
    assert_eq!(ids(&layers.get_short_term_context(10)), vec!["c", "b"]);
    layers.add_short_term_event(event("d"));
    assert_eq!(ids(&layers.get_short_term_context(10)), vec!["d", "c"]);
}

#[test]
fn zero_capacity_buffer_keeps_every_event() {
    let mut layers = MemoryLayers::new(0);
    layers.add_short_term_event(event("a"));
    layers.add_short_term_event(event("b"));
    layers.add_short_term_event(event("c"));
    assert_eq!(ids(&layers.get_short_term_context(10)), vec!["c", "b", "a"]);
}

#[test]
fn restore_short_term_keeps_most_recent() {
    let mut layers = MemoryLayers::new(3);
    layers.add_short_term_event(event("a"));
    let batch = vec![event("b"), event("c"), event("d"), event("e")];
    layers.restore_short_term(batch);
    assert_eq!(ids(&layers.get_short_term_context(10)), vec!["e", "d", "c"]);
}

#[test]
fn restore_short_term_matches_single_additions() {
    let mut restored = MemoryLayers::new(2);
    restored.restore_short_term(vec![event("a"), event("b"), event("c")]);
    let mut live = MemoryLayers::new(2);
    for id in ["a", "b", "c"] {
        live.add_short_term_event(event(id));
    }
    assert_eq!(
        ids(&restored.get_short_term_context(10)),
        ids(&live.get_short_term_context(10))
    );
}

#[test]
fn restore_in_two_batches_matches_one_batch() {
    let mut two = MemoryLayers::new(3);
    two.restore_short_term(vec![event("a"), event("b")]);
    two.restore_short_term(vec![event("c"), event("d")]);
    let mut one = MemoryLayers::new(3);
    one.restore_short_term(vec![event("a"), event("b"), event("c"), event("d")]);
    assert_eq!(ids(&two.get_short_term_context(10)), ids(&one.get_short_term_context(10)));
}

#[test]
fn reasoning_trace_is_newest_first() {
    let mut layers = MemoryLayers::new(1);
    layers.add_reasoning_step(step("s1"));
    layers.add_reasoning_step(step("s2"));
    layers.add_reasoning_step(step("s3"));
    assert_eq!(step_ids(&layers.get_reasoning_trace(20)), vec!["s3", "s2", "s1"]);
    assert_eq!(step_ids(&layers.get_reasoning_trace(1)), vec!["s3"]);
}

#[test]
fn restore_reasoning_replaces_trace() {
    let mut layers = MemoryLayers::new(1);
    layers.add_reasoning_step(step("old"));
    layers.restore_reasoning(vec![step("x"), step("y")]);
    assert_eq!(step_ids(&layers.get_reasoning_trace(20)), vec!["y", "x"]);
    layers.add_short_term_event(event("kept"));
    layers.restore_reasoning(vec![]);
    assert!(layers.get_reasoning_trace(20).is_empty());
    assert_eq!(ids(&layers.get_short_term_context(5)), vec!["kept"]);
}

#[test]
fn new_event_has_fresh_uuid_and_fields() {
    let meta = serde_json::Value::String("k".to_string());
    let ev = ShortTermEvent::new("assistant".to_string(), "hi".to_string(), meta.clone()).unwrap();
    assert_eq!(ev.role, "assistant");
    assert_eq!(ev.content, "hi");
    assert_eq!(ev.metadata, meta);
    assert!(is_uuid_v4(&ev.id), "{}", ev.id);
    assert!(ev.timestamp > 1_577_836_800);
    let other = ShortTermEvent::new("a".to_string(), "b".to_string(), serde_json::Value::Null).unwrap();
    assert_ne!(ev.id, other.id);
}

#[test]
fn new_step_has_fresh_uuid_and_fields() {
    let calls = vec![ToolCall {
        tool: "search".to_string(),
        input: serde_json::Value::Bool(true),
        output: Some("done".to_string()),
    }];
    let s = ReasoningStep::new(
        "action".to_string(),
        "look it up".to_string(),
        Some("p1".to_string()),
        Some(calls),
    )
    .unwrap();
    assert_eq!(s.step_type, "action");
    assert_eq!(s.content, "look it up");
    assert_eq!(s.parent_id.as_deref(), Some("p1"));
    let tc = s.tool_calls.as_ref().unwrap();
    assert_eq!(tc.len(), 1);
    assert_eq!(tc[0].tool, "search");
    assert!(is_uuid_v4(&s.id), "{}", s.id);
}

#[test]
fn clock_reads_after_2020() {
    let t = agent_memory::clock::now_secs().unwrap();
    assert!(t > 1_577_836_800);
}

#[test]
fn interleaved_operations_keep_most_recent_events() {
    let mut layers = MemoryLayers::new(3);
    layers.add_short_term_event(event("a"));
    layers.add_reasoning_step(step("s1"));
    layers.restore_short_term(vec![event("b"), event("c")]);
    layers.restore_reasoning(vec![step("s2")]);
    layers.add_short_term_event(event("d"));
    assert_eq!(ids(&layers.get_short_term_context(10)), vec!["d", "c", "b"]);
    layers.restore_short_term(vec![event("e")]);
    layers.add_reasoning_step(step("s3"));
    layers.add_short_term_event(event("f"));
    assert_eq!(ids(&layers.get_short_term_context(10)), vec!["f", "e", "d"]);
    assert_eq!(step_ids(&layers.get_reasoning_trace(10)), vec!["s3", "s2"]);
}
