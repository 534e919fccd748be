use agent_memory::mcp::{classify_method, decimal_text, plan_tool_call, HttpCall, RpcMethod, ToolArguments};

const BASE: &str = "http://127.0.0.1:8080";

fn no_args() -> ToolArguments {
    ToolArguments {
        content: None,
        mem_type: None,
        keyword: None,
        q: None,
        role: None,
        step_type: None,
        max: None,
        limit: None,
    }
}

fn get_url(call: Option<HttpCall>) -> String {
    match call {
        Some(HttpCall::Get { url }) => url,
        _ => panic!("expected a GET"),
    }
}

fn post(call: Option<HttpCall>) -> (String, Vec<(String, String)>) {
    match call {
        Some(HttpCall::Post { url, fields }) => (url, fields),
        _ => panic!("expected a POST"),
    }
}

fn pairs(v: &[(&str, &str)]) -> Vec<(String, String)> {
    v.iter().map(|(a, b)| (a.to_string(), b.to_string())).collect()
}

#[test]
fn methods_are_classified() {
    assert!(matches!(classify_method("initialize"), RpcMethod::Initialize));
    assert!(matches!(classify_method("tools/list"), RpcMethod::ToolsList));
    assert!(matches!(classify_method("tools/call"), RpcMethod::ToolsCall));
    assert!(matches!(classify_method(""), RpcMethod::Unknown));
    assert!(matches!(classify_method("Initialize"), RpcMethod::Unknown));
}

#[test]
fn add_memory_defaults_type_to_fact() {
    let mut args = no_args();
    args.content = Some("the sky is blue".to_string());
    let (url, fields) = post(plan_tool_call(BASE, "add_memory", args));
    assert_eq!(url, "http://127.0.0.1:8080/memory");
    assert_eq!(fields, pairs(&[("content", "the sky is blue"), ("mem_type", "fact")]));
    let (_, fields) = post(plan_tool_call(BASE, "add_memory", no_args()));
    assert_eq!(fields, pairs(&[("content", ""), ("mem_type", "fact")]));
}

#[test]
fn query_keyword_is_percent_encoded() {
    let mut args = no_args();
    args.keyword = Some("hello world!/ü~".to_string());
    let url = get_url(plan_tool_call(BASE, "query_memory", args));
    assert_eq!(url, "http://127.0.0.1:8080/query?keyword=hello%20world%21%2F%C3%BC~");
}

#[test]
fn semantic_search_query_is_encoded() {
    let mut args = no_args();
    args.q = Some("a&b=c".to_string());
    let url = get_url(plan_tool_call(BASE, "semantic_search", args));
    assert_eq!(url, "http://127.0.0.1:8080/semantic_search?q=a%26b%3Dc");
    let url = get_url(plan_tool_call(BASE, "semantic_search", no_args()));
    assert_eq!(url, "http://127.0.0.1:8080/semantic_search?q=");
}

#[test]
fn short_term_and_reasoning_posts() {
    let mut args = no_args();
    args.role = Some("user".to_string());
    args.content = Some("hi".to_string());
    let (url, fields) = post(plan_tool_call(BASE, "add_short_term", args));
    assert_eq!(url, "http://127.0.0.1:8080/short_term");
    assert_eq!(fields, pairs(&[("role", "user"), ("content", "hi")]));
    let mut args = no_args();
    args.step_type = Some("thought".to_string());
    let (url, fields) = post(plan_tool_call(BASE, "add_reasoning_step", args));
    assert_eq!(url, "http://127.0.0.1:8080/reasoning");
    assert_eq!(fields, pairs(&[("step_type", "thought"), ("content", "")]));
}

#[test]
fn context_and_trace_counts_have_defaults() {
    let url = get_url(plan_tool_call(BASE, "get_short_term_context", no_args()));
    assert_eq!(url, "http://127.0.0.1:8080/short_term/context?max=10");
    let mut args = no_args();
    args.max = Some(3);
    let url = get_url(plan_tool_call(BASE, "get_short_term_context", args));
    assert_eq!(url, "http://127.0.0.1:8080/short_term/context?max=3");
    let url = get_url(plan_tool_call(BASE, "get_reasoning_trace", no_args()));
    assert_eq!(url, "http://127.0.0.1:8080/reasoning/trace?max=20");
    let mut args = no_args();
    args.limit = Some(0);
    let url = get_url(plan_tool_call(BASE, "get_reasoning_trace", args));
    assert_eq!(url, "http://127.0.0.1:8080/reasoning/trace?max=0");
}

#[test]
fn unknown_tool_has_no_call() {
    assert!(plan_tool_call(BASE, "delete_everything", no_args()).is_none());
    assert!(plan_tool_call(BASE, "", no_args()).is_none());
}

#[test]
fn decimal_numerals() {
    assert_eq!(decimal_text(0), "0");
    assert_eq!(decimal_text(7), "7");
    assert_eq!(decimal_text(10), "10");
    assert_eq!(decimal_text(1234567890), "1234567890");
    assert_eq!(decimal_text(u64::MAX), u64::MAX.to_string());
}

use agent_memory::mcp::{handle_line, BridgeReply};

#[test]
fn blank_lines_get_no_reply() {
    assert!(matches!(handle_line(BASE, ""), BridgeReply::Skip));
    assert!(matches!(handle_line(BASE, "   \t "), BridgeReply::Skip));
}

#[test]
fn invalid_json_gets_parse_error() {
    match handle_line(BASE, "{not json") {
        BridgeReply::ParseError { message } => {
            let expected = format!("Parse error: {}", serde_json::from_str::<serde_json::Value>("{not json").unwrap_err());
            assert_eq!(message, expected);
        }
        _ => panic!("expected a parse error"),
    }
}

#[test]
fn initialize_and_list_echo_the_id() {
    match handle_line(BASE, r#"{"jsonrpc":"2.0","id":7,"method":"initialize"}"#) {
        BridgeReply::Initialize { id_json } => assert_eq!(id_json.as_deref(), Some("7")),
        _ => panic!("expected initialize"),
    }
    match handle_line(BASE, r#"{"id":"abc","method":"tools/list"}"#) {
        BridgeReply::ToolsList { id_json } => assert_eq!(id_json.as_deref(), Some("\"abc\"")),
        _ => panic!("expected tools/list"),
    }
}

#[test]
fn unknown_or_missing_method_is_not_found() {
    match handle_line(BASE, r#"{"id":1,"method":"resources/list"}"#) {
        BridgeReply::MethodNotFound { id_json } => assert_eq!(id_json.as_deref(), Some("1")),
        _ => panic!("expected method not found"),
    }
    match handle_line(BASE, r#"{"method":5}"#) {
        BridgeReply::MethodNotFound { id_json } => assert_eq!(id_json, None),
        _ => panic!("expected method not found"),
    }
}

#[test]
fn tool_call_line_plans_the_http_call() {
    let line = r#"{"id":2,"method":"tools/call","params":{"name":"query_memory","arguments":{"keyword":"a b"}}}"#;
    match handle_line(BASE, line) {
        BridgeReply::ToolCall { id_json, call: Some(HttpCall::Get { url }) } => {
            assert_eq!(id_json.as_deref(), Some("2"));
            assert_eq!(url, "http://127.0.0.1:8080/query?keyword=a%20b");
        }
        _ => panic!("expected a planned GET"),
    }
    let line = r#"{"id":3,"method":"tools/call","params":{"name":"get_reasoning_trace","arguments":{"limit":4}}}"#;
    match handle_line(BASE, line) {
        BridgeReply::ToolCall { call: Some(HttpCall::Get { url }), .. } => {
            assert_eq!(url, "http://127.0.0.1:8080/reasoning/trace?max=4");
        }
        _ => panic!("expected a planned GET"),
    }
    let line = r#"{"id":4,"method":"tools/call","params":{"name":"add_memory","arguments":{"content":"x","mem_type":7}}}"#;
    match handle_line(BASE, line) {
        BridgeReply::ToolCall { call: Some(HttpCall::Post { fields, .. }), .. } => {
            assert_eq!(fields, pairs(&[("content", "x"), ("mem_type", "fact")]));
        }
        _ => panic!("expected a planned POST"),
    }
    match handle_line(BASE, r#"{"id":5,"method":"tools/call","params":{"name":"nope"}}"#) {
        BridgeReply::ToolCall { call: None, .. } => {}
        _ => panic!("expected an unknown tool"),
    }
}
