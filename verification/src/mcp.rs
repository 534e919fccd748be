//! The tool bridge: the answer to each line of JSON-RPC input, which method a
//! request names, and which HTTP call to the memory server a tool call becomes.

use vstd::prelude::*;
use vstd::string::*;
use vstd::utf8::encode_utf8;

verus! {

/// The JSON-RPC methods that the bridge answers.
#[derive(Clone, Copy, Debug, PartialEq, Eq)]
pub enum RpcMethod {
    Initialize,
    ToolsList,
    ToolsCall,
    Unknown,
}

/// The method that the text `m` names.
pub open spec fn method_kind(m: Seq<char>) -> RpcMethod {
    if m == "initialize"@ {
        RpcMethod::Initialize
    } else if m == "tools/list"@ {
        RpcMethod::ToolsList
    } else if m == "tools/call"@ {
        RpcMethod::ToolsCall
    } else {
        RpcMethod::Unknown
    }
}

/// The method that a request names; a request without one names the empty text.
pub fn classify_method(method: &str) -> (kind: RpcMethod)
    ensures
        kind == method_kind(method@),
{
    let m = method.to_owned();
    if m == String::from_str("initialize") {
        RpcMethod::Initialize
    } else if m == String::from_str("tools/list") {
        RpcMethod::ToolsList
    } else if m == String::from_str("tools/call") {
        RpcMethod::ToolsCall
    } else {
        RpcMethod::Unknown
    }
}

/// The arguments of a tool call that the tools read: each text argument that
/// is present as a string, and each count that is present as an unsigned integer.
pub struct ToolArguments {
    pub content: Option<String>,
    pub mem_type: Option<String>,
    pub keyword: Option<String>,
    pub q: Option<String>,
    pub role: Option<String>,
    pub step_type: Option<String>,
    pub max: Option<u64>,
    pub limit: Option<u64>,
}

/// The arguments of a tool call as texts and counts.
pub struct ToolArgumentsView {
    pub content: Option<Seq<char>>,
    pub mem_type: Option<Seq<char>>,
    pub keyword: Option<Seq<char>>,
    pub q: Option<Seq<char>>,
    pub role: Option<Seq<char>>,
    pub step_type: Option<Seq<char>>,
    pub max: Option<u64>,
    pub limit: Option<u64>,
}

impl View for ToolArguments {
    type V = ToolArgumentsView;

    open spec fn view(&self) -> ToolArgumentsView {
        ToolArgumentsView {
            content: opt_text(self.content),
            mem_type: opt_text(self.mem_type),
            keyword: opt_text(self.keyword),
            q: opt_text(self.q),
            role: opt_text(self.role),
            step_type: opt_text(self.step_type),
            max: self.max,
            limit: self.limit,
        }
    }
}

/// An HTTP call to the memory server: a GET of a URL, or a POST of a JSON
/// object whose fields are all strings.
#[derive(Debug)]
pub enum HttpCall {
    Get { url: String },
    Post { url: String, fields: Vec<(String, String)> },
}

/// An HTTP call as texts.
pub enum HttpCallView {
    Get { url: Seq<char> },
    Post { url: Seq<char>, fields: Seq<(Seq<char>, Seq<char>)> },
}

impl View for HttpCall {
    type V = HttpCallView;

    open spec fn view(&self) -> HttpCallView {
        match self {
            HttpCall::Get { url } => HttpCallView::Get { url: url@ },
            HttpCall::Post { url, fields } => HttpCallView::Post {
                url: url@,
                fields: fields@.map_values(|f: (String, String)| (f.0@, f.1@)),
            },
        }
    }
}

/// The text of a string that may be absent.
pub open spec fn opt_text(v: Option<String>) -> Option<Seq<char>> {
    match v {
        Some(s) => Some(s@),
        None => None,
    }
}

/// The text `v`, or `default` when it is absent.
pub open spec fn text_or(v: Option<Seq<char>>, default: Seq<char>) -> Seq<char> {
    match v {
        Some(s) => s,
        None => default,
    }
}

/// The count `v`, or `default` when it is absent.
pub open spec fn count_or(v: Option<u64>, default: nat) -> nat {
    match v {
        Some(n) => n as nat,
        None => default,
    }
}

/// The decimal digit for `d` (taken below 10).
pub open spec fn digit_char(d: nat) -> char {
    if d == 0 {
        '0'
    } else if d == 1 {
        '1'
    } else if d == 2 {
        '2'
    } else if d == 3 {
        '3'
    } else if d == 4 {
        '4'
    } else if d == 5 {
        '5'
    } else if d == 6 {
        '6'
    } else if d == 7 {
        '7'
    } else if d == 8 {
        '8'
    } else {
        '9'
    }
}

/// The decimal numeral of `n`, without leading zeros.
pub open spec fn decimal(n: nat) -> Seq<char>
    decreases n,
{
    if n < 10 {
        seq![digit_char(n)]
    } else {
        decimal(n / 10).push(digit_char(n % 10))
    }
}

/// Whether the byte `b` is left as it is in a URL component: an ASCII letter
/// or digit, or one of `-`, `.`, `_`, `~`.
pub open spec fn is_unreserved(b: u8) -> bool {
    (48 <= b <= 57) || (65 <= b <= 90) || (97 <= b <= 122) || b == 45 || b == 46 || b == 95
        || b == 126
}

/// The upper-case hexadecimal digit for `d` (taken below 16).
pub open spec fn upper_hex_char(d: u8) -> char {
    if d < 10 {
        digit_char(d as nat)
    } else if d == 10 {
        'A'
    } else if d == 11 {
        'B'
    } else if d == 12 {
        'C'
    } else if d == 13 {
        'D'
    } else if d == 14 {
        'E'
    } else {
        'F'
    }
}

/// The percent-encoding of the bytes `bytes`: each unreserved byte stands for
/// itself, and each other byte becomes `%` and its two upper-case hex digits.
pub open spec fn percent_encoded(bytes: Seq<u8>) -> Seq<char>
    decreases bytes.len(),
{
    if bytes.len() == 0 {
        Seq::empty()
    } else {
        let b = bytes.last();
        let tail = if is_unreserved(b) {
            seq![b as char]
        } else {
            seq!['%', upper_hex_char(b / 16), upper_hex_char(b % 16)]
        };
        percent_encoded(bytes.drop_last()) + tail
    }
}

/// `urlencoding::encode`: percent-encodes every byte of the UTF-8 form of `s`
/// except ASCII letters, digits, `-`, `.`, `_` and `~`.
#[verifier::external_body]
fn url_encode(s: &str) -> (r: String)
    ensures
        r@ == percent_encoded(s.spec_bytes()),
{
    urlencoding::encode(s).into_owned()
}

/// The decimal numeral of `n` as a string.
pub fn decimal_text(n: u64) -> (s: String)
    ensures
        s@ == decimal(n as nat),
    decreases n,
{
    if n < 10 {
        String::from_str(digit_text(n))
    } else {
        let mut s = decimal_text(n / 10);
        s.append(digit_text(n % 10));
        s
    }
}

/// The one-character text of the digit `d`.
fn digit_text(d: u64) -> (s: &'static str)
    requires
        d < 10,
    ensures
        s@ == seq![digit_char(d as nat)],
{
    proof {
        reveal_strlit("0");
        reveal_strlit("1");
        reveal_strlit("2");
        reveal_strlit("3");
        reveal_strlit("4");
        reveal_strlit("5");
        reveal_strlit("6");
        reveal_strlit("7");
        reveal_strlit("8");
        reveal_strlit("9");
    }
    if d == 0 {
        "0"
    } else if d == 1 {
        "1"
    } else if d == 2 {
        "2"
    } else if d == 3 {
        "3"
    } else if d == 4 {
        "4"
    } else if d == 5 {
        "5"
    } else if d == 6 {
        "6"
    } else if d == 7 {
        "7"
    } else if d == 8 {
        "8"
    } else {
        "9"
    }
}

/// The HTTP call that the tool `tool` makes with `args` against the server at
/// `base`, or `None` for a tool the bridge does not know. Absent texts count as
/// empty, an absent memory type as `fact`, and absent counts as 10 events of
/// context and 20 steps of trace.
pub open spec fn tool_call_plan(base: Seq<char>, tool: Seq<char>, args: ToolArgumentsView) -> Option<
    HttpCallView,
> {
    if tool == "add_memory"@ {
        Some(
            HttpCallView::Post {
                url: base + "/memory"@,
                fields: seq![
                    ("content"@, text_or(args.content, Seq::empty())),
                    ("mem_type"@, text_or(args.mem_type, "fact"@)),
                ],
            },
        )
    } else if tool == "query_memory"@ {
        Some(
            HttpCallView::Get {
                url: base + "/query?keyword="@ + percent_encoded(
                    encode_utf8(text_or(args.keyword, Seq::empty())),
                ),
            },
        )
    } else if tool == "semantic_search"@ {
        Some(
            HttpCallView::Get {
                url: base + "/semantic_search?q="@ + percent_encoded(
                    encode_utf8(text_or(args.q, Seq::empty())),
                ),
            },
        )
    } else if tool == "add_short_term"@ {
        Some(
            HttpCallView::Post {
                url: base + "/short_term"@,
                fields: seq![
                    ("role"@, text_or(args.role, Seq::empty())),
                    ("content"@, text_or(args.content, Seq::empty())),
                ],
            },
        )
    } else if tool == "get_short_term_context"@ {
        Some(
            HttpCallView::Get {
                url: base + "/short_term/context?max="@ + decimal(count_or(args.max, 10)),
            },
        )
    } else if tool == "add_reasoning_step"@ {
        Some(
            HttpCallView::Post {
                url: base + "/reasoning"@,
                fields: seq![
                    ("step_type"@, text_or(args.step_type, Seq::empty())),
                    ("content"@, text_or(args.content, Seq::empty())),
                ],
            },
        )
    } else if tool == "get_reasoning_trace"@ {
        Some(
            HttpCallView::Get {
                url: base + "/reasoning/trace?max="@ + decimal(count_or(args.limit, 20)),
            },
        )
    } else {
        None
    }
}

/// The lengths of the tool names, which are all different, so the names
/// tell the tools apart.
proof fn lemma_tool_name_lengths()
    ensures
        "add_memory"@.len() == 10,
        "query_memory"@.len() == 12,
        "semantic_search"@.len() == 15,
        "add_short_term"@.len() == 14,
        "get_short_term_context"@.len() == 22,
        "add_reasoning_step"@.len() == 18,
        "get_reasoning_trace"@.len() == 19,
{
    reveal_strlit("add_memory");
    reveal_strlit("query_memory");
    reveal_strlit("semantic_search");
    reveal_strlit("add_short_term");
    reveal_strlit("get_short_term_context");
    reveal_strlit("add_reasoning_step");
    reveal_strlit("get_reasoning_trace");
}

/// Law of the `add_memory` tool: it posts the content and the memory type it
/// was given, as given; only an absent type becomes `fact`, and only an absent
/// content becomes empty.
pub proof fn lemma_add_memory_posts_given_fields(base: Seq<char>, args: ToolArgumentsView)
    ensures
        tool_call_plan(base, "add_memory"@, args) matches Some(HttpCallView::Post { url, fields })
            && url == base + "/memory"@ && fields.len() == 2 && fields[0].0 == "content"@
            && fields[1].0 == "mem_type"@ && (args.mem_type matches Some(m) ==> fields[1].1 == m)
            && (args.mem_type is None ==> fields[1].1 == "fact"@) && (args.content matches Some(
            c,
        ) ==> fields[0].1 == c) && (args.content is None ==> fields[0].1 == Seq::<char>::empty()),
{
}

/// Law of the text tools: `add_short_term` posts the role and content given,
/// `add_reasoning_step` the step type and content given, each absent one as
/// the empty text.
pub proof fn lemma_text_tools_post_given_fields(base: Seq<char>, args: ToolArgumentsView)
    ensures
        tool_call_plan(base, "add_short_term"@, args) matches Some(HttpCallView::Post { url, fields })
            && url == base + "/short_term"@ && fields.len() == 2 && fields[0].0 == "role"@
            && fields[1].0 == "content"@ && (args.role matches Some(r) ==> fields[0].1 == r) && (
        args.content matches Some(c) ==> fields[1].1 == c),
        tool_call_plan(base, "add_reasoning_step"@, args) matches Some(
            HttpCallView::Post { url, fields },
        ) && url == base + "/reasoning"@ && fields.len() == 2 && fields[0].0 == "step_type"@
            && fields[1].0 == "content"@ && (args.step_type matches Some(t) ==> fields[0].1 == t)
            && (args.content matches Some(c) ==> fields[1].1 == c),
{
    lemma_tool_name_lengths();
}

/// Law of the search tools: `query_memory` and `semantic_search` send the
/// keyword and the query given, percent-encoded, and an absent one as the
/// empty text.
pub proof fn lemma_search_tools_send_given_text(base: Seq<char>, args: ToolArgumentsView)
    ensures
        tool_call_plan(base, "query_memory"@, args) matches Some(HttpCallView::Get { url })
            && url == base + "/query?keyword="@ + percent_encoded(
            encode_utf8(
                match args.keyword {
                    Some(k) => k,
                    None => Seq::empty(),
                },
            ),
        ),
        tool_call_plan(base, "semantic_search"@, args) matches Some(HttpCallView::Get { url })
            && url == base + "/semantic_search?q="@ + percent_encoded(
            encode_utf8(
                match args.q {
                    Some(q) => q,
                    None => Seq::empty(),
                },
            ),
        ),
{
    lemma_tool_name_lengths();
}

/// Law of the count tools: a count given is the one asked for, and only an
/// absent count becomes the default (10 events, 20 steps).
pub proof fn lemma_count_tools_ask_given_count(base: Seq<char>, args: ToolArgumentsView)
    ensures
        tool_call_plan(base, "get_short_term_context"@, args) matches Some(HttpCallView::Get { url })
            && url == base + "/short_term/context?max="@ + decimal(
            match args.max {
                Some(m) => m as nat,
                None => 10,
            },
        ),
        tool_call_plan(base, "get_reasoning_trace"@, args) matches Some(HttpCallView::Get { url })
            && url == base + "/reasoning/trace?max="@ + decimal(
            match args.limit {
                Some(m) => m as nat,
                None => 20,
            },
        ),
{
    lemma_tool_name_lengths();
}

/// The text of `v`, or a copy of `default` when it is absent.
fn text_or_default(v: Option<String>, default: &str) -> (s: String)
    ensures
        s@ == text_or(opt_text(v), default@),
{
    match v {
        Some(s) => s,
        None => String::from_str(default),
    }
}

/// `base` followed by `suffix`.
fn joined(base: &str, suffix: &str) -> (s: String)
    ensures
        s@ == base@ + suffix@,
{
    let mut s = String::from_str(base);
    s.append(suffix);
    s
}

/// A POST of two string fields.
fn post2(url: String, k1: &str, v1: String, k2: &str, v2: String) -> (call: HttpCall)
    ensures
        call@ == (HttpCallView::Post { url: url@, fields: seq![(k1@, v1@), (k2@, v2@)] }),
{
    let mut fields: Vec<(String, String)> = Vec::new();
    fields.push((String::from_str(k1), v1));
    fields.push((String::from_str(k2), v2));
    let call = HttpCall::Post { url, fields };
    proof {
        let v = fields@.map_values(|f: (String, String)| (f.0@, f.1@));
        assert(v =~= seq![(k1@, v1@), (k2@, v2@)]);
    }
    call
}

/// The HTTP call that the tool `tool` makes with `args` against the server at
/// `base`, or `None` for a tool the bridge does not know.
pub fn plan_tool_call(base: &str, tool: &str, args: ToolArguments) -> (plan: Option<HttpCall>)
    ensures
        match (plan, tool_call_plan(base@, tool@, args@)) {
            (Some(call), Some(expected)) => call@ == expected,
            (None, None) => true,
            _ => false,
        },
{
    proof {
        reveal_strlit("");
        assert(""@ =~= Seq::<char>::empty());
    }
    let name = tool.to_owned();
    if name == String::from_str("add_memory") {
        let url = joined(base, "/memory");
        let content = text_or_default(args.content, "");
        let mem_type = text_or_default(args.mem_type, "fact");
        Some(post2(url, "content", content, "mem_type", mem_type))
    } else if name == String::from_str("query_memory") {
        let keyword = text_or_default(args.keyword, "");
        let mut url = joined(base, "/query?keyword=");
        let enc = url_encode(keyword.as_str());
        url.append(enc.as_str());
        Some(HttpCall::Get { url })
    } else if name == String::from_str("semantic_search") {
        let q = text_or_default(args.q, "");
        let mut url = joined(base, "/semantic_search?q=");
        let enc = url_encode(q.as_str());
        url.append(enc.as_str());
        Some(HttpCall::Get { url })
    } else if name == String::from_str("add_short_term") {
        let url = joined(base, "/short_term");
        let role = text_or_default(args.role, "");
        let content = text_or_default(args.content, "");
        Some(post2(url, "role", role, "content", content))
    } else if name == String::from_str("get_short_term_context") {
        let max = match args.max {
            Some(m) => m,
            None => 10,
        };
        let mut url = joined(base, "/short_term/context?max=");
        let num = decimal_text(max);
        url.append(num.as_str());
        Some(HttpCall::Get { url })
    } else if name == String::from_str("add_reasoning_step") {
        let url = joined(base, "/reasoning");
        let step_type = text_or_default(args.step_type, "");
        let content = text_or_default(args.content, "");
        Some(post2(url, "step_type", step_type, "content", content))
    } else if name == String::from_str("get_reasoning_trace") {
        let limit = match args.limit {
            Some(m) => m,
            None => 20,
        };
        let mut url = joined(base, "/reasoning/trace?max=");
        let num = decimal_text(limit);
        url.append(num.as_str());
        Some(HttpCall::Get { url })
    } else {
        None
    }
}

/// The text that `str::trim` leaves of `s`: `s` without its leading and
/// trailing white space (Unicode `White_Space`).
pub uninterp spec fn trimmed(s: Seq<char>) -> Seq<char>;

/// `str::trim`: `s` without leading and trailing white space. Its result is a
/// function of `s` alone, named `trimmed`.
#[verifier::external_body]
fn trim_text(s: &str) -> (r: &str)
    ensures
        r@ == trimmed(s@),
{
    s.trim()
}

/// The members of a JSON-RPC request that the bridge reads: the `id` member
/// as JSON text, and the `method` and `params.name` members where they are
/// strings.
pub struct RpcRequest {
    pub id_json: Option<String>,
    pub method: Option<String>,
    pub tool: Option<String>,
}

/// The members of a request as texts.
pub struct RpcRequestView {
    pub id_json: Option<Seq<char>>,
    pub method: Option<Seq<char>>,
    pub tool: Option<Seq<char>>,
}

impl View for RpcRequest {
    type V = RpcRequestView;

    open spec fn view(&self) -> RpcRequestView {
        RpcRequestView {
            id_json: opt_text(self.id_json),
            method: opt_text(self.method),
            tool: opt_text(self.tool),
        }
    }
}

/// What `serde_json` makes of the line `line` as a request: its members as
/// `parse_request` reads them, or the text of the parse error.
pub uninterp spec fn parsed_request(line: Seq<char>) -> Result<RpcRequestView, Seq<char>>;

/// The tool arguments that `serde_json` finds in the line `line`, as
/// `parse_tool_arguments` reads them.
pub uninterp spec fn parsed_tool_arguments(line: Seq<char>) -> ToolArgumentsView;

/// `serde_json::from_str` into a `serde_json::Value`, then the members `id`
/// (rendered back as JSON text), `method` and `params.name` (where they are
/// strings); or the `Display` text of the parse error. The result is a function
/// of the line alone, named `parsed_request`.
#[verifier::external_body]
fn parse_request(line: &str) -> (r: Result<RpcRequest, String>)
    ensures
        match r {
            Ok(req) => parsed_request(line@) == Ok::<RpcRequestView, Seq<char>>(req@),
            Err(e) => parsed_request(line@) == Err::<RpcRequestView, Seq<char>>(e@),
        },
{
    match serde_json::from_str::<serde_json::Value>(line) {
        Err(e) => Err(e.to_string()),
        Ok(v) => Ok(RpcRequest {
            id_json: v.get("id").map(ToString::to_string),
            method: v.get("method").and_then(serde_json::Value::as_str).map(String::from),
            tool: v["params"]["name"].as_str().map(String::from),
        }),
    }
}

/// `serde_json::from_str` into a `serde_json::Value`, then the members of
/// `params.arguments` that the tools read: each text where it is a string,
/// each count where it is an unsigned integer. The result is a function of the
/// line alone, named `parsed_tool_arguments`; `requires` asks for a line that
/// parses.
#[verifier::external_body]
fn parse_tool_arguments(line: &str) -> (r: ToolArguments)
    requires
        parsed_request(line@) is Ok,
    ensures
        r@ == parsed_tool_arguments(line@),
{
    let v: serde_json::Value = serde_json::from_str(line).unwrap_or_default();
    let a = &v["params"]["arguments"];
    ToolArguments {
        content: a["content"].as_str().map(String::from),
        mem_type: a["mem_type"].as_str().map(String::from),
        keyword: a["keyword"].as_str().map(String::from),
        q: a["q"].as_str().map(String::from),
        role: a["role"].as_str().map(String::from),
        step_type: a["step_type"].as_str().map(String::from),
        max: a.get("max").and_then(serde_json::Value::as_u64),
        limit: a.get("limit").and_then(serde_json::Value::as_u64),
    }
}

/// What the bridge answers to one line of input. `id_json` is the request's
/// `id` member as JSON text, absent when the request has none.
pub enum BridgeReply {
    /// A blank line: no answer.
    Skip,
    /// A line that is not JSON: the JSON-RPC parse error, with this message.
    ParseError { message: String },
    /// The answer to `initialize`.
    Initialize { id_json: Option<String> },
    /// The list of tools.
    ToolsList { id_json: Option<String> },
    /// A tool call: the HTTP call to make, or `None` for an unknown tool.
    ToolCall { id_json: Option<String>, call: Option<HttpCall> },
    /// Any other method: the JSON-RPC error "Method not found".
    MethodNotFound { id_json: Option<String> },
}

/// An answer as texts.
pub enum BridgeReplyView {
    Skip,
    ParseError { message: Seq<char> },
    Initialize { id_json: Option<Seq<char>> },
    ToolsList { id_json: Option<Seq<char>> },
    ToolCall { id_json: Option<Seq<char>>, call: Option<HttpCallView> },
    MethodNotFound { id_json: Option<Seq<char>> },
}

/// The view of a call that may be absent.
pub open spec fn opt_call(c: Option<HttpCall>) -> Option<HttpCallView> {
    match c {
        Some(call) => Some(call@),
        None => None,
    }
}

impl View for BridgeReply {
    type V = BridgeReplyView;

    open spec fn view(&self) -> BridgeReplyView {
        match self {
            BridgeReply::Skip => BridgeReplyView::Skip,
            BridgeReply::ParseError { message } => BridgeReplyView::ParseError {
                message: message@,
            },
            BridgeReply::Initialize { id_json } => BridgeReplyView::Initialize {
                id_json: opt_text(*id_json),
            },
            BridgeReply::ToolsList { id_json } => BridgeReplyView::ToolsList {
                id_json: opt_text(*id_json),
            },
            BridgeReply::ToolCall { id_json, call } => BridgeReplyView::ToolCall {
                id_json: opt_text(*id_json),
                call: opt_call(*call),
            },
            BridgeReply::MethodNotFound { id_json } => BridgeReplyView::MethodNotFound {
                id_json: opt_text(*id_json),
            },
        }
    }
}

/// The answer to the input line `line`, for a memory server at `base`: a blank
/// line gets none; a line that is not JSON gets the parse error; otherwise the
/// method decides, a missing method counting as the empty text, and a tool
/// call plans the call of its tool, a missing tool name counting as the empty
/// text.
pub open spec fn bridge_reply(base: Seq<char>, line: Seq<char>) -> BridgeReplyView {
    if trimmed(line).len() == 0 {
        BridgeReplyView::Skip
    } else {
        match parsed_request(line) {
            Err(e) => BridgeReplyView::ParseError { message: "Parse error: "@ + e },
            Ok(req) => match method_kind(text_or(req.method, Seq::empty())) {
                RpcMethod::Initialize => BridgeReplyView::Initialize { id_json: req.id_json },
                RpcMethod::ToolsList => BridgeReplyView::ToolsList { id_json: req.id_json },
                RpcMethod::ToolsCall => BridgeReplyView::ToolCall {
                    id_json: req.id_json,
                    call: tool_call_plan(
                        base,
                        text_or(req.tool, Seq::empty()),
                        parsed_tool_arguments(line),
                    ),
                },
                RpcMethod::Unknown => BridgeReplyView::MethodNotFound { id_json: req.id_json },
            },
        }
    }
}

/// The number that the decimal digits `s` write, most significant first.
pub open spec fn digits_value(s: Seq<char>) -> int
    decreases s.len(),
{
    if s.len() == 0 {
        0
    } else {
        digits_value(s.drop_last()) * 10 + (s.last() as int - '0' as int)
    }
}

/// The digit for `d` is a decimal digit worth `d`.
proof fn lemma_digit_char_value(d: nat)
    requires
        d < 10,
    ensures
        '0' <= digit_char(d) <= '9',
        digit_char(d) as int - '0' as int == d,
        d > 0 ==> digit_char(d) != '0',
{
}

/// Law of decimal numerals: the numeral of `n` is made of decimal digits,
/// starts with a digit other than `0` unless `n` is 0, and reads back as `n`.
pub proof fn lemma_decimal_reads_back(n: nat)
    ensures
        decimal(n).len() >= 1,
        forall|i: int| 0 <= i < decimal(n).len() ==> '0' <= #[trigger] decimal(n)[i] <= '9',
        n > 0 ==> decimal(n)[0] != '0',
        digits_value(decimal(n)) == n,
    decreases n,
{
    if n >= 10 {
        lemma_decimal_reads_back(n / 10);
        lemma_digit_char_value(n % 10);
        let d = decimal(n);
        assert(d.drop_last() =~= decimal(n / 10));
        assert(d[0] == decimal(n / 10)[0]);
        assert(d.last() == digit_char(n % 10));
        assert(digits_value(d) == digits_value(decimal(n / 10)) * 10 + (n % 10));
    } else {
        lemma_digit_char_value(n);
        let d = decimal(n);
        assert(d.drop_last() =~= Seq::<char>::empty());
        assert(digits_value(d) == digits_value(d.drop_last()) * 10 + (d.last() as int - '0' as int));
    }
}

/// Law of the bridge: a blank line gets no answer; a line that is not JSON
/// gets "Parse error: " and the parser's message; a request names its method,
/// and `initialize` and `tools/list` get their answers with the request's id,
/// `tools/call` gets the planned call of the named tool with the request's id,
/// and any other method, or none, gets "Method not found" with the request's id.
pub proof fn lemma_bridge_answers(base: Seq<char>, line: Seq<char>)
    ensures
        trimmed(line).len() == 0 ==> bridge_reply(base, line) == BridgeReplyView::Skip,
        trimmed(line).len() > 0 ==> match parsed_request(line) {
            Err(e) => bridge_reply(base, line) == (BridgeReplyView::ParseError {
                message: "Parse error: "@ + e,
            }),
            Ok(req) => {
                &&& req.method == Some("initialize"@) ==> bridge_reply(base, line) == (
                BridgeReplyView::Initialize { id_json: req.id_json })
                &&& req.method == Some("tools/list"@) ==> bridge_reply(base, line) == (
                BridgeReplyView::ToolsList { id_json: req.id_json })
                &&& req.method == Some("tools/call"@) ==> bridge_reply(base, line) == (
                BridgeReplyView::ToolCall {
                    id_json: req.id_json,
                    call: tool_call_plan(
                        base,
                        match req.tool {
                            Some(t) => t,
                            None => Seq::empty(),
                        },
                        parsed_tool_arguments(line),
                    ),
                })
                &&& (req.method is None || (req.method != Some("initialize"@) && req.method
                    != Some("tools/list"@) && req.method != Some("tools/call"@))) ==> bridge_reply(
                    base,
                    line,
                ) == (BridgeReplyView::MethodNotFound { id_json: req.id_json })
            },
        },
{
    reveal_strlit("");
    reveal_strlit("initialize");
    reveal_strlit("tools/list");
    reveal_strlit("tools/call");
    assert("initialize"@.len() == 10);
    assert("tools/list"@.len() == 10);
    assert(""@ =~= Seq::<char>::empty());
    assert("tools/list"@[6] == 'l' && "tools/call"@[6] == 'c');
    assert("tools/list"@ != "tools/call"@);
    assert("initialize"@[0] == 'i' && "tools/list"@[0] == 't');
    assert("initialize"@ != "tools/list"@ && "initialize"@ != "tools/call"@);
}

/// The answer to one input line, for a memory server at `base`.
pub fn handle_line(base: &str, line: &str) -> (reply: BridgeReply)
    ensures
        reply@ == bridge_reply(base@, line@),
{
    proof {
        reveal_strlit("");
        assert(""@ =~= Seq::<char>::empty());
    }
    if trim_text(line).is_empty() {
        return BridgeReply::Skip;
    }
    match parse_request(line) {
        Err(e) => {
            let mut message = String::from_str("Parse error: ");
            message.append(e.as_str());
            BridgeReply::ParseError { message }
        },
        Ok(req) => {
            let method = text_or_default(req.method, "");
            match classify_method(method.as_str()) {
                RpcMethod::Initialize => BridgeReply::Initialize { id_json: req.id_json },
                RpcMethod::ToolsList => BridgeReply::ToolsList { id_json: req.id_json },
                RpcMethod::ToolsCall => {
                    let tool = text_or_default(req.tool, "");
                    let args = parse_tool_arguments(line);
                    let call = plan_tool_call(base, tool.as_str(), args);
                    BridgeReply::ToolCall { id_json: req.id_json, call }
                },
                RpcMethod::Unknown => BridgeReply::MethodNotFound { id_json: req.id_json },
            }
        },
    }
}

} // verus!
