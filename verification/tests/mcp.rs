use speakagent::llm::ResultKind;
use speakagent::mcp::{
    authorized, check_generation, job_name, jobs_text, new_id, num_threads, protocol_kind, protocol_version,
    required_arg, route, source_of, status_text, tool_defs, tool_names, tool_of, unsupported, McpServer, McpStart,
    initialize_result, method_result, parse_error_reply, ping_result, plan_request, reply_batch, reply_error, reply_ok, Method, RpcCall, RpcPlan, Source, Tool, DEFAULT_PROTOCOL, METHOD_NOT_FOUND,
};

fn bind_port(s: &McpServer, port: u16, token: Option<&str>) -> (u16, Option<String>) {
    match s.start(port, token) {
        McpStart::Bind { port, token } => (port, token),
        McpStart::Running(p) => panic!("already running on {p}"),
    }
}

// The server's protocol and authorization, without sockets: the start plan, the routing of
// the methods, the answers to `initialize`, `tools/list` and `ping`, and the token check.
#[test]
fn http_protocol_and_auth() {
    // Without a token.
    let mut server = McpServer::new();
    let (port, token) = bind_port(&server, 0, None);
    assert_eq!(token, None);
    server.bound(if port == 0 { 41234 } else { port });
    assert!(server.is_running());

    assert_eq!(route("initialize"), Method::Initialize);
    assert_eq!(protocol_version(Some("2025-06-18")), "2025-06-18");
    let init: serde_json::Value =
        serde_json::from_str(&initialize_result(Some("2025-06-18"), "1.2.3")).expect("initialize result is JSON");
    assert_eq!(init["serverInfo"]["name"], "speakagent");
    assert_eq!(init["serverInfo"]["version"], "1.2.3");
    assert_eq!(init["protocolVersion"], "2025-06-18");
    assert!(init["capabilities"]["tools"].is_object());
    let init: serde_json::Value = serde_json::from_str(&initialize_result(None, "1.2.3")).unwrap();
    assert_eq!(init["protocolVersion"], DEFAULT_PROTOCOL);

    assert_eq!(route("tools/list"), Method::ToolsList);
    let tools: serde_json::Value = serde_json::from_str(tool_defs()).expect("tool definitions are JSON");
    let tools = tools.as_array().expect("an array of tools");
    let names: Vec<&str> = tools.iter().filter_map(|t| t["name"].as_str()).collect();
    for expected in ["transcribe", "diarize", "protocol", "list_jobs"] {
        assert!(names.contains(&expected), "tool {expected} is missing");
    }

    assert_eq!(route("ping"), Method::Ping);
    let pong: serde_json::Value = serde_json::from_str(ping_result()).expect("ping result is JSON");
    assert!(pong.is_object());
    assert!(authorized(token.as_deref(), None));

    assert!(server.stop());
    assert!(!server.is_running());

    // With a token.
    let (_, token) = bind_port(&server, 0, Some("secret123"));
    assert_eq!(token.as_deref(), Some("secret123"));
    server.bound(41235);
    assert!(!authorized(token.as_deref(), None), "a request without the token is refused");
    assert!(authorized(token.as_deref(), Some("Bearer secret123")));
    assert!(authorized(token.as_deref(), Some("secret123")));
    assert!(!authorized(token.as_deref(), Some("Bearer wrong")));
    assert_eq!(route("ping"), Method::Ping);

    assert!(server.stop());
    assert!(!server.stop());
}

#[test]
fn running_server_is_kept() {
    let mut s = McpServer::new();
    s.bound(7000);
    assert!(matches!(s.start(8000, Some("t")), McpStart::Running(7000)));
    assert_eq!(s.running_port(), Some(7000));
    let fresh = McpServer::new();
    assert_eq!(bind_port(&fresh, 8000, Some("")), (8000, None));
}

#[test]
fn tool_list_and_definitions_agree() {
    let names = tool_names();
    assert_eq!(
        names,
        ["status", "transcribe", "diarize", "protocol", "todo", "summarize", "list_jobs", "get_transcript"]
    );
    let defs: serde_json::Value = serde_json::from_str(tool_defs()).unwrap();
    let def_names: Vec<&str> = defs.as_array().unwrap().iter().map(|t| t["name"].as_str().unwrap()).collect();
    assert_eq!(def_names, names);
}

#[test]
fn routing_and_errors() {
    assert_eq!(route("tools/call"), Method::ToolsCall);
    assert_eq!(route("resources/list"), Method::ResourcesList);
    assert_eq!(route("prompts/list"), Method::PromptsList);
    assert_eq!(route(""), Method::Unsupported);
    assert_eq!(route("tools/remove"), Method::Unsupported);
    assert_eq!(unsupported("x/y"), (METHOD_NOT_FOUND, "method not supported: x/y".to_string()));
    assert_eq!(protocol_version(None), DEFAULT_PROTOCOL);
    assert_eq!(tool_of("todo"), Ok(Tool::Todo));
    assert_eq!(tool_of("get_transcript"), Ok(Tool::GetTranscript));
    assert_eq!(tool_of("rm"), Err("unknown tool: rm".to_string()));
    assert_eq!(required_arg(Some("/a.wav"), "source"), Ok("/a.wav".to_string()));
    assert_eq!(required_arg(Some(""), "source"), Err("missing required parameter: source".to_string()));
    assert_eq!(required_arg(None, "jobId"), Err("missing required parameter: jobId".to_string()));
}

#[test]
fn protocol_styles() {
    assert_eq!(protocol_kind(None), ResultKind::Business);
    assert_eq!(protocol_kind(Some("summary")), ResultKind::Summary);
    assert_eq!(protocol_kind(Some("interview")), ResultKind::Interview);
    assert_eq!(protocol_kind(Some("todo")), ResultKind::Business);
}

#[test]
fn sources_and_generation_checks() {
    assert_eq!(source_of(true, true), Source::Job);
    assert_eq!(source_of(false, true), Source::File);
    assert_eq!(source_of(false, false), Source::Missing);
    assert_eq!(
        check_generation("poem", true, Some("t")),
        Err("unknown summary type (summary|business|interview|todo)".to_string())
    );
    assert!(check_generation("todo", false, Some("t")).unwrap_err().starts_with("Local LLM is not installed."));
    assert_eq!(check_generation("todo", true, None), Err("recording not found in history".to_string()));
    assert_eq!(check_generation("todo", true, Some("  \n")), Err("recording has no text".to_string()));
    assert_eq!(check_generation("summary", true, Some("text")), Ok(ResultKind::Summary));
}

#[test]
fn reply_texts() {
    assert_eq!(new_id(1700000000000, 7), "mcp-1700000000000-7");
    assert_eq!(job_name(Some("call.m4a")), "call.m4a");
    assert_eq!(job_name(None), "MCP");
    assert_eq!(
        status_text("1.2.3", "gigaam", true, false),
        "SpeakAgent v1.2.3 — model: gigaam, ASR ready: true, LLM ready: false"
    );
    assert_eq!(jobs_text(0), "0 records in history");
    assert_eq!(jobs_text(12), "12 records in history");
    assert_eq!(num_threads(None), 4);
    assert_eq!(num_threads(Some(0)), 1);
    assert_eq!(num_threads(Some(8)), 8);
    assert_eq!(num_threads(Some(64)), 16);
}

/// The answers of a plan as (id, method or error code and message); `None` for a parse error,
/// `Some((batch, []))` for Accepted.
fn answers(p: RpcPlan) -> Option<(bool, Vec<(String, Result<(Method, Option<String>), (i64, String)>)>)> {
    match p {
        RpcPlan::ParseError => None,
        RpcPlan::Accepted => Some((false, vec![])),
        RpcPlan::Reply { batch, calls } => Some((
            batch,
            calls
                .into_iter()
                .map(|c| match c {
                    RpcCall::Run { id, method, params } => (id, Ok((method, params))),
                    RpcCall::Fail { id, code, message } => (id, Err((code, message))),
                })
                .collect(),
        )),
    }
}

#[test]
fn rpc_body_not_json_is_parse_error() {
    assert!(answers(plan_request("{not json")).is_none());
    assert!(answers(plan_request("")).is_none());
}

#[test]
fn rpc_notification_is_accepted() {
    let (batch, a) = answers(plan_request(r#"{"jsonrpc":"2.0","method":"notifications/initialized"}"#)).unwrap();
    assert!(!batch);
    assert!(a.is_empty());
    let (_, a) = answers(plan_request("[]")).unwrap();
    assert!(a.is_empty());
}

#[test]
fn rpc_single_request_routed() {
    let (batch, a) = answers(plan_request(r#"{"jsonrpc":"2.0","id":1,"method":"ping"}"#)).unwrap();
    assert!(!batch);
    assert_eq!(a, vec![("1".to_string(), Ok((Method::Ping, None)))]);
    let (_, a) = answers(plan_request(
        r#"{"jsonrpc":"2.0","id":"a","method":"initialize","params":{"protocolVersion":"2024-11-05"}}"#,
    ))
    .unwrap();
    assert_eq!(
        a,
        vec![("\"a\"".to_string(), Ok((Method::Initialize, Some(r#"{"protocolVersion":"2024-11-05"}"#.to_string()))))]
    );
}

#[test]
fn rpc_unknown_method_answered_with_error() {
    let (_, a) = answers(plan_request(r#"{"jsonrpc":"2.0","id":7,"method":"foo/bar"}"#)).unwrap();
    assert_eq!(a, vec![("7".to_string(), Err((METHOD_NOT_FOUND, "method not supported: foo/bar".to_string())))]);
    let (_, a) = answers(plan_request(r#"{"jsonrpc":"2.0","id":8}"#)).unwrap();
    assert_eq!(a, vec![("8".to_string(), Err((-32601, "method not supported: ".to_string())))]);
}

#[test]
fn rpc_batch_skips_notifications() {
    let body = r#"[{"jsonrpc":"2.0","id":1,"method":"tools/list"},
                   {"jsonrpc":"2.0","method":"notifications/cancelled"},
                   {"jsonrpc":"2.0","id":2,"method":"prompts/list"}]"#;
    let (batch, a) = answers(plan_request(body)).unwrap();
    assert!(batch);
    assert_eq!(
        a,
        vec![
            ("1".to_string(), Ok((Method::ToolsList, None))),
            ("2".to_string(), Ok((Method::PromptsList, None))),
        ]
    );
    let (_, a) = answers(plan_request(r#"[{"jsonrpc":"2.0","method":"a"},{"jsonrpc":"2.0","method":"b"}]"#)).unwrap();
    assert!(a.is_empty());
}

#[test]
fn initialize_result_exact_text() {
    assert_eq!(
        initialize_result(Some("2025-06-18"), "0.9.0"),
        r#"{"protocolVersion":"2025-06-18","capabilities":{"tools":{}},"serverInfo":{"name":"speakagent","version":"0.9.0"}}"#
    );
    // A requested version is written as a JSON string, escaped.
    let init: serde_json::Value = serde_json::from_str(&initialize_result(Some("a\"b"), "1")).unwrap();
    assert_eq!(init["protocolVersion"], "a\"b");
    assert_eq!(ping_result(), "{}");
}

/// The reply text for a body whose requests run no tool.
fn reply_text(body: &str) -> Option<String> {
    match plan_request(body) {
        RpcPlan::ParseError => Some(parse_error_reply()),
        RpcPlan::Accepted => None,
        RpcPlan::Reply { batch, calls } => {
            let out: Vec<String> = calls
                .into_iter()
                .map(|c| match c {
                    RpcCall::Run { id, method, params: _ } => {
                        reply_ok(&id, &method_result(method, None, "1.0.0").expect("answered without a tool"))
                    },
                    RpcCall::Fail { id, code, message } => reply_error(&id, code, &message),
                })
                .collect();
            if batch { Some(reply_batch(&out)) } else { out.into_iter().next() }
        },
    }
}

#[test]
fn rpc_ping_answered_with_empty_object() {
    let r = reply_text(r#"{"jsonrpc":"2.0","id":3,"method":"ping"}"#).unwrap();
    assert_eq!(r, r#"{"jsonrpc":"2.0","id":3,"result":{}}"#);
    let v: serde_json::Value = serde_json::from_str(&r).unwrap();
    assert_eq!(v, serde_json::from_str::<serde_json::Value>(r#"{"jsonrpc":"2.0","id":3,"result":{}}"#).unwrap());
    assert_eq!(reply_text(r#"{"jsonrpc":"2.0","method":"ping"}"#), None);
}

#[test]
fn rpc_error_replies() {
    assert_eq!(parse_error_reply(), r#"{"jsonrpc":"2.0","id":null,"error":{"code":-32700,"message":"parse error"}}"#);
    assert_eq!(
        reply_text(r#"{"jsonrpc":"2.0","id":"x","method":"nope"}"#).unwrap(),
        r#"{"jsonrpc":"2.0","id":"x","error":{"code":-32601,"message":"method not supported: nope"}}"#
    );
    assert_eq!(reply_error("1", 5, "a\"b"), r#"{"jsonrpc":"2.0","id":1,"error":{"code":5,"message":"a\"b"}}"#);
    assert_eq!(reply_text("{").unwrap(), parse_error_reply());
}

#[test]
fn rpc_batch_reply_is_an_array() {
    let r = reply_text(r#"[{"jsonrpc":"2.0","id":1,"method":"ping"},{"jsonrpc":"2.0","id":2,"method":"resources/list"}]"#)
        .unwrap();
    assert_eq!(r, r#"[{"jsonrpc":"2.0","id":1,"result":{}},{"jsonrpc":"2.0","id":2,"result":{"resources":[]}}]"#);
    assert_eq!(reply_batch(&vec![]), "[]");
}

#[test]
fn rpc_fixed_results() {
    assert_eq!(method_result(Method::Ping, None, "1").as_deref(), Some("{}"));
    assert_eq!(method_result(Method::PromptsList, None, "1").as_deref(), Some(r#"{"prompts":[]}"#));
    assert!(method_result(Method::ToolsCall, None, "1").is_none());
    assert!(method_result(Method::Unsupported, None, "1").is_none());
    let tools: serde_json::Value = serde_json::from_str(&method_result(Method::ToolsList, None, "1").unwrap()).unwrap();
    assert_eq!(tools["tools"].as_array().map(|a| a.len()), Some(8));
    let init: serde_json::Value =
        serde_json::from_str(&method_result(Method::Initialize, Some("2024-11-05"), "2.0").unwrap()).unwrap();
    assert_eq!(init["protocolVersion"], "2024-11-05");
    assert_eq!(init["serverInfo"]["version"], "2.0");
}
