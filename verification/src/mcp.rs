//! The local MCP server (Model Context Protocol): JSON-RPC 2.0 over HTTP on the loopback
//! interface, for code agents. Sockets, JSON values and the engine calls are the caller's;
//! the server's state, the authorization, the routing of methods and tools and the texts of
//! the replies are decided here.
use vstd::prelude::*;

use crate::llm::ResultKind;
use crate::text::{chars_of, extend_chars, is_nonblank, nonblank, starts_with_spec, str_eq, string_of};

verus! {

/// The protocol version answered when the client names none.
pub const DEFAULT_PROTOCOL: &'static str = "2025-06-18";

/// The tools, in the order they are listed.
pub open spec fn tool_names_spec() -> Seq<Seq<char>> {
    seq![
        "status"@,
        "transcribe"@,
        "diarize"@,
        "protocol"@,
        "todo"@,
        "summarize"@,
        "list_jobs"@,
        "get_transcript"@,
    ]
}

/// Names of the exported tools (for the MCP page of the interface).
pub fn tool_names() -> (r: Vec<&'static str>)
    ensures
        r@.map_values(|s: &'static str| s@) == tool_names_spec(),
{
    let r = vec!["status", "transcribe", "diarize", "protocol", "todo", "summarize", "list_jobs", "get_transcript"];
    assert(r@.map_values(|s: &'static str| s@) =~= tool_names_spec());
    r
}

/// The tool definitions answered to `tools/list`, as a JSON array.
pub const TOOL_DEFS_JSON: &'static str = "[{\"name\":\"status\",\"description\":\"App status: version, active model, ASR/LLM readiness, data folder.\",\"inputSchema\":{\"type\":\"object\",\"properties\":{}}},{\"name\":\"transcribe\",\"description\":\"Transcribe an audio/video file to text (offline). The result is saved to history. Returns text and jobId.\",\"inputSchema\":{\"type\":\"object\",\"properties\":{\"source\":{\"type\":\"string\",\"description\":\"Absolute path to a local audio/video file\"},\"language\":{\"type\":\"string\",\"description\":\"Language hint (ru|en), optional\"}},\"required\":[\"source\"]}},{\"name\":\"diarize\",\"description\":\"Transcribe a file with speaker separation (SpeakerN [time]: text). Saved to history.\",\"inputSchema\":{\"type\":\"object\",\"properties\":{\"source\":{\"type\":\"string\",\"description\":\"Absolute path to a local audio/video file\"},\"numSpeakers\":{\"type\":\"integer\",\"description\":\"Exact number of speakers (0/empty — auto)\"},\"language\":{\"type\":\"string\"}},\"required\":[\"source\"]}},{\"name\":\"protocol\",\"description\":\"Produce a meeting protocol/summary from a file or a history recording (local LLM).\",\"inputSchema\":{\"type\":\"object\",\"properties\":{\"source\":{\"type\":\"string\",\"description\":\"jobId from history OR a file path\"},\"style\":{\"type\":\"string\",\"enum\":[\"summary\",\"business\",\"interview\"],\"description\":\"Style (default business)\"}},\"required\":[\"source\"]}},{\"name\":\"todo\",\"description\":\"Extract a task list (checklist) from a file or a history recording (local LLM).\",\"inputSchema\":{\"type\":\"object\",\"properties\":{\"source\":{\"type\":\"string\",\"description\":\"jobId from history OR a file path\"}},\"required\":[\"source\"]}},{\"name\":\"summarize\",\"description\":\"Generate a summary for an existing history recording.\",\"inputSchema\":{\"type\":\"object\",\"properties\":{\"jobId\":{\"type\":\"string\",\"description\":\"History recording ID (list_jobs)\"},\"kind\":{\"type\":\"string\",\"enum\":[\"summary\",\"business\",\"interview\",\"todo\"],\"description\":\"Summary type\"}},\"required\":[\"jobId\"]}},{\"name\":\"list_jobs\",\"description\":\"List of transcription history records (id, name, date, duration).\",\"inputSchema\":{\"type\":\"object\",\"properties\":{}}},{\"name\":\"get_transcript\",\"description\":\"Get the transcript text by history recording ID.\",\"inputSchema\":{\"type\":\"object\",\"properties\":{\"jobId\":{\"type\":\"string\",\"description\":\"History recording ID\"}},\"required\":[\"jobId\"]}}]";

/// The tool definitions (JSON text).
pub fn tool_defs() -> (r: &'static str)
    ensures
        r@ == TOOL_DEFS_JSON@,
{
    TOOL_DEFS_JSON
}

} // verus!

verus! {

/// The server: the port it listens on, when it runs.
pub struct McpServer {
    port: Option<u16>,
}

/// What a start does.
pub enum McpStart {
    /// Already running: its port.
    Running(u16),
    /// Bind `127.0.0.1:port` (0 picks a free port) and serve, requiring `token` when set;
    /// then report the bound port with `bound`.
    Bind { port: u16, token: Option<String> },
}

pub open spec fn opt_str(v: Option<String>) -> Option<Seq<char>> {
    match v {
        Some(s) => Some(s@),
        None => None,
    }
}

pub open spec fn opt_ref(v: Option<&str>) -> Option<Seq<char>> {
    match v {
        Some(s) => Some(s@),
        None => None,
    }
}

/// The token a client must present: none when unset or empty.
pub open spec fn auth_spec(token: Option<Seq<char>>) -> Option<Seq<char>> {
    match token {
        Some(t) => if t.len() > 0 { Some(t) } else { None },
        None => None,
    }
}

impl McpServer {
    pub closed spec fn view(&self) -> Option<u16> {
        self.port
    }

    pub fn new() -> (s: McpServer)
        ensures
            s@ is None,
    {
        McpServer { port: None }
    }

    /// Whether the server runs.
    pub fn is_running(&self) -> (b: bool)
        ensures
            b == self@ is Some,
    {
        self.port.is_some()
    }

    /// The port of the running server.
    pub fn running_port(&self) -> (r: Option<u16>)
        ensures
            r == self@,
    {
        self.port
    }

    /// Start on `port` with an optional token; a running server is kept as it is.
    pub fn start(&self, port: u16, token: Option<&str>) -> (r: McpStart)
        ensures
            self@ matches Some(p) ==> r == McpStart::Running(p),
            self@ is None ==> (r matches McpStart::Bind { port: bp, token: t } && bp == port
                && opt_str(t) == auth_spec(opt_ref(token))),
    {
        match self.port {
            Some(p) => McpStart::Running(p),
            None => {
                let t = match token {
                    Some(s) => if !s.is_empty() { Some(s.to_owned()) } else { None },
                    None => None,
                };
                McpStart::Bind { port, token: t }
            },
        }
    }

    /// The server is bound and serving on `port`.
    pub fn bound(&mut self, port: u16)
        ensures
            final(self)@ == Some(port),
    {
        self.port = Some(port);
    }

    /// Stops the server. Returns whether it ran (the caller signals its shutdown and joins
    /// its thread).
    pub fn stop(&mut self) -> (was: bool)
        ensures
            was == old(self)@ is Some,
            final(self)@ is None,
    {
        let was = self.port.is_some();
        self.port = None;
        was
    }
}

/// `s` without the prefix `p`, when it starts with it.
pub open spec fn strip_prefix_spec(s: Seq<char>, p: Seq<char>) -> Seq<char> {
    if starts_with_spec(s, p) {
        s.skip(p.len() as int)
    } else {
        s
    }
}

/// With a token set, a request must carry `Authorization: Bearer <token>` (the bare token
/// is accepted too); without one every request passes.
pub open spec fn authorized_spec(token: Option<Seq<char>>, header: Option<Seq<char>>) -> bool {
    match token {
        None => true,
        Some(t) => header matches Some(h) && strip_prefix_spec(h, "Bearer "@) == t,
    }
}

pub fn authorized(token: Option<&str>, header: Option<&str>) -> (b: bool)
    ensures
        b == authorized_spec(opt_ref(token), opt_ref(header)),
{
    match token {
        None => true,
        Some(t) => match header {
            None => false,
            Some(h) => {
                let hc = chars_of(h);
                let p = chars_of("Bearer ");
                let rest = if crate::text::starts_with(&hc, &p) {
                    let r = crate::text::slice_chars(&hc, p.len(), hc.len());
                    assert(r@ =~= hc@.skip("Bearer "@.len() as int));
                    r
                } else {
                    hc
                };
                crate::text::chars_eq(&rest, &chars_of(t))
            },
        },
    }
}

/// The JSON-RPC methods served.
#[derive(Clone, Copy, PartialEq, Eq, Structural, Debug)]
pub enum Method {
    Initialize,
    Ping,
    ToolsList,
    ToolsCall,
    ResourcesList,
    PromptsList,
    /// Answered with error -32601 ("method not supported: <name>").
    Unsupported,
}

pub open spec fn route_spec(m: Seq<char>) -> Method {
    if m == "initialize"@ {
        Method::Initialize
    } else if m == "ping"@ {
        Method::Ping
    } else if m == "tools/list"@ {
        Method::ToolsList
    } else if m == "tools/call"@ {
        Method::ToolsCall
    } else if m == "resources/list"@ {
        Method::ResourcesList
    } else if m == "prompts/list"@ {
        Method::PromptsList
    } else {
        Method::Unsupported
    }
}

/// The method of a request (a missing method is the empty name).
pub fn route(method: &str) -> (m: Method)
    ensures
        m == route_spec(method@),
{
    if str_eq(method, "initialize") {
        Method::Initialize
    } else if str_eq(method, "ping") {
        Method::Ping
    } else if str_eq(method, "tools/list") {
        Method::ToolsList
    } else if str_eq(method, "tools/call") {
        Method::ToolsCall
    } else if str_eq(method, "resources/list") {
        Method::ResourcesList
    } else if str_eq(method, "prompts/list") {
        Method::PromptsList
    } else {
        Method::Unsupported
    }
}

/// Error code of an unknown method.
pub const METHOD_NOT_FOUND: i64 = -32601;
/// Error code of a missing tool name.
pub const INVALID_PARAMS: i64 = -32602;
/// Error code of a tool that failed to run.
pub const INTERNAL_ERROR: i64 = -32603;
/// Error code of a body that is not JSON.
pub const PARSE_ERROR: i64 = -32700;

/// The error of an unsupported method.
pub fn unsupported(method: &str) -> (r: (i64, String))
    ensures
        r.0 == METHOD_NOT_FOUND,
        r.1@ == "method not supported: "@ + method@,
{
    (METHOD_NOT_FOUND, crate::text::concat("method not supported: ", method))
}

/// One JSON-RPC request as read from a body: its id as JSON text, its method when that is a
/// string, and its params as JSON text.
pub struct RpcRequest {
    pub id: Option<String>,
    pub method: Option<String>,
    pub params: Option<String>,
}

pub open spec fn req_view(q: RpcRequest) -> (Option<Seq<char>>, Option<Seq<char>>, Option<Seq<char>>) {
    (opt_str(q.id), opt_str(q.method), opt_str(q.params))
}

pub open spec fn reqs_view(v: Seq<RpcRequest>) -> Seq<(Option<Seq<char>>, Option<Seq<char>>, Option<Seq<char>>)> {
    v.map_values(|q: RpcRequest| req_view(q))
}

pub open spec fn rpc_view(r: Option<(bool, Vec<RpcRequest>)>) -> Option<(bool, Seq<(Option<Seq<char>>, Option<Seq<char>>, Option<Seq<char>>)>)> {
    match r {
        Some((b, v)) => Some((b, reqs_view(v@))),
        None => None,
    }
}

/// What serde_json makes of a request body: `None` when it is not JSON; else whether it is a
/// batch (an array), and per request (each element of the array, or the value itself) its
/// `id` as JSON text, its `method` when a string, and its `params` as JSON text.
pub uninterp spec fn rpc_body(body: Seq<char>) -> Option<(bool, Seq<(Option<Seq<char>>, Option<Seq<char>>, Option<Seq<char>>)>)>;

/// Parses a request body with serde_json (`from_str::<Value>`, `as_array`, then per request
/// `get("id")` and `get("params")` written back with `to_string`, and `get("method")` with
/// `as_str`). Claimed: the result is the one the name `rpc_body` stands for; nothing more is
/// said of JSON.
#[verifier::external_body]
fn parse_rpc_body(body: &str) -> (r: Option<(bool, Vec<RpcRequest>)>)
    ensures
        rpc_view(r) == rpc_body(body@),
{
    let v: serde_json::Value = serde_json::from_str(body).ok()?;
    let one = |x: &serde_json::Value| RpcRequest {
        id: x.get("id").map(|i| i.to_string()),
        method: x.get("method").and_then(|m| m.as_str()).map(|m| m.to_string()),
        params: x.get("params").map(|p| p.to_string()),
    };
    match v.as_array() {
        Some(a) => Some((true, a.iter().map(one).collect())),
        None => Some((false, vec![one(&v)])),
    }
}

/// One answer to give: run a served method, or an error.
pub enum RpcCall {
    /// Run `method` with `params` (JSON text) and answer `id` (JSON text) with its result.
    Run { id: String, method: Method, params: Option<String> },
    /// Answer `id` with the error `code` and `message`.
    Fail { id: String, code: i64, message: String },
}

/// Model of an answer.
pub enum CallV {
    Run(Seq<char>, Method, Option<Seq<char>>),
    Fail(Seq<char>, i64, Seq<char>),
}

impl RpcCall {
    pub open spec fn view(&self) -> CallV {
        match self {
            RpcCall::Run { id, method, params } => CallV::Run(id@, *method, opt_str(*params)),
            RpcCall::Fail { id, code, message } => CallV::Fail(id@, *code, message@),
        }
    }
}

/// What a body is answered with.
pub enum RpcPlan {
    /// Not JSON: the error `PARSE_ERROR` ("parse error") with a null id.
    ParseError,
    /// Nothing to answer (only notifications): HTTP 202 Accepted.
    Accepted,
    /// The answers, in request order; as an array when the body was a batch.
    Reply { batch: bool, calls: Vec<RpcCall> },
}

/// Model of a plan.
pub enum PlanV {
    ParseError,
    Accepted,
    Reply(bool, Seq<CallV>),
}

impl RpcPlan {
    pub open spec fn view(&self) -> PlanV {
        match self {
            RpcPlan::ParseError => PlanV::ParseError,
            RpcPlan::Accepted => PlanV::Accepted,
            RpcPlan::Reply { batch, calls } => PlanV::Reply(*batch, calls@.map_values(|c: RpcCall| c@)),
        }
    }
}

/// The answer to one request: none for a notification (no id); else its method routed, an
/// unsupported one (a missing method is the empty name) answered with -32601.
pub open spec fn call_spec(q: (Option<Seq<char>>, Option<Seq<char>>, Option<Seq<char>>)) -> Option<CallV> {
    match q.0 {
        None => None,
        Some(id) => {
            let m = match q.1 {
                Some(m) => m,
                None => Seq::empty(),
            };
            if route_spec(m) == Method::Unsupported {
                Some(CallV::Fail(id, METHOD_NOT_FOUND, "method not supported: "@ + m))
            } else {
                Some(CallV::Run(id, route_spec(m), q.2))
            }
        },
    }
}

/// The answers to the requests, in order, notifications skipped.
pub open spec fn calls_spec(qs: Seq<(Option<Seq<char>>, Option<Seq<char>>, Option<Seq<char>>)>) -> Seq<CallV>
    decreases qs.len(),
{
    if qs.len() == 0 {
        Seq::empty()
    } else {
        let prev = calls_spec(qs.drop_last());
        match call_spec(qs.last()) {
            Some(c) => prev.push(c),
            None => prev,
        }
    }
}

/// A body not JSON is a parse error; a body with nothing to answer is accepted; else the
/// answers, as an array for a batch.
pub open spec fn plan_spec(parsed: Option<(bool, Seq<(Option<Seq<char>>, Option<Seq<char>>, Option<Seq<char>>)>)>) -> PlanV {
    match parsed {
        None => PlanV::ParseError,
        Some((batch, qs)) => {
            let cs = calls_spec(qs);
            if cs.len() == 0 {
                PlanV::Accepted
            } else {
                PlanV::Reply(batch, cs)
            }
        },
    }
}

fn copy_string(s: &String) -> (r: String)
    ensures
        r@ == s@,
{
    string_of(&chars_of(s.as_str()))
}

fn copy_opt(s: &Option<String>) -> (r: Option<String>)
    ensures
        opt_str(r) == opt_str(*s),
{
    match s {
        Some(x) => Some(copy_string(x)),
        None => None,
    }
}

/// How a request body is answered (see `plan_spec`).
pub fn plan_request(body: &str) -> (p: RpcPlan)
    ensures
        p@ == plan_spec(rpc_body(body@)),
{
    match parse_rpc_body(body) {
        None => RpcPlan::ParseError,
        Some((batch, reqs)) => {
            let ghost qv = reqs_view(reqs@);
            let mut calls: Vec<RpcCall> = Vec::new();
            let mut i: usize = 0;
            while i < reqs.len()
                invariant
                    i <= reqs.len(),
                    qv == reqs_view(reqs@),
                    calls@.map_values(|c: RpcCall| c@) == calls_spec(qv.take(i as int)),
                decreases reqs.len() - i,
            {
                let q = &reqs[i];
                assert(qv[i as int] == req_view(reqs@[i as int]));
                assert(qv.take(i + 1).drop_last() =~= qv.take(i as int));
                assert(qv.take(i + 1).last() == qv[i as int]);
                match &q.id {
                    None => {},
                    Some(id) => {
                        let m: &str = match &q.method {
                            Some(m) => m.as_str(),
                            None => "",
                        };
                        proof { reveal_strlit(""); }
                        assert(m@ == (match opt_str(q.method) { Some(x) => x, None => Seq::<char>::empty() }));
                        let r = route(m);
                        let c = if r == Method::Unsupported {
                            let (code, message) = unsupported(m);
                            RpcCall::Fail { id: copy_string(id), code, message }
                        } else {
                            RpcCall::Run { id: copy_string(id), method: r, params: copy_opt(&q.params) }
                        };
                        let ghost before = calls@;
                        calls.push(c);
                        assert(calls@.map_values(|c: RpcCall| c@) =~= before.map_values(|c: RpcCall| c@).push(c@));
                    },
                }
                i = i + 1;
            }
            assert(qv.take(reqs.len() as int) =~= qv);
            if calls.len() == 0 {
                RpcPlan::Accepted
            } else {
                RpcPlan::Reply { batch, calls }
            }
        },
    }
}

/// The protocol version answered to `initialize`: the client's, else `DEFAULT_PROTOCOL`.
pub fn protocol_version(requested: Option<&str>) -> (r: String)
    ensures
        r@ == (match requested {
            Some(v) => v@,
            None => DEFAULT_PROTOCOL@,
        }),
{
    match requested {
        Some(v) => v.to_owned(),
        None => DEFAULT_PROTOCOL.to_owned(),
    }
}

/// The protocol version answered to `initialize` (see `protocol_version`).
pub open spec fn protocol_version_spec(requested: Option<Seq<char>>) -> Seq<char> {
    match requested {
        Some(v) => v,
        None => DEFAULT_PROTOCOL@,
    }
}

/// What serde_json writes for a string: the JSON string literal, quoted and escaped.
pub uninterp spec fn json_str(s: Seq<char>) -> Seq<char>;

/// Writes a string as a JSON string literal with serde_json (`to_string` of a `&str`).
/// Claimed: the result is the one the name `json_str` stands for.
#[verifier::external_body]
fn json_string(s: &str) -> (r: String)
    ensures
        r@ == json_str(s@),
{
    serde_json::to_string(s).unwrap_or_default()
}

/// The result of `initialize` as JSON text: the protocol version, the tools capability and
/// the server's name and version.
pub open spec fn initialize_text(protocol: Seq<char>, version: Seq<char>) -> Seq<char> {
    "{\"protocolVersion\":"@ + json_str(protocol) + ",\"capabilities\":{\"tools\":{}},\"serverInfo\":{\"name\":\"speakagent\",\"version\":"@
        + json_str(version) + "}}"@
}

/// The result of `initialize` for the requested protocol version and the app's version.
pub fn initialize_result(requested: Option<&str>, version: &str) -> (r: String)
    ensures
        r@ == initialize_text(protocol_version_spec(opt_ref(requested)), version@),
{
    let pv = protocol_version(requested);
    let mut out = chars_of("{\"protocolVersion\":");
    extend_chars(&mut out, &chars_of(json_string(pv.as_str()).as_str()));
    extend_chars(&mut out, &chars_of(",\"capabilities\":{\"tools\":{}},\"serverInfo\":{\"name\":\"speakagent\",\"version\":"));
    extend_chars(&mut out, &chars_of(json_string(version).as_str()));
    extend_chars(&mut out, &chars_of("}}"));
    string_of(&out)
}

/// The result of a method answered without running a tool (JSON text); `None` for
/// `tools/call` and an unsupported method.
pub open spec fn method_result_spec(method: Method, requested: Option<Seq<char>>, version: Seq<char>) -> Option<Seq<char>> {
    match method {
        Method::Initialize => Some(initialize_text(protocol_version_spec(requested), version)),
        Method::Ping => Some("{}"@),
        Method::ToolsList => Some("{\"tools\":"@ + TOOL_DEFS_JSON@ + "}"@),
        Method::ResourcesList => Some("{\"resources\":[]}"@),
        Method::PromptsList => Some("{\"prompts\":[]}"@),
        Method::ToolsCall => None,
        Method::Unsupported => None,
    }
}

/// The result of `method` when no tool runs (see `method_result_spec`); `requested` is the
/// protocol version of an `initialize` request and `version` the app's.
pub fn method_result(method: Method, requested: Option<&str>, version: &str) -> (r: Option<String>)
    ensures
        opt_str(r) == method_result_spec(method, opt_ref(requested), version@),
{
    match method {
        Method::Initialize => Some(initialize_result(requested, version)),
        Method::Ping => Some(ping_result().to_owned()),
        Method::ToolsList => Some(crate::text::concat(&crate::text::concat("{\"tools\":", TOOL_DEFS_JSON), "}")),
        Method::ResourcesList => Some("{\"resources\":[]}".to_owned()),
        Method::PromptsList => Some("{\"prompts\":[]}".to_owned()),
        Method::ToolsCall => None,
        Method::Unsupported => None,
    }
}

/// An integer in decimal, with a minus sign when negative.
pub open spec fn int_text(n: int) -> Seq<char> {
    if n < 0 {
        seq!['-'] + crate::text::dec_spec((-n) as nat)
    } else {
        crate::text::dec_spec(n as nat)
    }
}

/// The reply to request `id` (JSON text) with `result` (JSON text).
pub open spec fn reply_ok_text(id: Seq<char>, result: Seq<char>) -> Seq<char> {
    "{\"jsonrpc\":\"2.0\",\"id\":"@ + id + ",\"result\":"@ + result + "}"@
}

/// The error reply to request `id` (JSON text): its code and message.
pub open spec fn reply_error_text(id: Seq<char>, code: int, message: Seq<char>) -> Seq<char> {
    "{\"jsonrpc\":\"2.0\",\"id\":"@ + id + ",\"error\":{\"code\":"@ + int_text(code) + ",\"message\":"@
        + json_str(message) + "}}"@
}

/// The reply to request `id` with `result` (both JSON text).
pub fn reply_ok(id: &str, result: &str) -> (r: String)
    ensures
        r@ == reply_ok_text(id@, result@),
{
    let mut out = chars_of("{\"jsonrpc\":\"2.0\",\"id\":");
    extend_chars(&mut out, &chars_of(id));
    extend_chars(&mut out, &chars_of(",\"result\":"));
    extend_chars(&mut out, &chars_of(result));
    extend_chars(&mut out, &chars_of("}"));
    string_of(&out)
}

/// The error reply to request `id` (JSON text).
pub fn reply_error(id: &str, code: i64, message: &str) -> (r: String)
    ensures
        r@ == reply_error_text(id@, code as int, message@),
{
    let mut out = chars_of("{\"jsonrpc\":\"2.0\",\"id\":");
    extend_chars(&mut out, &chars_of(id));
    extend_chars(&mut out, &chars_of(",\"error\":{\"code\":"));
    let ghost before = out@;
    if code < 0 {
        out.push('-');
        let m: u64 = (0i128 - code as i128) as u64;
        crate::text::push_dec(&mut out, m);
        assert(out@ =~= before + int_text(code as int));
    } else {
        crate::text::push_dec(&mut out, code as u64);
        assert(out@ =~= before + int_text(code as int));
    }
    extend_chars(&mut out, &chars_of(",\"message\":"));
    extend_chars(&mut out, &chars_of(json_string(message).as_str()));
    extend_chars(&mut out, &chars_of("}}"));
    string_of(&out)
}

/// The reply to a body that is not JSON: error `PARSE_ERROR`, "parse error", with a null id.
pub fn parse_error_reply() -> (r: String)
    ensures
        r@ == reply_error_text("null"@, PARSE_ERROR as int, "parse error"@),
{
    reply_error("null", PARSE_ERROR, "parse error")
}

/// The replies to a batch, as a JSON array in the given order.
pub fn reply_batch(parts: &Vec<String>) -> (r: String)
    ensures
        r@ == "["@ + crate::text::join_spec(parts@.map_values(|p: String| p@), ","@) + "]"@,
{
    let mut ps: Vec<Vec<char>> = Vec::new();
    let mut i: usize = 0;
    while i < parts.len()
        invariant
            i <= parts.len(),
            ps@.len() == i,
            forall|j: int| 0 <= j < i ==> (#[trigger] ps@[j])@ == parts@[j]@,
        decreases parts.len() - i,
    {
        ps.push(chars_of(parts[i].as_str()));
        i = i + 1;
    }
    assert(ps@.map_values(|l: Vec<char>| l@) =~= parts@.map_values(|p: String| p@));
    let mut out = chars_of("[");
    extend_chars(&mut out, &crate::text::join_chars(&ps, &chars_of(",")));
    extend_chars(&mut out, &chars_of("]"));
    string_of(&out)
}

/// The result of `ping`: an empty object.
pub fn ping_result() -> (r: &'static str)
    ensures
        r@ == "{}"@,
{
    "{}"
}

/// The tools.
#[derive(Clone, Copy, PartialEq, Eq, Structural, Debug)]
pub enum Tool {
    Status,
    Transcribe,
    Diarize,
    Protocol,
    Todo,
    Summarize,
    ListJobs,
    GetTranscript,
}

pub open spec fn tool_spec(name: Seq<char>) -> Option<Tool> {
    if name == "status"@ {
        Some(Tool::Status)
    } else if name == "transcribe"@ {
        Some(Tool::Transcribe)
    } else if name == "diarize"@ {
        Some(Tool::Diarize)
    } else if name == "protocol"@ {
        Some(Tool::Protocol)
    } else if name == "todo"@ {
        Some(Tool::Todo)
    } else if name == "summarize"@ {
        Some(Tool::Summarize)
    } else if name == "list_jobs"@ {
        Some(Tool::ListJobs)
    } else if name == "get_transcript"@ {
        Some(Tool::GetTranscript)
    } else {
        None
    }
}

/// The tool of a `tools/call`; an unknown name is an error "unknown tool: <name>".
pub fn tool_of(name: &str) -> (r: Result<Tool, String>)
    ensures
        match tool_spec(name@) {
            Some(t) => r == Ok::<Tool, String>(t),
            None => r matches Err(e) && e@ == "unknown tool: "@ + name@,
        },
{
    if str_eq(name, "status") {
        Ok(Tool::Status)
    } else if str_eq(name, "transcribe") {
        Ok(Tool::Transcribe)
    } else if str_eq(name, "diarize") {
        Ok(Tool::Diarize)
    } else if str_eq(name, "protocol") {
        Ok(Tool::Protocol)
    } else if str_eq(name, "todo") {
        Ok(Tool::Todo)
    } else if str_eq(name, "summarize") {
        Ok(Tool::Summarize)
    } else if str_eq(name, "list_jobs") {
        Ok(Tool::ListJobs)
    } else if str_eq(name, "get_transcript") {
        Ok(Tool::GetTranscript)
    } else {
        Err(crate::text::concat("unknown tool: ", name))
    }
}

/// A required string argument: present and not empty, else "missing required parameter: <key>".
pub fn required_arg(value: Option<&str>, key: &str) -> (r: Result<String, String>)
    ensures
        (value matches Some(v) && v@.len() > 0) ==> (r matches Ok(s) && s@ == value->0@),
        !(value matches Some(v) && v@.len() > 0) ==> (r matches Err(e) && e@
            == "missing required parameter: "@ + key@),
{
    match value {
        Some(v) => if !v.is_empty() {
            return Ok(v.to_owned());
        },
        None => {},
    }
    Err(crate::text::concat("missing required parameter: ", key))
}

/// The summary kind of the `protocol` tool: "summary" and "interview" as asked, anything
/// else (and no style) "business".
pub fn protocol_kind(style: Option<&str>) -> (k: ResultKind)
    ensures
        k == (match style {
            Some(s) => if s@ == "summary"@ {
                ResultKind::Summary
            } else if s@ == "interview"@ {
                ResultKind::Interview
            } else {
                ResultKind::Business
            },
            None => ResultKind::Business,
        }),
{
    match style {
        Some(s) => if str_eq(s, "summary") {
            ResultKind::Summary
        } else if str_eq(s, "interview") {
            ResultKind::Interview
        } else {
            ResultKind::Business
        },
        None => ResultKind::Business,
    }
}

/// Where a `source` leads: a job of the history as it is, a file to transcribe first, or
/// nowhere.
#[derive(Clone, Copy, PartialEq, Eq, Structural, Debug)]
pub enum Source {
    Job,
    File,
    Missing,
}

pub fn source_of(is_job: bool, file_exists: bool) -> (s: Source)
    ensures
        s == (if is_job { Source::Job } else if file_exists { Source::File } else { Source::Missing }),
{
    if is_job {
        Source::Job
    } else if file_exists {
        Source::File
    } else {
        Source::Missing
    }
}

/// Message of a source that is neither a job nor a file.
pub const SOURCE_MISSING: &'static str = "source not found: provide a jobId from history or a path to an existing file";

/// Checks before generating an artefact of a job: a known kind, a summary engine (local
/// or cloud), the job, and text in it; in that order.
pub fn check_generation(kind: &str, engine_ready: bool, job_text: Option<&str>) -> (r: Result<ResultKind, String>)
    ensures
        crate::llm::parse_kind_spec(kind@) is None ==> (r matches Err(e) && e@
            == "unknown summary type (summary|business|interview|todo)"@),
        crate::llm::parse_kind_spec(kind@) is Some && !engine_ready ==> (r matches Err(e) && e@
            == "Local LLM is not installed. Open Settings → Summaries and download the assistant (or configure a cloud provider)."@),
        crate::llm::parse_kind_spec(kind@) is Some && engine_ready && job_text is None ==> (r matches Err(e)
            && e@ == "recording not found in history"@),
        crate::llm::parse_kind_spec(kind@) is Some && engine_ready && (job_text matches Some(t) && !nonblank(t@))
            ==> (r matches Err(e) && e@ == "recording has no text"@),
        crate::llm::parse_kind_spec(kind@) is Some && engine_ready && (job_text matches Some(t) && nonblank(t@))
            ==> r == Ok::<ResultKind, String>(crate::llm::parse_kind_spec(kind@)->0),
{
    let k = match ResultKind::parse(kind) {
        Some(k) => k,
        None => return Err("unknown summary type (summary|business|interview|todo)".to_owned()),
    };
    if !engine_ready {
        return Err(
            "Local LLM is not installed. Open Settings → Summaries and download the assistant (or configure a cloud provider).".to_owned(),
        );
    }
    match job_text {
        None => Err("recording not found in history".to_owned()),
        Some(t) => if !is_nonblank(&chars_of(t)) {
            Err("recording has no text".to_owned())
        } else {
            Ok(k)
        },
    }
}

/// A job id of the MCP server: `mcp-<milliseconds>-<counter>`.
pub fn new_id(now_ms: u64, counter: u64) -> (r: String)
    ensures
        r@ == "mcp-"@ + crate::text::dec_spec(now_ms as nat) + "-"@ + crate::text::dec_spec(counter as nat),
{
    let mut v = chars_of("mcp-");
    crate::text::push_dec(&mut v, now_ms);
    extend_chars(&mut v, &chars_of("-"));
    crate::text::push_dec(&mut v, counter);
    string_of(&v)
}

/// The history name of a file transcribed over MCP: its file name, else "MCP".
pub fn job_name(file_name: Option<&str>) -> (r: String)
    ensures
        r@ == (match file_name {
            Some(n) => n@,
            None => "MCP"@,
        }),
{
    match file_name {
        Some(n) => n.to_owned(),
        None => "MCP".to_owned(),
    }
}

/// The text reply of the `status` tool.
pub fn status_text(version: &str, model: &str, asr_ready: bool, llm_ready: bool) -> (r: String)
    ensures
        r@ == "SpeakAgent v"@ + version@ + " — model: "@ + model@ + ", ASR ready: "@ + bool_text(asr_ready)
            + ", LLM ready: "@ + bool_text(llm_ready),
{
    let mut v = chars_of("SpeakAgent v");
    extend_chars(&mut v, &chars_of(version));
    extend_chars(&mut v, &chars_of(" — model: "));
    extend_chars(&mut v, &chars_of(model));
    extend_chars(&mut v, &chars_of(", ASR ready: "));
    extend_chars(&mut v, &chars_of(if asr_ready { "true" } else { "false" }));
    extend_chars(&mut v, &chars_of(", LLM ready: "));
    extend_chars(&mut v, &chars_of(if llm_ready { "true" } else { "false" }));
    string_of(&v)
}

pub open spec fn bool_text(b: bool) -> Seq<char> {
    if b {
        "true"@
    } else {
        "false"@
    }
}

/// The text reply of the `list_jobs` tool.
pub fn jobs_text(n: usize) -> (r: String)
    ensures
        r@ == crate::text::dec_spec(n as nat) + " records in history"@,
{
    let mut v: Vec<char> = Vec::new();
    crate::text::push_dec(&mut v, n as u64);
    assert(v@ =~= crate::text::dec_spec(n as nat));
    extend_chars(&mut v, &chars_of(" records in history"));
    string_of(&v)
}

/// Recognizer threads of the MCP tools: the available parallelism between 1 and 16, four
/// when unknown.
pub fn num_threads(available: Option<usize>) -> (t: i32)
    ensures
        t == (match available {
            Some(n) => crate::hw::clamp16(n as int),
            None => 4,
        }),
{
    match available {
        Some(n) => if n < 1 {
            1
        } else if n > 16 {
            16
        } else {
            n as i32
        },
        None => 4,
    }
}

} // verus!
