//! The local summary helper and the cloud provider: the server's lifecycle, retries, and
//! what is made of the replies. Processes and HTTP are the caller's; the decisions are here.
use vstd::prelude::*;

use crate::llm::{
    clean_output, clean_spec, cloud_test_key_ok, is_stream_done, sse_data, sse_data_spec,
    CANCELLED, IDLE_SHUTDOWN_SECS,
};
use crate::text::{
    chars_of, extend_chars, is_nonblank, nonblank, slice_chars, str_eq, string_of, truncate_spec,
};

verus! {

// ───────────────────────── results and progress ─────────────────────────

/// Progress of a generation: "starting", then "reading" the chunks of a long transcript,
/// then "writing" the text.
pub struct Progress {
    pub stage: &'static str,
    pub done: u32,
    pub total: u32,
    pub partial: String,
}

/// A generated artefact; `digest` is set when a map-reduce digest was built now (to cache).
pub struct GenOutput {
    pub text: String,
    pub digest: Option<String>,
}

/// Reply cap of a recording title.
pub const NAME_MAX_TOKENS: u32 = 32;
/// Characters of the transcript a title is made from.
pub const NAME_INPUT_CHARS: usize = 2000;

/// The beginning of the transcript that a title is made from.
pub fn display_name_input(transcript: &str) -> (r: String)
    ensures
        r@ == truncate_spec(transcript@, NAME_INPUT_CHARS as nat),
{
    crate::text::truncate_chars(transcript, NAME_INPUT_CHARS)
}

// ───────────────────────── local server lifecycle ─────────────────────────

/// The running `llama-server`: its port and the model it serves.
pub struct Running {
    pub port: u16,
    pub model_id: String,
}

/// The local summary helper: at most one server at a time.
pub struct LocalServer {
    pub running: Option<Running>,
}

/// The error when the summary model's files are not installed.
pub const NOT_INSTALLED: &'static str = "The summary model is not installed. Download it in Settings.";

/// What `ensure_server` does next.
pub enum ServerStep {
    /// The running server serves the active model and answers: use it.
    Reuse(u16),
    /// Start a server; `kill_old` when a running one (another model, or not answering)
    /// has to be stopped first.
    Spawn { kill_old: bool },
}

impl LocalServer {
    pub fn new() -> (s: LocalServer)
        ensures
            s.running is None,
    {
        LocalServer { running: None }
    }

    /// The model is in memory: cheap extra requests (such as a title) are worth making.
    pub fn is_warm(&self) -> (b: bool)
        ensures
            b == self.running is Some,
    {
        self.running.is_some()
    }

    /// The port of the running server.
    pub fn running_port(&self) -> (r: Option<u16>)
        ensures
            r == (match self.running {
                Some(x) => Some(x.port),
                None => None::<u16>,
            }),
    {
        match &self.running {
            Some(x) => Some(x.port),
            None => None,
        }
    }

    /// Stops the server (app exit, model change, idling). Returns whether one was running
    /// (the caller kills its process).
    pub fn shutdown(&mut self) -> (was: bool)
        ensures
            was == old(self).running is Some,
            final(self).running is None,
    {
        let was = self.running.is_some();
        self.running = None;
        was
    }

    /// First step of `ensure_server`: without the model's files installed, the error
    /// `NOT_INSTALLED` and nothing touched; else reuse the running server when it serves
    /// `active` and is `healthy`, or forget it and start anew.
    pub fn ensure_step(&mut self, installed: bool, active: &str, healthy: bool) -> (r: Result<ServerStep, String>)
        ensures
            !installed ==> (r matches Err(e) && e@ == NOT_INSTALLED@ && final(self).running == old(self).running),
            installed ==> (r matches Ok(step) && match old(self).running {
                Some(x) => if x.model_id@ == active@ && healthy {
                    step == ServerStep::Reuse(x.port) && final(self).running == old(self).running
                } else {
                    step == (ServerStep::Spawn { kill_old: true }) && final(self).running is None
                },
                None => step == (ServerStep::Spawn { kill_old: false }) && final(self).running is None,
            }),
    {
        if !installed {
            return Err(NOT_INSTALLED.to_owned());
        }
        match &self.running {
            Some(x) => {
                if str_eq(x.model_id.as_str(), active) && healthy {
                    return Ok(ServerStep::Reuse(x.port));
                }
            },
            None => {
                return Ok(ServerStep::Spawn { kill_old: false });
            },
        }
        self.running = None;
        Ok(ServerStep::Spawn { kill_old: true })
    }

    /// The server started and answers.
    pub fn started(&mut self, port: u16, model_id: &str)
        ensures
            final(self).running matches Some(x) && x.port == port && x.model_id@ == model_id@,
    {
        self.running = Some(Running { port, model_id: model_id.to_owned() });
    }
}

/// Milliseconds a starting server is waited for (a large model from a slow disk loads long).
pub const START_TIMEOUT_MS: u64 = 120000;

/// One look at a starting server.
pub enum WaitStep {
    Ready,
    /// The process exited: the error to report.
    Exited(String),
    /// No answer within the timeout: the caller kills the process.
    TimedOut(String),
    Wait,
}

/// The error of a server process that exited early. Exit code `0xC0000135` on Windows is
/// the missing Visual C++ runtime.
pub open spec fn spawn_error_spec(windows: bool, code: Option<i32>, status: Seq<char>) -> Seq<char> {
    if windows && code == Some(-1073741515i32) {
        "A required Windows system component is missing (Microsoft Visual C++ Redistributable). Install it from here and try again: https://aka.ms/vs/17/release/vc_redist.x64.exe"@
    } else {
        "the summary helper failed to start ("@ + status + "). Details: llama-server.log in the data folder"@
    }
}

pub fn spawn_error(windows: bool, code: Option<i32>, status: &str) -> (r: String)
    ensures
        r@ == spawn_error_spec(windows, code, status@),
{
    if windows && code == Some(-1073741515i32) {
        return "A required Windows system component is missing (Microsoft Visual C++ Redistributable). Install it from here and try again: https://aka.ms/vs/17/release/vc_redist.x64.exe".to_owned();
    }
    let a = crate::text::concat("the summary helper failed to start (", status);
    crate::text::concat(a.as_str(), "). Details: llama-server.log in the data folder")
}

/// The wait for a starting server: ready when it answers; failed when the process exited
/// (`exit` holds its code and status text); given up after `START_TIMEOUT_MS`.
pub fn wait_step(healthy: bool, exit: Option<(Option<i32>, &str)>, waited_ms: u64, windows: bool) -> (w: WaitStep)
    ensures
        healthy ==> w is Ready,
        !healthy ==> (exit matches Some((code, status)) ==> (w matches WaitStep::Exited(e) && e@
            == spawn_error_spec(windows, code, status@))),
        !healthy && exit is None && waited_ms > START_TIMEOUT_MS ==> (w matches WaitStep::TimedOut(e)
            && e@ == "the summary helper did not respond within 2 minutes"@),
        !healthy && exit is None && waited_ms <= START_TIMEOUT_MS ==> w is Wait,
{
    if healthy {
        return WaitStep::Ready;
    }
    match exit {
        Some((code, status)) => WaitStep::Exited(spawn_error(windows, code, status)),
        None => if waited_ms > START_TIMEOUT_MS {
            WaitStep::TimedOut("the summary helper did not respond within 2 minutes".to_owned())
        } else {
            WaitStep::Wait
        },
    }
}

/// The idle watchdog unloads the model after `IDLE_SHUTDOWN_SECS` without requests.
pub fn idle_expired(now_secs: u64, last_use_secs: u64) -> (b: bool)
    ensures
        b == (now_secs >= last_use_secs && now_secs - last_use_secs >= IDLE_SHUTDOWN_SECS),
{
    let idle = if now_secs >= last_use_secs { now_secs - last_use_secs } else { 0 };
    idle >= IDLE_SHUTDOWN_SECS
}

// ───────────────────────── retries ─────────────────────────

/// Attempts of a streamed chat request.
pub const CHAT_ATTEMPTS: u32 = 3;

/// After attempt `attempt` (from 0) failed with `error`: the error to give up with, or
/// `None` to try again (after a pause and a fresh `ensure_server`). A cancel is never
/// retried; the third failure is final.
pub fn retry_after(attempt: u32, error: &str) -> (r: Option<String>)
    ensures
        (error@ == CANCELLED@ || attempt + 1 >= CHAT_ATTEMPTS) ==> (r matches Some(e) && e@ == error@),
        !(error@ == CANCELLED@ || attempt + 1 >= CHAT_ATTEMPTS) ==> r is None,
{
    if str_eq(error, CANCELLED) || attempt >= CHAT_ATTEMPTS - 1 {
        Some(error.to_owned())
    } else {
        None
    }
}

// ───────────────────────── cloud ─────────────────────────

/// A connection test of a cloud provider: a tiny request.
pub struct CloudProbe {
    pub url: String,
    pub model: String,
    pub key: String,
    pub system: &'static str,
    pub user: &'static str,
    pub max_tokens: u32,
}

/// The connection test: refused without a token ("provide a token"); otherwise the tiny
/// request to send. The reply goes through `cloud_reply`, then `cloud_test_reply`.
pub fn cloud_test(url: &str, model: &str, key: &str) -> (r: Result<CloudProbe, String>)
    ensures
        !nonblank(key@) <==> r is Err,
        r matches Err(e) ==> e@ == "provide a token"@,
        r matches Ok(p) ==> p.url@ == url@ && p.model@ == model@ && p.key@ == key@ && p.system@
            == "Ты проверяешь связь. Ответь коротко."@ && p.user@ == "Ответь одним словом: ок"@
            && p.max_tokens == 8,
{
    if !cloud_test_key_ok(key) {
        return Err("provide a token".to_owned());
    }
    Ok(
        CloudProbe {
            url: url.to_owned(),
            model: model.to_owned(),
            key: key.to_owned(),
            system: "Ты проверяешь связь. Ответь коротко.",
            user: "Ответь одним словом: ок",
            max_tokens: 8,
        },
    )
}

/// The chat endpoint of an OpenAI-compatible provider: the base URL without trailing `/`,
/// then `/chat/completions`.
pub fn cloud_endpoint(base_url: &str) -> (r: String)
    ensures
        r@ == crate::text::strip_char_end(base_url@, '/') + "/chat/completions"@,
{
    let c = chars_of(base_url);
    let mut n: usize = c.len();
    assert(c@.take(n as int) =~= c@);
    while n > 0 && c[n - 1] == '/'
        invariant
            n <= c@.len(),
            crate::text::strip_char_end(c@, '/') == crate::text::strip_char_end(c@.take(n as int), '/'),
        decreases n,
    {
        assert(c@.take(n as int).drop_last() =~= c@.take(n - 1));
        n = n - 1;
    }
    let mut t = slice_chars(&c, 0, n);
    assert(t@ =~= c@.take(n as int));
    extend_chars(&mut t, &chars_of("/chat/completions"));
    string_of(&t)
}

/// What serde_json makes of a chat completion reply: `Err` with its error text when `raw` is
/// not JSON; else the string at `choices[0].message.content`, if there is one.
pub uninterp spec fn chat_reply_json(raw: Seq<char>) -> Result<Option<Seq<char>>, Seq<char>>;

/// Parses a completion reply with serde_json (`from_str::<Value>`, then
/// `["choices"][0]["message"]["content"].as_str()`). Claimed: the result is the one the name
/// `chat_reply_json` stands for; nothing more is said of JSON.
#[verifier::external_body]
fn parse_chat_reply(raw: &str) -> (r: Result<Option<String>, String>)
    ensures
        chat_reply_json(raw@) == (match r {
            Ok(Some(s)) => Ok(Some(s@)),
            Ok(None) => Ok(None),
            Err(e) => Err(e@),
        }),
{
    match serde_json::from_str::<serde_json::Value>(raw) {
        Ok(v) => Ok(v["choices"][0]["message"]["content"].as_str().map(|s| s.to_string())),
        Err(e) => Err(e.to_string()),
    }
}

/// A cloud reply made into the artefact text: the content, cleaned; an error when the reply
/// is not JSON or the content is missing or blank.
pub open spec fn cloud_reply_spec(parsed: Result<Option<Seq<char>>, Seq<char>>) -> Result<Seq<char>, Seq<char>> {
    match parsed {
        Err(e) => Err(e),
        Ok(c) => {
            let text = match c {
                Some(t) => t,
                None => Seq::empty(),
            };
            if !nonblank(text) {
                Err("the cloud returned an empty response"@)
            } else {
                Ok(clean_spec(text))
            }
        },
    }
}

pub open spec fn res_view(r: Result<String, String>) -> Result<Seq<char>, Seq<char>> {
    match r {
        Ok(s) => Ok(s@),
        Err(e) => Err(e@),
    }
}

/// The text of a cloud completion reply.
pub fn cloud_reply(raw: &str) -> (r: Result<String, String>)
    ensures
        res_view(r) == cloud_reply_spec(chat_reply_json(raw@)),
{
    proof { reveal_strlit(""); }
    match parse_chat_reply(raw) {
        Err(e) => Err(e),
        Ok(c) => {
            let text = match c {
                Some(t) => t,
                None => String::new(),
            };
            if !is_nonblank(&chars_of(text.as_str())) {
                Err("the cloud returned an empty response".to_owned())
            } else {
                Ok(clean_output(text.as_str()))
            }
        },
    }
}

/// What serde_json makes of the data of a streamed chunk: the string at
/// `choices[0].delta.content`, if the data is JSON and has one.
pub uninterp spec fn chat_delta_json(data: Seq<char>) -> Option<Seq<char>>;

/// Parses a streamed chunk with serde_json (`from_str::<Value>`, then
/// `["choices"][0]["delta"]["content"].as_str()`). Claimed: the result is the one the name
/// `chat_delta_json` stands for.
#[verifier::external_body]
fn parse_chat_delta(data: &str) -> (r: Option<String>)
    ensures
        chat_delta_json(data@) == (match r {
            Some(s) => Some(s@),
            None => None::<Seq<char>>,
        }),
{
    match serde_json::from_str::<serde_json::Value>(data) {
        Ok(v) => v["choices"][0]["delta"]["content"].as_str().map(|s| s.to_string()),
        Err(_) => None,
    }
}

/// A line of the server's event stream.
pub enum StreamLine {
    /// Not data, or data without text: nothing to do.
    Skip,
    /// The end-of-stream marker.
    Done,
    /// A piece of the reply.
    Token(String),
}

/// Reads one line of the event stream of a chat request.
pub fn stream_line(line: &str) -> (r: StreamLine)
    ensures
        sse_data_spec(line@) is None ==> r is Skip,
        sse_data_spec(line@) matches Some(d) && d == "[DONE]"@ ==> r is Done,
        sse_data_spec(line@) matches Some(d) ==> (d != "[DONE]"@ ==> match chat_delta_json(d) {
            Some(t) => r matches StreamLine::Token(x) && x@ == t,
            None => r is Skip,
        }),
{
    match sse_data(line) {
        None => StreamLine::Skip,
        Some(d) => {
            if is_stream_done(d.as_str()) {
                StreamLine::Done
            } else {
                match parse_chat_delta(d.as_str()) {
                    Some(t) => StreamLine::Token(t),
                    None => StreamLine::Skip,
                }
            }
        },
    }
}

} // verus!
