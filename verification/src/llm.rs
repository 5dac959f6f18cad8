//! Meeting summaries ("Итоги встречи"): the decisions around the language model.
//!
//! The model runs elsewhere (a local `llama-server` or a cloud provider); this module decides
//! what is sent and what is made of the replies: the prompt of each summary kind, the
//! single-pass limit, map-reduce chunking of long transcripts, speaker names in the
//! transcript, cleanup of replies, and the faithful "beautify" pass that keeps the
//! `SpeakerN [time]:` structure byte for byte.
use vstd::prelude::*;

use crate::prompts;
use crate::text::{
    chars_eq, chars_of, extend_chars, find_chars, find_spec, is_ws, join_chars, join_spec, lines,
    lines_spec, occurs_at, rfind_chars, rfind_spec, slice_chars, split_ws, starts_with,
    starts_with_spec, str_eq, string_of, trim_chars, trim_spec, trim_start_chars, trim_start_spec,
    truncate_spec, words_spec, views, nonblank, is_nonblank, take_chars,
};

verus! {

/// Message of a cancelled generation (tells a user cancel from a real error).
pub const CANCELLED: &'static str = "cancelled";
/// Map step: chunk size in characters (fits an 8k context with room to spare).
pub const CHUNK_CHARS: usize = 10000;
/// Cloud requests: the transcript is cut to this many characters.
pub const CLOUD_INPUT_CHARS: usize = 240000;
/// A failed map step falls back to this much of the raw chunk.
pub const CHUNK_FALLBACK_CHARS: usize = 1400;
/// Beautify batch/chunk budget in characters.
pub const BEAUTIFY_CHUNK_CHARS: usize = 3500;
/// Idle time after which the local model is unloaded.
pub const IDLE_SHUTDOWN_SECS: u64 = 300;

/// Output language of the model.
#[derive(Clone, Copy, PartialEq, Eq, Structural, Debug)]
pub enum Lang {
    Ru,
    En,
}

/// Output language from the `ui_lang` setting: `"en"` is English, anything else Russian.
pub fn out_lang(ui_lang: Option<&str>) -> (l: Lang)
    ensures
        l == (if ui_lang matches Some(s) && s@ == "en"@ { Lang::En } else { Lang::Ru }),
{
    match ui_lang {
        Some(s) => if str_eq(s, "en") { Lang::En } else { Lang::Ru },
        None => Lang::Ru,
    }
}

/// Kind of summary. Each has its prompt and its cap on the reply length.
#[derive(Clone, Copy, PartialEq, Eq, Structural, Debug)]
pub enum ResultKind {
    Summary,
    Business,
    Interview,
    Todo,
}

pub open spec fn kind_name(k: ResultKind) -> Seq<char> {
    match k {
        ResultKind::Summary => "summary"@,
        ResultKind::Business => "business"@,
        ResultKind::Interview => "interview"@,
        ResultKind::Todo => "todo"@,
    }
}

pub open spec fn parse_kind_spec(s: Seq<char>) -> Option<ResultKind> {
    if s == "summary"@ {
        Some(ResultKind::Summary)
    } else if s == "business"@ {
        Some(ResultKind::Business)
    } else if s == "interview"@ {
        Some(ResultKind::Interview)
    } else if s == "todo"@ {
        Some(ResultKind::Todo)
    } else {
        None
    }
}

pub open spec fn max_tokens_spec(k: ResultKind) -> u32 {
    match k {
        ResultKind::Summary => 1536,
        ResultKind::Business => 2048,
        ResultKind::Interview => 2048,
        ResultKind::Todo => 800,
    }
}

pub open spec fn prompt_spec(k: ResultKind, lang: Lang) -> Seq<char> {
    match (k, lang) {
        (ResultKind::Summary, Lang::Ru) => prompts::SUMMARY@,
        (ResultKind::Summary, Lang::En) => prompts::SUMMARY_EN@,
        (ResultKind::Business, Lang::Ru) => prompts::BUSINESS@,
        (ResultKind::Business, Lang::En) => prompts::BUSINESS_EN@,
        (ResultKind::Interview, Lang::Ru) => prompts::INTERVIEW@,
        (ResultKind::Interview, Lang::En) => prompts::INTERVIEW_EN@,
        (ResultKind::Todo, Lang::Ru) => prompts::TODO@,
        (ResultKind::Todo, Lang::En) => prompts::TODO_EN@,
    }
}

impl ResultKind {
    /// `"summary" | "business" | "interview" | "todo"`; anything else is unknown.
    pub fn parse(s: &str) -> (r: Option<ResultKind>)
        ensures
            r == parse_kind_spec(s@),
    {
        if str_eq(s, "summary") {
            Some(ResultKind::Summary)
        } else if str_eq(s, "business") {
            Some(ResultKind::Business)
        } else if str_eq(s, "interview") {
            Some(ResultKind::Interview)
        } else if str_eq(s, "todo") {
            Some(ResultKind::Todo)
        } else {
            None
        }
    }

    pub fn as_str(self) -> (r: &'static str)
        ensures
            r@ == kind_name(self),
    {
        match self {
            ResultKind::Summary => "summary",
            ResultKind::Business => "business",
            ResultKind::Interview => "interview",
            ResultKind::Todo => "todo",
        }
    }

    /// Cap on the reply length: on a CPU it is the difference between a minute and ten.
    pub fn max_tokens(self) -> (r: u32)
        ensures
            r == max_tokens_spec(self),
    {
        match self {
            ResultKind::Summary => 1536,
            ResultKind::Business => 2048,
            ResultKind::Interview => 2048,
            ResultKind::Todo => 800,
        }
    }

    pub fn prompt(self, lang: Lang) -> (r: &'static str)
        ensures
            r@ == prompt_spec(self, lang),
    {
        match (self, lang) {
            (ResultKind::Summary, Lang::Ru) => prompts::SUMMARY,
            (ResultKind::Summary, Lang::En) => prompts::SUMMARY_EN,
            (ResultKind::Business, Lang::Ru) => prompts::BUSINESS,
            (ResultKind::Business, Lang::En) => prompts::BUSINESS_EN,
            (ResultKind::Interview, Lang::Ru) => prompts::INTERVIEW,
            (ResultKind::Interview, Lang::En) => prompts::INTERVIEW_EN,
            (ResultKind::Todo, Lang::Ru) => prompts::TODO,
            (ResultKind::Todo, Lang::En) => prompts::TODO_EN,
        }
    }
}

/// Parsing the name of a kind gives the kind back.
pub proof fn law_kind_name_roundtrip(k: ResultKind)
    ensures
        parse_kind_spec(kind_name(k)) == Some(k),
{
    reveal_strlit("summary");
    reveal_strlit("business");
    reveal_strlit("interview");
    reveal_strlit("todo");
    assert("summary"@.len() == 7);
    assert("business"@.len() == 8);
    assert("interview"@.len() == 9);
    assert("todo"@.len() == 4);
}

/// Prompt of a summary kind in the language of the `ui_lang` setting (for the export "take
/// it to your own AI chat").
pub fn prompt_text(kind: ResultKind, ui_lang: Option<&str>) -> (r: &'static str)
    ensures
        r@ == prompt_spec(kind, if ui_lang matches Some(s) && s@ == "en"@ { Lang::En } else { Lang::Ru }),
{
    kind.prompt(out_lang(ui_lang))
}

/// Chunk prompt of the map step.
pub fn chunk_prompt(lang: Lang) -> (r: &'static str)
    ensures
        r@ == (if lang == Lang::En { prompts::SUMMARIZE_CHUNK_EN@ } else { prompts::SUMMARIZE_CHUNK@ }),
{
    match lang {
        Lang::Ru => prompts::SUMMARIZE_CHUNK,
        Lang::En => prompts::SUMMARIZE_CHUNK_EN,
    }
}

/// Prompt of the recording title.
pub fn display_name_prompt(lang: Lang) -> (r: &'static str)
    ensures
        r@ == (if lang == Lang::En { prompts::DISPLAY_NAME_EN@ } else { prompts::DISPLAY_NAME@ }),
{
    match lang {
        Lang::Ru => prompts::DISPLAY_NAME,
        Lang::En => prompts::DISPLAY_NAME_EN,
    }
}

/// Beautify prompts: turn by turn (diarized) or whole chunks (plain).
pub fn beautify_prompt(lang: Lang, diarized: bool) -> (r: &'static str)
    ensures
        r@ == (match (lang, diarized) {
            (Lang::Ru, true) => prompts::BEAUTIFY_TURNS@,
            (Lang::En, true) => prompts::BEAUTIFY_TURNS_EN@,
            (Lang::Ru, false) => prompts::BEAUTIFY_PLAIN@,
            (Lang::En, false) => prompts::BEAUTIFY_PLAIN_EN@,
        }),
{
    match (lang, diarized) {
        (Lang::Ru, true) => prompts::BEAUTIFY_TURNS,
        (Lang::En, true) => prompts::BEAUTIFY_TURNS_EN,
        (Lang::Ru, false) => prompts::BEAUTIFY_PLAIN,
        (Lang::En, false) => prompts::BEAUTIFY_PLAIN_EN,
    }
}

// ───────────────────────── context and limits ─────────────────────────

/// Context size: by video memory on a GPU (8 GiB or more: 16384), else by RAM (12 GB or more:
/// 16384); 8192 otherwise.
pub fn ctx_size(gpu_vram_bytes: Option<u64>, total_ram_bytes: u64) -> (r: u32)
    ensures
        r == (match gpu_vram_bytes {
            Some(v) => if v >= 8 * 1024 * 1024 * 1024 { 16384u32 } else { 8192u32 },
            None => if total_ram_bytes >= 12_000_000_000 { 16384u32 } else { 8192u32 },
        }),
{
    match gpu_vram_bytes {
        Some(v) => if v >= 8 * 1024 * 1024 * 1024 { 16384 } else { 8192 },
        None => if total_ram_bytes >= 12_000_000_000 { 16384 } else { 8192 },
    }
}

/// Characters of transcript that fit one pass: two characters per token over what the
/// context leaves after the reply cap, the prompt and a 256-token reserve; at least 2048.
pub open spec fn single_pass_limit_spec(ctx: int, max_tokens: int, prompt_chars: int) -> int {
    let budget2 = 2 * ctx - 2 * max_tokens - prompt_chars - 512;
    if budget2 >= 2048 { budget2 } else { 2048 }
}

pub fn single_pass_limit(kind: ResultKind, lang: Lang, ctx: u32) -> (r: u64)
    ensures
        r == single_pass_limit_spec(ctx as int, max_tokens_spec(kind) as int, prompt_spec(kind, lang).len() as int),
{
    let pc = chars_of(kind.prompt(lang)).len();
    let mt = kind.max_tokens();
    let plus: u64 = 2 * (ctx as u64);
    let minus: u64 = 2 * (mt as u64) + 512;
    if plus < minus || (plus - minus) < pc as u64 || (plus - minus) - (pc as u64) < 2048 {
        2048
    } else {
        (plus - minus) - pc as u64
    }
}

/// Reply cap of a beautify request for `input_chars` characters: about as long as the input
/// (`ceil(0.7 * chars)` tokens), between 64 and 3072.
pub fn beautify_max_tokens(input_chars: usize) -> (r: u32)
    ensures
        r == ({
            let t = (7 * input_chars + 9) / 10;
            if t < 64 { 64 } else if t > 3072 { 3072 } else { t }
        }),
{
    if input_chars >= 4390 {
        return 3072;
    }
    let t = (7 * input_chars + 9) / 10;
    if t < 64 {
        64
    } else if t > 3072 {
        3072
    } else {
        t as u32
    }
}

/// Model-specific chat options: the thinking mode of the small Qwen3 is switched off.
pub fn disables_thinking(model_id: &str) -> (b: bool)
    ensures
        b == (model_id@ == "llm-qwen3-17b"@),
{
    str_eq(model_id, "llm-qwen3-17b")
}

} // verus!

verus! {

// ───────────────────────── cloud settings ─────────────────────────

pub open spec fn default_cloud_url() -> Seq<char> {
    "https://openrouter.ai/api/v1"@
}

pub open spec fn default_cloud_model() -> Seq<char> {
    "openai/gpt-4o-mini"@
}

/// A setting that is present and not blank.
pub open spec fn filled(v: Option<Seq<char>>) -> bool {
    v matches Some(s) && nonblank(s)
}

pub open spec fn opt_view(v: Option<&str>) -> Option<Seq<char>> {
    match v {
        Some(s) => Some(s@),
        None => None,
    }
}

fn is_filled(v: Option<&str>) -> (b: bool)
    ensures
        b == filled(opt_view(v)),
{
    match v {
        Some(s) => is_nonblank(&chars_of(s)),
        None => false,
    }
}

fn or_default(v: Option<&str>, d: &str) -> (r: String)
    ensures
        r@ == (if filled(opt_view(v)) { opt_view(v)->0 } else { d@ }),
{
    match v {
        Some(s) => if is_nonblank(&chars_of(s)) { string_of(&chars_of(s)) } else { string_of(&chars_of(d)) },
        None => string_of(&chars_of(d)),
    }
}

/// The cloud provider, when it is selected (`llm_backend == "cloud"`) and its token is set:
/// `(base_url, model, api_key)`, blank url and model replaced by the defaults (OpenRouter,
/// `openai/gpt-4o-mini`).
pub fn cloud_config(
    backend: Option<&str>,
    key: Option<&str>,
    url: Option<&str>,
    model: Option<&str>,
) -> (r: Option<(String, String, String)>)
    ensures
        r is Some <==> (opt_view(backend) == Some("cloud"@) && filled(opt_view(key))),
        r matches Some(c) ==> {
            &&& c.0@ == (if filled(opt_view(url)) { opt_view(url)->0 } else { default_cloud_url() })
            &&& c.1@ == (if filled(opt_view(model)) { opt_view(model)->0 } else { default_cloud_model() })
            &&& c.2@ == opt_view(key)->0
        },
{
    let is_cloud = match backend {
        Some(b) => str_eq(b, "cloud"),
        None => false,
    };
    if !is_cloud {
        return None;
    }
    if !is_filled(key) {
        return None;
    }
    let k = match key {
        Some(k) => string_of(&chars_of(k)),
        None => String::new(),
    };
    let u = or_default(url, "https://openrouter.ai/api/v1");
    let m = or_default(model, "openai/gpt-4o-mini");
    Some((u, m, k))
}

/// The feature is usable: a cloud provider is configured or the local engine and model are
/// installed.
pub fn is_ready(cloud_configured: bool, llm_files_installed: bool) -> (b: bool)
    ensures
        b == (cloud_configured || llm_files_installed),
{
    cloud_configured || llm_files_installed
}

/// A short hint for an HTTP error status of the cloud provider.
pub fn http_hint(code: u16) -> (r: &'static str)
    ensures
        r@ == (if code == 401 || code == 403 {
            " — check the token"@
        } else if code == 402 {
            " — insufficient funds with the provider"@
        } else if code == 404 {
            " — check the address or the model name"@
        } else {
            ""@
        }),
{
    if code == 401 || code == 403 {
        " — check the token"
    } else if code == 402 {
        " — insufficient funds with the provider"
    } else if code == 404 {
        " — check the address or the model name"
    } else {
        ""
    }
}

// ───────────────────────── chunking ─────────────────────────

/// Chunker state: finished chunks and the chunk being filled.
pub struct ChunkState {
    pub out: Seq<Seq<char>>,
    pub cur: Seq<char>,
}

/// The current chunk ends: kept when it holds more than whitespace, dropped otherwise.
pub open spec fn flush(st: ChunkState) -> ChunkState {
    if nonblank(st.cur) {
        ChunkState { out: st.out.push(st.cur), cur: seq![] }
    } else {
        ChunkState { out: st.out, cur: seq![] }
    }
}

/// A line cut into pieces of `max` characters (the last one shorter).
pub open spec fn pieces(line: Seq<char>, max: nat) -> Seq<Seq<char>>
    decreases line.len(),
{
    if max == 0 || line.len() <= max {
        seq![line]
    } else {
        seq![line.take(max as int)] + pieces(line.skip(max as int), max)
    }
}

/// One line into the chunker: an over-long line is cut into its own pieces; otherwise the
/// line joins the current chunk unless that would pass `max` characters.
pub open spec fn chunk_step(st: ChunkState, line: Seq<char>, max: nat) -> ChunkState {
    if line.len() > max {
        ChunkState { out: flush(st).out + pieces(line, max), cur: seq![] }
    } else {
        let st1 = if st.cur.len() > 0 && st.cur.len() + line.len() + 1 > max { flush(st) } else { st };
        ChunkState {
            out: st1.out,
            cur: if st1.cur.len() > 0 { st1.cur.push('\n') + line } else { line },
        }
    }
}

pub open spec fn chunk_fold(ls: Seq<Seq<char>>, max: nat, n: int) -> ChunkState
    decreases n,
{
    if n <= 0 {
        ChunkState { out: seq![], cur: seq![] }
    } else {
        chunk_step(chunk_fold(ls, max, n - 1), ls[n - 1], max)
    }
}

/// Chunks of at most `max` characters along line (replica) boundaries.
pub open spec fn split_chunks_spec(text: Seq<char>, max: nat) -> Seq<Seq<char>> {
    let ls = lines_spec(text);
    flush(chunk_fold(ls, max, ls.len() as int)).out
}

fn flush_exec(out: &mut Vec<Vec<char>>, cur: &mut Vec<char>)
    ensures
        views(final(out)@) == flush(ChunkState { out: views(old(out)@), cur: old(cur)@ }).out,
        final(cur)@ == Seq::<char>::empty(),
{
    let c = take_chars(cur);
    if is_nonblank(&c) {
        let ghost o = out@;
        let ghost cv = c@;
        out.push(c);
        assert(views(out@) =~= views(o).push(cv));
    }
}

fn push_pieces(out: &mut Vec<Vec<char>>, line: &Vec<char>, max: usize)
    requires
        max > 0,
        line.len() > max,
    ensures
        views(final(out)@) == views(old(out)@) + pieces(line@, max as nat),
{
    let mut j: usize = 0;
    assert(line@.skip(0) =~= line@);
    assert(views(out@) + pieces(line@, max as nat) =~= views(old(out)@) + pieces(line@.skip(0), max as nat));
    while line.len() - j > max
        invariant
            max > 0,
            j <= line.len(),
            views(old(out)@) + pieces(line@, max as nat) == views(out@) + pieces(line@.skip(j as int), max as nat),
        decreases line.len() - j,
    {
        let p = slice_chars(line, j, j + max);
        let ghost rest = line@.skip(j as int);
        assert(p@ =~= rest.take(max as int));
        assert(rest.skip(max as int) =~= line@.skip(j + max));
        let ghost o = out@;
        out.push(p);
        assert(views(out@) =~= views(o).push(p@));
        assert(views(o) + pieces(rest, max as nat) =~= views(out@) + pieces(line@.skip(j + max), max as nat));
        j = j + max;
    }
    let p = slice_chars(line, j, line.len());
    assert(p@ =~= line@.skip(j as int));
    let ghost o = out@;
    out.push(p);
    assert(views(out@) =~= views(o) + pieces(line@.skip(j as int), max as nat));
}

/// Splitting a long transcript along line boundaries; an over-long line is cut by characters.
pub fn split_chunks(text: &str, max_chars: usize) -> (r: Vec<String>)
    requires
        max_chars > 0,
    ensures
        r@.map_values(|s: String| s@) == split_chunks_spec(text@, max_chars as nat),
{
    let t = chars_of(text);
    let ls = lines(&t);
    let mut out: Vec<Vec<char>> = Vec::new();
    let mut cur: Vec<char> = Vec::new();
    let mut i: usize = 0;
    while i < ls.len()
        invariant
            max_chars > 0,
            i <= ls.len(),
            views(ls@) == lines_spec(t@),
            t@ == text@,
            views(out@) == chunk_fold(views(ls@), max_chars as nat, i as int).out,
            cur@ == chunk_fold(views(ls@), max_chars as nat, i as int).cur,
        decreases ls.len() - i,
    {
        let line = &ls[i];
        assert(views(ls@)[i as int] == line@);
        if line.len() > max_chars {
            flush_exec(&mut out, &mut cur);
            push_pieces(&mut out, line, max_chars);
        } else {
            if cur.len() > 0 && (cur.len() as u128) + (line.len() as u128) + 1 > max_chars as u128 {
                flush_exec(&mut out, &mut cur);
            }
            if cur.len() > 0 {
                cur.push('\n');
            }
            extend_chars(&mut cur, line);
            proof {
                let st = chunk_fold(views(ls@), max_chars as nat, i as int);
                let st1 = if st.cur.len() > 0 && st.cur.len() + line@.len() + 1 > max_chars { flush(st) } else { st };
                if st1.cur.len() == 0 {
                    assert(st1.cur =~= Seq::<char>::empty());
                    assert(cur@ =~= line@);
                }
            }
        }
        i = i + 1;
    }
    flush_exec(&mut out, &mut cur);
    let mut r: Vec<String> = Vec::new();
    let mut k: usize = 0;
    while k < out.len()
        invariant
            k <= out.len(),
            r@.map_values(|s: String| s@) == views(out@).take(k as int),
        decreases out.len() - k,
    {
        let s = string_of(&out[k]);
        let ghost r0 = r@;
        r.push(s);
        assert(r@.map_values(|s: String| s@) =~= r0.map_values(|s: String| s@).push(out@[k as int]@));
        assert(views(out@).take(k + 1) =~= views(out@).take(k as int).push(out@[k as int]@));
        k = k + 1;
    }
    assert(views(out@).take(out.len() as int) =~= views(out@));
    r
}

/// Word-boundary chunker step (flat text): a word joins the current chunk unless that would
/// pass `max` characters.
pub open spec fn word_step(st: ChunkState, w: Seq<char>, max: nat) -> ChunkState {
    let st1 = if st.cur.len() > 0 && st.cur.len() + w.len() + 1 > max {
        ChunkState { out: st.out.push(st.cur), cur: seq![] }
    } else {
        st
    };
    ChunkState { out: st1.out, cur: if st1.cur.len() > 0 { st1.cur.push(' ') + w } else { w } }
}

pub open spec fn word_fold(ws: Seq<Seq<char>>, max: nat, n: int) -> ChunkState
    decreases n,
{
    if n <= 0 {
        ChunkState { out: seq![], cur: seq![] }
    } else {
        word_step(word_fold(ws, max, n - 1), ws[n - 1], max)
    }
}

/// Chunks of at most `max` characters along word boundaries (a longer word is its own chunk).
pub open spec fn split_words_spec(text: Seq<char>, max: nat) -> Seq<Seq<char>> {
    let ws = words_spec(text);
    flush(word_fold(ws, max, ws.len() as int)).out
}

pub fn split_words(text: &Vec<char>, max_chars: usize) -> (r: Vec<Vec<char>>)
    ensures
        views(r@) == split_words_spec(text@, max_chars as nat),
{
    let ws = split_ws(text);
    let mut out: Vec<Vec<char>> = Vec::new();
    let mut cur: Vec<char> = Vec::new();
    let mut i: usize = 0;
    while i < ws.len()
        invariant
            i <= ws.len(),
            views(ws@) == words_spec(text@),
            views(out@) == word_fold(views(ws@), max_chars as nat, i as int).out,
            cur@ == word_fold(views(ws@), max_chars as nat, i as int).cur,
        decreases ws.len() - i,
    {
        let w = &ws[i];
        assert(views(ws@)[i as int] == w@);
        if cur.len() > 0 && (cur.len() as u128) + (w.len() as u128) + 1 > max_chars as u128 {
            let c = take_chars(&mut cur);
            let ghost o = out@;
            let ghost cv = c@;
            out.push(c);
            assert(views(out@) =~= views(o).push(cv));
        }
        if cur.len() > 0 {
            cur.push(' ');
        }
        extend_chars(&mut cur, w);
        proof {
            let st = word_fold(views(ws@), max_chars as nat, i as int);
            let st1 = if st.cur.len() > 0 && st.cur.len() + w@.len() + 1 > max_chars {
                ChunkState { out: st.out.push(st.cur), cur: seq![] }
            } else {
                st
            };
            if st1.cur.len() == 0 {
                assert(st1.cur =~= Seq::<char>::empty());
                assert(cur@ =~= w@);
            }
        }
        i = i + 1;
    }
    flush_exec(&mut out, &mut cur);
    out
}

// ───────────────────────── replies ─────────────────────────

pub open spec fn is_digit(c: char) -> bool {
    '0' <= c <= '9'
}

/// Number of leading ASCII digits.
pub open spec fn lead_digits(t: Seq<char>) -> nat
    decreases t.len(),
{
    if t.len() > 0 && is_digit(t[0]) {
        1 + lead_digits(t.drop_first())
    } else {
        0
    }
}

/// Separators after a line number, tried in this order.
pub open spec fn num_seps() -> Seq<Seq<char>> {
    seq![
        seq!['.', ' '],
        seq!['.'],
        seq![')', ' '],
        seq![')'],
        seq![':', ' '],
        seq![':'],
        seq!['\t'],
        seq![' ', '-', ' '],
        seq!['-', ' '],
    ]
}

/// First separator from position `k` on that starts `after`.
pub open spec fn first_sep(after: Seq<char>, k: int) -> Option<int>
    decreases 9 - k,
{
    if k < 0 || k >= 9 {
        None
    } else if starts_with_spec(after, num_seps()[k]) {
        Some(k)
    } else {
        first_sep(after, k + 1)
    }
}

/// A reply line without its leading number `N. ` / `N) ` / `N:` / `N\t` / `N - `; a line
/// without one is returned as it is.
pub open spec fn strip_num_spec(s: Seq<char>) -> Seq<char> {
    let t = trim_start_spec(s);
    let nd = lead_digits(t);
    if nd == 0 {
        s
    } else {
        let after = t.skip(nd as int);
        match first_sep(after, 0) {
            Some(k) => trim_start_spec(after.skip(num_seps()[k].len() as int)),
            None => s,
        }
    }
}

fn num_seps_exec() -> (r: Vec<Vec<char>>)
    ensures
        views(r@) == num_seps(),
{
    let mut r: Vec<Vec<char>> = Vec::new();
    let mut a = Vec::new(); a.push('.'); a.push(' '); assert(a@ =~= seq!['.', ' ']); r.push(a);
    let mut b = Vec::new(); b.push('.'); assert(b@ =~= seq!['.']); r.push(b);
    let mut c = Vec::new(); c.push(')'); c.push(' '); assert(c@ =~= seq![')', ' ']); r.push(c);
    let mut d = Vec::new(); d.push(')'); assert(d@ =~= seq![')']); r.push(d);
    let mut e = Vec::new(); e.push(':'); e.push(' '); assert(e@ =~= seq![':', ' ']); r.push(e);
    let mut f = Vec::new(); f.push(':'); assert(f@ =~= seq![':']); r.push(f);
    let mut g = Vec::new(); g.push('\t'); assert(g@ =~= seq!['\t']); r.push(g);
    let mut h = Vec::new(); h.push(' '); h.push('-'); h.push(' '); assert(h@ =~= seq![' ', '-', ' ']); r.push(h);
    let mut k = Vec::new(); k.push('-'); k.push(' '); assert(k@ =~= seq!['-', ' ']); r.push(k);
    assert(views(r@) =~= num_seps());
    r
}

pub fn strip_num_prefix(s: &Vec<char>) -> (r: Vec<char>)
    ensures
        r@ == strip_num_spec(s@),
{
    let t = trim_start_chars(s);
    let mut nd: usize = 0;
    assert(t@.skip(0) =~= t@);
    while nd < t.len() && '0' <= t[nd] && t[nd] <= '9'
        invariant
            nd <= t.len(),
            lead_digits(t@) == nd + lead_digits(t@.skip(nd as int)),
        decreases t.len() - nd,
    {
        assert(t@.skip(nd as int).drop_first() =~= t@.skip(nd + 1));
        nd = nd + 1;
    }
    if nd == 0 {
        let r = slice_chars(s, 0, s.len());
        assert(r@ =~= s@);
        return r;
    }
    let after = slice_chars(&t, nd, t.len());
    assert(after@ =~= t@.skip(nd as int));
    let seps = num_seps_exec();
    assert(views(seps@).len() == 9);
    assert(lead_digits(t@.skip(nd as int)) == 0);
    assert(lead_digits(t@) == nd);
    let mut k: usize = 0;
    while k < 9
        invariant
            k <= 9,
            t@ == trim_start_spec(s@),
            lead_digits(t@) == nd,
            nd > 0,
            after@ == t@.skip(nd as int),
            seps.len() == 9,
            views(seps@) == num_seps(),
            first_sep(after@, 0) == first_sep(after@, k as int),
        decreases 9 - k,
    {
        assert(views(seps@)[k as int] == seps@[k as int]@);
        if starts_with(&after, &seps[k]) {
            assert(first_sep(after@, k as int) == Some(k as int));
            let rest = slice_chars(&after, seps[k].len(), after.len());
            assert(rest@ =~= after@.skip(num_seps()[k as int].len() as int));
            let r = trim_start_chars(&rest);
            assert(lead_digits(t@) == nd);
            assert(t@ == trim_start_spec(s@));
            assert(r@ == strip_num_spec(s@));
            return r;
        }
        k = k + 1;
    }
    let r = slice_chars(s, 0, s.len());
    assert(r@ =~= s@);
    r
}

/// Reply cleanup: a `<think>…</think>` block removed, and a reply wrapped as a whole in a
/// code fence unwrapped.
pub open spec fn clean_spec(s: Seq<char>) -> Seq<char> {
    let t = trim_spec(s);
    let t2 = match (find_spec(t, "<think>"@), find_spec(t, "</think>"@)) {
        (Some(a), Some(b)) => if a < b { trim_spec(t.take(a) + t.skip(b + "</think>"@.len())) } else { t },
        _ => t,
    };
    if starts_with_spec(t2, "```"@) {
        match (find_spec(t2, seq!['\n']), rfind_spec(t2, "```"@)) {
            (Some(nl), Some(lf)) => if lf > nl { trim_spec(t2.subrange(nl + 1, lf)) } else { t2 },
            _ => t2,
        }
    } else {
        t2
    }
}

pub open spec fn without_think(t: Seq<char>) -> Seq<char> {
    match (find_spec(t, "<think>"@), find_spec(t, "</think>"@)) {
        (Some(a), Some(b)) => if a < b { trim_spec(t.take(a) + t.skip(b + "</think>"@.len())) } else { t },
        _ => t,
    }
}

pub open spec fn unfenced(t2: Seq<char>) -> Seq<char> {
    if starts_with_spec(t2, "```"@) {
        match (find_spec(t2, seq!['\n']), rfind_spec(t2, "```"@)) {
            (Some(nl), Some(lf)) => if lf > nl { trim_spec(t2.subrange(nl + 1, lf)) } else { t2 },
            _ => t2,
        }
    } else {
        t2
    }
}

#[verifier::rlimit(60)]
fn remove_think(t: &Vec<char>) -> (r: Vec<char>)
    ensures
        r@ == without_think(t@),
{
    let open = chars_of("<think>");
    let close = chars_of("</think>");
    let fa = find_chars(t, &open);
    let fb = find_chars(t, &close);
    match (fa, fb) {
        (Some(a), Some(b)) => {
            if a < b {
                let mut joined = slice_chars(t, 0, a);
                let tail = slice_chars(t, b + close.len(), t.len());
                assert(tail@ =~= t@.skip(b + close@.len()));
                extend_chars(&mut joined, &tail);
                assert(joined@ =~= t@.take(a as int) + t@.skip(b + close@.len()));
                return trim_chars(&joined);
            }
            slice_chars(t, 0, t.len())
        },
        _ => slice_chars(t, 0, t.len()),
    }
}

#[verifier::rlimit(60)]
fn unfence(t2: &Vec<char>) -> (r: Vec<char>)
    ensures
        r@ == unfenced(t2@),
{
    let fence = chars_of("```");
    if starts_with(t2, &fence) {
        let mut nlv: Vec<char> = Vec::new();
        nlv.push('\n');
        assert(nlv@ =~= seq!['\n']);
        let nl = find_chars(t2, &nlv);
        let lf = rfind_chars(t2, &fence);
        match (nl, lf) {
            (Some(n), Some(l)) => {
                if l > n {
                    let inner = slice_chars(t2, n + 1, l);
                    return trim_chars(&inner);
                }
            },
            _ => {},
        }
    }
    slice_chars(t2, 0, t2.len())
}

pub fn clean_output(s: &str) -> (r: String)
    ensures
        r@ == clean_spec(s@),
{
    let t = trim_chars(&chars_of(s));
    let t2 = remove_think(&t);
    let t3 = unfence(&t2);
    assert(t3@ == clean_spec(s@));
    string_of(&t3)
}

/// The recording title from the model's reply (the last step of naming a recording):
/// trimmed, then quotes `"`, `«`, `»` stripped
/// from both ends (in that order).
pub open spec fn title_spec(s: Seq<char>) -> Seq<char> {
    crate::text::trim_matches_spec(
        crate::text::trim_matches_spec(crate::text::trim_matches_spec(trim_spec(s), '"'), '«'),
        '»',
    )
}

pub fn display_name(s: &str) -> (r: String)
    ensures
        r@ == title_spec(s@),
{
    let t = trim_chars(&chars_of(s));
    let a = crate::text::trim_matches(&t, '"');
    let b = crate::text::trim_matches(&a, '«');
    let c = crate::text::trim_matches(&b, '»');
    string_of(&c)
}

/// A generated title is accepted when it is not blank and at most 80 characters long.
pub fn title_acceptable(name: &str) -> (b: bool)
    ensures
        b == (nonblank(name@) && name@.len() <= 80),
{
    let c = chars_of(name);
    is_nonblank(&c) && c.len() <= 80
}

/// Reply of the connection test: trimmed, at most 40 characters.
pub fn cloud_test_reply(reply: &str) -> (r: String)
    ensures
        r@ == truncate_spec(trim_spec(reply@), 40),
{
    let t = trim_chars(&chars_of(reply));
    if t.len() <= 40 {
        string_of(&t)
    } else {
        let p = slice_chars(&t, 0, 40);
        assert(p@ =~= t@.take(40));
        string_of(&p)
    }
}

/// The connection test needs a token.
pub fn cloud_test_key_ok(key: &str) -> (b: bool)
    ensures
        b == nonblank(key@),
{
    is_nonblank(&chars_of(key))
}

} // verus!

verus! {

// ───────────────────────── speaker names ─────────────────────────

/// What `serde_json::from_str::<BTreeMap<String, String>>` yields for the JSON object of
/// speaker names `{"2": "Иван", ...}`: its (key, name) pairs in key order; no pairs when the
/// text is not such an object.
pub uninterp spec fn parsed_names(json: Seq<char>) -> Seq<(Seq<char>, Seq<char>)>;

/// Parses the speaker names with serde_json (`from_str` into a `BTreeMap<String, String>`,
/// an empty map on any error). Claimed: the pairs are those the name `parsed_names` stands
/// for; nothing more is said of JSON parsing.
#[verifier::external_body]
fn parse_names(json: &str) -> (r: Vec<(String, String)>)
    ensures
        r@.map_values(|p: (String, String)| (p.0@, p.1@)) == parsed_names(json@),
{
    serde_json::from_str::<std::collections::BTreeMap<String, String>>(json).unwrap_or_default().into_iter().collect()
}

pub open spec fn names_view(n: Seq<(String, String)>) -> Seq<(Seq<char>, Seq<char>)> {
    n.map_values(|p: (String, String)| (p.0@, p.1@))
}

/// The name of speaker number `num` (first pair with that key).
pub open spec fn lookup_name(names: Seq<(Seq<char>, Seq<char>)>, num: Seq<char>) -> Option<Seq<char>>
    decreases names.len(),
{
    if names.len() == 0 {
        None
    } else if names[0].0 == num {
        Some(names[0].1)
    } else {
        lookup_name(names.drop_first(), num)
    }
}

/// `SpeakerN rest` becomes `Name rest` when speaker `N` has a non-blank name.
pub open spec fn rename_line(line: Seq<char>, names: Seq<(Seq<char>, Seq<char>)>) -> Seq<char> {
    if starts_with_spec(line, "Speaker"@) {
        let rest = line.skip("Speaker"@.len() as int);
        match find_spec(rest, seq![' ']) {
            Some(i) => match lookup_name(names, rest.take(i)) {
                Some(n) => if nonblank(n) { trim_spec(n) + seq![' '] + rest.skip(i + 1) } else { line },
                None => line,
            },
            None => line,
        }
    } else {
        line
    }
}

/// The transcript with the user's speaker names in place of `SpeakerN` (unchanged without
/// names).
pub open spec fn prepare_spec(text: Seq<char>, names: Seq<(Seq<char>, Seq<char>)>) -> Seq<char> {
    if names.len() == 0 {
        text
    } else {
        join_spec(lines_spec(text).map_values(|l: Seq<char>| rename_line(l, names)), seq!['\n'])
    }
}

fn lookup_exec(names: &Vec<(String, String)>, num: &Vec<char>) -> (r: Option<Vec<char>>)
    ensures
        (match r {
            Some(v) => Some(v@),
            None => None::<Seq<char>>,
        }) == lookup_name(names_view(names@), num@),
{
    let ghost nv = names_view(names@);
    let mut i: usize = 0;
    assert(nv.skip(0) =~= nv);
    while i < names.len()
        invariant
            i <= names.len(),
            nv == names_view(names@),
            lookup_name(nv, num@) == lookup_name(nv.skip(i as int), num@),
        decreases names.len() - i,
    {
        let k = chars_of(names[i].0.as_str());
        assert(nv.skip(i as int)[0] == nv[i as int]);
        if chars_eq(&k, num) {
            return Some(chars_of(names[i].1.as_str()));
        }
        assert(nv.skip(i as int).drop_first() =~= nv.skip(i + 1));
        i = i + 1;
    }
    None
}

#[verifier::rlimit(80)]
fn rename_line_exec(line: &Vec<char>, names: &Vec<(String, String)>) -> (r: Vec<char>)
    ensures
        r@ == rename_line(line@, names_view(names@)),
{
    let sp = chars_of("Speaker");
    if !starts_with(line, &sp) {
        return slice_chars(line, 0, line.len());
    }
    let rest = slice_chars(line, sp.len(), line.len());
    assert(rest@ =~= line@.skip("Speaker"@.len() as int));
    let mut space: Vec<char> = Vec::new();
    space.push(' ');
    assert(space@ =~= seq![' ']);
    match find_chars(&rest, &space) {
        Some(i) => {
            let num = slice_chars(&rest, 0, i);
            assert(num@ =~= rest@.take(i as int));
            match lookup_exec(names, &num) {
                Some(n) => {
                    if is_nonblank(&n) {
                        let mut out = trim_chars(&n);
                        out.push(' ');
                        let tail = slice_chars(&rest, i + 1, rest.len());
                        assert(tail@ =~= rest@.skip(i + 1));
                        extend_chars(&mut out, &tail);
                        out
                    } else {
                        slice_chars(line, 0, line.len())
                    }
                },
                None => slice_chars(line, 0, line.len()),
            }
        },
        None => slice_chars(line, 0, line.len()),
    }
}

/// Speaker names substituted before the transcript goes to the model (see `prepare_spec`).
pub fn prepare_transcript_with(text: &str, names: &Vec<(String, String)>) -> (r: String)
    ensures
        r@ == prepare_spec(text@, names_view(names@)),
{
    if names.len() == 0 {
        return string_of(&chars_of(text));
    }
    let t = chars_of(text);
    let ls = lines(&t);
    let mut out: Vec<Vec<char>> = Vec::new();
    let mut i: usize = 0;
    while i < ls.len()
        invariant
            i <= ls.len(),
            views(ls@) == lines_spec(text@),
            t@ == text@,
            views(out@) == views(ls@).take(i as int).map_values(|l: Seq<char>| rename_line(l, names_view(names@))),
        decreases ls.len() - i,
    {
        let r = rename_line_exec(&ls[i], names);
        let ghost o = out@;
        let ghost rv = r@;
        out.push(r);
        assert(views(out@) =~= views(o).push(rv));
        assert(views(ls@)[i as int] == ls@[i as int]@);
        assert(views(ls@).take(i + 1) =~= views(ls@).take(i as int).push(ls@[i as int]@));
        assert(views(out@) =~= views(ls@).take(i + 1).map_values(|l: Seq<char>| rename_line(l, names_view(names@))));
        i = i + 1;
    }
    assert(views(ls@).take(ls.len() as int) =~= views(ls@));
    let mut nl: Vec<char> = Vec::new();
    nl.push('\n');
    assert(nl@ =~= seq!['\n']);
    string_of(&join_chars(&out, &nl))
}

/// Speaker names from their JSON (see `parsed_names`) substituted into the transcript.
pub fn prepare_transcript(text: &str, names_json: &str) -> (r: String)
    ensures
        r@ == prepare_spec(text@, parsed_names(names_json@)),
{
    let names = parse_names(names_json);
    prepare_transcript_with(text, &names)
}

} // verus!

verus! {

// ───────────────────────── faithful cleanup ("beautify") ─────────────────────────

/// A transcript line split into its kept prefix (`SpeakerN [time]: `) and the body the model
/// may correct. Lines that are not replicas keep everything in the prefix.
pub open spec fn parse_line_spec(raw: Seq<char>) -> (Seq<char>, Seq<char>) {
    if starts_with_spec(trim_start_spec(raw), "Speaker"@) {
        match find_spec(raw, "]:"@) {
            Some(cut) => {
                let body = trim_start_spec(raw.skip(cut + "]:"@.len()));
                if body.len() > 0 {
                    (raw.take(raw.len() - body.len()), body)
                } else {
                    (raw, seq![])
                }
            },
            None => (raw, seq![]),
        }
    } else {
        (raw, seq![])
    }
}

/// Batching state: finished batches, the batch being filled and its character count.
pub struct BatchState {
    pub batches: Seq<Seq<usize>>,
    pub cur: Seq<usize>,
    pub chars: int,
}

/// Replica `i` with a body joins the current batch unless that passes the budget.
pub open spec fn batch_step(st: BatchState, i: usize, body: Seq<char>) -> BatchState {
    if body.len() == 0 {
        st
    } else {
        let c = body.len() + 8;
        let st1 = if st.cur.len() > 0 && st.chars + c > BEAUTIFY_CHUNK_CHARS {
            BatchState { batches: st.batches.push(st.cur), cur: seq![], chars: 0 }
        } else {
            st
        };
        BatchState { batches: st1.batches, cur: st1.cur.push(i), chars: st1.chars + c }
    }
}

pub open spec fn batch_fold(bodies: Seq<Seq<char>>, n: int) -> BatchState
    decreases n,
{
    if n <= 0 {
        BatchState { batches: seq![], cur: seq![], chars: 0 }
    } else {
        batch_step(batch_fold(bodies, n - 1), (n - 1) as usize, bodies[n - 1])
    }
}

/// Replica indices grouped into batches within the character budget.
pub open spec fn batches_spec(bodies: Seq<Seq<char>>) -> Seq<Seq<usize>> {
    let st = batch_fold(bodies, bodies.len() as int);
    if st.cur.len() > 0 {
        st.batches.push(st.cur)
    } else {
        st.batches
    }
}

/// The numbered request of one batch: `1. body`, `2. body`, … one per line.
pub open spec fn batch_prompt_spec(bodies: Seq<Seq<char>>, batch: Seq<usize>) -> Seq<char> {
    join_spec(
        Seq::new(batch.len(), |k: int| crate::text::dec_spec((k + 1) as nat) + ". "@ + bodies[batch[k] as int]),
        seq!['\n'],
    )
}

/// Reply lines without their numbers, blank ones dropped.
pub open spec fn reply_lines(ls: Seq<Seq<char>>) -> Seq<Seq<char>>
    decreases ls.len(),
{
    if ls.len() == 0 {
        seq![]
    } else {
        let prev = reply_lines(ls.drop_last());
        let l = strip_num_spec(ls.last());
        if nonblank(l) {
            prev.push(l)
        } else {
            prev
        }
    }
}

/// A corrected text is plausible when its length is within half and twice the uncorrected length.
pub open spec fn ratio_ok(got: int, orig: int) -> bool {
    let o = if orig >= 1 { orig } else { 1 };
    2 * got >= o && got <= 2 * o
}

/// The first `k` replies applied: a plausible correction replaces the body (trimmed).
pub open spec fn apply_fold(bodies: Seq<Seq<char>>, batch: Seq<usize>, got: Seq<Seq<char>>, k: int) -> Seq<Seq<char>>
    decreases k,
{
    if k <= 0 {
        bodies
    } else {
        let b = apply_fold(bodies, batch, got, k - 1);
        let i = batch[k - 1] as int;
        if ratio_ok(got[k - 1].len() as int, b[i].len() as int) {
            b.update(i, trim_spec(got[k - 1]))
        } else {
            b
        }
    }
}

/// The bodies after the reply to a batch: applied when the reply has exactly one non-blank
/// line per replica, ignored otherwise.
pub open spec fn apply_reply_spec(bodies: Seq<Seq<char>>, batch: Seq<usize>, reply: Seq<char>) -> Seq<Seq<char>> {
    let got = reply_lines(lines_spec(reply));
    if got.len() == batch.len() {
        apply_fold(bodies, batch, got, batch.len() as int)
    } else {
        bodies
    }
}

/// The transcript reassembled: each line its prefix followed by its (corrected) body.
pub open spec fn render_doc_spec(prefixes: Seq<Seq<char>>, bodies: Seq<Seq<char>>) -> Seq<char> {
    join_spec(
        Seq::new(prefixes.len(), |i: int| if bodies[i].len() == 0 { prefixes[i] } else { prefixes[i] + bodies[i] }),
        seq!['\n'],
    )
}

/// A transcript prepared for the turn-by-turn cleanup.
pub struct BeautifyDoc {
    pub prefixes: Vec<Vec<char>>,
    pub bodies: Vec<Vec<char>>,
    pub batches: Vec<Vec<usize>>,
}

impl BeautifyDoc {
    pub open spec fn wf(&self) -> bool {
        &&& self.prefixes.len() == self.bodies.len()
        &&& forall|b: int, k: int|
            0 <= b < self.batches.len() && 0 <= k < self.batches@[b].len() ==> (#[trigger] self.batches@[b]@[k])
                < self.bodies.len()
    }

    pub open spec fn bodies_view(&self) -> Seq<Seq<char>> {
        views(self.bodies@)
    }

    pub open spec fn batches_view(&self) -> Seq<Seq<usize>> {
        self.batches@.map_values(|b: Vec<usize>| b@)
    }
}

#[verifier::rlimit(80)]
fn parse_line(raw: &Vec<char>) -> (r: (Vec<char>, Vec<char>))
    ensures
        (r.0@, r.1@) == parse_line_spec(raw@),
{
    let ts = trim_start_chars(raw);
    let sp = chars_of("Speaker");
    if !starts_with(&ts, &sp) {
        return (slice_chars(raw, 0, raw.len()), Vec::new());
    }
    let mark = chars_of("]:");
    match find_chars(raw, &mark) {
        Some(cut) => {
            let ml = mark.len();
            let rl = raw.len();
            assert(occurs_at(raw@, mark@, cut as int));
            assert(cut + ml <= rl);
            let after = slice_chars(raw, cut + ml, rl);
            assert(after@ =~= raw@.skip(cut + "]:"@.len()));
            let body = trim_start_chars(&after);
            proof { crate::text::lemma_trim_start_suffix(after@); }
            if body.len() > 0 {
                let prefix = slice_chars(raw, 0, raw.len() - body.len());
                assert(prefix@ =~= raw@.take(raw@.len() - body@.len()));
                (prefix, body)
            } else {
                (slice_chars(raw, 0, raw.len()), Vec::new())
            }
        },
        None => (slice_chars(raw, 0, raw.len()), Vec::new()),
    }
}

proof fn lemma_batch_fold_bounds(bodies: Seq<Seq<char>>, n: int)
    requires
        0 <= n <= bodies.len(),
    ensures
        forall|b: int, k: int|
            0 <= b < batch_fold(bodies, n).batches.len() && 0 <= k < batch_fold(bodies, n).batches[b].len()
                ==> (#[trigger] batch_fold(bodies, n).batches[b][k]) < n,
        forall|k: int| 0 <= k < batch_fold(bodies, n).cur.len() ==> (#[trigger] batch_fold(bodies, n).cur[k]) < n,
        0 <= batch_fold(bodies, n).chars,
        batch_fold(bodies, n).cur.len() > 0 || batch_fold(bodies, n).chars == 0,
    decreases n,
{
    if n > 0 {
        lemma_batch_fold_bounds(bodies, n - 1);
        let st = batch_fold(bodies, n - 1);
        let r = batch_fold(bodies, n);
        assert forall|b: int, k: int|
            0 <= b < r.batches.len() && 0 <= k < r.batches[b].len() implies (#[trigger] r.batches[b][k]) < n by {
            if b < st.batches.len() {
                assert(st.batches[b][k] < n - 1);
            } else {
                assert(r.batches[b] == st.cur);
            }
        }
    }
}


/// Replica indices grouped into batches (see `batches_spec`).
fn make_batches(bodies: &Vec<Vec<char>>) -> (batches: Vec<Vec<usize>>)
    ensures
        batches@.map_values(|b: Vec<usize>| b@) == batches_spec(views(bodies@)),
        forall|b: int, k: int|
            0 <= b < batches.len() && 0 <= k < batches@[b].len() ==> (#[trigger] batches@[b]@[k]) < bodies.len(),
{
        let ghost bvw = views(bodies@);
        let mut batches: Vec<Vec<usize>> = Vec::new();
        let mut cur: Vec<usize> = Vec::new();
        let mut cur_chars: u128 = 0;
        let mut j: usize = 0;
        while j < bodies.len()
            invariant
                j <= bodies.len(),
                bvw == views(bodies@),
                ({
                    let st = batch_fold(bvw, j as int);
                    &&& batches@.map_values(|b: Vec<usize>| b@) == st.batches
                    &&& cur@ == st.cur
                    &&& cur_chars == st.chars
                }),
                cur_chars <= BEAUTIFY_CHUNK_CHARS + 0x1_0000_0000_0000_0008,
            decreases bodies.len() - j,
        {
            proof { lemma_batch_fold_bounds(bvw, j as int); }
            assert(bvw[j as int] == bodies@[j as int]@);
            let blen = bodies[j].len();
            if blen > 0 {
                let c: u128 = blen as u128 + 8;
                if cur.len() > 0 && cur_chars + c > BEAUTIFY_CHUNK_CHARS as u128 {
                    let ghost b0 = batches@;
                    let ghost cv = cur@;
                    let mut taken: Vec<usize> = Vec::new();
                    std::mem::swap(&mut cur, &mut taken);
                    batches.push(taken);
                    assert(batches@.map_values(|b: Vec<usize>| b@) =~= b0.map_values(|b: Vec<usize>| b@).push(cv));
                    cur_chars = 0;
                }
                cur.push(j);
                cur_chars = cur_chars + c;
            }
            j = j + 1;
        }
        proof { lemma_batch_fold_bounds(bvw, bodies.len() as int); }
        if cur.len() > 0 {
            let ghost b0 = batches@;
            let ghost cv = cur@;
            batches.push(cur);
            assert(batches@.map_values(|b: Vec<usize>| b@) =~= b0.map_values(|b: Vec<usize>| b@).push(cv));
        }
        assert forall|b: int, k: int|
            0 <= b < batches.len() && 0 <= k < batches@[b].len() implies (#[trigger] batches@[b]@[k]) < bodies.len() by {
            assert(batches@.map_values(|b: Vec<usize>| b@)[b] == batches@[b]@);
        }
        batches
}

impl BeautifyDoc {
    /// Splits a diarized transcript into prefixes and bodies and groups the replicas into
    /// batches (see `parse_line_spec`, `batches_spec`).
    #[verifier::rlimit(60)]
    #[verifier::spinoff_prover]
    pub fn parse(raw: &str) -> (d: BeautifyDoc)
        ensures
            d.wf(),
            views(d.prefixes@) == lines_spec(raw@).map_values(|l: Seq<char>| parse_line_spec(l).0),
            d.bodies_view() == lines_spec(raw@).map_values(|l: Seq<char>| parse_line_spec(l).1),
            d.batches_view() == batches_spec(d.bodies_view()),
    {
        let t = chars_of(raw);
        let ls = lines(&t);
        let mut prefixes: Vec<Vec<char>> = Vec::new();
        let mut bodies: Vec<Vec<char>> = Vec::new();
        let mut i: usize = 0;
        while i < ls.len()
            invariant
                i <= ls.len(),
                views(ls@) == lines_spec(raw@),
                t@ == raw@,
                prefixes.len() == i,
                bodies.len() == i,
                views(prefixes@) == views(ls@).take(i as int).map_values(|l: Seq<char>| parse_line_spec(l).0),
                views(bodies@) == views(ls@).take(i as int).map_values(|l: Seq<char>| parse_line_spec(l).1),
            decreases ls.len() - i,
        {
            let (p, b) = parse_line(&ls[i]);
            let ghost p0 = prefixes@;
            let ghost b0 = bodies@;
            let ghost pv = p@;
            let ghost bv = b@;
            prefixes.push(p);
            bodies.push(b);
            assert(views(ls@)[i as int] == ls@[i as int]@);
            assert(views(ls@).take(i + 1) =~= views(ls@).take(i as int).push(ls@[i as int]@));
            assert(views(prefixes@) =~= views(p0).push(pv));
            assert(views(bodies@) =~= views(b0).push(bv));
            assert(views(prefixes@) =~= views(ls@).take(i + 1).map_values(|l: Seq<char>| parse_line_spec(l).0));
            assert(views(bodies@) =~= views(ls@).take(i + 1).map_values(|l: Seq<char>| parse_line_spec(l).1));
            i = i + 1;
        }
        assert(views(ls@).take(ls.len() as int) =~= views(ls@));
        let batches = make_batches(&bodies);
        let d = BeautifyDoc { prefixes, bodies, batches };
        d
    }

    /// Number of batches (0 when the transcript has no replica to correct).
    pub fn batch_count(&self) -> (n: usize)
        ensures
            n == self.batches_view().len(),
    {
        self.batches.len()
    }

    /// The numbered request of batch `b` (see `batch_prompt_spec`).
    pub fn batch_prompt(&self, b: usize) -> (r: String)
        requires
            self.wf(),
            b < self.batches.len(),
        ensures
            r@ == batch_prompt_spec(self.bodies_view(), self.batches_view()[b as int]),
    {
        let batch = &self.batches[b];
        let mut parts: Vec<Vec<char>> = Vec::new();
        let mut k: usize = 0;
        while k < batch.len()
            invariant
                self.wf(),
                b < self.batches.len(),
                batch@ == self.batches@[b as int]@,
                k <= batch.len(),
                views(parts@) == Seq::new(k as nat, |x: int| crate::text::dec_spec((x + 1) as nat) + ". "@
                    + self.bodies_view()[batch@[x] as int]),
            decreases batch.len() - k,
        {
            let idx = batch[k];
            assert(idx < self.bodies.len());
            let mut line: Vec<char> = Vec::new();
            crate::text::push_dec(&mut line, (k as u64) + 1);
            extend_chars(&mut line, &chars_of(". "));
            extend_chars(&mut line, &self.bodies[idx]);
            let ghost p0 = parts@;
            let ghost lv = line@;
            parts.push(line);
            assert(views(parts@) =~= views(p0).push(lv));
            assert(lv =~= crate::text::dec_spec((k + 1) as nat) + ". "@ + self.bodies_view()[idx as int]);
            assert(views(parts@) =~= Seq::new((k + 1) as nat, |x: int| crate::text::dec_spec((x + 1) as nat) + ". "@
                + self.bodies_view()[batch@[x] as int]));
            k = k + 1;
        }
        let mut nl: Vec<char> = Vec::new();
        nl.push('\n');
        assert(nl@ =~= seq!['\n']);
        assert(self.batches_view()[b as int] == batch@);
        string_of(&join_chars(&parts, &nl))
    }

    /// Applies the model's reply to batch `b` (see `apply_reply_spec`).
    pub fn apply_reply(&mut self, b: usize, reply: &str)
        requires
            old(self).wf(),
            b < old(self).batches.len(),
        ensures
            final(self).wf(),
            final(self).batches_view() == old(self).batches_view(),
            views(final(self).prefixes@) == views(old(self).prefixes@),
            final(self).bodies_view() == apply_reply_spec(old(self).bodies_view(), old(self).batches_view()[b as int], reply@),
    {
        let ghost bod0 = self.bodies_view();
        let ls = lines(&chars_of(reply));
        let mut got: Vec<Vec<char>> = Vec::new();
        let mut i: usize = 0;
        while i < ls.len()
            invariant
                i <= ls.len(),
                views(ls@) == lines_spec(reply@),
                views(got@) == reply_lines(views(ls@).take(i as int)),
            decreases ls.len() - i,
        {
            let l = strip_num_prefix(&ls[i]);
            assert(views(ls@).take(i + 1).drop_last() =~= views(ls@).take(i as int));
            assert(views(ls@).take(i + 1).last() == ls@[i as int]@);
            if is_nonblank(&l) {
                let ghost g0 = got@;
                let ghost lv = l@;
                got.push(l);
                assert(views(got@) =~= views(g0).push(lv));
            }
            i = i + 1;
        }
        assert(views(ls@).take(ls.len() as int) =~= views(ls@));
        let batch = self.batches[b].clone();
        assert(batch@ == self.batches_view()[b as int]);
        if got.len() != batch.len() {
            return;
        }
        let mut k: usize = 0;
        while k < batch.len()
            invariant
                self.wf(),
                b < self.batches.len(),
                batch@ == self.batches@[b as int]@,
                self.batches_view() == old(self).batches_view(),
                views(self.prefixes@) == views(old(self).prefixes@),
                got.len() == batch.len(),
                k <= batch.len(),
                self.bodies_view() == apply_fold(bod0, batch@, views(got@), k as int),
            decreases batch.len() - k,
        {
            let idx = batch[k];
            assert(idx < self.bodies.len());
            let g = got[k].len();
            let o = if self.bodies[idx].len() >= 1 { self.bodies[idx].len() } else { 1 };
            assert(self.bodies_view()[idx as int] == self.bodies@[idx as int]@);
            assert(views(got@)[k as int] == got@[k as int]@);
            if (2 * (g as u128)) >= o as u128 && (g as u128) <= 2 * (o as u128) {
                let nb = trim_chars(&got[k]);
                let ghost b0 = self.bodies@;
                let ghost nbv = nb@;
                self.bodies.set(idx, nb);
                assert(self.bodies_view() =~= views(b0).update(idx as int, nbv));
            }
            k = k + 1;
        }
    }

    /// The transcript reassembled from prefixes and bodies (see `render_doc_spec`).
    pub fn render(&self) -> (r: String)
        requires
            self.wf(),
        ensures
            r@ == render_doc_spec(views(self.prefixes@), self.bodies_view()),
    {
        let mut out: Vec<Vec<char>> = Vec::new();
        let mut i: usize = 0;
        while i < self.prefixes.len()
            invariant
                self.wf(),
                i <= self.prefixes.len(),
                views(out@) == Seq::new(i as nat, |x: int| if self.bodies_view()[x].len() == 0 {
                    views(self.prefixes@)[x]
                } else {
                    views(self.prefixes@)[x] + self.bodies_view()[x]
                }),
            decreases self.prefixes.len() - i,
        {
            assert(views(self.prefixes@)[i as int] == self.prefixes@[i as int]@);
            assert(self.bodies_view()[i as int] == self.bodies@[i as int]@);
            let mut line = slice_chars(&self.prefixes[i], 0, self.prefixes[i].len());
            if self.bodies[i].len() > 0 {
                extend_chars(&mut line, &self.bodies[i]);
            }
            let ghost o = out@;
            let ghost lv = line@;
            assert(lv =~= (if self.bodies_view()[i as int].len() == 0 {
                views(self.prefixes@)[i as int]
            } else {
                views(self.prefixes@)[i as int] + self.bodies_view()[i as int]
            }));
            out.push(line);
            assert(views(out@) =~= views(o).push(lv));
            assert(views(out@) =~= Seq::new((i + 1) as nat, |x: int| if self.bodies_view()[x].len() == 0 {
                views(self.prefixes@)[x]
            } else {
                views(self.prefixes@)[x] + self.bodies_view()[x]
            }));
            i = i + 1;
        }
        let mut nl: Vec<char> = Vec::new();
        nl.push('\n');
        assert(nl@ =~= seq!['\n']);
        string_of(&join_chars(&out, &nl))
    }
}

/// Whether the transcript is diarized: some line starts (after whitespace) with `Speaker`.
pub open spec fn is_diarized_spec(text: Seq<char>) -> bool {
    exists|i: int| 0 <= i < lines_spec(text).len() && starts_with_spec(trim_start_spec(#[trigger] lines_spec(text)[i]), "Speaker"@)
}

pub fn is_diarized(text: &str) -> (b: bool)
    ensures
        b == is_diarized_spec(text@),
{
    let ls = lines(&chars_of(text));
    let sp = chars_of("Speaker");
    let mut i: usize = 0;
    while i < ls.len()
        invariant
            i <= ls.len(),
            views(ls@) == lines_spec(text@),
            sp@ == "Speaker"@,
            forall|j: int| 0 <= j < i ==> !starts_with_spec(trim_start_spec(#[trigger] lines_spec(text@)[j]), "Speaker"@),
        decreases ls.len() - i,
    {
        assert(views(ls@)[i as int] == ls@[i as int]@);
        if starts_with(&trim_start_chars(&ls[i]), &sp) {
            return true;
        }
        i = i + 1;
    }
    false
}

/// Plain (undiarized) cleanup: a chunk's correction is kept when it is not blank and of
/// plausible length, the chunk as it was otherwise.
pub open spec fn accept_cleaned_spec(chunk: Seq<char>, cleaned: Seq<char>) -> Seq<char> {
    if ratio_ok(cleaned.len() as int, chunk.len() as int) && nonblank(cleaned) {
        trim_spec(cleaned)
    } else {
        chunk
    }
}

pub fn accept_cleaned(chunk: &Vec<char>, cleaned: &str) -> (r: Vec<char>)
    ensures
        r@ == accept_cleaned_spec(chunk@, cleaned@),
{
    let c = chars_of(cleaned);
    let g = c.len() as u128;
    let o: u128 = if chunk.len() >= 1 { chunk.len() as u128 } else { 1 };
    if 2 * g >= o && g <= 2 * o && is_nonblank(&c) {
        trim_chars(&c)
    } else {
        slice_chars(chunk, 0, chunk.len())
    }
}

/// Chunks of a plain transcript for the cleanup (word boundaries, `BEAUTIFY_CHUNK_CHARS`).
pub fn plain_chunks(text: &str) -> (r: Vec<Vec<char>>)
    ensures
        views(r@) == split_words_spec(text@, BEAUTIFY_CHUNK_CHARS as nat),
{
    split_words(&chars_of(text), BEAUTIFY_CHUNK_CHARS)
}

// ───────────────────────── generation plan ─────────────────────────

/// How a summary is produced by the local model.
pub enum GenPlan {
    /// Short transcript: one pass over the transcript itself.
    SinglePass(String),
    /// Long transcript with a cached digest: one pass over the digest (cut to the limit).
    FromDigest(String),
    /// Long transcript: a digest of each chunk first (map), then one pass over the digests.
    MapReduce(Vec<String>),
}

/// The plan for a transcript: one pass when it fits `limit` characters, else the cached
/// digest when there is a non-blank one, else map-reduce over `CHUNK_CHARS` chunks.
pub fn plan_generation(transcript: &str, digest: Option<&str>, limit: u64) -> (p: GenPlan)
    ensures
        transcript@.len() <= limit ==> (p matches GenPlan::SinglePass(t) && t@ == transcript@),
        transcript@.len() > limit && filled(opt_view(digest)) ==> (p matches GenPlan::FromDigest(d)
            && d@ == truncate_spec(opt_view(digest)->0, limit as nat)),
        transcript@.len() > limit && !filled(opt_view(digest)) ==> (p matches GenPlan::MapReduce(cs)
            && cs@.map_values(|s: String| s@) == split_chunks_spec(transcript@, CHUNK_CHARS as nat)),
{
    let t = chars_of(transcript);
    if (t.len() as u128) <= limit as u128 {
        return GenPlan::SinglePass(string_of(&t));
    }
    if is_filled(digest) {
        match digest {
            Some(d) => {
                let dc = chars_of(d);
                if (dc.len() as u128) <= limit as u128 {
                    return GenPlan::FromDigest(string_of(&dc));
                }
                let p = slice_chars(&dc, 0, limit as usize);
                assert(p@ =~= dc@.take(limit as int));
                return GenPlan::FromDigest(string_of(&p));
            },
            None => {},
        }
    }
    GenPlan::MapReduce(split_chunks(transcript, CHUNK_CHARS))
}

/// Fallback of a failed map step: the start of the raw chunk.
pub fn chunk_fallback(chunk: &str) -> (r: String)
    ensures
        r@ == truncate_spec(chunk@, CHUNK_FALLBACK_CHARS as nat),
{
    crate::text::truncate_chars(chunk, CHUNK_FALLBACK_CHARS)
}

/// What a map step contributes: the model's reply; the cancellation is passed on; any other
/// failure gives the chunk's fallback.
pub open spec fn map_outcome_spec(chunk: Seq<char>, reply: Result<Seq<char>, Seq<char>>) -> Result<Seq<char>, Seq<char>> {
    match reply {
        Ok(s) => Ok(s),
        Err(e) => if e == CANCELLED@ {
            Err(e)
        } else {
            Ok(truncate_spec(chunk, CHUNK_FALLBACK_CHARS as nat))
        },
    }
}

pub open spec fn result_view(r: Result<String, String>) -> Result<Seq<char>, Seq<char>> {
    match r {
        Ok(s) => Ok(s@),
        Err(e) => Err(e@),
    }
}

/// The outcome of the map step on `chunk` given the model's `reply` (see `map_outcome_spec`).
pub fn map_outcome(chunk: &str, reply: Result<String, String>) -> (r: Result<String, String>)
    ensures
        result_view(r) == map_outcome_spec(chunk@, result_view(reply)),
{
    match reply {
        Ok(s) => Ok(s),
        Err(e) => if str_eq(e.as_str(), CANCELLED) {
            Err(e)
        } else {
            Ok(chunk_fallback(chunk))
        },
    }
}

/// The reduce input: the chunk digests joined by blank lines (the digest to cache), and that
/// digest cut to `limit` characters (the input of the final pass).
pub fn reduce_input(parts: &Vec<String>, limit: u64) -> (r: (String, String))
    ensures
        r.0@ == join_spec(parts@.map_values(|s: String| s@), seq!['\n', '\n']),
        r.1@ == truncate_spec(r.0@, limit as nat),
{
    let mut ps: Vec<Vec<char>> = Vec::new();
    let mut i: usize = 0;
    while i < parts.len()
        invariant
            i <= parts.len(),
            views(ps@) == parts@.take(i as int).map_values(|s: String| s@),
        decreases parts.len() - i,
    {
        let c = chars_of(parts[i].as_str());
        let ghost p0 = ps@;
        let ghost cv = c@;
        ps.push(c);
        assert(views(ps@) =~= views(p0).push(cv));
        assert(parts@.take(i + 1).map_values(|s: String| s@) =~= parts@.take(i as int).map_values(|s: String| s@).push(parts@[i as int]@));
        i = i + 1;
    }
    assert(parts@.take(parts.len() as int) =~= parts@);
    let mut sep: Vec<char> = Vec::new();
    sep.push('\n');
    sep.push('\n');
    assert(sep@ =~= seq!['\n', '\n']);
    let built = join_chars(&ps, &sep);
    let input = if (built.len() as u128) <= limit as u128 {
        slice_chars(&built, 0, built.len())
    } else {
        let p = slice_chars(&built, 0, limit as usize);
        assert(p@ =~= built@.take(limit as int));
        p
    };
    assert(built@.take(built.len() as int) =~= built@);
    (string_of(&built), string_of(&input))
}

/// Cloud input: the transcript cut to `CLOUD_INPUT_CHARS` characters; reply cap: the kind's
/// cap plus 512.
pub fn cloud_request(kind: ResultKind, transcript: &str) -> (r: (String, u32))
    ensures
        r.0@ == truncate_spec(transcript@, CLOUD_INPUT_CHARS as nat),
        r.1 == max_tokens_spec(kind) + 512,
{
    (crate::text::truncate_chars(transcript, CLOUD_INPUT_CHARS), kind.max_tokens() + 512)
}

} // verus!

verus! {

// ───────────────────────── local server ─────────────────────────

/// Arguments of `llama-server`: model, loopback host and port, context, threads, a q8_0 key
/// cache, no web UI; without GPU offload the device is forced to the CPU.
pub open spec fn server_args_spec(gguf: Seq<char>, port: nat, ctx: nat, threads: nat, offload: bool) -> Seq<Seq<char>> {
    let base = seq![
        "-m"@,
        gguf,
        "--host"@,
        "127.0.0.1"@,
        "--port"@,
        crate::text::dec_spec(port),
        "-c"@,
        crate::text::dec_spec(ctx),
        "-t"@,
        crate::text::dec_spec(threads),
        "--cache-type-k"@,
        "q8_0"@,
        "--no-webui"@,
    ];
    if offload {
        base
    } else {
        base + seq!["--device"@, "none"@]
    }
}

fn dec_string(n: u64) -> (r: String)
    ensures
        r@ == crate::text::dec_spec(n as nat),
{
    let mut v: Vec<char> = Vec::new();
    crate::text::push_dec(&mut v, n);
    assert(v@ =~= crate::text::dec_spec(n as nat));
    string_of(&v)
}

fn lit(s: &str) -> (r: String)
    ensures
        r@ == s@,
{
    string_of(&chars_of(s))
}

pub fn server_args(gguf: &str, port: u16, ctx: u32, threads: u64, offload: bool) -> (r: Vec<String>)
    ensures
        r@.map_values(|s: String| s@) == server_args_spec(gguf@, port as nat, ctx as nat, threads as nat, offload),
{
    let mut r: Vec<String> = Vec::new();
    r.push(lit("-m"));
    r.push(lit(gguf));
    r.push(lit("--host"));
    r.push(lit("127.0.0.1"));
    r.push(lit("--port"));
    r.push(dec_string(port as u64));
    r.push(lit("-c"));
    r.push(dec_string(ctx as u64));
    r.push(lit("-t"));
    r.push(dec_string(threads));
    r.push(lit("--cache-type-k"));
    r.push(lit("q8_0"));
    r.push(lit("--no-webui"));
    if !offload {
        r.push(lit("--device"));
        r.push(lit("none"));
    }
    assert(r@.map_values(|s: String| s@) =~= server_args_spec(gguf@, port as nat, ctx as nat, threads as nat, offload));
    r
}

/// Error text of an HTTP error status of the cloud provider:
/// `cloud provider: HTTP <code><hint>. <first 300 characters of the reply>`.
pub fn cloud_http_error(code: u16, detail: &str) -> (r: String)
    ensures
        r@ == "cloud provider: HTTP "@ + crate::text::dec_spec(code as nat) + http_hint_spec(code) + ". "@
            + truncate_spec(detail@, 300),
{
    let mut v = chars_of("cloud provider: HTTP ");
    crate::text::push_dec(&mut v, code as u64);
    extend_chars(&mut v, &chars_of(http_hint(code)));
    extend_chars(&mut v, &chars_of(". "));
    extend_chars(&mut v, &chars_of(crate::text::truncate_chars(detail, 300).as_str()));
    string_of(&v)
}

pub open spec fn http_hint_spec(code: u16) -> Seq<char> {
    if code == 401 || code == 403 {
        " — check the token"@
    } else if code == 402 {
        " — insufficient funds with the provider"@
    } else if code == 404 {
        " — check the address or the model name"@
    } else {
        ""@
    }
}

/// The data of a server-sent event line (`data: <payload>`), if it is one.
pub open spec fn sse_data_spec(line: Seq<char>) -> Option<Seq<char>> {
    if starts_with_spec(line, "data: "@) {
        Some(line.skip("data: "@.len() as int))
    } else {
        None
    }
}

pub fn sse_data(line: &str) -> (r: Option<String>)
    ensures
        (match r {
            Some(s) => Some(s@),
            None => None::<Seq<char>>,
        }) == sse_data_spec(line@),
{
    let l = chars_of(line);
    let p = chars_of("data: ");
    if starts_with(&l, &p) {
        let rest = slice_chars(&l, p.len(), l.len());
        assert(rest@ =~= l@.skip("data: "@.len() as int));
        Some(string_of(&rest))
    } else {
        None
    }
}

/// The end-of-stream marker of the chat stream.
pub fn is_stream_done(data: &str) -> (b: bool)
    ensures
        b == (data@ == "[DONE]"@),
{
    str_eq(data, "[DONE]")
}

} // verus!

verus! {

proof fn lemma_pieces_fit(line: Seq<char>, max: nat)
    requires
        max > 0,
    ensures
        forall|j: int| 0 <= j < pieces(line, max).len() ==> (#[trigger] pieces(line, max)[j]).len() <= max,
    decreases line.len(),
{
    if line.len() > max {
        lemma_pieces_fit(line.skip(max as int), max);
        let rest = pieces(line.skip(max as int), max);
        assert forall|j: int| 0 <= j < pieces(line, max).len() implies (#[trigger] pieces(line, max)[j]).len() <= max by {
            if j > 0 {
                assert(pieces(line, max)[j] == rest[j - 1]);
            }
        }
    }
}

pub open spec fn all_fit(s: Seq<Seq<char>>, max: nat) -> bool {
    forall|j: int| 0 <= j < s.len() ==> (#[trigger] s[j]).len() <= max
}

proof fn lemma_chunk_fold_fit(ls: Seq<Seq<char>>, max: nat, n: int)
    requires
        max > 0,
        0 <= n <= ls.len(),
    ensures
        all_fit(chunk_fold(ls, max, n).out, max),
        chunk_fold(ls, max, n).cur.len() <= max,
    decreases n,
{
    if n > 0 {
        lemma_chunk_fold_fit(ls, max, n - 1);
        let st = chunk_fold(ls, max, n - 1);
        let line = ls[n - 1];
        let f = flush(st);
        assert(all_fit(f.out, max)) by {
            if nonblank(st.cur) {
                assert forall|j: int| 0 <= j < f.out.len() implies (#[trigger] f.out[j]).len() <= max by {
                    if j < st.out.len() {
                        assert(f.out[j] == st.out[j]);
                    }
                }
            }
        }
        if line.len() > max {
            lemma_pieces_fit(line, max);
            let o = f.out + pieces(line, max);
            assert forall|j: int| 0 <= j < o.len() implies (#[trigger] o[j]).len() <= max by {
                if j < f.out.len() {
                    assert(o[j] == f.out[j]);
                } else {
                    assert(o[j] == pieces(line, max)[j - f.out.len()]);
                }
            }
        }
    }
}

/// Map-reduce chunks are never longer than the limit: every chunk of a transcript has at
/// most `max` characters.
pub proof fn law_chunks_fit(text: Seq<char>, max: nat)
    requires
        max > 0,
    ensures
        all_fit(split_chunks_spec(text, max), max),
{
    let ls = lines_spec(text);
    lemma_chunk_fold_fit(ls, max, ls.len() as int);
    let st = chunk_fold(ls, max, ls.len() as int);
    let f = flush(st);
    if nonblank(st.cur) {
        assert forall|j: int| 0 <= j < f.out.len() implies (#[trigger] f.out[j]).len() <= max by {
            if j < st.out.len() {
                assert(f.out[j] == st.out[j]);
            }
        }
    }
}

} // verus!

verus! {

proof fn lemma_apply_fold_keeps(bodies: Seq<Seq<char>>, batch: Seq<usize>, got: Seq<Seq<char>>, k: int)
    requires
        0 <= k <= batch.len(),
        k <= got.len(),
        forall|j: int| 0 <= j < batch.len() ==> (#[trigger] batch[j]) < bodies.len(),
    ensures
        apply_fold(bodies, batch, got, k).len() == bodies.len(),
        forall|i: int| 0 <= i < bodies.len() && !batch.take(k).contains(i as usize) ==> #[trigger] apply_fold(bodies, batch, got, k)[i] == bodies[i],
    decreases k,
{
    if k > 0 {
        lemma_apply_fold_keeps(bodies, batch, got, k - 1);
        let b = apply_fold(bodies, batch, got, k - 1);
        assert forall|i: int| 0 <= i < bodies.len() && !batch.take(k).contains(i as usize) implies #[trigger] apply_fold(
            bodies,
            batch,
            got,
            k,
        )[i] == bodies[i] by {
            assert(batch.take(k)[k - 1] == batch[k - 1]);
            assert(batch[k - 1] != i as usize);
            if batch.take(k - 1).contains(i as usize) {
                let j = choose|j: int| 0 <= j < batch.take(k - 1).len() && #[trigger] batch.take(k - 1)[j] == i as usize;
                assert(batch.take(k)[j] == i as usize);
            }
        }
    }
}

/// The cleanup never touches the structure: a reply keeps the number of replicas and every
/// replica outside its batch, and a reply with the wrong number of lines changes nothing.
pub proof fn law_cleanup_keeps_structure(bodies: Seq<Seq<char>>, batch: Seq<usize>, reply: Seq<char>)
    requires
        forall|j: int| 0 <= j < batch.len() ==> (#[trigger] batch[j]) < bodies.len(),
    ensures
        apply_reply_spec(bodies, batch, reply).len() == bodies.len(),
        forall|i: int| 0 <= i < bodies.len() && !batch.contains(i as usize) ==> #[trigger] apply_reply_spec(bodies, batch, reply)[i]
            == bodies[i],
        reply_lines(lines_spec(reply)).len() != batch.len() ==> apply_reply_spec(bodies, batch, reply) == bodies,
{
    let got = reply_lines(lines_spec(reply));
    if got.len() == batch.len() {
        lemma_apply_fold_keeps(bodies, batch, got, batch.len() as int);
        assert(batch.take(batch.len() as int) =~= batch);
    }
}

} // verus!

verus! {

proof fn lemma_lookup_first_key(names: Seq<(Seq<char>, Seq<char>)>, i: int)
    requires
        0 <= i < names.len(),
        forall|j: int| 0 <= j < i ==> (#[trigger] names[j]).0 != names[i].0,
    ensures
        lookup_name(names, names[i].0) == Some(names[i].1),
    decreases i,
{
    if i > 0 {
        let rest = names.drop_first();
        assert forall|j: int| 0 <= j < i - 1 implies (#[trigger] rest[j]).0 != rest[i - 1].0 by {
            assert(rest[j] == names[j + 1]);
        }
        assert(names[0].0 != names[i].0);
        lemma_lookup_first_key(rest, i - 1);
    }
}

/// Every named speaker is substituted: for a pair `(k, v)` of the names with a non-blank
/// name `v` and no earlier pair for `k`, the line `Speaker<k> <tail>` (k without spaces) is
/// rewritten to the trimmed name, a space and the same tail.
pub proof fn law_named_speaker_substituted(names: Seq<(Seq<char>, Seq<char>)>, i: int, tail: Seq<char>)
    requires
        0 <= i < names.len(),
        forall|j: int| 0 <= j < i ==> (#[trigger] names[j]).0 != names[i].0,
        forall|c: int| 0 <= c < names[i].0.len() ==> names[i].0[c] != ' ',
        nonblank(names[i].1),
    ensures
        lookup_name(names, names[i].0) == Some(names[i].1),
        rename_line("Speaker"@ + names[i].0 + seq![' '] + tail, names) == trim_spec(names[i].1) + seq![' '] + tail,
{
    let k = names[i].0;
    lemma_lookup_first_key(names, i);
    let line = "Speaker"@ + k + seq![' '] + tail;
    let p = "Speaker"@;
    assert(line.take(p.len() as int) =~= p);
    let rest = line.skip(p.len() as int);
    assert(rest =~= k + seq![' '] + tail);
    let sp = seq![' '];
    assert(rest.subrange(k.len() as int, k.len() + 1 as int) =~= sp);
    assert(occurs_at(rest, sp, k.len() as int));
    assert forall|j: int| 0 <= j < k.len() implies !occurs_at(rest, sp, j) by {
        if occurs_at(rest, sp, j) {
            assert(rest.subrange(j, j + 1)[0] == rest[j]);
            assert(rest[j] == k[j]);
        }
    }
    let f = find_spec(rest, sp);
    let c = choose|c: int| occurs_at(rest, sp, c) && forall|j: int| 0 <= j < c ==> !occurs_at(rest, sp, j);
    assert(f == Some(c));
    if c < k.len() {
        assert(!occurs_at(rest, sp, c));
    }
    if c > k.len() {
        assert(!occurs_at(rest, sp, k.len() as int));
    }
    assert(c == k.len());
    assert(rest.take(c) =~= k);
    assert(rest.skip(c + 1) =~= tail);
}

} // verus!

verus! {

/// No character of a word is whitespace.
pub open spec fn solid(w: Seq<char>) -> bool {
    forall|c: int| 0 <= c < w.len() ==> !is_ws(#[trigger] w[c])
}

proof fn lemma_words_acc_solid(s: Seq<char>, cur: Seq<char>)
    requires
        solid(cur),
    ensures
        forall|i: int| 0 <= i < crate::text::words_acc(s, cur).len() ==> (#[trigger] crate::text::words_acc(s, cur)[i]).len() > 0 && solid(
            crate::text::words_acc(s, cur)[i],
        ),
    decreases s.len(),
{
    if s.len() == 0 {
        if cur.len() > 0 {
            assert(crate::text::words_acc(s, cur) == seq![cur]);
        } else {
            assert(crate::text::words_acc(s, cur) == Seq::<Seq<char>>::empty());
        }
    } else if is_ws(s[0]) {
        lemma_words_acc_solid(s.drop_first(), seq![]);
        let head: Seq<Seq<char>> = if cur.len() > 0 { seq![cur] } else { seq![] };
        let tl = crate::text::words_acc(s.drop_first(), seq![]);
        assert(crate::text::words_acc(s, cur) == head + tl);
        assert forall|i: int| 0 <= i < (head + tl).len() implies (#[trigger] (head + tl)[i]).len() > 0 && solid(
            (head + tl)[i],
        ) by {
            if i >= head.len() {
                assert((head + tl)[i] == tl[i - head.len()]);
            }
        }
    } else {
        let c2 = cur.push(s[0]);
        assert forall|c: int| 0 <= c < c2.len() implies !is_ws(#[trigger] c2[c]) by {
            if c < cur.len() {
                assert(c2[c] == cur[c]);
            }
        }
        lemma_words_acc_solid(s.drop_first(), c2);
        assert(crate::text::words_acc(s, cur) == crate::text::words_acc(s.drop_first(), c2));
    }
}

proof fn lemma_solid_nonblank(w: Seq<char>)
    requires
        w.len() > 0,
        !is_ws(w.last()),
    ensures
        nonblank(w),
    decreases w.len(),
{
    lemma_trim_start_keeps_last(w);
    let t = crate::text::trim_start_spec(w);
    assert(crate::text::trim_end_spec(t) == t);
}

proof fn lemma_trim_start_keeps_last(w: Seq<char>)
    requires
        w.len() > 0,
        !is_ws(w.last()),
    ensures
        crate::text::trim_start_spec(w).len() > 0,
        crate::text::trim_start_spec(w).last() == w.last(),
    decreases w.len(),
{
    if is_ws(w[0]) {
        assert(w.len() > 1);
        assert(w.drop_first().last() == w.last());
        lemma_trim_start_keeps_last(w.drop_first());
    }
}

proof fn lemma_word_fold_joined(ws: Seq<Seq<char>>, max: nat, n: int)
    requires
        0 <= n <= ws.len(),
        forall|i: int| 0 <= i < ws.len() ==> (#[trigger] ws[i]).len() > 0 && solid(ws[i]),
    ensures
        n == 0 ==> word_fold(ws, max, n).out.len() == 0 && word_fold(ws, max, n).cur.len() == 0,
        n > 0 ==> word_fold(ws, max, n).cur.len() > 0 && !is_ws(word_fold(ws, max, n).cur.last()) && join_spec(
            word_fold(ws, max, n).out.push(word_fold(ws, max, n).cur),
            seq![' '],
        ) == join_spec(ws.take(n), seq![' ']),
    decreases n,
{
    if n > 0 {
        lemma_word_fold_joined(ws, max, n - 1);
        let st = word_fold(ws, max, n - 1);
        let w = ws[n - 1];
        let sp = seq![' '];
        assert(solid(w));
        assert(!is_ws(w[w.len() - 1]));
        assert(ws.take(n).drop_last() =~= ws.take(n - 1));
        if n == 1 {
            assert(st.cur =~= Seq::<char>::empty());
            assert(word_fold(ws, max, n).cur =~= w);
            assert(word_fold(ws, max, n).out.push(w) =~= seq![w]);
            assert(ws.take(1) =~= seq![w]);
        } else {
            let st2 = word_fold(ws, max, n);
            crate::text::lemma_join_push(ws.take(n - 1), w, sp);
            assert(ws.take(n - 1).push(w) =~= ws.take(n));
            if st.cur.len() + w.len() + 1 > max {
                assert(st2.out == st.out.push(st.cur));
                assert(st2.cur == w);
                crate::text::lemma_join_push(st.out.push(st.cur), w, sp);
            } else {
                assert(st2.out == st.out);
                assert(st2.cur == st.cur.push(' ') + w);
                assert(st2.cur.last() == w.last());
                let parts = st.out.push(st.cur);
                crate::text::lemma_join_extend_last(parts, w, sp);
                assert(parts.last() + sp + w =~= st2.cur);
                assert(parts.update(parts.len() - 1, parts.last() + sp + w) =~= st2.out.push(st2.cur));
            }
        }
    }
}

/// Chunking by words loses and reorders no word: the chunks joined by single spaces are the
/// text's whitespace-separated words joined by single spaces.
pub proof fn law_words_kept(text: Seq<char>, max: nat)
    ensures
        join_spec(split_words_spec(text, max), seq![' ']) == join_spec(words_spec(text), seq![' ']),
{
    let ws = words_spec(text);
    lemma_words_acc_solid(text, seq![]);
    lemma_word_fold_joined(ws, max, ws.len() as int);
    let st = word_fold(ws, max, ws.len() as int);
    assert(ws.take(ws.len() as int) =~= ws);
    if ws.len() > 0 {
        lemma_solid_nonblank(st.cur);
        assert(flush(st).out == st.out.push(st.cur));
    } else {
        assert(!nonblank(st.cur)) by {
            assert(st.cur =~= Seq::<char>::empty());
        }
        assert(flush(st).out =~= Seq::<Seq<char>>::empty());
    }
}

} // verus!
