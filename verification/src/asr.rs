//! Speech recognition: model description and the assembly of timed words from the
//! recognizer's tokens. Times are integer milliseconds from the start of the file.
use vstd::prelude::*;

use crate::text::{char_is_ws, chars_of, extend_chars, is_ws, join_chars, join_spec, slice_chars, string_of};



verus! {

/// Kind of recognition engine.
#[derive(Clone, Copy, PartialEq, Eq, Structural, Debug)]
pub enum Engine {
    /// GigaAM (NeMo CTC).
    NemoCtc,
    /// Parakeet (NeMo transducer).
    Transducer,
    /// Whisper.
    Whisper,
}

/// Files of the active model and its engine.
pub struct AsrFiles {
    pub engine: Engine,
    /// ctc: model; transducer/whisper: encoder.
    pub model: String,
    /// transducer/whisper: decoder; ctc: empty.
    pub decoder: String,
    /// transducer: joiner; otherwise empty.
    pub joiner: String,
    pub tokens: String,
    /// whisper: language ("ru"); otherwise empty.
    pub language: String,
}

/// Mathematical model of the model files.
pub struct AsrFilesV {
    pub engine: Engine,
    pub model: Seq<char>,
    pub decoder: Seq<char>,
    pub joiner: Seq<char>,
    pub tokens: Seq<char>,
    pub language: Seq<char>,
}

impl AsrFiles {
    pub open spec fn view(&self) -> AsrFilesV {
        AsrFilesV {
            engine: self.engine,
            model: self.model@,
            decoder: self.decoder@,
            joiner: self.joiner@,
            tokens: self.tokens@,
            language: self.language@,
        }
    }
}

/// A recognized word with its start and end (milliseconds from the start of the file).
pub struct Word {
    pub text: String,
    pub start: u32,
    pub end: u32,
}

} // verus!

verus! {

/// Sample rate of the recognizer input.
pub const SAMPLE_RATE: usize = 16000;
/// Blind window length when no voice-activity model is available (20 s).
pub const CHUNK_SAMPLES: usize = 320000;
/// Parakeet is larger than GigaAM: at most this many parallel decoders.
pub const MAX_TRANSDUCER_WORKERS: usize = 8;
/// Minimal width of a word (for overlap computations).
pub const MIN_WORD_MS: u32 = 50;

/// The BPE word marker `▁` (U+2581).
pub open spec fn is_mark(c: char) -> bool {
    is_ws(c) || c == '\u{2581}'
}

/// A token with leading whitespace and word markers removed.
pub open spec fn token_body(t: Seq<char>) -> Seq<char>
    decreases t.len(),
{
    if t.len() > 0 && is_mark(t[0]) {
        token_body(t.drop_first())
    } else {
        t
    }
}

proof fn lemma_token_body_len(t: Seq<char>)
    ensures
        token_body(t).len() <= t.len(),
    decreases t.len(),
{
    if t.len() > 0 && is_mark(t[0]) {
        lemma_token_body_len(t.drop_first());
    }
}

/// A word: text, start and end in milliseconds.
pub type WordV = (Seq<char>, int, int);

pub open spec fn word_view(w: Word) -> WordV {
    (w.text@, w.start as int, w.end as int)
}

pub open spec fn words_view(ws: Seq<Word>) -> Seq<WordV> {
    ws.map_values(|w: Word| word_view(w))
}

/// State of word assembly: finished words, the word being read, its start and last time.
pub struct Assembly {
    pub done: Seq<WordV>,
    pub cur: Seq<char>,
    pub start: int,
    pub cur_end: int,
}

/// Word assembly after the first `n` tokens. A token that starts with whitespace or `▁`
/// closes the current word; the rest of the token (if any) extends the word; a word starts
/// at the time of its first token and ends at the time of its last.
pub open spec fn assemble(toks: Seq<Seq<char>>, times: Seq<int>, offset: int, n: int) -> Assembly
    decreases n,
{
    if n <= 0 {
        Assembly { done: seq![], cur: seq![], start: offset, cur_end: offset }
    } else {
        let a = assemble(toks, times, offset, n - 1);
        let tok = toks[n - 1];
        let tt = offset + times[n - 1];
        let body = token_body(tok);
        let done = if body.len() != tok.len() && a.cur.len() > 0 {
            a.done.push((a.cur, a.start, max_i(a.cur_end, a.start)))
        } else {
            a.done
        };
        let cur = if body.len() != tok.len() && a.cur.len() > 0 { seq![] } else { a.cur };
        if body.len() == 0 {
            Assembly { done, cur, start: a.start, cur_end: a.cur_end }
        } else {
            Assembly {
                done,
                cur: cur + body,
                start: if cur.len() == 0 { tt } else { a.start },
                cur_end: tt,
            }
        }
    }
}

pub open spec fn max_i(a: int, b: int) -> int {
    if a >= b { a } else { b }
}

/// Words of the tokens (the zipped prefix of `toks` and `times`).
pub open spec fn push_words_spec(toks: Seq<Seq<char>>, times: Seq<int>, offset: int) -> Seq<WordV> {
    let n = if toks.len() <= times.len() { toks.len() } else { times.len() };
    let a = assemble(toks, times, offset, n as int);
    if a.cur.len() > 0 {
        a.done.push((a.cur, a.start, max_i(a.cur_end, a.start)))
    } else {
        a.done
    }
}

fn token_body_exec(t: &Vec<char>) -> (r: Vec<char>)
    ensures
        r@ == token_body(t@),
{
    let mut i: usize = 0;
    assert(t@.skip(0) =~= t@);
    while i < t.len() && (char_is_ws(t[i]) || t[i] == '\u{2581}')
        invariant
            i <= t.len(),
            token_body(t@) == token_body(t@.skip(i as int)),
        decreases t.len() - i,
    {
        assert(t@.skip(i as int).drop_first() =~= t@.skip(i + 1));
        i = i + 1;
    }
    slice_chars(t, i, t.len())
}

proof fn lemma_assemble_bounds(toks: Seq<Seq<char>>, times: Seq<int>, offset: int, n: int)
    requires
        0 <= n <= toks.len(),
        n <= times.len(),
        0 <= offset,
        forall|j: int| 0 <= j < times.len() ==> 0 <= #[trigger] times[j] && offset + times[j] <= u32::MAX,
        offset <= u32::MAX,
    ensures
        0 <= assemble(toks, times, offset, n).start <= u32::MAX,
        0 <= assemble(toks, times, offset, n).cur_end <= u32::MAX,
        forall|j: int| 0 <= j < assemble(toks, times, offset, n).done.len() ==> {
            let w = #[trigger] assemble(toks, times, offset, n).done[j];
            0 <= w.1 <= u32::MAX && 0 <= w.2 <= u32::MAX
        },
    decreases n,
{
    if n > 0 {
        lemma_assemble_bounds(toks, times, offset, n - 1);
        let a = assemble(toks, times, offset, n - 1);
        let r = assemble(toks, times, offset, n);
        assert(0 <= times[n - 1]);
        assert forall|j: int| 0 <= j < r.done.len() implies {
            let w = #[trigger] r.done[j];
            0 <= w.1 <= u32::MAX && 0 <= w.2 <= u32::MAX
        } by {
            if j < a.done.len() {
                let w = a.done[j];
                assert(0 <= w.1 <= u32::MAX && 0 <= w.2 <= u32::MAX);
            }
        }
    }
}

fn make_word(text: &Vec<char>, start: u32, end: u32) -> (w: Word)
    ensures
        word_view(w) == (text@, start as int, end as int),
{
    Word { text: string_of(text), start, end }
}

/// Words from tokens and their times (ms, relative to `offset`), appended to `out`.
/// A word boundary is a leading space of a token (BPE `▁` already turned into a space) or a
/// raw `▁`; a word's end is the time of its last token.
pub fn push_words(tokens: &Vec<String>, times: &Vec<u32>, offset: u32, out: &mut Vec<Word>)
    requires
        forall|j: int| 0 <= j < times.len() ==> offset + #[trigger] times@[j] <= u32::MAX,
    ensures
        words_view(final(out)@) == words_view(old(out)@) + push_words_spec(
            tokens@.map_values(|t: String| t@),
            times@.map_values(|t: u32| t as int),
            offset as int,
        ),
{
    let ghost toks = tokens@.map_values(|t: String| t@);
    let ghost tms = times@.map_values(|t: u32| t as int);
    let n: usize = if tokens.len() <= times.len() { tokens.len() } else { times.len() };
    let mut cur: Vec<char> = Vec::new();
    let mut start: u32 = offset;
    let mut cur_end: u32 = offset;
    let ghost o0 = words_view(out@);
    let mut i: usize = 0;
    while i < n
        invariant
            i <= n,
            n <= tokens.len(),
            n <= times.len(),
            toks == tokens@.map_values(|t: String| t@),
            tms == times@.map_values(|t: u32| t as int),
            forall|j: int| 0 <= j < times.len() ==> offset + #[trigger] times@[j] <= u32::MAX,
            ({
                let a = assemble(toks, tms, offset as int, i as int);
                &&& words_view(out@) == o0 + a.done
                &&& cur@ == a.cur
                &&& start == a.start
                &&& cur_end == a.cur_end
            }),
        decreases n - i,
    {
        proof {
            assert forall|j: int| 0 <= j < tms.len() implies 0 <= #[trigger] tms[j] && offset + tms[j] <= u32::MAX by {
                assert(tms[j] == times@[j] as int);
            }
            lemma_assemble_bounds(toks, tms, offset as int, i as int);
            lemma_token_body_len(toks[i as int]);
        }
        let tok = chars_of(tokens[i].as_str());
        let tt: u32 = offset + times[i];
        let body = token_body_exec(&tok);
        if body.len() != tok.len() && cur.len() > 0 {
            let end = if cur_end >= start { cur_end } else { start };
            let w = make_word(&cur, start, end);
            let ghost ob = out@;
            out.push(w);
            assert(words_view(out@) =~= words_view(ob).push(word_view(w)));
            cur = Vec::new();
        }
        if body.len() > 0 {
            if cur.len() == 0 {
                start = tt;
            }
            cur_end = tt;
            extend_chars(&mut cur, &body);
        }
        proof {
            let a = assemble(toks, tms, offset as int, i + 1);
            assert(cur@ =~= a.cur);
            assert(words_view(out@) =~= o0 + a.done);
        }
        i = i + 1;
    }
    proof { lemma_assemble_bounds(toks, tms, offset as int, n as int); }
    if cur.len() > 0 {
        let end = if cur_end >= start { cur_end } else { start };
        let w = make_word(&cur, start, end);
        let ghost ob = out@;
        out.push(w);
        assert(words_view(out@) =~= words_view(ob).push(word_view(w)));
    }
    assert(words_view(out@) =~= o0 + push_words_spec(toks, tms, offset as int));
}

/// Every word at least `MIN_WORD_MS` wide (for the overlap computations of diarization).
pub fn finalize_word_ends(words: &mut Vec<Word>)
    requires
        forall|j: int| 0 <= j < old(words).len() ==> (#[trigger] old(words)@[j]).start <= u32::MAX - MIN_WORD_MS,
    ensures
        final(words).len() == old(words).len(),
        forall|j: int|
            0 <= j < final(words).len() ==> {
                let o = #[trigger] old(words)@[j];
                let w = final(words)@[j];
                &&& w.text == o.text
                &&& w.start == o.start
                &&& w.end == if o.end < o.start + MIN_WORD_MS { (o.start + MIN_WORD_MS) as u32 } else { o.end }
            },
{
    let ghost o = words@;
    let mut i: usize = 0;
    while i < words.len()
        invariant
            i <= words.len(),
            words.len() == o.len(),
            forall|j: int| 0 <= j < o.len() ==> (#[trigger] o[j]).start <= u32::MAX - MIN_WORD_MS,
            forall|j: int|
                i <= j < words.len() ==> #[trigger] words@[j] == o[j],
            forall|j: int|
                0 <= j < i ==> {
                    let w = #[trigger] words@[j];
                    &&& w.text == o[j].text
                    &&& w.start == o[j].start
                    &&& w.end == if o[j].end < o[j].start + MIN_WORD_MS { (o[j].start + MIN_WORD_MS) as u32 } else { o[j].end }
                },
        decreases words.len() - i,
    {
        let mut w = words.remove(i);
        assert(w == o[i as int]);
        if w.end < w.start + MIN_WORD_MS {
            w.end = w.start + MIN_WORD_MS;
        }
        words.insert(i, w);
        i = i + 1;
    }
}

/// Plain transcript: the words joined by single spaces.
pub fn join_text(words: &Vec<Word>) -> (r: String)
    ensures
        r@ == join_spec(words@.map_values(|w: Word| w.text@), seq![' ']),
{
    let mut parts: Vec<Vec<char>> = Vec::new();
    let mut i: usize = 0;
    while i < words.len()
        invariant
            i <= words.len(),
            parts@.map_values(|l: Vec<char>| l@) == words@.take(i as int).map_values(|w: Word| w.text@),
        decreases words.len() - i,
    {
        let ghost p0 = parts@;
        let t = chars_of(words[i].text.as_str());
        assert(t@ == words@[i as int].text@);
        parts.push(t);
        assert(parts@.map_values(|l: Vec<char>| l@) =~= p0.map_values(|l: Vec<char>| l@).push(t@));
        assert(words@.take(i + 1).map_values(|w: Word| w.text@) =~= words@.take(i as int).map_values(|w: Word| w.text@).push(words@[i as int].text@));
        i = i + 1;
    }
    assert(words@.take(words.len() as int) =~= words@);
    let mut sep: Vec<char> = Vec::new();
    sep.push(' ');
    assert(sep@ =~= seq![' ']);
    string_of(&join_chars(&parts, &sep))
}

/// Parallel decoding plan: `(onnx threads per decoder, decoders)`. Whisper decodes
/// sequentially (its decoder shares a configuration between calls); Parakeet caps the
/// decoder count; a single decoder gets all `ort_threads`.
pub fn parallel_plan(engine: Engine, asr_workers: usize, ort_threads: i32) -> (r: (i32, usize))
    ensures
        ({
            let w = match engine {
                Engine::NemoCtc => asr_workers as int,
                Engine::Transducer => if asr_workers <= MAX_TRANSDUCER_WORKERS { asr_workers as int } else { MAX_TRANSDUCER_WORKERS as int },
                Engine::Whisper => 1,
            };
            if w <= 1 { r == (ort_threads, 1usize) } else { r.0 == 1 && r.1 == w }
        }),
{
    let workers = match engine {
        Engine::NemoCtc => asr_workers,
        Engine::Transducer => if asr_workers <= MAX_TRANSDUCER_WORKERS { asr_workers } else { MAX_TRANSDUCER_WORKERS },
        Engine::Whisper => 1,
    };
    if workers <= 1 {
        (ort_threads, 1)
    } else {
        (1, workers)
    }
}

/// A chunk of the input for one decoder: its index, first sample and length.
#[derive(Clone, Copy, Debug, PartialEq, Eq, Structural)]
pub struct Seg {
    pub idx: usize,
    pub start: usize,
    pub len: usize,
}

/// Blind windows over `total` samples (used without a voice-activity model): consecutive
/// windows of `CHUNK_SAMPLES`, the last one shorter.
pub fn blind_windows(total: usize) -> (r: Vec<Seg>)
    ensures
        r.len() == (total + CHUNK_SAMPLES - 1) / CHUNK_SAMPLES as int,
        forall|k: int|
            0 <= k < r.len() ==> {
                let s = #[trigger] r@[k];
                &&& s.idx == k
                &&& s.start == k * CHUNK_SAMPLES
                &&& s.len == if total - s.start < CHUNK_SAMPLES { total - s.start } else { CHUNK_SAMPLES as int }
            },
{
    let mut r: Vec<Seg> = Vec::new();
    let mut i: usize = 0;
    let mut idx: usize = 0;
    while i < total
        invariant
            i <= total,
            i < total ==> i == idx * CHUNK_SAMPLES,
            r.len() == idx,
            idx == (i + CHUNK_SAMPLES - 1) / CHUNK_SAMPLES as int,
            forall|k: int|
                0 <= k < r.len() ==> {
                    let s = #[trigger] r@[k];
                    &&& s.idx == k
                    &&& s.start == k * CHUNK_SAMPLES
                    &&& s.len == if total - s.start < CHUNK_SAMPLES { total - s.start } else { CHUNK_SAMPLES as int }
                },
        decreases total - i,
    {
        let end = if total - i < CHUNK_SAMPLES { total } else { i + CHUNK_SAMPLES };
        r.push(Seg { idx, start: i, len: end - i });
        if end == total {
            assert((total + CHUNK_SAMPLES - 1) / CHUNK_SAMPLES as int == idx + 1) by (nonlinear_arith)
                requires
                    i == idx * CHUNK_SAMPLES,
                    i < total <= i + CHUNK_SAMPLES,
            ;
        } else {
            assert((i + CHUNK_SAMPLES + CHUNK_SAMPLES - 1) / CHUNK_SAMPLES as int == idx + 1) by (nonlinear_arith)
                requires
                    i == idx * CHUNK_SAMPLES,
            ;
            assert(end == (idx + 1) * CHUNK_SAMPLES) by (nonlinear_arith)
                requires
                    i == idx * CHUNK_SAMPLES,
                    end == i + CHUNK_SAMPLES,
            ;
        }
        i = end;
        idx = idx + 1;
    }
    r
}

/// A voice-activity segment `(start, n)` clamped to the `total` samples of the input.
pub fn clamp_segment(idx: usize, start: i32, n: i32, total: usize) -> (s: Seg)
    ensures
        s.idx == idx,
        s.start == if start <= 0 { 0 } else if start as int >= total { total as int } else { start as int },
        s.len == ({
            let len = if n <= 0 { 0 } else { n as int };
            if len <= total - s.start { len } else { total - s.start }
        }),
{
    let st: usize = if start <= 0 { 0 } else if start as usize >= total { total } else { start as usize };
    let len: usize = if n <= 0 { 0 } else { n as usize };
    let len = if len <= total - st { len } else { total - st };
    Seg { idx, start: st, len }
}

/// Chunks shorter than 0.2 s are not decoded.
pub fn too_short(len: usize) -> (b: bool)
    ensures
        b == (len < SAMPLE_RATE / 5),
{
    len < SAMPLE_RATE / 5
}

/// Milliseconds of a sample position at 16 kHz (truncated).
pub fn samples_to_ms(n: usize) -> (ms: u64)
    ensures
        ms == n as int / 16,
{
    (n / 16) as u64
}

} // verus!

verus! {

/// Words of one decoded segment, appended to `out`. With per-token times (CTC, transducer)
/// they come from the tokens; without (Whisper) the whole trimmed text is one word spanning
/// the segment, `[offset, offset + len_ms)` (so a speaker is chosen by overlap with all of
/// it); a blank text adds nothing.
pub fn segment_words(
    tokens: &Vec<String>,
    times: &Vec<u32>,
    text: &str,
    offset: u32,
    len_ms: u32,
    out: &mut Vec<Word>,
)
    requires
        forall|j: int| 0 <= j < times.len() ==> offset + #[trigger] times@[j] <= u32::MAX,
        offset + len_ms <= u32::MAX,
    ensures
        times@.len() > 0 ==> words_view(final(out)@) == words_view(old(out)@) + push_words_spec(
            tokens@.map_values(|t: String| t@),
            times@.map_values(|t: u32| t as int),
            offset as int,
        ),
        times@.len() == 0 && crate::text::nonblank(text@) ==> words_view(final(out)@) == words_view(old(out)@).push(
            (crate::text::trim_spec(text@), offset as int, offset + len_ms),
        ),
        times@.len() == 0 && !crate::text::nonblank(text@) ==> final(out)@ == old(out)@,
{
    if times.len() > 0 {
        push_words(tokens, times, offset, out);
    } else {
        let t = crate::text::trim_chars(&chars_of(text));
        if t.len() > 0 {
            let ghost before = out@;
            let w = Word { text: string_of(&t), start: offset, end: offset + len_ms };
            out.push(w);
            assert(words_view(out@) =~= words_view(before).push(word_view(w)));
        }
    }
}

} // verus!

verus! {

/// The texts of the words, one after another.
pub open spec fn flat_text(ws: Seq<WordV>) -> Seq<char>
    decreases ws.len(),
{
    if ws.len() == 0 {
        Seq::empty()
    } else {
        flat_text(ws.drop_last()) + ws.last().0
    }
}

/// The bodies of the first `n` tokens, one after another.
pub open spec fn bodies(toks: Seq<Seq<char>>, n: int) -> Seq<char>
    decreases n,
{
    if n <= 0 {
        Seq::empty()
    } else {
        bodies(toks, n - 1) + token_body(toks[n - 1])
    }
}

proof fn lemma_flat_push(ws: Seq<WordV>, w: WordV)
    ensures
        flat_text(ws.push(w)) == flat_text(ws) + w.0,
{
    assert(ws.push(w).drop_last() =~= ws);
}

proof fn lemma_assemble_text(toks: Seq<Seq<char>>, times: Seq<int>, offset: int, n: int)
    requires
        0 <= n <= toks.len(),
        n <= times.len(),
    ensures
        flat_text(assemble(toks, times, offset, n).done) + assemble(toks, times, offset, n).cur == bodies(toks, n),
        forall|j: int| 0 <= j < assemble(toks, times, offset, n).done.len() ==> (#[trigger] assemble(
            toks,
            times,
            offset,
            n,
        ).done[j]).0.len() > 0,
    decreases n,
{
    if n > 0 {
        lemma_assemble_text(toks, times, offset, n - 1);
        let a = assemble(toks, times, offset, n - 1);
        let tok = toks[n - 1];
        let body = token_body(tok);
        let r = assemble(toks, times, offset, n);
        if body.len() != tok.len() && a.cur.len() > 0 {
            let w = (a.cur, a.start, max_i(a.cur_end, a.start));
            lemma_flat_push(a.done, w);
            assert(r.done == a.done.push(w));
            if body.len() == 0 {
                assert(r.cur =~= Seq::<char>::empty());
                assert(flat_text(r.done) + r.cur =~= flat_text(a.done) + a.cur + body);
            } else {
                assert(r.cur =~= Seq::<char>::empty() + body);
                assert(flat_text(r.done) + r.cur =~= flat_text(a.done) + a.cur + body);
            }
            assert forall|j: int| 0 <= j < r.done.len() implies (#[trigger] r.done[j]).0.len() > 0 by {
                if j < a.done.len() {
                    assert(r.done[j] == a.done[j]);
                }
            }
        } else {
            assert(r.done == a.done);
            if body.len() == 0 {
                assert(body =~= Seq::<char>::empty());
                assert(flat_text(r.done) + r.cur =~= flat_text(a.done) + a.cur + body);
            } else {
                assert(flat_text(r.done) + r.cur =~= flat_text(a.done) + a.cur + body);
            }
        }
    }
}

/// Assembling words from tokens loses no text and makes no empty word: the words' texts,
/// one after another, are the texts of the tokens without their leading spaces and word
/// markers (of as many tokens as have a time).
pub proof fn law_words_keep_text(toks: Seq<Seq<char>>, times: Seq<int>, offset: int)
    ensures
        flat_text(push_words_spec(toks, times, offset)) == bodies(
            toks,
            if toks.len() <= times.len() { toks.len() as int } else { times.len() as int },
        ),
        forall|j: int| 0 <= j < push_words_spec(toks, times, offset).len() ==> (#[trigger] push_words_spec(
            toks,
            times,
            offset,
        )[j]).0.len() > 0,
{
    let n = if toks.len() <= times.len() { toks.len() as int } else { times.len() as int };
    lemma_assemble_text(toks, times, offset, n);
    let a = assemble(toks, times, offset, n);
    let ws = push_words_spec(toks, times, offset);
    if a.cur.len() > 0 {
        let w = (a.cur, a.start, max_i(a.cur_end, a.start));
        lemma_flat_push(a.done, w);
        assert forall|j: int| 0 <= j < ws.len() implies (#[trigger] ws[j]).0.len() > 0 by {
            if j < a.done.len() {
                assert(ws[j] == a.done[j]);
            }
        }
    } else {
        assert(a.cur =~= Seq::<char>::empty());
        assert(flat_text(a.done) + a.cur =~= flat_text(a.done));
    }
}

} // verus!
