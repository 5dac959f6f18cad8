//! Speaker attribution of recognized words ("who spoke when").
//!
//! Post-processing of the diarizer's segments: a collar widens every segment, each word
//! goes to the speaker of the segment it overlaps most (else the nearest one), short
//! A-B-A islands are absorbed, adjacent replicas of one speaker are merged, and a recording
//! where one speaker covers at least 90% of the speech is attributed to that speaker alone.
//! Times are integer milliseconds.
use vstd::prelude::*;

use crate::asr::Word;
use crate::text::{chars_of, dec_pad_spec, dec_spec, extend_chars, join_chars, join_spec, push_dec, push_dec_pad, string_of, trim_chars, trim_spec};

verus! {

/// Widening of every segment on both sides.
pub const COLLAR_MS: u64 = 200;
/// Adjacent replicas of one speaker are merged when the pause is at most this long.
pub const MERGE_GAP_MS: i64 = 1000;
/// A replica shorter than this between two replicas of another speaker is absorbed.
pub const MIN_TURN_MS: i64 = 1200;

/// A speech segment with its speaker label (0-based), as the diarizer gives it.
#[derive(Clone, Copy, Debug)]
pub struct Segment {
    pub start: u32,
    pub end: u32,
    pub speaker: i32,
}

/// A segment after the collar.
#[derive(Clone, Copy)]
pub struct Span {
    pub start: u64,
    pub end: u64,
    pub speaker: i32,
}

/// A replica: consecutive words of one speaker.
pub struct Turn {
    pub speaker: i32,
    pub start: u32,
    pub end: u32,
    pub text: Vec<char>,
}

/// Mathematical model of a replica.
pub struct TurnV {
    pub speaker: int,
    pub start: int,
    pub end: int,
    pub text: Seq<char>,
}

impl Turn {
    pub open spec fn view(&self) -> TurnV {
        TurnV { speaker: self.speaker as int, start: self.start as int, end: self.end as int, text: self.text@ }
    }
}

pub open spec fn turns_view(t: Seq<Turn>) -> Seq<TurnV> {
    t.map_values(|x: Turn| x.view())
}

// ───────────────────────── 1) collar + ordering by start ─────────────────────────

pub open spec fn collar(s: Segment) -> Span {
    Span {
        start: if s.start >= COLLAR_MS { (s.start - COLLAR_MS) as u64 } else { 0 },
        end: (s.end + COLLAR_MS) as u64,
        speaker: s.speaker,
    }
}

/// Stable insertion of `x` before the first span that starts later.
pub open spec fn insert_by_start(s: Seq<Span>, x: Span) -> Seq<Span>
    decreases s.len(),
{
    if s.len() == 0 {
        seq![x]
    } else if s[0].start > x.start {
        seq![x] + s
    } else {
        seq![s[0]] + insert_by_start(s.drop_first(), x)
    }
}

/// Stable sort by start (the order `sort_by` gives).
pub open spec fn sort_by_start(s: Seq<Span>) -> Seq<Span>
    decreases s.len(),
{
    if s.len() == 0 {
        s
    } else {
        insert_by_start(sort_by_start(s.drop_last()), s.last())
    }
}

/// The collared segments in the order the attribution scans them.
pub open spec fn prepared(segs: Seq<Segment>) -> Seq<Span> {
    sort_by_start(segs.map_values(|s: Segment| collar(s)))
}

proof fn lemma_insert_at(s: Seq<Span>, x: Span, k: int)
    requires
        0 <= k <= s.len(),
        forall|j: int| 0 <= j < k ==> s[j].start <= x.start,
        k < s.len() ==> s[k].start > x.start,
    ensures
        insert_by_start(s, x) == s.take(k).push(x) + s.skip(k),
    decreases s.len(),
{
    if s.len() == 0 {
        assert(s.take(k).push(x) + s.skip(k) =~= seq![x]);
    } else if k == 0 {
        assert(s.take(k).push(x) + s.skip(k) =~= seq![x] + s);
    } else {
        lemma_insert_at(s.drop_first(), x, k - 1);
        assert(s.take(k).push(x) + s.skip(k) =~= seq![s[0]] + (s.drop_first().take(k - 1).push(x)
            + s.drop_first().skip(k - 1)));
    }
}

fn collar_exec(s: Segment) -> (r: Span)
    ensures
        r == collar(s),
{
    let start: u64 = if s.start as u64 >= COLLAR_MS { s.start as u64 - COLLAR_MS } else { 0 };
    Span { start, end: s.end as u64 + COLLAR_MS, speaker: s.speaker }
}

/// Collar every segment and order them by start (stable).
pub fn prepare_segments(segs: &Vec<Segment>) -> (d: Vec<Span>)
    ensures
        d@ == prepared(segs@),
{
    let ghost cs = segs@.map_values(|s: Segment| collar(s));
    let mut d: Vec<Span> = Vec::new();
    let mut i: usize = 0;
    while i < segs.len()
        invariant
            i <= segs.len(),
            cs == segs@.map_values(|s: Segment| collar(s)),
            d@ == sort_by_start(cs.take(i as int)),
        decreases segs.len() - i,
    {
        let x = collar_exec(segs[i]);
        let mut k: usize = 0;
        while k < d.len() && d[k].start <= x.start
            invariant
                k <= d.len(),
                forall|j: int| 0 <= j < k ==> d@[j].start <= x.start,
            decreases d.len() - k,
        {
            k = k + 1;
        }
        proof {
            lemma_insert_at(d@, x, k as int);
            assert(cs.take(i + 1).drop_last() =~= cs.take(i as int));
            assert(cs.take(i + 1).last() == x);
        }
        let ghost before = d@;
        d.insert(k, x);
        assert(d@ =~= before.take(k as int).push(x) + before.skip(k as int));
        i = i + 1;
    }
    assert(cs.take(segs.len() as int) =~= cs);
    d
}

// ───────────────────────── 2) single-speaker detection ─────────────────────────

/// Collared times stay far below this bound.
pub open spec fn span_ok(s: Span) -> bool {
    s.start <= 0x2_0000_0000 && s.end <= 0x2_0000_0000
}

pub open spec fn dur(s: Span) -> int {
    if s.end >= s.start { s.end - s.start } else { 0 }
}

/// Total speech time of `spk` in `d`.
pub open spec fn spk_total(d: Seq<Span>, spk: int) -> int
    decreases d.len(),
{
    if d.len() == 0 {
        0
    } else {
        spk_total(d.drop_last(), spk) + if d.last().speaker == spk { dur(d.last()) } else { 0 }
    }
}

/// Total speech time in `d`.
pub open spec fn total_dur(d: Seq<Span>) -> int
    decreases d.len(),
{
    if d.len() == 0 {
        0
    } else {
        total_dur(d.drop_last()) + dur(d.last())
    }
}

/// The speaker of span `i` covers at least 90% of all speech time.
pub open spec fn leads(d: Seq<Span>, i: int) -> bool {
    spk_total(d, d[i].speaker as int) * 10 >= total_dur(d) * 9
}

/// One speaker (the leader) covers at least 90% of all speech time.
pub open spec fn single_speaker(d: Seq<Span>) -> bool {
    total_dur(d) > 0 && exists|i: int| 0 <= i < d.len() && #[trigger] leads(d, i)
}

proof fn lemma_totals_bounds(d: Seq<Span>, spk: int)
    requires
        forall|j: int| 0 <= j < d.len() ==> span_ok(d[j]),
    ensures
        0 <= spk_total(d, spk) <= total_dur(d),
        total_dur(d) <= d.len() * 0x2_0000_0000,
    decreases d.len(),
{
    if d.len() > 0 {
        assert(span_ok(d[d.len() - 1]));
        lemma_totals_bounds(d.drop_last(), spk);
    }
}

fn dur_exec(s: Span) -> (r: u64)
    requires
        span_ok(s),
    ensures
        r == dur(s),
{
    if s.end >= s.start { s.end - s.start } else { 0 }
}

fn spk_total_exec(d: &Vec<Span>, spk: i32) -> (r: u128)
    requires
        forall|j: int| 0 <= j < d.len() ==> span_ok(d@[j]),
    ensures
        r == spk_total(d@, spk as int),
{
    let mut acc: u128 = 0;
    let mut i: usize = 0;
    while i < d.len()
        invariant
            i <= d.len(),
            forall|j: int| 0 <= j < d.len() ==> span_ok(d@[j]),
            acc == spk_total(d@.take(i as int), spk as int),
        decreases d.len() - i,
    {
        proof {
            assert(d@.take(i + 1).drop_last() =~= d@.take(i as int));
            lemma_totals_bounds(d@.take(i as int), spk as int);
        }
        if d[i].speaker == spk {
            acc = acc + dur_exec(d[i]) as u128;
        }
        i = i + 1;
    }
    assert(d@.take(d.len() as int) =~= d@);
    acc
}

/// Whether the leader covers at least 90% of the speech (then all words go to one speaker).
pub fn force_single(d: &Vec<Span>) -> (b: bool)
    requires
        forall|j: int| 0 <= j < d.len() ==> span_ok(d@[j]),
    ensures
        b == single_speaker(d@),
{
    let mut total: u128 = 0;
    let mut i: usize = 0;
    while i < d.len()
        invariant
            i <= d.len(),
            forall|j: int| 0 <= j < d.len() ==> span_ok(d@[j]),
            total == total_dur(d@.take(i as int)),
        decreases d.len() - i,
    {
        proof {
            assert(d@.take(i + 1).drop_last() =~= d@.take(i as int));
            lemma_totals_bounds(d@.take(i as int), 0);
        }
        total = total + dur_exec(d[i]) as u128;
        i = i + 1;
    }
    assert(d@.take(d.len() as int) =~= d@);
    proof { lemma_totals_bounds(d@, 0); }
    if total == 0 {
        return false;
    }
    let mut k: usize = 0;
    while k < d.len()
        invariant
            k <= d.len(),
            forall|j: int| 0 <= j < d.len() ==> span_ok(d@[j]),
            total == total_dur(d@),
            total > 0,
            total <= d.len() * 0x2_0000_0000,
            forall|j: int| 0 <= j < k ==> !#[trigger] leads(d@, j),
        decreases d.len() - k,
    {
        let t = spk_total_exec(d, d[k].speaker);
        proof { lemma_totals_bounds(d@, d@[k as int].speaker as int); }
        if t * 10 >= total * 9 {
            assert(leads(d@, k as int));
            return true;
        }
        k = k + 1;
    }
    false
}

// ───────────────────────── 3) speaker of a word ─────────────────────────

pub open spec fn max_int(a: int, b: int) -> int {
    if a >= b { a } else { b }
}

pub open spec fn min_int(a: int, b: int) -> int {
    if a <= b { a } else { b }
}

/// Overlap of `[ws, we]` with a span (0 when disjoint).
pub open spec fn overlap(ws: int, we: int, s: Span) -> int {
    max_int(min_int(we, s.end as int) - max_int(ws, s.start as int), 0)
}

/// Best overlap and its speaker over the first `n` spans: the first span with the largest
/// positive overlap; `(0, -1)` when none overlaps.
pub open spec fn ov_scan(ws: int, we: int, d: Seq<Span>, n: int) -> (int, int)
    decreases n,
{
    if n <= 0 {
        (0, -1)
    } else {
        let prev = ov_scan(ws, we, d, n - 1);
        let o = overlap(ws, we, d[n - 1]);
        if o > prev.0 {
            (o, d[n - 1].speaker as int)
        } else {
            prev
        }
    }
}

/// Twice the distance from the doubled midpoint `mid2` to a span.
pub open spec fn dist2(mid2: int, s: Span) -> int {
    if mid2 < 2 * s.start {
        2 * s.start - mid2
    } else if mid2 > 2 * s.end {
        mid2 - 2 * s.end
    } else {
        0
    }
}

/// Nearest span over the first `n` (first of the closest); `(-1, 0)` when there is none.
pub open spec fn near_scan(mid2: int, d: Seq<Span>, n: int) -> (int, int)
    decreases n,
{
    if n <= 0 {
        (-1, 0)
    } else {
        let prev = near_scan(mid2, d, n - 1);
        let x = dist2(mid2, d[n - 1]);
        if prev.0 < 0 || x < prev.0 {
            (x, d[n - 1].speaker as int)
        } else {
            prev
        }
    }
}

/// Speaker of a word: largest overlap with `[start, max(end, start)]`, else the nearest span.
pub open spec fn assign_spec(start: int, end: int, d: Seq<Span>) -> int {
    let we = max_int(end, start);
    let best = ov_scan(start, we, d, d.len() as int);
    if best.1 >= 0 {
        best.1
    } else {
        near_scan(start + we, d, d.len() as int).1
    }
}

proof fn lemma_ov_scan_bounds(ws: int, we: int, d: Seq<Span>, n: int)
    requires
        0 <= ws <= we <= 0xFFFF_FFFF,
        0 <= n <= d.len(),
        forall|j: int| 0 <= j < d.len() ==> span_ok(d[j]),
    ensures
        0 <= ov_scan(ws, we, d, n).0 <= 0x2_0000_0000,
        ov_scan(ws, we, d, n).1 == -1 || (i32::MIN <= ov_scan(ws, we, d, n).1 <= i32::MAX),
    decreases n,
{
    if n > 0 {
        lemma_ov_scan_bounds(ws, we, d, n - 1);
        assert(span_ok(d[n - 1]));
    }
}

proof fn lemma_near_scan_bounds(mid2: int, d: Seq<Span>, n: int)
    requires
        0 <= mid2 <= 0x2_0000_0000,
        0 <= n <= d.len(),
        forall|j: int| 0 <= j < d.len() ==> span_ok(d[j]),
    ensures
        -1 <= near_scan(mid2, d, n).0 <= 0x8_0000_0000,
        i32::MIN <= near_scan(mid2, d, n).1 <= i32::MAX,
        n > 0 ==> near_scan(mid2, d, n).0 >= 0,
    decreases n,
{
    if n > 0 {
        lemma_near_scan_bounds(mid2, d, n - 1);
        assert(span_ok(d[n - 1]));
    }
}

/// The speaker of a word (see `assign_spec`).
pub fn assign_speaker(start: u32, end: u32, d: &Vec<Span>) -> (spk: i32)
    requires
        forall|j: int| 0 <= j < d.len() ==> span_ok(d@[j]),
    ensures
        spk as int == assign_spec(start as int, end as int, d@),
{
    let ws: i64 = start as i64;
    let we: i64 = if end >= start { end as i64 } else { start as i64 };
    let mut best_spk: i64 = -1;
    let mut best_ov: i64 = 0;
    let mut i: usize = 0;
    while i < d.len()
        invariant
            i <= d.len(),
            0 <= ws <= we <= 0xFFFF_FFFF,
            we == max_int(end as int, start as int),
            ws == start as int,
            forall|j: int| 0 <= j < d.len() ==> span_ok(d@[j]),
            (best_ov as int, best_spk as int) == ov_scan(ws as int, we as int, d@, i as int),
        decreases d.len() - i,
    {
        proof { lemma_ov_scan_bounds(ws as int, we as int, d@, i as int); }
        let s = d[i];
        assert(span_ok(d@[i as int]));
        let hi: i64 = if we <= s.end as i64 { we } else { s.end as i64 };
        let lo: i64 = if ws >= s.start as i64 { ws } else { s.start as i64 };
        let ov: i64 = if hi - lo >= 0 { hi - lo } else { 0 };
        if ov > best_ov {
            best_ov = ov;
            best_spk = s.speaker as i64;
        }
        i = i + 1;
    }
    proof { lemma_ov_scan_bounds(ws as int, we as int, d@, d.len() as int); }
    if best_spk >= 0 {
        return best_spk as i32;
    }
    let mid2: i64 = ws + we;
    let mut best: i32 = 0;
    let mut best_d: i64 = -1;
    let mut k: usize = 0;
    while k < d.len()
        invariant
            k <= d.len(),
            0 <= mid2 <= 0x2_0000_0000,
            forall|j: int| 0 <= j < d.len() ==> span_ok(d@[j]),
            (best_d as int, best as int) == near_scan(mid2 as int, d@, k as int),
        decreases d.len() - k,
    {
        proof { lemma_near_scan_bounds(mid2 as int, d@, k as int); }
        let s = d[k];
        assert(span_ok(d@[k as int]));
        let s2: i64 = 2 * (s.start as i64);
        let e2: i64 = 2 * (s.end as i64);
        let x: i64 = if mid2 < s2 {
            s2 - mid2
        } else if mid2 > e2 {
            mid2 - e2
        } else {
            0
        };
        if best_d < 0 || x < best_d {
            best_d = x;
            best = s.speaker;
        }
        k = k + 1;
    }
    best
}

// ───────────────────────── 4) grouping words into replicas ─────────────────────────

/// Replica text extended by a word.
pub open spec fn joined_text(a: Seq<char>, b: Seq<char>) -> Seq<char> {
    a + seq![' '] + b
}

/// Speaker of word `w` in the pipeline.
pub open spec fn word_speaker(w: Word, d: Seq<Span>, single: bool) -> int {
    if single {
        0
    } else {
        assign_spec(w.start as int, w.end as int, d)
    }
}

/// Replicas after attributing the first `n` words: consecutive words of one speaker form
/// one replica.
pub open spec fn group_acc(ws: Seq<Word>, d: Seq<Span>, single: bool, n: int) -> Seq<TurnV>
    decreases n,
{
    if n <= 0 {
        seq![]
    } else {
        let t = group_acc(ws, d, single, n - 1);
        let w = ws[n - 1];
        let spk = word_speaker(w, d, single);
        if t.len() > 0 && t.last().speaker == spk {
            t.update(
                t.len() - 1,
                TurnV {
                    speaker: spk,
                    start: t.last().start,
                    end: max_int(w.end as int, t.last().end),
                    text: joined_text(t.last().text, w.text@),
                },
            )
        } else {
            t.push(
                TurnV {
                    speaker: spk,
                    start: w.start as int,
                    end: max_int(w.end as int, w.start as int),
                    text: w.text@,
                },
            )
        }
    }
}

proof fn lemma_group_bounds(ws: Seq<Word>, d: Seq<Span>, single: bool, n: int)
    requires
        0 <= n <= ws.len(),
        forall|j: int| 0 <= j < d.len() ==> span_ok(d[j]),
    ensures
        all_bounded(group_acc(ws, d, single, n)),
    decreases n,
{
    if n > 0 {
        lemma_group_bounds(ws, d, single, n - 1);
        let w = ws[n - 1];
        if !single {
            let we = max_int(w.end as int, w.start as int);
            lemma_ov_scan_bounds(w.start as int, we, d, d.len() as int);
            lemma_near_scan_bounds(w.start + we, d, d.len() as int);
        }
        let t = group_acc(ws, d, single, n - 1);
        let r = group_acc(ws, d, single, n);
        assert forall|j: int| 0 <= j < r.len() implies turn_bounded(#[trigger] r[j]) by {
            if j < t.len() {
                assert(turn_bounded(t[j]));
            }
        }
    }
}

fn group_words(words: &Vec<Word>, d: &Vec<Span>, single: bool) -> (t: Vec<Turn>)
    requires
        forall|j: int| 0 <= j < d.len() ==> span_ok(d@[j]),
    ensures
        turns_view(t@) == group_acc(words@, d@, single, words.len() as int),
{
    let mut turns: Vec<Turn> = Vec::new();
    let mut i: usize = 0;
    while i < words.len()
        invariant
            i <= words.len(),
            forall|j: int| 0 <= j < d.len() ==> span_ok(d@[j]),
            turns_view(turns@) == group_acc(words@, d@, single, i as int),
        decreases words.len() - i,
    {
        proof { lemma_group_bounds(words@, d@, single, i as int); }
        let w = &words[i];
        let spk: i32 = if single { 0 } else { assign_speaker(w.start, w.end, d) };
        let n = turns.len();
        let wt = chars_of(w.text.as_str());
        if n > 0 && turns[n - 1].speaker == spk {
            let ghost before = turns@;
            let mut last = turns.pop().unwrap();
            assert(before.last() == last);
            last.text.push(' ');
            extend_chars(&mut last.text, &wt);
            assert(last.text@ =~= joined_text(before.last().text@, w.text@));
            if w.end > last.end {
                last.end = w.end;
            }
            turns.push(last);
            assert(turns_view(turns@) =~= turns_view(before).update(
                n - 1,
                TurnV {
                    speaker: spk as int,
                    start: before.last().start as int,
                    end: max_int(w.end as int, before.last().end as int),
                    text: joined_text(before.last().text@, w.text@),
                },
            ));
        } else {
            let ghost before = turns@;
            let end = if w.end >= w.start { w.end } else { w.start };
            turns.push(Turn { speaker: spk, start: w.start, end, text: wt });
            assert(turns_view(turns@) =~= turns_view(before).push(
                TurnV { speaker: spk as int, start: w.start as int, end: end as int, text: w.text@ },
            ));
        }
        i = i + 1;
    }
    turns
}

// ───────────────────────── 5) A-B-A islands ─────────────────────────

/// `a` extended by the end and text of `b`.
pub open spec fn absorb(a: TurnV, b: TurnV) -> TurnV {
    TurnV { speaker: a.speaker, start: a.start, end: b.end, text: joined_text(a.text, b.text) }
}

/// Replica `i` is a short island between two replicas of another speaker.
pub open spec fn is_island(t: Seq<TurnV>, i: int) -> bool {
    &&& t[i].end - t[i].start < MIN_TURN_MS
    &&& t[i - 1].speaker == t[i + 1].speaker
    &&& t[i - 1].speaker != t[i].speaker
}

/// Absorb island `i` into replica `i - 1`, then the next replica too when it is the same
/// speaker within the merge gap.
pub open spec fn absorb_island(t: Seq<TurnV>, i: int) -> Seq<TurnV> {
    let t1 = t.remove(i).update(i - 1, absorb(t[i - 1], t[i]));
    if i < t1.len() && t1[i].speaker == t1[i - 1].speaker && t1[i].start - t1[i - 1].end
        <= MERGE_GAP_MS {
        t1.remove(i).update(i - 1, absorb(t1[i - 1], t1[i]))
    } else {
        t1
    }
}

/// Island smoothing from position `i` on (position `i` is re-examined after a merge).
pub open spec fn smooth_from(t: Seq<TurnV>, i: int) -> Seq<TurnV>
    decreases t.len() - i,
{
    if i < 1 || i + 1 >= t.len() {
        t
    } else if is_island(t, i) {
        smooth_from(absorb_island(t, i), i)
    } else {
        smooth_from(t, i + 1)
    }
}

pub open spec fn turn_bounded(t: TurnV) -> bool {
    &&& 0 <= t.start <= u32::MAX
    &&& 0 <= t.end <= u32::MAX
    &&& i32::MIN <= t.speaker <= i32::MAX
}

pub open spec fn all_bounded(t: Seq<TurnV>) -> bool {
    forall|j: int| 0 <= j < t.len() ==> turn_bounded(#[trigger] t[j])
}

fn absorb_exec(a: Turn, b: &Turn) -> (r: Turn)
    ensures
        r.view() == absorb(a.view(), b.view()),
{
    let mut a = a;
    a.end = b.end;
    let ghost at = a.text@;
    a.text.push(' ');
    extend_chars(&mut a.text, &b.text);
    assert(a.text@ =~= joined_text(at, b.text@));
    a
}

/// Merge replica `i` into replica `i - 1` (in place).
fn merge_into_prev(t: &mut Vec<Turn>, i: usize)
    requires
        1 <= i < old(t).len(),
    ensures
        turns_view(final(t)@) == turns_view(old(t)@).remove(i as int).update(
            i - 1,
            absorb(old(t)@[i - 1].view(), old(t)@[i as int].view()),
        ),
{
    let ghost o = t@;
    let cur = t.remove(i);
    let prev = t.remove(i - 1);
    let merged = absorb_exec(prev, &cur);
    t.insert(i - 1, merged);
    assert(turns_view(t@) =~= turns_view(o).remove(i as int).update(
        i - 1,
        absorb(o[i - 1].view(), o[i as int].view()),
    ));
}

fn smooth_islands(t: &mut Vec<Turn>)
    requires
        all_bounded(turns_view(old(t)@)),
    ensures
        turns_view(final(t)@) == smooth_from(turns_view(old(t)@), 1),
        all_bounded(turns_view(final(t)@)),
{
    if t.len() < 3 {
        return;
    }
    let mut i: usize = 1;
    while i < t.len() && i + 1 < t.len()
        invariant
            1 <= i <= t.len(),
            smooth_from(turns_view(old(t)@), 1) == smooth_from(turns_view(t@), i as int),
            all_bounded(turns_view(t@)),
        decreases t.len() - i,
    {
        let ghost tv = turns_view(t@);
        assert(turn_bounded(tv[i as int]) && turn_bounded(tv[i - 1]) && turn_bounded(tv[i + 1]));
        let dur: i64 = t[i].end as i64 - t[i].start as i64;
        let island = dur < MIN_TURN_MS && t[i - 1].speaker == t[i + 1].speaker && t[i - 1].speaker
            != t[i].speaker;
        if island {
            assert(is_island(tv, i as int));
            merge_into_prev(t, i);
            let ghost t1 = turns_view(t@);
            assert(t1 == tv.remove(i as int).update(i - 1, absorb(tv[i - 1], tv[i as int])));
            assert(all_bounded(t1)) by {
                assert forall|j: int| 0 <= j < t1.len() implies turn_bounded(#[trigger] t1[j]) by {
                    if j < i - 1 {
                        assert(t1[j] == tv[j]);
                    } else if j > i - 1 {
                        assert(t1[j] == tv[j + 1]);
                    }
                }
            }
            if i < t.len() && t[i].speaker == t[i - 1].speaker && (t[i].start as i64 - t[i - 1].end as i64)
                <= MERGE_GAP_MS {
                merge_into_prev(t, i);
                let ghost t2 = turns_view(t@);
                assert(all_bounded(t2)) by {
                    assert forall|j: int| 0 <= j < t2.len() implies turn_bounded(#[trigger] t2[j]) by {
                        if j < i - 1 {
                            assert(t2[j] == t1[j]);
                        } else if j > i - 1 {
                            assert(t2[j] == t1[j + 1]);
                        }
                    }
                }
            }
            assert(turns_view(t@) == absorb_island(tv, i as int));
        } else {
            assert(!is_island(tv, i as int));
            i = i + 1;
        }
    }
}

// ───────────────────────── 6) merging adjacent replicas ─────────────────────────

/// Adjacent replicas of one speaker within the merge gap, merged left to right over the
/// first `n` replicas.
pub open spec fn merge_acc(t: Seq<TurnV>, n: int) -> Seq<TurnV>
    decreases n,
{
    if n <= 0 {
        seq![]
    } else {
        let o = merge_acc(t, n - 1);
        let x = t[n - 1];
        if o.len() > 0 && o.last().speaker == x.speaker && x.start - o.last().end <= MERGE_GAP_MS {
            o.update(o.len() - 1, absorb(o.last(), x))
        } else {
            o.push(x)
        }
    }
}

proof fn lemma_merge_bounded(t: Seq<TurnV>, n: int)
    requires
        0 <= n <= t.len(),
        all_bounded(t),
    ensures
        all_bounded(merge_acc(t, n)),
        merge_acc(t, n).len() <= n,
    decreases n,
{
    if n > 0 {
        lemma_merge_bounded(t, n - 1);
        let o = merge_acc(t, n - 1);
        assert(turn_bounded(t[n - 1]));
        let r = merge_acc(t, n);
        assert forall|j: int| 0 <= j < r.len() implies turn_bounded(#[trigger] r[j]) by {
            if j < o.len() {
                assert(turn_bounded(o[j]));
            }
        }
    }
}

fn merge_adjacent(t: Vec<Turn>) -> (out: Vec<Turn>)
    requires
        all_bounded(turns_view(t@)),
    ensures
        turns_view(out@) == merge_acc(turns_view(t@), t.len() as int),
{
    let ghost tv = turns_view(t@);
    let mut out: Vec<Turn> = Vec::new();
    let mut src = t;
    let mut rest: Vec<Turn> = Vec::new();
    // consume from the back into `rest` so the turns can be moved out in order
    while src.len() > 0
        invariant
            tv == turns_view(src@) + turns_view(rest@).reverse(),
        decreases src.len(),
    {
        let ghost s0 = src@;
        let ghost r0 = rest@;
        let x = src.pop().unwrap();
        rest.push(x);
        assert(turns_view(s0) =~= turns_view(src@).push(x.view()));
        assert(turns_view(rest@).reverse() =~= seq![x.view()] + turns_view(r0).reverse());
    }
    assert(tv =~= turns_view(rest@).reverse());
    let n = rest.len();
    let mut i: usize = 0;
    while rest.len() > 0
        invariant
            n == tv.len(),
            i + rest.len() == n,
            all_bounded(tv),
            forall|j: int| 0 <= j < rest.len() ==> (#[trigger] rest@[j]).view() == tv[n - 1 - j],
            turns_view(out@) == merge_acc(tv, i as int),
        decreases rest.len(),
    {
        let ghost r0 = rest@;
        let x = rest.pop().unwrap();
        assert(x.view() == tv[i as int]);
        assert(forall|j: int| 0 <= j < rest.len() ==> rest@[j] == r0[j]);
        proof {
            lemma_merge_bounded(tv, i as int);
            assert(turn_bounded(tv[i as int]));
        }
        let m = out.len();
        if m > 0 && out[m - 1].speaker == x.speaker && (x.start as i64 - out[m - 1].end as i64)
            <= MERGE_GAP_MS {
            proof { assert(turn_bounded(merge_acc(tv, i as int)[m - 1])); }
            let ghost o0 = out@;
            let last = out.pop().unwrap();
            let merged = absorb_exec(last, &x);
            out.push(merged);
            assert(turns_view(out@) =~= turns_view(o0).update(m - 1, absorb(o0[m - 1].view(), x.view())));
        } else {
            proof {
                if m > 0 {
                    assert(turn_bounded(merge_acc(tv, i as int)[m - 1]));
                }
            }
            let ghost o0 = out@;
            let ghost xv = x.view();
            out.push(x);
            assert(turns_view(out@) =~= turns_view(o0).push(xv));
        }
        i = i + 1;
    }
    out
}

// ───────────────────────── 7) rendering ─────────────────────────

/// Position of `spk` among the speakers seen so far (their count when it is new).
pub open spec fn speaker_index(seen: Seq<int>, spk: int) -> int
    decreases seen.len(),
{
    if seen.len() == 0 {
        0
    } else if seen[0] == spk {
        0
    } else {
        1 + speaker_index(seen.drop_first(), spk)
    }
}

/// `H:MM:SS` of a time in milliseconds (whole seconds, truncated).
pub open spec fn fmt_ts_spec(ms: nat) -> Seq<char> {
    let s = ms / 1000;
    dec_spec(s / 3600) + seq![':'] + dec_pad_spec((s % 3600) / 60, 2) + seq![':'] + dec_pad_spec(
        s % 60,
        2,
    )
}

/// `SpeakerN [H:MM:SS]: text`.
pub open spec fn line_spec(n: nat, start: nat, text: Seq<char>) -> Seq<char> {
    "Speaker"@ + dec_spec(n) + " ["@ + fmt_ts_spec(start) + "]: "@ + text
}

/// Speakers in order of first appearance and the rendered lines of the first `n` replicas
/// (replicas with blank text are skipped and do not number a speaker).
pub open spec fn render_acc(t: Seq<TurnV>, n: int) -> (Seq<int>, Seq<Seq<char>>)
    decreases n,
{
    if n <= 0 {
        (seq![], seq![])
    } else {
        let prev = render_acc(t, n - 1);
        let x = t[n - 1];
        let tx = trim_spec(x.text);
        if tx.len() == 0 {
            prev
        } else {
            let k = speaker_index(prev.0, x.speaker);
            let seen = if k < prev.0.len() { prev.0 } else { prev.0.push(x.speaker) };
            (seen, prev.1.push(line_spec((k + 1) as nat, x.start as nat, tx)))
        }
    }
}

pub open spec fn render_spec(t: Seq<TurnV>) -> Seq<char> {
    join_spec(render_acc(t, t.len() as int).1, seq!['\n'])
}

proof fn lemma_speaker_index(seen: Seq<int>, spk: int)
    ensures
        0 <= speaker_index(seen, spk) <= seen.len(),
        speaker_index(seen, spk) < seen.len() ==> seen[speaker_index(seen, spk)] == spk,
        speaker_index(seen, spk) == seen.len() ==> !seen.contains(spk),
        forall|j: int| 0 <= j < speaker_index(seen, spk) ==> seen[j] != spk,
    decreases seen.len(),
{
    if seen.len() > 0 && seen[0] != spk {
        lemma_speaker_index(seen.drop_first(), spk);
        let k = speaker_index(seen, spk);
        assert forall|j: int| 0 <= j < k implies seen[j] != spk by {
            if j > 0 {
                assert(seen[j] == seen.drop_first()[j - 1]);
            }
        }
        if k == seen.len() {
            assert forall|j: int| 0 <= j < seen.len() implies seen[j] != spk by {}
        }
    }
}

proof fn lemma_render_seen_len(t: Seq<TurnV>, n: int)
    requires
        0 <= n <= t.len(),
    ensures
        render_acc(t, n).0.len() <= n,
    decreases n,
{
    if n > 0 {
        lemma_render_seen_len(t, n - 1);
        let prev = render_acc(t, n - 1);
        lemma_speaker_index(prev.0, t[n - 1].speaker);
    }
}

fn find_speaker(seen: &Vec<i32>, spk: i32) -> (k: usize)
    ensures
        k as int == speaker_index(seen@.map_values(|x: i32| x as int), spk as int),
{
    let ghost sv = seen@.map_values(|x: i32| x as int);
    let mut k: usize = 0;
    assert(sv.skip(0) =~= sv);
    while k < seen.len() && seen[k] != spk
        invariant
            k <= seen.len(),
            sv == seen@.map_values(|x: i32| x as int),
            speaker_index(sv, spk as int) == k + speaker_index(sv.skip(k as int), spk as int),
        decreases seen.len() - k,
    {
        assert(sv.skip(k as int).drop_first() =~= sv.skip(k + 1));
        k = k + 1;
    }
    if k < seen.len() {
        assert(sv.skip(k as int)[0] == spk);
    } else {
        assert(sv.skip(k as int).len() == 0);
    }
    k
}

/// Appends `H:MM:SS` of a time in milliseconds.
pub fn push_ts(out: &mut Vec<char>, ms: u32)
    ensures
        final(out)@ == old(out)@ + fmt_ts_spec(ms as nat),
{
    let s: u64 = (ms / 1000) as u64;
    push_dec(out, s / 3600);
    out.push(':');
    push_dec_pad(out, (s % 3600) / 60, 2);
    out.push(':');
    push_dec_pad(out, s % 60, 2);
    assert(final(out)@ =~= old(out)@ + fmt_ts_spec(ms as nat));
}

fn render(t: &Vec<Turn>) -> (r: Vec<char>)
    requires
        all_bounded(turns_view(t@)),
    ensures
        r@ == render_spec(turns_view(t@)),
{
    let ghost tv = turns_view(t@);
    let mut seen: Vec<i32> = Vec::new();
    let mut lines: Vec<Vec<char>> = Vec::new();
    let mut i: usize = 0;
    while i < t.len()
        invariant
            i <= t.len(),
            tv == turns_view(t@),
            all_bounded(tv),
            seen@.map_values(|x: i32| x as int) == render_acc(tv, i as int).0,
            lines@.map_values(|l: Vec<char>| l@) == render_acc(tv, i as int).1,
        decreases t.len() - i,
    {
        proof { lemma_render_seen_len(tv, i as int); }
        assert(turn_bounded(tv[i as int]));
        let tx = trim_chars(&t[i].text);
        if tx.len() > 0 {
            let k = find_speaker(&seen, t[i].speaker);
            proof { lemma_speaker_index(seen@.map_values(|x: i32| x as int), t@[i as int].speaker as int); }
            if k == seen.len() {
                let ghost s0 = seen@;
                seen.push(t[i].speaker);
                assert(seen@.map_values(|x: i32| x as int) =~= s0.map_values(|x: i32| x as int).push(
                    t@[i as int].speaker as int,
                ));
            }
            let mut line = chars_of("Speaker");
            push_dec(&mut line, (k + 1) as u64);
            extend_chars(&mut line, &chars_of(" ["));
            push_ts(&mut line, t[i].start);
            extend_chars(&mut line, &chars_of("]: "));
            extend_chars(&mut line, &tx);
            let ghost l0 = lines@;
            let ghost lv = line@;
            lines.push(line);
            assert(lines@.map_values(|l: Vec<char>| l@) =~= l0.map_values(|l: Vec<char>| l@).push(lv));
            assert(lv =~= line_spec((k + 1) as nat, tv[i as int].start as nat, trim_spec(tv[i as int].text)));
        }
        i = i + 1;
    }
    let nl = chars_of("\n");
    proof {
        reveal_strlit("\n");
        assert(nl@ =~= seq!['\n']);
    }
    join_chars(&lines, &nl)
}

// ───────────────────────── the pipeline ─────────────────────────

/// Speaker-attributed transcript: one line `SpeakerN [H:MM:SS]: text` per replica,
/// speakers numbered from 1 in order of first appearance.
pub open spec fn replicas_spec(words: Seq<Word>, segs: Seq<Segment>) -> Seq<char> {
    if words.len() == 0 {
        seq![]
    } else {
        let d = prepared(segs);
        let single = single_speaker(d);
        let turns = group_acc(words, d, single, words.len() as int);
        let smoothed = smooth_from(turns, 1);
        render_spec(merge_acc(smoothed, smoothed.len() as int))
    }
}

proof fn lemma_prepared_bounds(segs: Seq<Segment>)
    ensures
        forall|j: int| 0 <= j < prepared(segs).len() ==> span_ok(#[trigger] prepared(segs)[j]),
{
    let cs = segs.map_values(|s: Segment| collar(s));
    assert(forall|j: int| 0 <= j < cs.len() ==> span_ok(#[trigger] cs[j]));
    lemma_sort_keeps(cs);
}

proof fn lemma_insert_keeps(s: Seq<Span>, x: Span)
    requires
        span_ok(x),
        forall|j: int| 0 <= j < s.len() ==> span_ok(#[trigger] s[j]),
    ensures
        forall|j: int| 0 <= j < insert_by_start(s, x).len() ==> span_ok(#[trigger] insert_by_start(s, x)[j]),
    decreases s.len(),
{
    if s.len() > 0 && s[0].start <= x.start {
        lemma_insert_keeps(s.drop_first(), x);
        let r = insert_by_start(s, x);
        let r1 = insert_by_start(s.drop_first(), x);
        assert forall|j: int| 0 <= j < r.len() implies span_ok(#[trigger] r[j]) by {
            if j > 0 {
                assert(r[j] == r1[j - 1]);
            }
        }
    }
}

proof fn lemma_sort_keeps(s: Seq<Span>)
    requires
        forall|j: int| 0 <= j < s.len() ==> span_ok(#[trigger] s[j]),
    ensures
        forall|j: int| 0 <= j < sort_by_start(s).len() ==> span_ok(#[trigger] sort_by_start(s)[j]),
    decreases s.len(),
{
    if s.len() > 0 {
        lemma_sort_keeps(s.drop_last());
        lemma_insert_keeps(sort_by_start(s.drop_last()), s.last());
    }
}

/// Words attributed to speakers and rendered as replicas (see `replicas_spec`).
pub fn words_to_replicas(words: &Vec<Word>, segs: &Vec<Segment>) -> (r: String)
    ensures
        r@ == replicas_spec(words@, segs@),
{
    if words.len() == 0 {
        return String::new();
    }
    let d = prepare_segments(segs);
    proof { lemma_prepared_bounds(segs@); }
    let single = force_single(&d);
    let turns = group_words(words, &d, single);
    proof {
        lemma_group_bounds(words@, d@, single, words.len() as int);
    }
    let mut turns = turns;
    smooth_islands(&mut turns);
    let ghost sm = turns_view(turns@);
    let merged = merge_adjacent(turns);
    proof { lemma_merge_bounded(sm, sm.len() as int); }
    let out = render(&merged);
    string_of(&out)
}

} // verus!

verus! {

/// Clusters asked of the diarizer: the number of speakers when it is known, else -1
/// (found by the clustering threshold).
pub fn cluster_count(num_speakers: i32) -> (n: i32)
    ensures
        n == (if num_speakers > 0 { num_speakers as int } else { -1 }),
{
    if num_speakers > 0 {
        num_speakers
    } else {
        -1
    }
}

} // verus!

verus! {

// ───────────────────────── laws ─────────────────────────

pub open spec fn turn_texts(t: Seq<TurnV>) -> Seq<Seq<char>> {
    t.map_values(|x: TurnV| x.text)
}

/// What the replicas say, one after the other.
pub open spec fn spoken(t: Seq<TurnV>) -> Seq<char> {
    join_spec(turn_texts(t), seq![' '])
}

pub open spec fn word_texts(ws: Seq<Word>) -> Seq<Seq<char>> {
    ws.map_values(|w: Word| w.text@)
}

/// The replicas of the pipeline before rendering: words grouped by speaker, islands
/// smoothed, neighbours merged.
pub open spec fn pipeline_turns(words: Seq<Word>, segs: Seq<Segment>) -> Seq<TurnV> {
    let d = prepared(segs);
    let single = single_speaker(d);
    let turns = group_acc(words, d, single, words.len() as int);
    let smoothed = smooth_from(turns, 1);
    merge_acc(smoothed, smoothed.len() as int)
}

proof fn lemma_group_spoken(ws: Seq<Word>, d: Seq<Span>, single: bool, n: int)
    requires
        0 <= n <= ws.len(),
    ensures
        spoken(group_acc(ws, d, single, n)) == join_spec(word_texts(ws.take(n)), seq![' ']),
        n > 0 ==> group_acc(ws, d, single, n).len() > 0,
    decreases n,
{
    if n == 0 {
        assert(turn_texts(group_acc(ws, d, single, 0)) =~= Seq::<Seq<char>>::empty());
        assert(word_texts(ws.take(0)) =~= Seq::<Seq<char>>::empty());
    } else {
        lemma_group_spoken(ws, d, single, n - 1);
        let t = group_acc(ws, d, single, n - 1);
        let w = ws[n - 1];
        let spk = word_speaker(w, d, single);
        assert(word_texts(ws.take(n)) =~= word_texts(ws.take(n - 1)).push(w.text@));
        if n - 1 > 0 {
            crate::text::lemma_join_push(word_texts(ws.take(n - 1)), w.text@, seq![' ']);
        } else {
            assert(word_texts(ws.take(n)) =~= seq![w.text@]);
        }
        if t.len() > 0 && t.last().speaker == spk {
            let nt = t.update(
                t.len() - 1,
                TurnV {
                    speaker: spk,
                    start: t.last().start,
                    end: max_int(w.end as int, t.last().end),
                    text: joined_text(t.last().text, w.text@),
                },
            );
            assert(turn_texts(nt) =~= turn_texts(t).update(t.len() - 1, turn_texts(t).last() + seq![' '] + w.text@));
            crate::text::lemma_join_extend_last(turn_texts(t), w.text@, seq![' ']);
        } else {
            let nt = t.push(
                TurnV {
                    speaker: spk,
                    start: w.start as int,
                    end: max_int(w.end as int, w.start as int),
                    text: w.text@,
                },
            );
            assert(turn_texts(nt) =~= turn_texts(t).push(w.text@));
            if t.len() > 0 {
                crate::text::lemma_join_push(turn_texts(t), w.text@, seq![' ']);
            } else {
                assert(turn_texts(nt) =~= seq![w.text@]);
            }
        }
    }
}

proof fn lemma_absorb_texts(t: Seq<TurnV>, i: int)
    requires
        1 <= i < t.len(),
    ensures
        turn_texts(t.remove(i).update(i - 1, absorb(t[i - 1], t[i]))) == turn_texts(t).remove(i).update(
            i - 1,
            turn_texts(t)[i - 1] + seq![' '] + turn_texts(t)[i],
        ),
        spoken(t.remove(i).update(i - 1, absorb(t[i - 1], t[i]))) == spoken(t),
{
    assert(turn_texts(t.remove(i).update(i - 1, absorb(t[i - 1], t[i]))) =~= turn_texts(t).remove(i).update(
        i - 1,
        turn_texts(t)[i - 1] + seq![' '] + turn_texts(t)[i],
    ));
    crate::text::lemma_join_merge_pair(turn_texts(t), i, seq![' ']);
}

proof fn lemma_smooth_spoken(t: Seq<TurnV>, i: int)
    ensures
        spoken(smooth_from(t, i)) == spoken(t),
    decreases t.len() - i,
{
    if i < 1 || i + 1 >= t.len() {
    } else if is_island(t, i) {
        lemma_absorb_texts(t, i);
        let t1 = t.remove(i).update(i - 1, absorb(t[i - 1], t[i]));
        if i < t1.len() && t1[i].speaker == t1[i - 1].speaker && t1[i].start - t1[i - 1].end <= MERGE_GAP_MS {
            lemma_absorb_texts(t1, i);
        }
        lemma_smooth_spoken(absorb_island(t, i), i);
    } else {
        lemma_smooth_spoken(t, i + 1);
    }
}

proof fn lemma_merge_spoken(t: Seq<TurnV>, n: int)
    requires
        0 <= n <= t.len(),
    ensures
        spoken(merge_acc(t, n)) == join_spec(turn_texts(t.take(n)), seq![' ']),
        n > 0 ==> merge_acc(t, n).len() > 0,
    decreases n,
{
    if n == 0 {
        assert(turn_texts(merge_acc(t, 0)) =~= Seq::<Seq<char>>::empty());
        assert(turn_texts(t.take(0)) =~= Seq::<Seq<char>>::empty());
    } else {
        lemma_merge_spoken(t, n - 1);
        let o = merge_acc(t, n - 1);
        let x = t[n - 1];
        assert(turn_texts(t.take(n)) =~= turn_texts(t.take(n - 1)).push(x.text));
        if n - 1 > 0 {
            crate::text::lemma_join_push(turn_texts(t.take(n - 1)), x.text, seq![' ']);
        } else {
            assert(turn_texts(t.take(n)) =~= seq![x.text]);
        }
        if o.len() > 0 && o.last().speaker == x.speaker && x.start - o.last().end <= MERGE_GAP_MS {
            assert(turn_texts(o.update(o.len() - 1, absorb(o.last(), x))) =~= turn_texts(o).update(
                o.len() - 1,
                turn_texts(o).last() + seq![' '] + x.text,
            ));
            crate::text::lemma_join_extend_last(turn_texts(o), x.text, seq![' ']);
        } else {
            assert(turn_texts(o.push(x)) =~= turn_texts(o).push(x.text));
            if o.len() > 0 {
                crate::text::lemma_join_push(turn_texts(o), x.text, seq![' ']);
            } else {
                assert(turn_texts(o.push(x)) =~= seq![x.text]);
            }
        }
    }
}

/// No word is lost, added or reordered: the replicas, read one after the other, say the
/// words in order, each once, separated by spaces.
pub proof fn law_no_word_lost(words: Seq<Word>, segs: Seq<Segment>)
    ensures
        spoken(pipeline_turns(words, segs)) == join_spec(word_texts(words), seq![' ']),
        words.len() > 0 ==> replicas_spec(words, segs) == render_spec(pipeline_turns(words, segs)),
{
    let d = prepared(segs);
    let single = single_speaker(d);
    let turns = group_acc(words, d, single, words.len() as int);
    lemma_group_spoken(words, d, single, words.len() as int);
    assert(words.take(words.len() as int) =~= words);
    lemma_smooth_spoken(turns, 1);
    let smoothed = smooth_from(turns, 1);
    lemma_merge_spoken(smoothed, smoothed.len() as int);
    assert(smoothed.take(smoothed.len() as int) =~= smoothed);
}

/// After merging, two neighbouring replicas of one speaker are more than `MERGE_GAP_MS`
/// apart.
pub open spec fn merged_apart(t: Seq<TurnV>) -> bool {
    forall|i: int| 1 <= i < t.len() ==> (#[trigger] t[i]).speaker != t[i - 1].speaker || t[i].start - t[i - 1].end > MERGE_GAP_MS
}

proof fn lemma_merge_apart(t: Seq<TurnV>, n: int)
    requires
        0 <= n <= t.len(),
    ensures
        merged_apart(merge_acc(t, n)),
    decreases n,
{
    if n > 0 {
        lemma_merge_apart(t, n - 1);
        let o = merge_acc(t, n - 1);
        let x = t[n - 1];
        let r = merge_acc(t, n);
        if o.len() > 0 && o.last().speaker == x.speaker && x.start - o.last().end <= MERGE_GAP_MS {
            assert forall|i: int| 1 <= i < r.len() implies (#[trigger] r[i]).speaker != r[i - 1].speaker || r[i].start
                - r[i - 1].end > MERGE_GAP_MS by {
                assert(o[i].speaker != o[i - 1].speaker || o[i].start - o[i - 1].end > MERGE_GAP_MS);
            }
        } else {
            assert forall|i: int| 1 <= i < r.len() implies (#[trigger] r[i]).speaker != r[i - 1].speaker || r[i].start
                - r[i - 1].end > MERGE_GAP_MS by {
                if i < o.len() {
                    assert(o[i].speaker != o[i - 1].speaker || o[i].start - o[i - 1].end > MERGE_GAP_MS);
                }
            }
        }
    }
}

/// Neighbouring replicas of one speaker are merged: in the pipeline's replicas, two in a
/// row of the same speaker are more than the merge gap apart.
pub proof fn law_replicas_merged(words: Seq<Word>, segs: Seq<Segment>)
    ensures
        merged_apart(pipeline_turns(words, segs)),
{
    let d = prepared(segs);
    let single = single_speaker(d);
    let turns = group_acc(words, d, single, words.len() as int);
    let smoothed = smooth_from(turns, 1);
    lemma_merge_apart(smoothed, smoothed.len() as int);
}

} // verus!

verus! {

pub open spec fn all_speaker(t: Seq<TurnV>, s: int) -> bool {
    forall|j: int| 0 <= j < t.len() ==> (#[trigger] t[j]).speaker == s
}

proof fn lemma_group_single(ws: Seq<Word>, d: Seq<Span>, n: int)
    requires
        0 <= n <= ws.len(),
    ensures
        all_speaker(group_acc(ws, d, true, n), 0),
    decreases n,
{
    if n > 0 {
        lemma_group_single(ws, d, n - 1);
        let t = group_acc(ws, d, true, n - 1);
        let r = group_acc(ws, d, true, n);
        assert forall|j: int| 0 <= j < r.len() implies (#[trigger] r[j]).speaker == 0 by {
            if j < t.len() {
                assert(t[j].speaker == 0);
            }
        }
    }
}

proof fn lemma_smooth_speaker(t: Seq<TurnV>, i: int, s: int)
    requires
        all_speaker(t, s),
    ensures
        all_speaker(smooth_from(t, i), s),
    decreases t.len() - i,
{
    if i < 1 || i + 1 >= t.len() {
    } else if is_island(t, i) {
        let t1 = t.remove(i).update(i - 1, absorb(t[i - 1], t[i]));
        assert(all_speaker(t1, s)) by {
            assert forall|j: int| 0 <= j < t1.len() implies (#[trigger] t1[j]).speaker == s by {
                if j < i - 1 {
                    assert(t1[j] == t[j]);
                } else if j > i - 1 {
                    assert(t1[j] == t[j + 1]);
                }
            }
        }
        let t2 = absorb_island(t, i);
        assert(all_speaker(t2, s)) by {
            if i < t1.len() && t1[i].speaker == t1[i - 1].speaker && t1[i].start - t1[i - 1].end <= MERGE_GAP_MS {
                let t3 = t1.remove(i).update(i - 1, absorb(t1[i - 1], t1[i]));
                assert forall|j: int| 0 <= j < t3.len() implies (#[trigger] t3[j]).speaker == s by {
                    if j < i - 1 {
                        assert(t3[j] == t1[j]);
                    } else if j > i - 1 {
                        assert(t3[j] == t1[j + 1]);
                    }
                }
            }
        }
        lemma_smooth_speaker(t2, i, s);
    } else {
        lemma_smooth_speaker(t, i + 1, s);
    }
}

proof fn lemma_merge_speaker(t: Seq<TurnV>, n: int, s: int)
    requires
        0 <= n <= t.len(),
        all_speaker(t, s),
    ensures
        all_speaker(merge_acc(t, n), s),
    decreases n,
{
    if n > 0 {
        lemma_merge_speaker(t, n - 1, s);
        let o = merge_acc(t, n - 1);
        let r = merge_acc(t, n);
        assert forall|j: int| 0 <= j < r.len() implies (#[trigger] r[j]).speaker == s by {
            if j < o.len() {
                assert(o[j].speaker == s);
            } else {
                assert(t[n - 1].speaker == s);
            }
        }
    }
}

proof fn lemma_render_single(t: Seq<TurnV>, n: int)
    requires
        0 <= n <= t.len(),
        all_speaker(t, 0),
    ensures
        render_acc(t, n).0 == Seq::<int>::empty() || render_acc(t, n).0 == seq![0int],
        forall|j: int| 0 <= j < render_acc(t, n).1.len() ==> (#[trigger] render_acc(t, n).1[j]).take(10) == "Speaker1 ["@,
    decreases n,
{
    if n > 0 {
        lemma_render_single(t, n - 1);
        let prev = render_acc(t, n - 1);
        let x = t[n - 1];
        assert(x.speaker == 0);
        let tx = trim_spec(x.text);
        if tx.len() > 0 {
            let k = speaker_index(prev.0, x.speaker);
            assert(k == 0) by {
                if prev.0.len() > 0 {
                    assert(prev.0[0] == 0);
                }
            }
            let line = line_spec(1, x.start as nat, tx);
            assert(line.take(10) == "Speaker1 ["@) by {
                reveal_strlit("Speaker");
                reveal_strlit(" [");
                reveal_strlit("Speaker1 [");
                assert(dec_spec(1) == seq!['1']);
                assert(line.take(10) =~= "Speaker1 ["@);
            }
            let r = render_acc(t, n);
            assert forall|j: int| 0 <= j < r.1.len() implies (#[trigger] r.1[j]).take(10) == "Speaker1 ["@ by {
                if j < prev.1.len() {
                    assert(r.1[j] == prev.1[j]);
                }
            }
            if prev.0.len() == 0 {
                assert(r.0 =~= seq![0int]);
            }
        }
    }
}

/// When one speaker has nearly all the speech, the whole transcript is theirs: every line
/// begins with `Speaker1 [`.
pub proof fn law_single_speaker(words: Seq<Word>, segs: Seq<Segment>)
    requires
        words.len() > 0,
        single_speaker(prepared(segs)),
    ensures
        forall|j: int| 0 <= j < render_acc(pipeline_turns(words, segs), pipeline_turns(words, segs).len() as int).1.len()
            ==> (#[trigger] render_acc(pipeline_turns(words, segs), pipeline_turns(words, segs).len() as int).1[j]).take(10)
            == "Speaker1 ["@,
        replicas_spec(words, segs) == render_spec(pipeline_turns(words, segs)),
{
    let d = prepared(segs);
    let turns = group_acc(words, d, true, words.len() as int);
    lemma_group_single(words, d, words.len() as int);
    lemma_smooth_speaker(turns, 1, 0);
    let smoothed = smooth_from(turns, 1);
    lemma_merge_speaker(smoothed, smoothed.len() as int, 0);
    let m = merge_acc(smoothed, smoothed.len() as int);
    lemma_render_single(m, m.len() as int);
}

} // verus!

verus! {

proof fn lemma_render_first(t: Seq<TurnV>, n: int)
    requires
        0 <= n <= t.len(),
    ensures
        render_acc(t, n).0.len() <= render_acc(t, n).1.len(),
        render_acc(t, n).1.len() > 0 ==> render_acc(t, n).1[0].take(10) == "Speaker1 ["@,
    decreases n,
{
    if n > 0 {
        lemma_render_first(t, n - 1);
        let prev = render_acc(t, n - 1);
        let x = t[n - 1];
        let tx = trim_spec(x.text);
        if tx.len() > 0 {
            lemma_speaker_index(prev.0, x.speaker);
            if prev.1.len() == 0 {
                let line = line_spec(1, x.start as nat, tx);
                assert(line.take(10) == "Speaker1 ["@) by {
                    reveal_strlit("Speaker");
                    reveal_strlit(" [");
                    reveal_strlit("Speaker1 [");
                    assert(dec_spec(1) == seq!['1']);
                    assert(line.take(10) =~= "Speaker1 ["@);
                }
            } else {
                assert(render_acc(t, n).1[0] == prev.1[0]);
            }
        }
    }
}

/// Speakers are numbered by first appearance: the first line of a transcript is always
/// `Speaker1`.
pub proof fn law_first_line_speaker1(words: Seq<Word>, segs: Seq<Segment>)
    ensures
        ({
            let lines = render_acc(pipeline_turns(words, segs), pipeline_turns(words, segs).len() as int).1;
            lines.len() > 0 ==> lines[0].take(10) == "Speaker1 ["@
        }),
{
    let t = pipeline_turns(words, segs);
    lemma_render_first(t, t.len() as int);
}

} // verus!

verus! {

proof fn lemma_ov_scan_max(ws: int, we: int, d: Seq<Span>, n: int)
    requires
        0 <= n <= d.len(),
        forall|j: int| 0 <= j < d.len() ==> d[j].speaker >= 0,
    ensures
        ov_scan(ws, we, d, n).0 >= 0,
        forall|j: int| 0 <= j < n ==> overlap(ws, we, d[j]) <= ov_scan(ws, we, d, n).0,
        ov_scan(ws, we, d, n).1 >= 0 ==> exists|i: int|
            0 <= i < n && d[i].speaker == ov_scan(ws, we, d, n).1 && #[trigger] overlap(ws, we, d[i]) == ov_scan(
                ws,
                we,
                d,
                n,
            ).0,
        ov_scan(ws, we, d, n).1 < 0 ==> ov_scan(ws, we, d, n).0 == 0,
    decreases n,
{
    if n > 0 {
        lemma_ov_scan_max(ws, we, d, n - 1);
        let prev = ov_scan(ws, we, d, n - 1);
        let o = overlap(ws, we, d[n - 1]);
        if o > prev.0 {
            assert(overlap(ws, we, d[n - 1]) == ov_scan(ws, we, d, n).0);
        } else if prev.1 >= 0 {
            let i = choose|i: int|
                0 <= i < n - 1 && d[i].speaker == prev.1 && #[trigger] overlap(ws, we, d[i]) == prev.0;
            assert(overlap(ws, we, d[i]) == ov_scan(ws, we, d, n).0);
        }
    }
}

/// A word goes to the speaker with the largest overlap: when some span overlaps the word
/// `[start, max(end, start)]`, the speaker assigned is that of an overlapping span whose
/// overlap is at least that of every span.
pub proof fn law_word_to_max_overlap(start: int, end: int, d: Seq<Span>)
    requires
        forall|j: int| 0 <= j < d.len() ==> d[j].speaker >= 0,
        exists|j: int| 0 <= j < d.len() && #[trigger] overlap(start, max_int(end, start), d[j]) > 0,
    ensures
        exists|i: int|
            0 <= i < d.len() && d[i].speaker == assign_spec(start, end, d) && overlap(start, max_int(end, start), d[i])
                > 0 && forall|j: int|
                0 <= j < d.len() ==> overlap(start, max_int(end, start), d[j]) <= #[trigger] overlap(
                    start,
                    max_int(end, start),
                    d[i],
                ),
{
    let we = max_int(end, start);
    lemma_ov_scan_max(start, we, d, d.len() as int);
    let best = ov_scan(start, we, d, d.len() as int);
    let j = choose|j: int| 0 <= j < d.len() && #[trigger] overlap(start, we, d[j]) > 0;
    assert(overlap(start, we, d[j]) <= best.0);
    assert(best.1 >= 0);
    let i = choose|i: int| 0 <= i < d.len() && d[i].speaker == best.1 && #[trigger] overlap(start, we, d[i]) == best.0;
    assert(d[i].speaker == assign_spec(start, end, d));
}

} // verus!
