//! Punctuation and capitalisation of Russian recognition output (RUPunct labels).
//!
//! The model labels each word with a case and a trailing mark (33 labels: case × mark). It
//! runs over sliding windows of words so that each emitted word has context on both sides;
//! the model itself runs elsewhere. Here: the windows, the merging of their labels, and what
//! a label does to a word.
use vstd::prelude::*;

use crate::text::{chars_of, extend_chars, starts_with, starts_with_spec, str_eq, string_of};

verus! {

/// Words in a window (room under the model's position limit).
pub const WIN: usize = 160;
/// Context at the edges of a window that is not emitted (except at the ends of the text).
pub const MARGIN: usize = 24;
/// The label "lower case, no mark": the default.
pub const LOWER_O: usize = 31;
/// Step between windows.
pub const STRIDE: usize = 112;

/// A window of words `[start, end)`, of which `[start + emit_lo, start + emit_hi)` is kept.
pub struct Window {
    pub start: usize,
    pub end: usize,
    pub emit_lo: usize,
    pub emit_hi: usize,
}

pub open spec fn win_end(start: nat, n: nat) -> nat {
    if start + WIN < n {
        (start + WIN) as nat
    } else {
        n
    }
}

/// The windows over `n` words: from 0 in steps of `STRIDE` until one reaches the end.
pub open spec fn windows_from(start: nat, n: nat) -> Seq<(nat, nat, nat, nat)>
    decreases n - start,
{
    let end = win_end(start, n);
    let lo: nat = if start == 0 { 0 } else { MARGIN as nat };
    let hi: nat = if end == n {
        (end - start) as nat
    } else if end - start >= MARGIN {
        (end - start - MARGIN) as nat
    } else {
        0
    };
    if end >= n || start >= n {
        seq![(start, end, lo, hi)]
    } else {
        seq![(start, end, lo, hi)] + windows_from((start + STRIDE) as nat, n)
    }
}

pub open spec fn window_view(w: Window) -> (nat, nat, nat, nat) {
    (w.start as nat, w.end as nat, w.emit_lo as nat, w.emit_hi as nat)
}

/// The windows of a text of `n` words (none for no words).
pub fn windows(n: usize) -> (r: Vec<Window>)
    requires
        n + WIN <= usize::MAX,
    ensures
        n == 0 ==> r@.len() == 0,
        n > 0 ==> r@.map_values(|w: Window| window_view(w)) == windows_from(0, n as nat),
{
    let mut r: Vec<Window> = Vec::new();
    if n == 0 {
        return r;
    }
    let mut start: usize = 0;
    loop
        invariant_except_break
            start < n,
            n + WIN <= usize::MAX,
            r@.map_values(|w: Window| window_view(w)) + windows_from(start as nat, n as nat) == windows_from(0, n as nat),
        ensures
            r@.map_values(|w: Window| window_view(w)) == windows_from(0, n as nat),
        decreases n - start,
    {
        let end = if start + WIN < n { start + WIN } else { n };
        let lo = if start == 0 { 0 } else { MARGIN };
        let hi = if end == n {
            end - start
        } else if end - start >= MARGIN {
            end - start - MARGIN
        } else {
            0
        };
        let w = Window { start, end, emit_lo: lo, emit_hi: hi };
        let ghost before = r@;
        r.push(w);
        assert(r@.map_values(|w: Window| window_view(w)) =~= before.map_values(|w: Window| window_view(w)).push(
            window_view(w),
        ));
        if end == n {
            assert(windows_from(start as nat, n as nat) == seq![window_view(w)]);
            assert(before.map_values(|w: Window| window_view(w)).push(window_view(w)) =~= before.map_values(
                |w: Window| window_view(w),
            ) + seq![window_view(w)]);
            break;
        }
        assert(windows_from(start as nat, n as nat) == seq![window_view(w)] + windows_from(
            (start + STRIDE) as nat,
            n as nat,
        ));
        assert(before.map_values(|w: Window| window_view(w)).push(window_view(w)) + windows_from(
            (start + STRIDE) as nat,
            n as nat,
        ) =~= before.map_values(|w: Window| window_view(w)) + (seq![window_view(w)] + windows_from(
            (start + STRIDE) as nat,
            n as nat,
        )));
        start = start + STRIDE;
    }
    r
}

/// The labels of the words: each window writes the labels it inferred over its kept part
/// (a missing label is `LOWER_O`); a word no window kept stays `LOWER_O`.
pub open spec fn merged_label(n: nat, wins: Seq<(nat, nat, nat, nat)>, inferred: Seq<Seq<usize>>, k: nat, i: nat) -> usize
    decreases k,
{
    if k == 0 {
        LOWER_O
    } else {
        let w = wins[k - 1];
        let (start, _end, lo, hi) = w;
        if start + lo <= i < start + hi {
            let j = i - start;
            if j < inferred[k - 1].len() {
                inferred[k - 1][j]
            } else {
                LOWER_O
            }
        } else {
            merged_label(n, wins, inferred, (k - 1) as nat, i)
        }
    }
}

pub fn merge_labels(n: usize, wins: &Vec<Window>, inferred: &Vec<Vec<usize>>) -> (labels: Vec<usize>)
    requires
        wins@.len() == inferred@.len(),
        forall|k: int| 0 <= k < wins@.len() ==> (#[trigger] wins@[k]).start + wins@[k].emit_hi <= n
            && wins@[k].emit_lo <= wins@[k].emit_hi,
    ensures
        labels@.len() == n,
        forall|i: int| 0 <= i < n ==> #[trigger] labels@[i] == merged_label(
            n as nat,
            wins@.map_values(|w: Window| window_view(w)),
            inferred@.map_values(|v: Vec<usize>| v@),
            wins@.len() as nat,
            i as nat,
        ),
{
    let ghost ws = wins@.map_values(|w: Window| window_view(w));
    let ghost inf = inferred@.map_values(|v: Vec<usize>| v@);
    let mut labels: Vec<usize> = Vec::new();
    let mut i: usize = 0;
    while i < n
        invariant
            i <= n,
            labels@.len() == i,
            forall|x: int| 0 <= x < i ==> labels@[x] == LOWER_O,
        decreases n - i,
    {
        labels.push(LOWER_O);
        i = i + 1;
    }
    let mut k: usize = 0;
    while k < wins.len()
        invariant
            k <= wins@.len(),
            wins@.len() == inferred@.len(),
            ws == wins@.map_values(|w: Window| window_view(w)),
            inf == inferred@.map_values(|v: Vec<usize>| v@),
            forall|q: int| 0 <= q < wins@.len() ==> (#[trigger] wins@[q]).start + wins@[q].emit_hi <= n
                && wins@[q].emit_lo <= wins@[q].emit_hi,
            labels@.len() == n,
            forall|x: int| 0 <= x < n ==> #[trigger] labels@[x] == merged_label(n as nat, ws, inf, k as nat, x as nat),
        decreases wins@.len() - k,
    {
        let w = &wins[k];
        let ghost prev = labels@;
        assert(ws[k as int] == window_view(*w));
        assert(inf[k as int] == inferred@[k as int]@);
        let mut j: usize = w.emit_lo;
        while j < w.emit_hi
            invariant
                w.emit_lo <= j <= w.emit_hi,
                w.start + w.emit_hi <= n,
                k < inferred@.len(),
                labels@.len() == n,
                forall|x: int| 0 <= x < n ==> (#[trigger] labels@[x]) == (if w.start + w.emit_lo <= x < w.start + j {
                    if x - w.start < inferred@[k as int]@.len() { inferred@[k as int]@[x - w.start] } else { LOWER_O }
                } else {
                    prev[x]
                }),
            decreases w.emit_hi - j,
        {
            let v = if j < inferred[k].len() { inferred[k][j] } else { LOWER_O };
            labels.set(w.start + j, v);
            j = j + 1;
        }
        assert forall|x: int| 0 <= x < n implies #[trigger] labels@[x] == merged_label(
            n as nat,
            ws,
            inf,
            (k + 1) as nat,
            x as nat,
        ) by {
            assert(merged_label(n as nat, ws, inf, (k + 1) as nat, x as nat) == (if w.start + w.emit_lo <= x < w.start + w.emit_hi {
                if x - w.start < inf[k as int].len() { inf[k as int][x - w.start] } else { LOWER_O }
            } else {
                merged_label(n as nat, ws, inf, k as nat, x as nat)
            }));
        }
        k = k + 1;
    }
    labels
}

} // verus!

verus! {

/// `str::to_uppercase`: the Unicode upper case of each character.
pub uninterp spec fn upper(s: Seq<char>) -> Seq<char>;

/// `char::to_uppercase`: the upper case of a character (one or more characters).
pub uninterp spec fn char_upper(c: char) -> Seq<char>;

/// Upper case of a whole word (std `str::to_uppercase`). Claimed: the result is the one the
/// name `upper` stands for.
#[verifier::external_body]
fn to_upper(s: &str) -> (r: String)
    ensures
        r@ == upper(s@),
{
    s.to_uppercase()
}

/// Upper case of one character (std `char::to_uppercase`, collected). Claimed: the result
/// is the one the name `char_upper` stands for.
#[verifier::external_body]
fn char_to_upper(c: char) -> (r: String)
    ensures
        r@ == char_upper(c),
{
    c.to_uppercase().collect::<String>()
}

/// The first character in upper case, the rest as it is.
pub open spec fn cap_first(s: Seq<char>) -> Seq<char> {
    if s.len() == 0 {
        s
    } else {
        char_upper(s[0]) + s.drop_first()
    }
}

pub fn capitalize_first(s: &str) -> (r: String)
    ensures
        r@ == cap_first(s@),
{
    let c = chars_of(s);
    if c.len() == 0 {
        return String::new();
    }
    let mut v = chars_of(char_to_upper(c[0]).as_str());
    let rest = crate::text::slice_chars(&c, 1, c.len());
    assert(rest@ =~= c@.drop_first());
    extend_chars(&mut v, &rest);
    string_of(&v)
}

/// The mark of a label's tail.
pub open spec fn mark_spec(m: Seq<char>) -> Seq<char> {
    if m == "PERIOD"@ {
        "."@
    } else if m == "COMMA"@ {
        ","@
    } else if m == "QUESTION"@ {
        "?"@
    } else if m == "TIRE"@ {
        " —"@
    } else if m == "VOSKL"@ {
        "!"@
    } else if m == "DVOETOCHIE"@ {
        ":"@
    } else if m == "PERIODCOMMA"@ {
        ";"@
    } else if m == "DEFIS"@ {
        "-"@
    } else if m == "QUESTIONVOSKL"@ {
        "?!"@
    } else if m == "MNOGOTOCHIE"@ {
        "…"@
    } else {
        ""@
    }
}

pub fn mark(m: &str) -> (r: &'static str)
    ensures
        r@ == mark_spec(m@),
{
    if str_eq(m, "PERIOD") {
        "."
    } else if str_eq(m, "COMMA") {
        ","
    } else if str_eq(m, "QUESTION") {
        "?"
    } else if str_eq(m, "TIRE") {
        " —"
    } else if str_eq(m, "VOSKL") {
        "!"
    } else if str_eq(m, "DVOETOCHIE") {
        ":"
    } else if str_eq(m, "PERIODCOMMA") {
        ";"
    } else if str_eq(m, "DEFIS") {
        "-"
    } else if str_eq(m, "QUESTIONVOSKL") {
        "?!"
    } else if str_eq(m, "MNOGOTOCHIE") {
        "…"
    } else {
        ""
    }
}

/// A label applied to a word: `UPPER_TOTAL_` upper-cases it whole, `UPPER_` its first
/// letter, `LOWER_` (or no prefix) leaves it; then the mark of the label's tail.
pub open spec fn apply_spec(word: Seq<char>, label: Seq<char>) -> Seq<char> {
    if starts_with_spec(label, "UPPER_TOTAL_"@) {
        upper(word) + mark_spec(label.skip("UPPER_TOTAL_"@.len() as int))
    } else if starts_with_spec(label, "UPPER_"@) {
        cap_first(word) + mark_spec(label.skip("UPPER_"@.len() as int))
    } else if starts_with_spec(label, "LOWER_"@) {
        word + mark_spec(label.skip("LOWER_"@.len() as int))
    } else {
        word + mark_spec(label)
    }
}

fn tail_after(label: &Vec<char>, p: &str) -> (r: Option<String>)
    ensures
        starts_with_spec(label@, p@) ==> (r matches Some(t) && t@ == label@.skip(p@.len() as int)),
        !starts_with_spec(label@, p@) ==> r is None,
{
    let pc = chars_of(p);
    if starts_with(label, &pc) {
        let t = crate::text::slice_chars(label, pc.len(), label.len());
        assert(t@ =~= label@.skip(p@.len() as int));
        Some(string_of(&t))
    } else {
        None
    }
}

pub fn apply(word: &str, label: &str) -> (r: String)
    ensures
        r@ == apply_spec(word@, label@),
{
    let l = chars_of(label);
    let (cased, m) = match tail_after(&l, "UPPER_TOTAL_") {
        Some(t) => (to_upper(word), t),
        None => match tail_after(&l, "UPPER_") {
            Some(t) => (capitalize_first(word), t),
            None => match tail_after(&l, "LOWER_") {
                Some(t) => (word.to_owned(), t),
                None => (word.to_owned(), label.to_owned()),
            },
        },
    };
    crate::text::concat(cased.as_str(), mark(m.as_str()))
}

/// A sentence ends with `.`, `?`, `!` or `…`.
pub open spec fn ends_sentence_spec(s: Seq<char>) -> bool {
    s.len() > 0 && (s.last() == '.' || s.last() == '?' || s.last() == '!' || s.last() == '…')
}

pub fn ends_sentence(s: &str) -> (b: bool)
    ensures
        b == ends_sentence_spec(s@),
        b <==> s@.len() > 0 && (s@.last() == '.' || s@.last() == '?' || s@.last() == '!' || s@.last() == '…'),
{
    let c = chars_of(s);
    if c.len() == 0 {
        return false;
    }
    let l = c[c.len() - 1];
    l == '.' || l == '?' || l == '!' || l == '…'
}

/// The text of a label id (`LOWER_O` for an id the model's table lacks).
pub open spec fn label_text(id2label: Seq<Seq<char>>, l: usize) -> Seq<char> {
    if l < id2label.len() {
        id2label[l as int]
    } else {
        "LOWER_O"@
    }
}

/// The first `n` words restored, and whether the next word starts a sentence. Besides the
/// labels, a word is capitalised at the start and after a sentence's end.
pub open spec fn restore_fold(words: Seq<Seq<char>>, labels: Seq<usize>, id2label: Seq<Seq<char>>, n: nat) -> (Seq<Seq<char>>, bool)
    decreases n,
{
    if n == 0 {
        (Seq::empty(), true)
    } else {
        let (out, cap) = restore_fold(words, labels, id2label, (n - 1) as nat);
        let s = apply_spec(words[n - 1], label_text(id2label, labels[n - 1]));
        let s2 = if cap { cap_first(s) } else { s };
        (out.push(s2), ends_sentence_spec(s2))
    }
}

pub open spec fn strings_view(v: Seq<String>) -> Seq<Seq<char>> {
    v.map_values(|s: String| s@)
}

/// The words with case and marks; as many as given, in the same order (they zip back onto
/// the timed words).
pub fn restore(words: &Vec<String>, labels: &Vec<usize>, id2label: &Vec<String>) -> (r: Vec<String>)
    requires
        labels@.len() == words@.len(),
    ensures
        strings_view(r@) == restore_fold(strings_view(words@), labels@, strings_view(id2label@), words@.len() as nat).0,
{
    let ghost ws = strings_view(words@);
    let ghost ids = strings_view(id2label@);
    let mut out: Vec<String> = Vec::new();
    let mut cap = true;
    let mut i: usize = 0;
    while i < words.len()
        invariant
            i <= words@.len(),
            labels@.len() == words@.len(),
            ws == strings_view(words@),
            ids == strings_view(id2label@),
            (strings_view(out@), cap) == restore_fold(ws, labels@, ids, i as nat),
        decreases words@.len() - i,
    {
        let l = labels[i];
        let lbl: String = if l < id2label.len() { id2label[l].clone() } else { "LOWER_O".to_owned() };
        assert(lbl@ == label_text(ids, l));
        assert(ws[i as int] == words@[i as int]@);
        let s = apply(words[i].as_str(), lbl.as_str());
        let s2 = if cap { capitalize_first(s.as_str()) } else { s };
        cap = ends_sentence(s2.as_str());
        let ghost before = out@;
        out.push(s2);
        assert(strings_view(out@) =~= strings_view(before).push(s2@));
        i = i + 1;
    }
    out
}

/// The first of the first `k` tokens that belongs to word `w`.
pub open spec fn first_token(word_ids: Seq<Option<usize>>, w: usize, k: nat) -> Option<int>
    decreases k,
{
    if k == 0 {
        None
    } else {
        match first_token(word_ids, w, (k - 1) as nat) {
            Some(i) => Some(i),
            None => if word_ids[k - 1] == Some(w) {
                Some(k - 1)
            } else {
                None
            },
        }
    }
}

/// The label of word `w`: that of its first sub-token, `LOWER_O` when no token belongs to it.
pub open spec fn word_label_spec(word_ids: Seq<Option<usize>>, token_labels: Seq<usize>, w: usize) -> usize {
    match first_token(word_ids, w, word_ids.len()) {
        Some(i) => token_labels[i],
        None => LOWER_O,
    }
}

/// One label per word of a window of `n` words, from the labels of its sub-tokens and the
/// word each token belongs to (`None` for special tokens): each word takes the label of its
/// first sub-token, `LOWER_O` when it has none; tokens of words past `n` are ignored.
pub fn word_labels(n: usize, word_ids: &Vec<Option<usize>>, token_labels: &Vec<usize>) -> (r: Vec<usize>)
    requires
        word_ids.len() == token_labels.len(),
    ensures
        r@.len() == n,
        forall|w: int| 0 <= w < n ==> #[trigger] r@[w] == word_label_spec(word_ids@, token_labels@, w as usize),
{
    let mut r: Vec<usize> = Vec::new();
    let mut seen: Vec<bool> = Vec::new();
    let mut j: usize = 0;
    while j < n
        invariant
            j <= n,
            r@.len() == j,
            seen@.len() == j,
            forall|w: int| 0 <= w < j ==> r@[w] == LOWER_O && !seen@[w],
        decreases n - j,
    {
        r.push(LOWER_O);
        seen.push(false);
        j = j + 1;
    }
    let mut i: usize = 0;
    while i < word_ids.len()
        invariant
            i <= word_ids.len(),
            word_ids.len() == token_labels.len(),
            r@.len() == n,
            seen@.len() == n,
            forall|w: int| 0 <= w < n ==> (#[trigger] seen@[w]) == (first_token(word_ids@, w as usize, i as nat) is Some),
            forall|w: int| 0 <= w < n ==> #[trigger] r@[w] == (match first_token(word_ids@, w as usize, i as nat) {
                Some(t) => token_labels@[t],
                None => LOWER_O,
            }),
        decreases word_ids.len() - i,
    {
        match word_ids[i] {
            Some(w) => {
                if w < n && !seen[w] {
                    seen.set(w, true);
                    r.set(w, token_labels[i]);
                }
            },
            None => {},
        }
        i = i + 1;
    }
    r
}

/// What serde_json makes of a model's `config.json`: `None` when the bytes are not JSON or
/// hold no `id2label` object; else that object's entries in key order, each key with its
/// value when the value is a string (`None` for any other value).
pub uninterp spec fn config_labels(bytes: Seq<u8>) -> Option<Seq<(Seq<char>, Option<Seq<char>>)>>;

pub open spec fn opt_str(v: Option<String>) -> Option<Seq<char>> {
    match v {
        Some(s) => Some(s@),
        None => None,
    }
}

/// The (key, label) pairs as plain values.
pub open spec fn pairs_view(v: Seq<(String, Option<String>)>) -> Seq<(Seq<char>, Option<Seq<char>>)> {
    v.map_values(|p: (String, Option<String>)| (p.0@, opt_str(p.1)))
}

pub open spec fn opt_pairs_view(r: Option<Vec<(String, Option<String>)>>) -> Option<Seq<(Seq<char>, Option<Seq<char>>)>> {
    match r {
        Some(v) => Some(pairs_view(v@)),
        None => None,
    }
}

/// Parses `config.json` with serde_json (`from_slice::<Value>`, then `get("id2label")`,
/// `as_object`, and for each entry its key and `as_str` of its value). Claimed: the result is
/// the one the name `config_labels` stands for; nothing more is said of JSON.
#[verifier::external_body]
fn parse_config_labels(bytes: &[u8]) -> (r: Option<Vec<(String, Option<String>)>>)
    ensures
        opt_pairs_view(r) == config_labels(bytes@),
{
    let cfg: serde_json::Value = serde_json::from_slice(bytes).ok()?;
    let obj = cfg.get("id2label")?.as_object()?;
    Some(obj.iter().map(|(k, v)| (k.clone(), v.as_str().map(|l| l.to_string()))).collect())
}

/// A pair is usable in a table of `n` labels: its key is a number, and when that number is a
/// position of the table, its value is a string.
pub open spec fn pair_ok(p: (Seq<char>, Option<Seq<char>>), n: nat) -> bool {
    match crate::control::parse_usize_spec(p.0) {
        Some(idx) => idx < n ==> p.1 is Some,
        None => false,
    }
}

/// The label put at `idx` by the first `k` pairs: the last of them whose key names `idx`
/// (empty when none does).
pub open spec fn last_label(pairs: Seq<(Seq<char>, Option<Seq<char>>)>, idx: usize, k: nat) -> Seq<char>
    decreases k,
{
    if k == 0 {
        Seq::empty()
    } else if crate::control::parse_usize_spec(pairs[k - 1].0) == Some(idx) {
        match pairs[k - 1].1 {
            Some(l) => l,
            None => Seq::empty(),
        }
    } else {
        last_label(pairs, idx, (k - 1) as nat)
    }
}

/// The label table of `id2label`, as many labels as entries: each label at the position its
/// key names (later entries win; positions past the end are ignored, empty where no key
/// names them). `None` when a key is not a number or a label in range is not a string.
pub open spec fn labels_spec(pairs: Seq<(Seq<char>, Option<Seq<char>>)>) -> Option<Seq<Seq<char>>> {
    if forall|k: int| 0 <= k < pairs.len() ==> pair_ok(#[trigger] pairs[k], pairs.len()) {
        Some(Seq::new(pairs.len(), |x: int| last_label(pairs, x as usize, pairs.len())))
    } else {
        None
    }
}

pub open spec fn opt_strings(r: Option<Vec<String>>) -> Option<Seq<Seq<char>>> {
    match r {
        Some(v) => Some(strings_view(v@)),
        None => None,
    }
}

/// The label table of the model's `config.json` (`id2label`), from its (key, label) pairs
/// (see `labels_spec`).
pub fn labels_from_pairs(pairs: &Vec<(String, Option<String>)>) -> (r: Option<Vec<String>>)
    ensures
        opt_strings(r) == labels_spec(pairs_view(pairs@)),
{
    let ghost pv = pairs_view(pairs@);
    let n = pairs.len();
    let mut v: Vec<String> = Vec::new();
    let mut i: usize = 0;
    while i < n
        invariant
            i <= n,
            n == pairs@.len(),
            v@.len() == i,
            forall|x: int| 0 <= x < i ==> (#[trigger] v@[x])@ == Seq::<char>::empty(),
        decreases n - i,
    {
        v.push(String::new());
        i = i + 1;
    }
    proof { reveal_strlit(""); }
    let mut k: usize = 0;
    while k < n
        invariant
            k <= n,
            n == pairs@.len(),
            pv == pairs_view(pairs@),
            pv.len() == n,
            v@.len() == n,
            forall|q: int| 0 <= q < k ==> pair_ok(#[trigger] pv[q], n as nat),
            forall|x: int| 0 <= x < n ==> (#[trigger] v@[x])@ == last_label(pv, x as usize, k as nat),
        decreases n - k,
    {
        assert(pv[k as int] == (pairs@[k as int].0@, opt_str(pairs@[k as int].1)));
        match crate::control::parse_usize(pairs[k].0.as_str()) {
            None => {
                assert(!pair_ok(pv[k as int], n as nat));
                return None;
            },
            Some(idx) => {
                if idx < n {
                    match &pairs[k].1 {
                        None => {
                            assert(!pair_ok(pv[k as int], n as nat));
                            return None;
                        },
                        Some(l) => {
                            v.set(idx, l.clone());
                        },
                    }
                }
                assert forall|x: int| 0 <= x < n implies (#[trigger] v@[x])@ == last_label(pv, x as usize, (k + 1) as nat) by {
                }
            },
        }
        k = k + 1;
    }
    assert(strings_view(v@) =~= Seq::new(pv.len(), |x: int| last_label(pv, x as usize, pv.len())));
    Some(v)
}

/// The label table of a model's `config.json` bytes: `None` when serde_json finds no
/// `id2label` object in them, else the table of its entries (see `labels_spec`).
pub fn labels_from_config(bytes: &[u8]) -> (r: Option<Vec<String>>)
    ensures
        opt_strings(r) == (match config_labels(bytes@) {
            Some(ps) => labels_spec(ps),
            None => None,
        }),
{
    match parse_config_labels(bytes) {
        None => None,
        Some(pairs) => labels_from_pairs(&pairs),
    }
}

} // verus!

verus! {

/// Restoring keeps the words' count and order: one restored word per word, each made from
/// the word at its place.
pub proof fn law_restore_one_to_one(words: Seq<Seq<char>>, labels: Seq<usize>, id2label: Seq<Seq<char>>, n: nat)
    requires
        n <= words.len(),
        n <= labels.len(),
    ensures
        restore_fold(words, labels, id2label, n).0.len() == n,
        forall|i: int| 0 <= i < n ==> {
            let s = apply_spec(words[i], label_text(id2label, labels[i]));
            ||| #[trigger] restore_fold(words, labels, id2label, n).0[i] == s
            ||| restore_fold(words, labels, id2label, n).0[i] == cap_first(s)
        },
    decreases n,
{
    if n > 0 {
        law_restore_one_to_one(words, labels, id2label, (n - 1) as nat);
        let prev = restore_fold(words, labels, id2label, (n - 1) as nat).0;
        let cur = restore_fold(words, labels, id2label, n).0;
        assert forall|i: int| 0 <= i < n implies {
            let s = apply_spec(words[i], label_text(id2label, labels[i]));
            ||| #[trigger] cur[i] == s
            ||| cur[i] == cap_first(s)
        } by {
            if i < n - 1 {
                assert(cur[i] == prev[i]);
            }
        }
    }
}

/// Word `i` is kept by some window.
pub open spec fn covered(ws: Seq<(nat, nat, nat, nat)>, i: nat) -> bool {
    exists|k: int| 0 <= k < ws.len() && (#[trigger] ws[k]).0 + ws[k].2 <= i < ws[k].0 + ws[k].3
}

proof fn lemma_windows_cover(start: nat, n: nat, i: nat)
    requires
        start < n,
        (if start == 0 { 0 } else { MARGIN as nat }) + start <= i < n,
    ensures
        covered(windows_from(start, n), i),
    decreases n - start,
{
    let ws = windows_from(start, n);
    let end = win_end(start, n);
    let w = ws[0];
    if end >= n {
        assert(w.0 + w.2 <= i < w.0 + w.3);
    } else if i < start + WIN - MARGIN {
        assert(w.0 + w.2 <= i < w.0 + w.3);
    } else {
        let next = (start + STRIDE) as nat;
        lemma_windows_cover(next, n, i);
        let rest = windows_from(next, n);
        let k = choose|k: int| 0 <= k < rest.len() && (#[trigger] rest[k]).0 + rest[k].2 <= i < rest[k].0 + rest[k].3;
        assert(ws[k + 1] == rest[k]);
    }
}

/// Every word is kept by some window: sliding with context at the edges still labels the
/// whole text.
pub proof fn law_windows_cover(n: nat)
    requires
        n > 0,
    ensures
        forall|i: nat| i < n ==> #[trigger] covered(windows_from(0, n), i),
{
    assert forall|i: nat| i < n implies #[trigger] covered(windows_from(0, n), i) by {
        lemma_windows_cover(0, n, i);
    }
}

} // verus!

verus! {

proof fn lemma_restore_prefix(words: Seq<Seq<char>>, labels: Seq<usize>, id2label: Seq<Seq<char>>, n: nat)
    ensures
        restore_fold(words, labels, id2label, n).0.len() == n,
        forall|i: int| 0 <= i < n ==> #[trigger] restore_fold(words, labels, id2label, n).0[i] == restore_fold(
            words,
            labels,
            id2label,
            (i + 1) as nat,
        ).0[i],
    decreases n,
{
    if n > 0 {
        lemma_restore_prefix(words, labels, id2label, (n - 1) as nat);
    }
}

/// A sentence's first word is capitalised: the first restored word, and every word right after
/// a restored word that ends in '.', '?', '!' or '…', is its labelled form with the first
/// letter in upper case; a word after any other word is its labelled form as it is.
pub proof fn law_capital_after_sentence_end(
    words: Seq<Seq<char>>,
    labels: Seq<usize>,
    id2label: Seq<Seq<char>>,
    n: nat,
    i: int,
)
    requires
        n <= words.len(),
        n <= labels.len(),
        0 <= i < n,
    ensures
        ({
            let out = restore_fold(words, labels, id2label, n).0;
            let labelled = apply_spec(words[i], label_text(id2label, labels[i]));
            let prev = if i > 0 { out[i - 1] } else { Seq::<char>::empty() };
            &&& i == 0 ==> out[i] == cap_first(labelled)
            &&& (i > 0 && prev.len() > 0 && (prev.last() == '.' || prev.last() == '?' || prev.last() == '!'
                || prev.last() == '…')) ==> out[i] == cap_first(labelled)
            &&& (i > 0 && !(prev.len() > 0 && (prev.last() == '.' || prev.last() == '?' || prev.last() == '!'
                || prev.last() == '…'))) ==> out[i] == labelled
        }),
{
    lemma_restore_prefix(words, labels, id2label, n);
    let out = restore_fold(words, labels, id2label, n).0;
    let f = restore_fold(words, labels, id2label, i as nat);
    let g = restore_fold(words, labels, id2label, (i + 1) as nat);
    let labelled = apply_spec(words[i], label_text(id2label, labels[i]));
    assert(out[i] == g.0[i]);
    lemma_restore_prefix(words, labels, id2label, i as nat);
    assert(g.0 == f.0.push(if f.1 { cap_first(labelled) } else { labelled }));
    assert(g.0[i] == (if f.1 { cap_first(labelled) } else { labelled }));
    if i > 0 {
        assert(out[i - 1] == f.0[i - 1]);
        let h = restore_fold(words, labels, id2label, (i - 1) as nat);
        let x = f.0.last();
        assert(f.0 == h.0.push(x));
        assert(f.1 == ends_sentence_spec(x));
        assert(f.0[i - 1] == x);
    }
}

} // verus!
