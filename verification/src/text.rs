//! Character-level text helpers shared by the engine (trimming, lines, words).
use vstd::prelude::*;

verus! {

/// Rust's `char::is_whitespace`: the Unicode `White_Space` property.
pub open spec fn is_ws(c: char) -> bool {
    let u = c as u32;
    ||| 0x09 <= u <= 0x0D
    ||| u == 0x20
    ||| u == 0x85
    ||| u == 0xA0
    ||| u == 0x1680
    ||| 0x2000 <= u <= 0x200A
    ||| u == 0x2028
    ||| u == 0x2029
    ||| u == 0x202F
    ||| u == 0x205F
    ||| u == 0x3000
}

pub fn char_is_ws(c: char) -> (b: bool)
    ensures
        b == is_ws(c),
{
    let u = c as u32;
    (0x09 <= u && u <= 0x0D) || u == 0x20 || u == 0x85 || u == 0xA0 || u == 0x1680 || (0x2000 <= u
        && u <= 0x200A) || u == 0x2028 || u == 0x2029 || u == 0x202F || u == 0x205F || u == 0x3000
}

/// The characters of a string slice.
pub fn chars_of(s: &str) -> (r: Vec<char>)
    ensures
        r@ == s@,
{
    let mut r: Vec<char> = Vec::new();
    for c in it: s.chars()
        invariant
            r@ == it.seq().take(it.index()),
            it.seq() == s@,
    {
        r.push(c);
    }
    r
}

/// Appends one character (std `String::push`: "Appends the given char to the end of this String").
#[verifier::external_body]
fn push_char(s: &mut String, c: char)
    ensures
        final(s)@ == old(s)@.push(c),
{
    s.push(c)
}

/// A string made of the given characters, in order.
pub fn string_of(v: &Vec<char>) -> (r: String)
    ensures
        r@ == v@,
{
    let mut r = String::new();
    let mut i: usize = 0;
    while i < v.len()
        invariant
            i <= v.len(),
            r@ == v@.subrange(0, i as int),
        decreases v.len() - i,
    {
        push_char(&mut r, v[i]);
        i = i + 1;
    }
    r
}

} // verus!

verus! {

/// The leading whitespace removed (`str::trim_start`).
pub open spec fn trim_start_spec(s: Seq<char>) -> Seq<char>
    decreases s.len(),
{
    if s.len() > 0 && is_ws(s[0]) {
        trim_start_spec(s.drop_first())
    } else {
        s
    }
}

/// The trailing whitespace removed (`str::trim_end`).
pub open spec fn trim_end_spec(s: Seq<char>) -> Seq<char>
    decreases s.len(),
{
    if s.len() > 0 && is_ws(s.last()) {
        trim_end_spec(s.drop_last())
    } else {
        s
    }
}

/// Whitespace removed at both ends (`str::trim`).
pub open spec fn trim_spec(s: Seq<char>) -> Seq<char> {
    trim_end_spec(trim_start_spec(s))
}

/// Index of the first non-whitespace character (or the length).
pub fn trim_start_index(s: &Vec<char>) -> (k: usize)
    ensures
        k <= s.len(),
        trim_start_spec(s@) == s@.skip(k as int),
{
    let mut i: usize = 0;
    assert(s@.skip(0) =~= s@);
    while i < s.len() && char_is_ws(s[i])
        invariant
            i <= s.len(),
            trim_start_spec(s@) == trim_start_spec(s@.skip(i as int)),
        decreases s.len() - i,
    {
        assert(s@.skip(i as int).drop_first() =~= s@.skip(i + 1));
        i = i + 1;
    }
    i
}

/// Index just past the last non-whitespace character of `s.take(hi)`.
pub fn trim_end_index(s: &Vec<char>, hi: usize) -> (k: usize)
    requires
        hi <= s.len(),
    ensures
        k <= hi,
        trim_end_spec(s@.take(hi as int)) == s@.take(k as int),
{
    let mut j: usize = hi;
    while j > 0 && char_is_ws(s[j - 1])
        invariant
            j <= hi <= s.len(),
            trim_end_spec(s@.take(hi as int)) == trim_end_spec(s@.take(j as int)),
        decreases j,
    {
        assert(s@.take(j as int).drop_last() =~= s@.take(j - 1));
        j = j - 1;
    }
    j
}

/// `trim_end` keeps a prefix.
pub proof fn lemma_trim_end_prefix(s: Seq<char>)
    ensures
        trim_end_spec(s).len() <= s.len(),
        trim_end_spec(s) =~= s.take(trim_end_spec(s).len() as int),
    decreases s.len(),
{
    if s.len() > 0 && is_ws(s.last()) {
        lemma_trim_end_prefix(s.drop_last());
    }
}

/// `trim_start` keeps a suffix.
pub proof fn lemma_trim_start_suffix(s: Seq<char>)
    ensures
        trim_start_spec(s).len() <= s.len(),
        trim_start_spec(s) =~= s.skip(s.len() - trim_start_spec(s).len()),
    decreases s.len(),
{
    if s.len() > 0 && is_ws(s[0]) {
        lemma_trim_start_suffix(s.drop_first());
    }
}

/// `str::trim` on characters.
pub fn trim_chars(s: &Vec<char>) -> (r: Vec<char>)
    ensures
        r@ == trim_spec(s@),
{
    let a = trim_start_index(s);
    let mut t: Vec<char> = Vec::new();
    let mut i = a;
    while i < s.len()
        invariant
            a <= i <= s.len(),
            t@ == s@.subrange(a as int, i as int),
        decreases s.len() - i,
    {
        t.push(s[i]);
        i = i + 1;
    }
    assert(t@ =~= s@.skip(a as int));
    let b = trim_end_index(&t, t.len());
    assert(t@.take(t.len() as int) =~= t@);
    let mut r: Vec<char> = Vec::new();
    let mut j: usize = 0;
    while j < b
        invariant
            b <= t.len(),
            j <= b,
            r@ == t@.take(j as int),
        decreases b - j,
    {
        r.push(t[j]);
        assert(t@.take(j + 1) =~= t@.take(j as int).push(t@[j as int]));
        j = j + 1;
    }
    r
}

/// `str::trim_start` on characters.
pub fn trim_start_chars(s: &Vec<char>) -> (r: Vec<char>)
    ensures
        r@ == trim_start_spec(s@),
{
    let a = trim_start_index(s);
    slice_chars(s, a, s.len())
}

/// The characters `s[lo..hi]`.
pub fn slice_chars(s: &Vec<char>, lo: usize, hi: usize) -> (r: Vec<char>)
    requires
        lo <= hi <= s.len(),
    ensures
        r@ == s@.subrange(lo as int, hi as int),
{
    let mut r: Vec<char> = Vec::new();
    let mut i = lo;
    while i < hi
        invariant
            lo <= i <= hi <= s.len(),
            r@ == s@.subrange(lo as int, i as int),
        decreases hi - i,
    {
        r.push(s[i]);
        i = i + 1;
    }
    r
}

/// Appends all of `b` to `a`.
pub fn extend_chars(a: &mut Vec<char>, b: &Vec<char>)
    ensures
        final(a)@ == old(a)@ + b@,
{
    let mut i: usize = 0;
    while i < b.len()
        invariant
            i <= b.len(),
            a@ == old(a)@ + b@.take(i as int),
        decreases b.len() - i,
    {
        a.push(b[i]);
        assert(b@.take(i + 1) =~= b@.take(i as int).push(b@[i as int]));
        i = i + 1;
    }
    assert(b@.take(b.len() as int) =~= b@);
}

/// Lines of `s` (`str::lines`): split at `\n`, a `\r` right before it dropped, no empty
/// line after a final `\n`. `cur` is the line read so far.
pub open spec fn lines_acc(s: Seq<char>, cur: Seq<char>) -> Seq<Seq<char>>
    decreases s.len(),
{
    if s.len() == 0 {
        if cur.len() > 0 {
            seq![cur]
        } else {
            seq![]
        }
    } else if s[0] == '\n' {
        seq![strip_cr(cur)] + lines_acc(s.drop_first(), seq![])
    } else {
        lines_acc(s.drop_first(), cur.push(s[0]))
    }
}

pub open spec fn strip_cr(s: Seq<char>) -> Seq<char> {
    if s.len() > 0 && s.last() == '\r' {
        s.drop_last()
    } else {
        s
    }
}

pub open spec fn lines_spec(s: Seq<char>) -> Seq<Seq<char>> {
    lines_acc(s, seq![])
}

/// `str::lines` on characters.
pub fn lines(s: &Vec<char>) -> (r: Vec<Vec<char>>)
    ensures
        r@.map_values(|l: Vec<char>| l@) == lines_spec(s@),
{
    let mut out: Vec<Vec<char>> = Vec::new();
    let mut cur: Vec<char> = Vec::new();
    let mut i: usize = 0;
    assert(s@.skip(0) =~= s@);
    assert(out@.map_values(|l: Vec<char>| l@) + lines_acc(s@, cur@) =~= lines_acc(s@, cur@));
    while i < s.len()
        invariant
            i <= s.len(),
            lines_spec(s@) == out@.map_values(|l: Vec<char>| l@) + lines_acc(s@.skip(i as int), cur@),
        decreases s.len() - i,
    {
        let ghost rest = s@.skip(i as int);
        assert(rest.drop_first() =~= s@.skip(i + 1));
        let c = s[i];
        if c == '\n' {
            let mut line = cur;
            if line.len() > 0 && line[line.len() - 1] == '\r' {
                line.pop();
            }
            let ghost before = out@;
            out.push(line);
            assert(out@.map_values(|l: Vec<char>| l@) =~= before.map_values(|l: Vec<char>| l@).push(strip_cr(cur@)));
            cur = Vec::new();
        } else {
            cur.push(c);
        }
        i = i + 1;
    }
    assert(s@.skip(i as int) =~= Seq::<char>::empty());
    if cur.len() > 0 {
        let ghost before = out@;
        let ghost c = cur@;
        out.push(cur);
        assert(out@.map_values(|l: Vec<char>| l@) =~= before.map_values(|l: Vec<char>| l@).push(c));
    }
    assert(out@.map_values(|l: Vec<char>| l@) =~= out@.map_values(|l: Vec<char>| l@) + Seq::<Seq<char>>::empty());
    out
}

/// Whitespace-separated words (`str::split_whitespace`); `cur` is the word read so far.
pub open spec fn words_acc(s: Seq<char>, cur: Seq<char>) -> Seq<Seq<char>>
    decreases s.len(),
{
    if s.len() == 0 {
        if cur.len() > 0 {
            seq![cur]
        } else {
            seq![]
        }
    } else if is_ws(s[0]) {
        (if cur.len() > 0 {
            seq![cur]
        } else {
            seq![]
        }) + words_acc(s.drop_first(), seq![])
    } else {
        words_acc(s.drop_first(), cur.push(s[0]))
    }
}

pub open spec fn words_spec(s: Seq<char>) -> Seq<Seq<char>> {
    words_acc(s, seq![])
}

/// `str::split_whitespace` on characters.
pub fn split_ws(s: &Vec<char>) -> (r: Vec<Vec<char>>)
    ensures
        r@.map_values(|l: Vec<char>| l@) == words_spec(s@),
{
    let mut out: Vec<Vec<char>> = Vec::new();
    let mut cur: Vec<char> = Vec::new();
    let mut i: usize = 0;
    assert(s@.skip(0) =~= s@);
    assert(out@.map_values(|l: Vec<char>| l@) + words_acc(s@, cur@) =~= words_acc(s@, cur@));
    while i < s.len()
        invariant
            i <= s.len(),
            words_spec(s@) == out@.map_values(|l: Vec<char>| l@) + words_acc(s@.skip(i as int), cur@),
        decreases s.len() - i,
    {
        let ghost rest = s@.skip(i as int);
        assert(rest.drop_first() =~= s@.skip(i + 1));
        let c = s[i];
        if char_is_ws(c) {
            if cur.len() > 0 {
                let ghost before = out@;
                let ghost cc = cur@;
                out.push(cur);
                assert(out@.map_values(|l: Vec<char>| l@) =~= before.map_values(|l: Vec<char>| l@) + seq![cc]);
                assert(before.map_values(|l: Vec<char>| l@) + (seq![cc] + words_acc(s@.skip(i + 1), seq![]))
                    =~= (before.map_values(|l: Vec<char>| l@) + seq![cc]) + words_acc(s@.skip(i + 1), seq![]));
                cur = Vec::new();
            } else {
                assert(cur@ =~= Seq::<char>::empty());
                assert(seq![] + words_acc(s@.skip(i + 1), cur@) =~= words_acc(s@.skip(i + 1), cur@));
            }
        } else {
            cur.push(c);
        }
        i = i + 1;
    }
    assert(s@.skip(i as int) =~= Seq::<char>::empty());
    if cur.len() > 0 {
        let ghost before = out@;
        let ghost c = cur@;
        out.push(cur);
        assert(out@.map_values(|l: Vec<char>| l@) =~= before.map_values(|l: Vec<char>| l@).push(c));
    }
    assert(out@.map_values(|l: Vec<char>| l@) =~= out@.map_values(|l: Vec<char>| l@) + Seq::<Seq<char>>::empty());
    out
}

/// Pieces joined with a separator.
pub open spec fn join_spec(parts: Seq<Seq<char>>, sep: Seq<char>) -> Seq<char>
    decreases parts.len(),
{
    if parts.len() == 0 {
        seq![]
    } else if parts.len() == 1 {
        parts[0]
    } else {
        join_spec(parts.drop_last(), sep) + sep + parts.last()
    }
}

/// `[..].join(sep)` on characters.
pub fn join_chars(parts: &Vec<Vec<char>>, sep: &Vec<char>) -> (r: Vec<char>)
    ensures
        r@ == join_spec(parts@.map_values(|l: Vec<char>| l@), sep@),
{
    let ghost ps = parts@.map_values(|l: Vec<char>| l@);
    let mut r: Vec<char> = Vec::new();
    let mut i: usize = 0;
    while i < parts.len()
        invariant
            i <= parts.len(),
            ps == parts@.map_values(|l: Vec<char>| l@),
            r@ == join_spec(ps.take(i as int), sep@),
        decreases parts.len() - i,
    {
        assert(ps.take(i + 1).drop_last() =~= ps.take(i as int));
        if i > 0 {
            extend_chars(&mut r, sep);
        }
        extend_chars(&mut r, &parts[i]);
        i = i + 1;
    }
    assert(ps.take(parts.len() as int) =~= ps);
    r
}

/// Decimal digits of `n`.
pub open spec fn dec_spec(n: nat) -> Seq<char>
    decreases n,
{
    if n < 10 {
        seq![digit_char(n)]
    } else {
        dec_spec(n / 10).push(digit_char(n % 10))
    }
}

pub open spec fn digit_char(d: nat) -> char {
    ((d + 48) as u8) as char
}

/// Decimal digits, left-padded with zeros to at least `width` characters (`{:0width$}`).
pub open spec fn dec_pad_spec(n: nat, width: nat) -> Seq<char> {
    let d = dec_spec(n);
    if d.len() >= width {
        d
    } else {
        Seq::new((width - d.len()) as nat, |_i: int| '0') + d
    }
}

fn digit(d: u64) -> (c: char)
    requires
        d < 10,
    ensures
        c == digit_char(d as nat),
{
    ((d as u8) + 48u8) as char
}

/// Appends the decimal digits of `n`.
pub fn push_dec(out: &mut Vec<char>, n: u64)
    ensures
        final(out)@ == old(out)@ + dec_spec(n as nat),
    decreases n,
{
    if n < 10 {
        out.push(digit(n));
        assert(dec_spec(n as nat) =~= seq![digit_char(n as nat)]);
    } else {
        push_dec(out, n / 10);
        out.push(digit(n % 10));
    }
}

/// Appends the decimal digits of `n`, zero-padded to `width`.
pub fn push_dec_pad(out: &mut Vec<char>, n: u64, width: usize)
    ensures
        final(out)@ == old(out)@ + dec_pad_spec(n as nat, width as nat),
{
    let mut d: Vec<char> = Vec::new();
    push_dec(&mut d, n);
    assert(d@ =~= dec_spec(n as nat));
    let mut k: usize = d.len();
    while k < width
        invariant
            d.len() <= k <= width || (k == d.len() && k >= width),
            out@ == old(out)@ + Seq::new((k - d.len()) as nat, |_i: int| '0'),
        decreases width - k,
    {
        out.push('0');
        assert(Seq::new((k + 1 - d.len()) as nat, |_i: int| '0') =~= Seq::new(
            (k - d.len()) as nat,
            |_i: int| '0',
        ).push('0'));
        k = k + 1;
    }
    let ghost pad = Seq::new((k - d.len()) as nat, |_i: int| '0');
    extend_chars(out, &d);
    if d.len() >= width {
        assert(pad =~= Seq::<char>::empty());
        assert(old(out)@ + pad + d@ =~= old(out)@ + d@);
    } else {
        assert(old(out)@ + pad + d@ =~= old(out)@ + (pad + d@));
    }
}

/// Whether `p` is a prefix of `s`.
pub open spec fn starts_with_spec(s: Seq<char>, p: Seq<char>) -> bool {
    p.len() <= s.len() && s.take(p.len() as int) == p
}

pub fn starts_with(s: &Vec<char>, p: &Vec<char>) -> (b: bool)
    ensures
        b == starts_with_spec(s@, p@),
{
    if p.len() > s.len() {
        return false;
    }
    let mut i: usize = 0;
    while i < p.len()
        invariant
            p.len() <= s.len(),
            i <= p.len(),
            forall|j: int| 0 <= j < i ==> s@[j] == p@[j],
        decreases p.len() - i,
    {
        if s[i] != p[i] {
            assert(s@.take(p.len() as int)[i as int] != p@[i as int]);
            return false;
        }
        i = i + 1;
    }
    assert(s@.take(p.len() as int) =~= p@);
    true
}

/// Whether `p` occurs in `s` at position `i`.
pub open spec fn occurs_at(s: Seq<char>, p: Seq<char>, i: int) -> bool {
    0 <= i && i + p.len() <= s.len() && s.subrange(i, i + p.len()) == p
}

pub fn occurs_at_exec(s: &Vec<char>, p: &Vec<char>, i: usize) -> (b: bool)
    ensures
        b == occurs_at(s@, p@, i as int),
{
    if i > s.len() || p.len() > s.len() - i {
        return false;
    }
    let mut k: usize = 0;
    while k < p.len()
        invariant
            i + p.len() <= s.len(),
            k <= p.len(),
            forall|j: int| 0 <= j < k ==> s@[i + j] == p@[j],
        decreases p.len() - k,
    {
        if s[i + k] != p[k] {
            assert(s@.subrange(i as int, i + p.len())[k as int] != p@[k as int]);
            return false;
        }
        k = k + 1;
    }
    assert(s@.subrange(i as int, i + p.len()) =~= p@);
    true
}

/// First position of `p` in `s` (`str::find`).
pub open spec fn find_spec(s: Seq<char>, p: Seq<char>) -> Option<int> {
    if exists|i: int| occurs_at(s, p, i) {
        Some(choose|i: int| occurs_at(s, p, i) && forall|j: int| 0 <= j < i ==> !occurs_at(s, p, j))
    } else {
        None
    }
}

/// Last position of `p` in `s` (`str::rfind`).
pub open spec fn rfind_spec(s: Seq<char>, p: Seq<char>) -> Option<int> {
    if exists|i: int| occurs_at(s, p, i) {
        Some(choose|i: int| occurs_at(s, p, i) && forall|j: int| i < j ==> !occurs_at(s, p, j))
    } else {
        None
    }
}

pub fn find_chars(s: &Vec<char>, p: &Vec<char>) -> (r: Option<usize>)
    ensures
        r matches Some(i) ==> find_spec(s@, p@) == Some(i as int) && occurs_at(s@, p@, i as int),
        r is None ==> find_spec(s@, p@) is None,
{
    if p.len() > s.len() {
        assert forall|j: int| !occurs_at(s@, p@, j) by {}
        return None;
    }
    let n = s.len() - p.len();
    let mut i: usize = 0;
    while i < n
        invariant
            i <= n,
            n + p.len() == s.len(),
            forall|j: int| 0 <= j < i ==> !occurs_at(s@, p@, j),
        decreases n - i,
    {
        if occurs_at_exec(s, p, i) {
            proof { lemma_first_occurrence(s@, p@, i as int); }
            return Some(i);
        }
        i = i + 1;
    }
    if occurs_at_exec(s, p, n) {
        proof { lemma_first_occurrence(s@, p@, n as int); }
        return Some(n);
    }
    assert forall|j: int| !occurs_at(s@, p@, j) by {
        if 0 <= j <= n {
        }
    }
    None
}

proof fn lemma_first_occurrence(s: Seq<char>, p: Seq<char>, i: int)
    requires
        occurs_at(s, p, i),
        forall|j: int| 0 <= j < i ==> !occurs_at(s, p, j),
    ensures
        find_spec(s, p) == Some(i),
{
    let w = choose|k: int| occurs_at(s, p, k) && forall|j: int| 0 <= j < k ==> !occurs_at(s, p, j);
    assert(occurs_at(s, p, w) && forall|j: int| 0 <= j < w ==> !occurs_at(s, p, j));
    if w < i {
    } else if w > i {
    }
}

proof fn lemma_last_occurrence(s: Seq<char>, p: Seq<char>, i: int)
    requires
        occurs_at(s, p, i),
        forall|j: int| i < j ==> !occurs_at(s, p, j),
    ensures
        rfind_spec(s, p) == Some(i),
{
    let w = choose|k: int| occurs_at(s, p, k) && forall|j: int| k < j ==> !occurs_at(s, p, j);
    assert(occurs_at(s, p, w) && forall|j: int| w < j ==> !occurs_at(s, p, j));
    if w < i {
    } else if w > i {
    }
}

pub fn rfind_chars(s: &Vec<char>, p: &Vec<char>) -> (r: Option<usize>)
    ensures
        r matches Some(i) ==> rfind_spec(s@, p@) == Some(i as int) && occurs_at(s@, p@, i as int),
        r is None ==> rfind_spec(s@, p@) is None,
{
    if p.len() > s.len() {
        assert forall|j: int| !occurs_at(s@, p@, j) by {}
        return None;
    }
    let n = s.len() - p.len();
    let mut i: usize = n;
    while i > 0
        invariant
            i <= n,
            n + p.len() == s.len(),
            forall|j: int| i < j ==> !occurs_at(s@, p@, j),
        decreases i,
    {
        if occurs_at_exec(s, p, i) {
            proof { lemma_last_occurrence(s@, p@, i as int); }
            return Some(i);
        }
        i = i - 1;
    }
    if occurs_at_exec(s, p, 0) {
        proof { lemma_last_occurrence(s@, p@, 0); }
        return Some(0);
    }
    assert forall|j: int| !occurs_at(s@, p@, j) by {
        if 0 <= j {
        }
    }
    None
}

} // verus!

verus! {

/// Whether two character sequences are equal.
pub fn chars_eq(a: &Vec<char>, b: &Vec<char>) -> (r: bool)
    ensures
        r == (a@ == b@),
{
    if a.len() != b.len() {
        return false;
    }
    let mut i: usize = 0;
    while i < a.len()
        invariant
            a.len() == b.len(),
            i <= a.len(),
            forall|j: int| 0 <= j < i ==> a@[j] == b@[j],
        decreases a.len() - i,
    {
        if a[i] != b[i] {
            return false;
        }
        i = i + 1;
    }
    assert(a@ =~= b@);
    true
}

/// Whether two strings are equal.
pub fn str_eq(a: &str, b: &str) -> (r: bool)
    ensures
        r == (a@ == b@),
{
    chars_eq(&chars_of(a), &chars_of(b))
}

/// The first `max` characters (all of them when there are fewer).
pub open spec fn truncate_spec(s: Seq<char>, max: nat) -> Seq<char> {
    if s.len() <= max {
        s
    } else {
        s.take(max as int)
    }
}

/// Truncation to at most `max_chars` characters (UTF-8 safe: counts characters).
pub fn truncate_chars(s: &str, max_chars: usize) -> (r: String)
    ensures
        r@ == truncate_spec(s@, max_chars as nat),
{
    let c = chars_of(s);
    if c.len() <= max_chars {
        return string_of(&c);
    }
    let t = slice_chars(&c, 0, max_chars);
    assert(t@ =~= c@.take(max_chars as int));
    string_of(&t)
}

/// `s` with every leading and trailing `c` removed (`str::trim_matches(c)`).
pub open spec fn strip_char_start(s: Seq<char>, c: char) -> Seq<char>
    decreases s.len(),
{
    if s.len() > 0 && s[0] == c {
        strip_char_start(s.drop_first(), c)
    } else {
        s
    }
}

pub open spec fn strip_char_end(s: Seq<char>, c: char) -> Seq<char>
    decreases s.len(),
{
    if s.len() > 0 && s.last() == c {
        strip_char_end(s.drop_last(), c)
    } else {
        s
    }
}

pub open spec fn trim_matches_spec(s: Seq<char>, c: char) -> Seq<char> {
    strip_char_end(strip_char_start(s, c), c)
}

pub fn trim_matches(s: &Vec<char>, c: char) -> (r: Vec<char>)
    ensures
        r@ == trim_matches_spec(s@, c),
{
    let mut i: usize = 0;
    assert(s@.skip(0) =~= s@);
    while i < s.len() && s[i] == c
        invariant
            i <= s.len(),
            strip_char_start(s@, c) == strip_char_start(s@.skip(i as int), c),
        decreases s.len() - i,
    {
        assert(s@.skip(i as int).drop_first() =~= s@.skip(i + 1));
        i = i + 1;
    }
    let t = slice_chars(s, i, s.len());
    assert(t@ =~= s@.skip(i as int));
    let mut j: usize = t.len();
    assert(t@.take(j as int) =~= t@);
    while j > 0 && t[j - 1] == c
        invariant
            j <= t.len(),
            strip_char_end(t@, c) == strip_char_end(t@.take(j as int), c),
        decreases j,
    {
        assert(t@.take(j as int).drop_last() =~= t@.take(j - 1));
        j = j - 1;
    }
    let r = slice_chars(&t, 0, j);
    assert(r@ =~= t@.take(j as int));
    r
}

} // verus!

verus! {

/// The character sequences of a list of character vectors.
pub open spec fn views(v: Seq<Vec<char>>) -> Seq<Seq<char>> {
    v.map_values(|l: Vec<char>| l@)
}

/// Non-blank: something other than whitespace.
pub open spec fn nonblank(s: Seq<char>) -> bool {
    trim_spec(s).len() > 0
}

pub fn is_nonblank(s: &Vec<char>) -> (b: bool)
    ensures
        b == nonblank(s@),
{
    trim_chars(s).len() > 0
}

/// Moves `v` out, leaving an empty vector.
pub fn take_chars(v: &mut Vec<char>) -> (r: Vec<char>)
    ensures
        r@ == old(v)@,
        final(v)@ == Seq::<char>::empty(),
{
    let mut r: Vec<char> = Vec::new();
    std::mem::swap(v, &mut r);
    r
}

/// `a` followed by `b`.
pub fn concat(a: &str, b: &str) -> (r: String)
    ensures
        r@ == a@ + b@,
{
    let mut v = chars_of(a);
    extend_chars(&mut v, &chars_of(b));
    string_of(&v)
}

} // verus!

verus! {

/// Joining one more piece adds the separator and the piece.
pub proof fn lemma_join_push(parts: Seq<Seq<char>>, x: Seq<char>, sep: Seq<char>)
    requires
        parts.len() > 0,
    ensures
        join_spec(parts.push(x), sep) == join_spec(parts, sep) + sep + x,
{
    assert(parts.push(x).drop_last() =~= parts);
}

/// Extending the last piece by the separator and `x` joins to the same as pushing `x`.
pub proof fn lemma_join_extend_last(parts: Seq<Seq<char>>, x: Seq<char>, sep: Seq<char>)
    requires
        parts.len() > 0,
    ensures
        join_spec(parts.update(parts.len() - 1, parts.last() + sep + x), sep) == join_spec(parts, sep) + sep + x,
{
    let q = parts.update(parts.len() - 1, parts.last() + sep + x);
    if parts.len() == 1 {
        assert(join_spec(q, sep) == q[0]);
    } else {
        assert(q.drop_last() =~= parts.drop_last());
        assert(join_spec(q, sep) == join_spec(parts.drop_last(), sep) + sep + (parts.last() + sep + x));
        assert(join_spec(parts.drop_last(), sep) + sep + (parts.last() + sep + x) =~= join_spec(parts.drop_last(), sep)
            + sep + parts.last() + sep + x);
    }
}

/// Joining a concatenation is joining each side, with the separator between.
pub proof fn lemma_join_concat(a: Seq<Seq<char>>, b: Seq<Seq<char>>, sep: Seq<char>)
    requires
        a.len() > 0,
        b.len() > 0,
    ensures
        join_spec(a + b, sep) == join_spec(a, sep) + sep + join_spec(b, sep),
    decreases b.len(),
{
    if b.len() == 1 {
        assert((a + b).drop_last() =~= a);
        assert(join_spec(b, sep) == b[0]);
    } else {
        assert((a + b).drop_last() =~= a + b.drop_last());
        lemma_join_concat(a, b.drop_last(), sep);
        assert(join_spec(a + b, sep) == join_spec(a + b.drop_last(), sep) + sep + b.last());
        assert(join_spec(a, sep) + sep + join_spec(b.drop_last(), sep) + sep + b.last() =~= join_spec(a, sep) + sep + (
        join_spec(b.drop_last(), sep) + sep + b.last()));
    }
}

/// Merging pieces `i - 1` and `i` into one, with the separator between them, joins to the
/// same text.
pub proof fn lemma_join_merge_pair(p: Seq<Seq<char>>, i: int, sep: Seq<char>)
    requires
        1 <= i < p.len(),
    ensures
        join_spec(p.remove(i).update(i - 1, p[i - 1] + sep + p[i]), sep) == join_spec(p, sep),
{
    let a = p.take(i - 1);
    let b = p.skip(i + 1);
    let x = p[i - 1];
    let y = p[i];
    let q = p.remove(i).update(i - 1, x + sep + y);
    assert(p =~= a + seq![x, y] + b);
    assert(q =~= a + seq![x + sep + y] + b);
    assert(seq![x, y].drop_last() =~= seq![x]);
    assert(join_spec(seq![x], sep) == x);
    assert(seq![x, y].last() == y);
    assert(join_spec(seq![x, y], sep) == x + sep + y);
    assert(join_spec(seq![x + sep + y], sep) == x + sep + y);
    if a.len() == 0 && b.len() == 0 {
        assert(p =~= seq![x, y]);
        assert(q =~= seq![x + sep + y]);
    } else if a.len() == 0 {
        assert(p =~= seq![x, y] + b);
        assert(q =~= seq![x + sep + y] + b);
        lemma_join_concat(seq![x, y], b, sep);
        lemma_join_concat(seq![x + sep + y], b, sep);
    } else if b.len() == 0 {
        assert(p =~= a + seq![x, y]);
        assert(q =~= a + seq![x + sep + y]);
        lemma_join_concat(a, seq![x, y], sep);
        lemma_join_concat(a, seq![x + sep + y], sep);
    } else {
        lemma_join_concat(a, seq![x, y], sep);
        lemma_join_concat(a + seq![x, y], b, sep);
        lemma_join_concat(a, seq![x + sep + y], sep);
        lemma_join_concat(a + seq![x + sep + y], b, sep);
        assert(p =~= (a + seq![x, y]) + b);
        assert(q =~= (a + seq![x + sep + y]) + b);
    }
}

} // verus!
