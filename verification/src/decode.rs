//! Decoding audio and video to 16 kHz mono: which decoder goes first, how ffmpeg is called
//! and found, and how its report is read. The samples themselves are decoded by the caller.
use vstd::prelude::*;

use crate::models::Platform;
use crate::text::{chars_of, extend_chars, str_eq, string_of};

verus! {

pub open spec fn is_sep(c: char, p: Platform) -> bool {
    c == '/' || (p == Platform::Windows && c == '\\')
}

/// The last component of a path, reading it left to right: components end at separators;
/// empty ones and `.` are skipped.
pub open spec fn last_comp(s: Seq<char>, p: Platform, last: Option<Seq<char>>, cur: Seq<char>) -> Option<Seq<char>>
    decreases s.len(),
{
    if s.len() == 0 {
        if cur.len() > 0 && cur != seq!['.'] {
            Some(cur)
        } else {
            last
        }
    } else if is_sep(s[0], p) {
        last_comp(s.drop_first(), p, if cur.len() > 0 && cur != seq!['.'] { Some(cur) } else { last }, Seq::empty())
    } else {
        last_comp(s.drop_first(), p, last, cur.push(s[0]))
    }
}

/// `Path::file_name`: the last component, none when it is `..` (drive prefixes aside).
pub open spec fn file_name_spec(s: Seq<char>, p: Platform) -> Option<Seq<char>> {
    match last_comp(s, p, None, Seq::empty()) {
        Some(c) => if c == seq!['.', '.'] { None } else { Some(c) },
        None => None,
    }
}

pub fn file_name(path: &str, platform: Platform) -> (r: Option<String>)
    ensures
        match r {
            Some(n) => file_name_spec(path@, platform) == Some(n@),
            None => file_name_spec(path@, platform) is None,
        },
{
    let c = chars_of(path);
    let mut last: Option<Vec<char>> = None;
    let mut cur: Vec<char> = Vec::new();
    let mut i: usize = 0;
    assert(c@.skip(0) =~= c@);
    while i < c.len()
        invariant
            i <= c@.len(),
            c@ == path@,
            last_comp(c@, platform, None, Seq::empty()) == last_comp(c@.skip(i as int), platform, match last {
                Some(v) => Some(v@),
                None => None,
            }, cur@),
        decreases c@.len() - i,
    {
        assert(c@.skip(i as int).drop_first() =~= c@.skip(i + 1));
        assert(c@.skip(i as int)[0] == c@[i as int]);
        let ch = c[i];
        if ch == '/' || (platform == Platform::Windows && ch == '\\') {
            if cur.len() > 0 && !(cur.len() == 1 && cur[0] == '.') {
                proof {
                    if cur@ == seq!['.'] {
                        assert(cur@.len() == 1 && cur@[0] == '.');
                    }
                }
                let mut taken: Vec<char> = Vec::new();
                std::mem::swap(&mut taken, &mut cur);
                last = Some(taken);
            } else {
                proof {
                    if cur@.len() == 1 && cur@[0] == '.' {
                        assert(cur@ =~= seq!['.']);
                    }
                }
                cur = Vec::new();
            }
            assert(cur@ =~= Seq::<char>::empty());
        } else {
            cur.push(ch);
        }
        i = i + 1;
    }
    assert(c@.skip(i as int) =~= Seq::<char>::empty());
    let res = if cur.len() > 0 && !(cur.len() == 1 && cur[0] == '.') {
        proof {
            if cur@ == seq!['.'] {
                assert(cur@.len() == 1 && cur@[0] == '.');
            }
        }
        Some(cur)
    } else {
        proof {
            if cur@.len() == 1 && cur@[0] == '.' {
                assert(cur@ =~= seq!['.']);
            }
        }
        last
    };
    match res {
        Some(v) => {
            if v.len() == 2 && v[0] == '.' && v[1] == '.' {
                assert(v@ =~= seq!['.', '.']);
                None
            } else {
                proof {
                    if v@ == seq!['.', '.'] {
                        assert(v@.len() == 2 && v@[0] == '.' && v@[1] == '.');
                    }
                }
                Some(string_of(&v))
            }
        },
        None => None,
    }
}

/// Position of the last `.` in `s`.
pub open spec fn last_dot(s: Seq<char>) -> Option<int>
    decreases s.len(),
{
    if s.len() == 0 {
        None
    } else if s.last() == '.' {
        Some(s.len() - 1)
    } else {
        last_dot(s.drop_last())
    }
}

/// `Path::extension`: what follows the last `.` of the file name; none without a `.`, and
/// none for a name that starts with its only `.`.
pub open spec fn extension_spec(s: Seq<char>, p: Platform) -> Option<Seq<char>> {
    match file_name_spec(s, p) {
        None => None,
        Some(n) => match last_dot(n) {
            None => None,
            Some(i) => if i == 0 { None } else { Some(n.skip(i + 1)) },
        },
    }
}

proof fn lemma_last_dot_range(s: Seq<char>)
    ensures
        last_dot(s) matches Some(i) ==> 0 <= i < s.len() && s[i] == '.',
    decreases s.len(),
{
    if s.len() > 0 && s.last() != '.' {
        lemma_last_dot_range(s.drop_last());
    }
}

pub fn extension(path: &str, platform: Platform) -> (r: Option<String>)
    ensures
        match r {
            Some(e) => extension_spec(path@, platform) == Some(e@),
            None => extension_spec(path@, platform) is None,
        },
{
    let name = match file_name(path, platform) {
        Some(n) => n,
        None => return None,
    };
    let n = chars_of(name.as_str());
    let mut k: usize = n.len();
    assert(n@.take(k as int) =~= n@);
    while k > 0 && n[k - 1] != '.'
        invariant
            k <= n@.len(),
            last_dot(n@) == last_dot(n@.take(k as int)),
        decreases k,
    {
        assert(n@.take(k as int).drop_last() =~= n@.take(k - 1));
        k = k - 1;
    }
    if k == 0 {
        assert(n@.take(0) =~= Seq::<char>::empty());
        return None;
    }
    assert(n@.take(k as int).last() == '.');
    if k == 1 {
        return None;
    }
    let e = crate::text::slice_chars(&n, k, n.len());
    assert(e@ =~= n@.skip(k as int));
    Some(string_of(&e))
}

/// ASCII letters in lower case, other characters as they are.
pub open spec fn ascii_lower(s: Seq<char>) -> Seq<char> {
    s.map_values(|c: char| if 'A' <= c && c <= 'Z' { ((c as u32) + 32) as char } else { c })
}

fn to_ascii_lower(s: &str) -> (r: String)
    ensures
        r@ == ascii_lower(s@),
{
    let c = chars_of(s);
    let mut v: Vec<char> = Vec::new();
    let mut i: usize = 0;
    while i < c.len()
        invariant
            i <= c@.len(),
            v@ == ascii_lower(c@.take(i as int)),
        decreases c@.len() - i,
    {
        let ch = c[i];
        let lc = if 'A' <= ch && ch <= 'Z' { ((ch as u8) + 32) as char } else { ch };
        assert(lc == (if 'A' <= ch && ch <= 'Z' { ((ch as u32) + 32) as char } else { ch }));
        v.push(lc);
        assert(ascii_lower(c@.take(i + 1)) =~= ascii_lower(c@.take(i as int)).push(lc));
        i = i + 1;
    }
    assert(c@.take(c@.len() as int) =~= c@);
    string_of(&v)
}

/// Containers that usually carry AAC, which the pure-Rust decoder gets wrong: ffmpeg goes
/// first for them.
pub open spec fn prefers_ffmpeg_spec(path: Seq<char>, p: Platform) -> bool {
    match extension_spec(path, p) {
        Some(e) => {
            let l = ascii_lower(e);
            l == "mp4"@ || l == "m4a"@ || l == "m4v"@ || l == "aac"@ || l == "mov"@ || l == "3gp"@ || l == "3gpp"@
        },
        None => false,
    }
}

pub fn prefers_ffmpeg(path: &str, platform: Platform) -> (b: bool)
    ensures
        b == prefers_ffmpeg_spec(path@, platform),
{
    match extension(path, platform) {
        Some(e) => {
            let l = to_ascii_lower(e.as_str());
            let s = l.as_str();
            str_eq(s, "mp4") || str_eq(s, "m4a") || str_eq(s, "m4v") || str_eq(s, "aac") || str_eq(s, "mov")
                || str_eq(s, "3gp") || str_eq(s, "3gpp")
        },
        None => false,
    }
}

/// The decoders of a file, in the order they are tried.
#[derive(Clone, Copy, PartialEq, Eq, Structural, Debug)]
pub enum DecodeOrder {
    /// ffmpeg, then the pure-Rust decoder when ffmpeg fails.
    FfmpegFirst,
    /// The pure-Rust decoder only (ffmpeg is not there yet).
    SymphoniaOnly,
    /// The pure-Rust decoder, then ffmpeg when there is one.
    SymphoniaFirst,
}

/// AAC containers go to ffmpeg first when it is there; everything else to the pure-Rust
/// decoder first; the other one stays the fallback.
pub fn decode_order(path: &str, platform: Platform, have_ffmpeg: bool) -> (o: DecodeOrder)
    ensures
        o == (if prefers_ffmpeg_spec(path@, platform) {
            if have_ffmpeg { DecodeOrder::FfmpegFirst } else { DecodeOrder::SymphoniaOnly }
        } else {
            DecodeOrder::SymphoniaFirst
        }),
{
    if prefers_ffmpeg(path, platform) {
        if have_ffmpeg {
            DecodeOrder::FfmpegFirst
        } else {
            DecodeOrder::SymphoniaOnly
        }
    } else {
        DecodeOrder::SymphoniaFirst
    }
}

/// The error when both decoders failed, the first tried named first.
pub fn decode_error(first: &str, first_err: &str, second: &str, second_err: &str) -> (r: String)
    ensures
        r@ == "failed to decode ("@ + first@ + ": "@ + first_err@ + "; "@ + second@ + ": "@ + second_err@ + ")"@,
{
    let mut v = chars_of("failed to decode (");
    extend_chars(&mut v, &chars_of(first));
    extend_chars(&mut v, &chars_of(": "));
    extend_chars(&mut v, &chars_of(first_err));
    extend_chars(&mut v, &chars_of("; "));
    extend_chars(&mut v, &chars_of(second));
    extend_chars(&mut v, &chars_of(": "));
    extend_chars(&mut v, &chars_of(second_err));
    extend_chars(&mut v, &chars_of(")"));
    string_of(&v)
}

pub open spec fn strings_view(v: Seq<String>) -> Seq<Seq<char>> {
    v.map_values(|s: String| s@)
}

/// Arguments of ffmpeg decoding to raw 32-bit float mono 16 kHz on its output, optionally
/// limited to `max_secs` (the seconds as text).
pub open spec fn ffmpeg_args_spec(path: Seq<char>, max_secs: Option<Seq<char>>) -> Seq<Seq<char>> {
    let base = seq!["-v"@, "error"@, "-i"@, path, "-ac"@, "1"@, "-ar"@, "16000"@, "-f"@, "f32le"@];
    match max_secs {
        Some(s) => base + seq!["-t"@, s, "pipe:1"@],
        None => base + seq!["pipe:1"@],
    }
}

pub fn ffmpeg_args(path: &str, max_secs: Option<&str>) -> (r: Vec<String>)
    ensures
        strings_view(r@) == ffmpeg_args_spec(path@, match max_secs {
            Some(s) => Some(s@),
            None => None,
        }),
{
    let mut r: Vec<String> = Vec::new();
    r.push("-v".to_owned());
    r.push("error".to_owned());
    r.push("-i".to_owned());
    r.push(path.to_owned());
    r.push("-ac".to_owned());
    r.push("1".to_owned());
    r.push("-ar".to_owned());
    r.push("16000".to_owned());
    r.push("-f".to_owned());
    r.push("f32le".to_owned());
    match max_secs {
        Some(s) => {
            r.push("-t".to_owned());
            r.push(s.to_owned());
        },
        None => {},
    }
    r.push("pipe:1".to_owned());
    assert(strings_view(r@) =~= ffmpeg_args_spec(path@, match max_secs {
        Some(s) => Some(s@),
        None => None,
    }));
    r
}

/// Where ffmpeg is looked for after the model manager's copy and the `SPEAKAGENT_FFMPEG`
/// variable: in each of the given directories (the executable's directory and up to five of
/// its ancestors, nearest first) the executable itself, in `bin`, in `resources/bin`; then,
/// on macOS, Homebrew's two places. The caller takes the first that exists, else the bare
/// name (found through `PATH`).
pub open spec fn ffmpeg_candidates_spec(dirs: Seq<Seq<char>>, p: Platform) -> Seq<Seq<char>>
    decreases dirs.len(),
{
    if dirs.len() == 0 {
        if p == Platform::MacArm || p == Platform::MacIntel {
            seq!["/opt/homebrew/bin/ffmpeg"@, "/usr/local/bin/ffmpeg"@]
        } else {
            Seq::empty()
        }
    } else {
        let d = dirs[0];
        let exe = crate::models::exe_name("ffmpeg"@, p);
        seq![
            crate::models::join_path(d, exe, p),
            crate::models::join_path(crate::models::join_path(d, "bin"@, p), exe, p),
            crate::models::join_path(
                crate::models::join_path(crate::models::join_path(d, "resources"@, p), "bin"@, p),
                exe,
                p,
            ),
        ] + ffmpeg_candidates_spec(dirs.drop_first(), p)
    }
}

pub fn ffmpeg_candidates(dirs: &Vec<String>, platform: Platform) -> (r: Vec<String>)
    ensures
        strings_view(r@) == ffmpeg_candidates_spec(strings_view(dirs@), platform),
{
    let exe = crate::models::tool_exe("ffmpeg", platform);
    let mut r: Vec<String> = Vec::new();
    let mut i: usize = 0;
    let ghost ds = strings_view(dirs@);
    assert(ds.skip(0) =~= ds);
    assert(strings_view(r@) + ffmpeg_candidates_spec(ds.skip(0), platform) =~= ffmpeg_candidates_spec(ds, platform));
    while i < dirs.len()
        invariant
            i <= dirs@.len(),
            ds == strings_view(dirs@),
            exe@ == crate::models::exe_name("ffmpeg"@, platform),
            strings_view(r@) + ffmpeg_candidates_spec(ds.skip(i as int), platform) == ffmpeg_candidates_spec(ds, platform),
        decreases dirs@.len() - i,
    {
        let d = dirs[i].as_str();
        let a = crate::models::join(d, exe.as_str(), platform);
        let b0 = crate::models::join(d, "bin", platform);
        let b = crate::models::join(b0.as_str(), exe.as_str(), platform);
        let c0 = crate::models::join(d, "resources", platform);
        let c1 = crate::models::join(c0.as_str(), "bin", platform);
        let c = crate::models::join(c1.as_str(), exe.as_str(), platform);
        let ghost before = strings_view(r@);
        r.push(a);
        r.push(b);
        r.push(c);
        proof {
            assert(ds.skip(i as int)[0] == ds[i as int]);
            assert(ds.skip(i as int).drop_first() =~= ds.skip(i + 1));
            assert(strings_view(r@) =~= before + seq![a@, b@, c@]);
            assert(before + ffmpeg_candidates_spec(ds.skip(i as int), platform) =~= before + (seq![a@, b@, c@]
                + ffmpeg_candidates_spec(ds.skip(i + 1), platform)));
        }
        i = i + 1;
    }
    assert(ds.skip(i as int) =~= Seq::<Seq<char>>::empty());
    let ghost before = strings_view(r@);
    if platform == Platform::MacArm || platform == Platform::MacIntel {
        r.push("/opt/homebrew/bin/ffmpeg".to_owned());
        r.push("/usr/local/bin/ffmpeg".to_owned());
        assert(strings_view(r@) =~= before + seq!["/opt/homebrew/bin/ffmpeg"@, "/usr/local/bin/ffmpeg"@]);
    } else {
        assert(strings_view(r@) =~= before + Seq::<Seq<char>>::empty());
    }
    r
}

/// The `Duration: H:M:S, ...` of ffmpeg's report: the three fields of the time, each
/// trimmed; none unless there are exactly three.
#[verifier::rlimit(60)]
#[verifier::spinoff_prover]
pub fn duration_fields(report: &str) -> (r: Option<(String, String, String)>)
    ensures
        match crate::text::find_spec(report@, "Duration:"@) {
            None => r is None,
            Some(i) => {
                let ts = crate::text::trim_spec(before_comma(crate::text::trim_spec(report@.skip(i + 9))));
                let parts = colon_parts(ts);
                if parts.len() == 3 {
                    r matches Some((h, m, s)) && h@ == crate::text::trim_spec(parts[0]) && m@
                        == crate::text::trim_spec(parts[1]) && s@ == crate::text::trim_spec(parts[2])
                } else {
                    r is None
                }
            },
        },
{
    let c = chars_of(report);
    let key = chars_of("Duration:");
    assert("Duration:"@.len() == 9) by {
        reveal_strlit("Duration:");
    }
    let i = match crate::text::find_chars(&c, &key) {
        Some(i) => i,
        None => return None,
    };
    assert(crate::text::occurs_at(c@, key@, i as int));
    let cl = c.len();
    assert(i + 9 <= cl);
    let rest = crate::text::slice_chars(&c, i + 9, cl);
    assert(rest@ =~= report@.skip(i + 9));
    let t = crate::text::trim_chars(&rest);
    let head = take_before_comma(&t);
    let ts = crate::text::trim_chars(&head);
    let parts = split_colons(&ts);
    if parts.len() != 3 {
        return None;
    }
    Some((
        string_of(&crate::text::trim_chars(&parts[0])),
        string_of(&crate::text::trim_chars(&parts[1])),
        string_of(&crate::text::trim_chars(&parts[2])),
    ))
}

/// Everything before the first `,` (all of it when there is none).
pub open spec fn before_comma(s: Seq<char>) -> Seq<char>
    decreases s.len(),
{
    if s.len() == 0 || s[0] == ',' {
        Seq::empty()
    } else {
        seq![s[0]] + before_comma(s.drop_first())
    }
}

fn take_before_comma(s: &Vec<char>) -> (r: Vec<char>)
    ensures
        r@ == before_comma(s@),
{
    let mut i: usize = 0;
    while i < s.len() && s[i] != ','
        invariant
            i <= s@.len(),
            forall|j: int| 0 <= j < i ==> s@[j] != ',',
        decreases s@.len() - i,
    {
        i = i + 1;
    }
    proof { lemma_before_comma(s@, i as int); }
    crate::text::slice_chars(s, 0, i)
}

proof fn lemma_before_comma(s: Seq<char>, i: int)
    requires
        0 <= i <= s.len(),
        forall|j: int| 0 <= j < i ==> s[j] != ',',
        i == s.len() || s[i] == ',',
    ensures
        before_comma(s) == s.take(i),
    decreases s.len(),
{
    if s.len() > 0 && s[0] != ',' {
        lemma_before_comma(s.drop_first(), i - 1);
        assert(seq![s[0]] + s.drop_first().take(i - 1) =~= s.take(i));
    } else {
        assert(s.take(i) =~= Seq::<char>::empty());
    }
}

/// The parts between `:` (`str::split(':')`).
pub open spec fn colon_acc(s: Seq<char>, cur: Seq<char>) -> Seq<Seq<char>>
    decreases s.len(),
{
    if s.len() == 0 {
        seq![cur]
    } else if s[0] == ':' {
        seq![cur] + colon_acc(s.drop_first(), Seq::empty())
    } else {
        colon_acc(s.drop_first(), cur.push(s[0]))
    }
}

pub open spec fn colon_parts(s: Seq<char>) -> Seq<Seq<char>> {
    colon_acc(s, Seq::empty())
}

fn split_colons(s: &Vec<char>) -> (r: Vec<Vec<char>>)
    ensures
        r@.map_values(|v: Vec<char>| v@) == colon_parts(s@),
{
    let mut out: Vec<Vec<char>> = Vec::new();
    let mut cur: Vec<char> = Vec::new();
    let mut i: usize = 0;
    assert(s@.skip(0) =~= s@);
    assert(out@.map_values(|v: Vec<char>| v@) + colon_acc(s@.skip(0), cur@) =~= colon_parts(s@));
    while i < s.len()
        invariant
            i <= s@.len(),
            out@.map_values(|v: Vec<char>| v@) + colon_acc(s@.skip(i as int), cur@) == colon_parts(s@),
        decreases s@.len() - i,
    {
        assert(s@.skip(i as int).drop_first() =~= s@.skip(i + 1));
        assert(s@.skip(i as int)[0] == s@[i as int]);
        if s[i] == ':' {
            let mut taken: Vec<char> = Vec::new();
            std::mem::swap(&mut taken, &mut cur);
            let ghost before = out@.map_values(|v: Vec<char>| v@);
            let ghost tv = taken@;
            out.push(taken);
            assert(out@.map_values(|v: Vec<char>| v@) =~= before.push(tv));
            assert(before + (seq![tv] + colon_acc(s@.skip(i + 1), Seq::empty())) =~= before.push(tv) + colon_acc(
                s@.skip(i + 1),
                Seq::empty(),
            ));
            assert(cur@ =~= Seq::<char>::empty());
        } else {
            cur.push(s[i]);
        }
        i = i + 1;
    }
    assert(s@.skip(i as int) =~= Seq::<char>::empty());
    let ghost before = out@.map_values(|v: Vec<char>| v@);
    let ghost cv = cur@;
    out.push(cur);
    assert(out@.map_values(|v: Vec<char>| v@) =~= before + seq![cv]);
    out
}

} // verus!
