//! The desktop shell's decisions: settings with their defaults, the device fingerprint, the
//! push-to-talk trigger, and the checks of the commands the interface calls. Windows,
//! processes, the clipboard and the tray are the caller's.
use vstd::prelude::*;
use vstd::string::StringSliceAdditionalSpecFns;

use crate::store::Store;
use crate::text::{chars_of, extend_chars, is_nonblank, nonblank, str_eq, string_of, trim_chars, trim_spec};

verus! {

/// Name and version of the application.
pub struct AppInfo {
    pub name: String,
    pub version: String,
}

pub fn app_info(version: &str) -> (a: AppInfo)
    ensures
        a.name@ == "SpeakAgent"@,
        a.version@ == version@,
{
    AppInfo { name: "SpeakAgent".to_owned(), version: version.to_owned() }
}

// ───────────────────────── device fingerprint ─────────────────────────

pub const FNV_OFFSET: u64 = 0xcbf2_9ce4_8422_2325;
pub const FNV_PRIME: u64 = 0x0000_0100_0000_01b3;

/// One step of FNV-1a (64 bits): xor the byte in, multiply by the prime modulo 2^64.
pub open spec fn fnv_step(h: u64, b: u8) -> u64 {
    (((h ^ (b as u64)) as nat * FNV_PRIME as nat) % 0x1_0000_0000_0000_0000nat) as u64
}

/// FNV-1a over the bytes, from the offset basis.
pub open spec fn fnv_spec(bytes: Seq<u8>) -> u64
    decreases bytes.len(),
{
    if bytes.len() == 0 {
        FNV_OFFSET
    } else {
        fnv_step(fnv_spec(bytes.drop_last()), bytes.last())
    }
}

/// FNV-1a 64 of the UTF-8 bytes of `s`: a hash that stays the same across Rust versions.
pub fn fnv1a(s: &str) -> (h: u64)
    ensures
        h == fnv_spec(s.spec_bytes()),
{
    let b = s.as_bytes();
    let mut h: u64 = FNV_OFFSET;
    let mut i: usize = 0;
    while i < b.len()
        invariant
            i <= b@.len(),
            b@ == s.spec_bytes(),
            h == fnv_spec(b@.take(i as int)),
        decreases b@.len() - i,
    {
        assert(b@.take(i + 1).drop_last() =~= b@.take(i as int));
        h = (h ^ (b[i] as u64)).wrapping_mul(FNV_PRIME);
        i = i + 1;
    }
    assert(b@.take(b@.len() as int) =~= b@);
    h
}

pub open spec fn hex_digit(d: nat) -> char {
    if d < 10 {
        ((d + 48) as u8) as char
    } else {
        ((d + 55) as u8) as char
    }
}

/// The lowest `width` hexadecimal digits of `n`, upper case, most significant first
/// (`{:0width$X}` for a number that fits).
pub open spec fn hex_pad(n: nat, width: nat) -> Seq<char>
    decreases width,
{
    if width == 0 {
        Seq::empty()
    } else {
        hex_pad(n / 16, (width - 1) as nat).push(hex_digit(n % 16))
    }
}

proof fn lemma_hex_len(n: nat, width: nat)
    ensures
        hex_pad(n, width).len() == width,
    decreases width,
{
    if width > 0 {
        lemma_hex_len(n / 16, (width - 1) as nat);
    }
}

fn hex_char(d: u64) -> (c: char)
    requires
        d < 16,
    ensures
        c == hex_digit(d as nat),
{
    if d < 10 {
        ((d as u8) + 48u8) as char
    } else {
        ((d as u8) + 55u8) as char
    }
}

fn push_hex(out: &mut Vec<char>, n: u64, width: usize)
    ensures
        final(out)@ == old(out)@ + hex_pad(n as nat, width as nat),
    decreases width,
{
    if width == 0 {
        assert(old(out)@ + hex_pad(n as nat, 0) =~= old(out)@);
        return;
    }
    push_hex(out, n / 16, width - 1);
    out.push(hex_char(n % 16));
    assert(final(out)@ =~= old(out)@ + hex_pad(n as nat, width as nat)) by {
        assert(hex_pad(n as nat, width as nat) == hex_pad((n / 16) as nat, (width - 1) as nat).push(
            hex_digit((n % 16) as nat),
        ));
    }
}

/// Sixteen upper-case hexadecimal digits of `n` (`{:016X}`).
pub fn hex16(n: u64) -> (r: String)
    ensures
        r@ == hex_pad(n as nat, 16),
{
    let mut v: Vec<char> = Vec::new();
    push_hex(&mut v, n, 16);
    assert(v@ =~= hex_pad(n as nat, 16));
    string_of(&v)
}

/// The fingerprint shown for a machine id: FNV-1a of `speakagent:<id>` (the id trimmed) in
/// sixteen hexadecimal digits, grouped `XXXX-XXXX-XXXX-XXXX`. The raw id never leaves.
pub open spec fn device_id_spec(base: Seq<char>, bytes: Seq<u8>) -> Seq<char> {
    let h = hex_pad(fnv_spec(bytes) as nat, 16);
    h.subrange(0, 4) + seq!['-'] + h.subrange(4, 8) + seq!['-'] + h.subrange(8, 12) + seq!['-'] + h.subrange(12, 16)
}

/// The fingerprint of a machine id. `seed` carries the bytes hashed: the caller passes
/// `speakagent:` followed by the trimmed id (see `device_seed`).
pub fn device_id(seed: &str) -> (r: String)
    ensures
        r@ == device_id_spec(seed@, seed.spec_bytes()),
{
    let h = hex16(fnv1a(seed));
    let c = chars_of(h.as_str());
    proof { lemma_hex_len(fnv_spec(seed.spec_bytes()) as nat, 16); }
    let mut v: Vec<char> = Vec::new();
    let mut i: usize = 0;
    while i < 16
        invariant
            c@ == hex_pad(fnv_spec(seed.spec_bytes()) as nat, 16),
            c@.len() == 16,
            i <= 16,
            v@ == (if i <= 4 {
                c@.subrange(0, i as int)
            } else if i <= 8 {
                c@.subrange(0, 4) + seq!['-'] + c@.subrange(4, i as int)
            } else if i <= 12 {
                c@.subrange(0, 4) + seq!['-'] + c@.subrange(4, 8) + seq!['-'] + c@.subrange(8, i as int)
            } else {
                c@.subrange(0, 4) + seq!['-'] + c@.subrange(4, 8) + seq!['-'] + c@.subrange(8, 12) + seq!['-']
                    + c@.subrange(12, i as int)
            }),
        decreases 16 - i,
    {
        if i == 4 || i == 8 || i == 12 {
            v.push('-');
        }
        v.push(c[i]);
        let ghost j = (i + 1) as int;
        proof {
            if i < 4 {
                assert(c@.subrange(0, j) =~= c@.subrange(0, i as int).push(c@[i as int]));
            } else if i == 4 {
                assert(c@.subrange(4, j) =~= seq![c@[4]]);
                assert(c@.subrange(0, 4) + seq!['-'] + c@.subrange(4, j) =~= c@.subrange(0, i as int).push('-').push(c@[i as int]));
            } else if i < 8 {
                assert(c@.subrange(4, j) =~= c@.subrange(4, i as int).push(c@[i as int]));
            } else if i == 8 {
                assert(c@.subrange(8, j) =~= seq![c@[8]]);
            } else if i < 12 {
                assert(c@.subrange(8, j) =~= c@.subrange(8, i as int).push(c@[i as int]));
            } else if i == 12 {
                assert(c@.subrange(12, j) =~= seq![c@[12]]);
            } else {
                assert(c@.subrange(12, j) =~= c@.subrange(12, i as int).push(c@[i as int]));
            }
        }
        i = i + 1;
    }
    string_of(&v)
}

/// What is hashed for a machine id: `speakagent:` and the id trimmed.
pub fn device_seed(base: &str) -> (r: String)
    ensures
        r@ == "speakagent:"@ + trim_spec(base@),
{
    let t = trim_chars(&chars_of(base));
    let mut v = chars_of("speakagent:");
    extend_chars(&mut v, &t);
    string_of(&v)
}

/// Where the machine id comes from: the system's id when it has a non-blank one, else the
/// fallback id kept in the settings; `None` when a fallback has to be made and kept
/// (sixteen hexadecimal digits of FNV-1a of a time stamp, see `hex16`).
pub fn device_base(machine: Option<&str>, stored: Option<&str>) -> (r: Option<String>)
    ensures
        (machine matches Some(m) && nonblank(m@)) ==> (r matches Some(b) && b@ == machine->0@),
        !(machine matches Some(m) && nonblank(m@)) ==> match stored {
            Some(s) => r matches Some(b) && b@ == s@,
            None => r is None,
        },
{
    match machine {
        Some(m) => if is_nonblank(&chars_of(m)) {
            return Some(m.to_owned());
        },
        None => {},
    }
    match stored {
        Some(s) => Some(s.to_owned()),
        None => None,
    }
}

// ───────────────────────── settings ─────────────────────────

/// A boolean setting: anything but "0" is on; the default when unset.
pub open spec fn bool_setting(st: Map<Seq<char>, Seq<char>>, key: Seq<char>, default: bool) -> bool {
    if st.contains_key(key) {
        st[key] != "0"@
    } else {
        default
    }
}

pub fn get_bool(store: &Store, key: &str, default: bool) -> (b: bool)
    requires
        store.wf(),
    ensures
        b == bool_setting(store@.settings, key@, default),
{
    match store.get_setting(key) {
        Some(v) => !str_eq(v.as_str(), "0"),
        None => default,
    }
}

pub open spec fn setting_or(st: Map<Seq<char>, Seq<char>>, key: Seq<char>, default: Seq<char>) -> Seq<char> {
    if st.contains_key(key) {
        st[key]
    } else {
        default
    }
}

fn setting_or_default(store: &Store, key: &str, default: &str) -> (r: String)
    requires
        store.wf(),
    ensures
        r@ == setting_or(store@.settings, key@, default@),
{
    match store.get_setting(key) {
        Some(v) => v,
        None => default.to_owned(),
    }
}

/// The default push-to-talk key: right Shift (a single key that types nothing).
pub const DEFAULT_HOTKEY: &'static str = "ShiftRight";

/// Dictation settings as the interface shows them.
pub struct DictationConfig {
    /// Keys joined by `+`, e.g. "ControlLeft+Space".
    pub hotkey: String,
    /// "hold" | "toggle"
    pub mode: String,
    pub autopaste: bool,
    pub sound: bool,
    /// "" is the default device.
    pub input_device: String,
    /// "" follows the active recognition model.
    pub model: String,
    pub lang: String,
}

pub fn dictation_config(store: &Store) -> (c: DictationConfig)
    requires
        store.wf(),
    ensures
        c.hotkey@ == setting_or(store@.settings, "dict_keys"@, DEFAULT_HOTKEY@),
        c.mode@ == setting_or(store@.settings, "dict_mode"@, "hold"@),
        c.autopaste == bool_setting(store@.settings, "dict_autopaste"@, true),
        c.sound == bool_setting(store@.settings, "dict_sound"@, true),
        c.input_device@ == setting_or(store@.settings, "dict_input_device"@, ""@),
        c.model@ == setting_or(store@.settings, "dict_asr"@, ""@),
        c.lang@ == setting_or(store@.settings, "dict_lang"@, ""@),
{
    DictationConfig {
        hotkey: setting_or_default(store, "dict_keys", DEFAULT_HOTKEY),
        mode: setting_or_default(store, "dict_mode", "hold"),
        autopaste: get_bool(store, "dict_autopaste", true),
        sound: get_bool(store, "dict_sound", true),
        input_device: setting_or_default(store, "dict_input_device", ""),
        model: setting_or_default(store, "dict_asr", ""),
        lang: setting_or_default(store, "dict_lang", ""),
    }
}

pub open spec fn flag(b: bool) -> Seq<char> {
    if b {
        "1"@
    } else {
        "0"@
    }
}

/// Stores the dictation settings, in order; a dictation model that is not a recognition
/// model stops it there with that error (the settings before it stay stored).
pub fn set_dictation_config(store: &mut Store, c: &DictationConfig) -> (r: Result<(), String>)
    requires
        old(store).wf(),
    ensures
        final(store).wf(),
        final(store)@.jobs == old(store)@.jobs,
        final(store)@.dictations == old(store)@.dictations,
        final(store)@.results == old(store)@.results,
        ({
            let s5 = old(store)@.settings.insert("dict_keys"@, c.hotkey@).insert("dict_mode"@, c.mode@).insert(
                "dict_autopaste"@,
                flag(c.autopaste),
            ).insert("dict_sound"@, flag(c.sound)).insert("dict_input_device"@, c.input_device@);
            let ok = c.model@.len() == 0 || crate::models::is_kind(c.model@, "asr"@);
            &&& ok ==> r is Ok && final(store)@.settings == s5.insert("dict_asr"@, c.model@).insert(
                "dict_lang"@,
                c.lang@,
            )
            &&& !ok ==> (r matches Err(e) && e@ == "not a language model"@ && final(store)@.settings == s5)
        }),
{
    let _ = store.set_setting("dict_keys", c.hotkey.as_str());
    let _ = store.set_setting("dict_mode", c.mode.as_str());
    let _ = store.set_setting("dict_autopaste", if c.autopaste { "1" } else { "0" });
    let _ = store.set_setting("dict_sound", if c.sound { "1" } else { "0" });
    let _ = store.set_setting("dict_input_device", c.input_device.as_str());
    match crate::models::set_dict_asr(store, c.model.as_str()) {
        Ok(()) => {},
        Err(e) => return Err(e),
    }
    let _ = store.set_setting("dict_lang", c.lang.as_str());
    Ok(())
}

/// The summary backend: "local" (llama-server) or "cloud"; "local" when unset.
pub fn llm_backend(store: &Store) -> (r: String)
    requires
        store.wf(),
    ensures
        r@ == setting_or(store@.settings, "llm_backend"@, "local"@),
{
    setting_or_default(store, "llm_backend", "local")
}

/// Chooses the summary backend; only "local" and "cloud" are accepted. Choosing the cloud
/// stops the local server: the result tells whether one ran (the caller kills it).
pub fn set_llm_backend(store: &mut Store, server: &mut crate::chat::LocalServer, mode: &str) -> (r: Result<bool, String>)
    requires
        old(store).wf(),
    ensures
        final(store).wf(),
        !(mode@ == "local"@ || mode@ == "cloud"@) ==> (r matches Err(e) && e@ == "неизвестный режим"@
            && final(store)@ == old(store)@ && final(server).running == old(server).running),
        mode@ == "local"@ ==> (r == Ok::<bool, String>(false) && final(store)@.settings == old(store)@.settings.insert(
            "llm_backend"@,
            mode@,
        ) && final(server).running == old(server).running),
        mode@ == "cloud"@ ==> (r == Ok::<bool, String>(old(server).running is Some) && final(store)@.settings
            == old(store)@.settings.insert("llm_backend"@, mode@) && final(server).running is None),
        final(store)@.jobs == old(store)@.jobs,
        final(store)@.dictations == old(store)@.dictations,
        final(store)@.results == old(store)@.results,
{
    proof {
        reveal_strlit("local");
        reveal_strlit("cloud");
        assert("local"@[0] != "cloud"@[0]);
    }
    let local = str_eq(mode, "local");
    let cloud = str_eq(mode, "cloud");
    if !local && !cloud {
        return Err("неизвестный режим".to_owned());
    }
    let stopped = if cloud { server.shutdown() } else { false };
    let _ = store.set_setting("llm_backend", mode);
    Ok(stopped)
}

/// The cloud provider's settings as the form shows them (defaults: OpenRouter,
/// `openai/gpt-4o-mini`, no key).
pub struct CloudConfig {
    pub url: String,
    pub model: String,
    pub key: String,
}

pub fn cloud_settings(store: &Store) -> (c: CloudConfig)
    requires
        store.wf(),
    ensures
        c.url@ == setting_or(store@.settings, "cloud_url"@, "https://openrouter.ai/api/v1"@),
        c.model@ == setting_or(store@.settings, "cloud_model"@, "openai/gpt-4o-mini"@),
        c.key@ == setting_or(store@.settings, "cloud_key"@, ""@),
{
    CloudConfig {
        url: setting_or_default(store, "cloud_url", "https://openrouter.ai/api/v1"),
        model: setting_or_default(store, "cloud_model", "openai/gpt-4o-mini"),
        key: setting_or_default(store, "cloud_key", ""),
    }
}

/// Stores the cloud provider's settings, each trimmed.
pub fn set_cloud_config(store: &mut Store, url: &str, model: &str, key: &str) -> (r: Result<(), String>)
    requires
        old(store).wf(),
    ensures
        final(store).wf(),
        r is Ok,
        final(store)@.settings == old(store)@.settings.insert("cloud_url"@, trim_spec(url@)).insert(
            "cloud_model"@,
            trim_spec(model@),
        ).insert("cloud_key"@, trim_spec(key@)),
        final(store)@.jobs == old(store)@.jobs,
        final(store)@.dictations == old(store)@.dictations,
        final(store)@.results == old(store)@.results,
{
    let u = string_of(&trim_chars(&chars_of(url)));
    let m = string_of(&trim_chars(&chars_of(model)));
    let k = string_of(&trim_chars(&chars_of(key)));
    let _ = store.set_setting("cloud_url", u.as_str());
    let _ = store.set_setting("cloud_model", m.as_str());
    let _ = store.set_setting("cloud_key", k.as_str());
    Ok(())
}

// ───────────────────────── push-to-talk trigger ─────────────────────────

/// Key names of a trigger written `A+B`: split at `+`, trimmed, empty parts dropped.
pub open spec fn trigger_acc(s: Seq<char>, cur: Seq<char>) -> Seq<Seq<char>>
    decreases s.len(),
{
    if s.len() == 0 {
        if nonblank(cur) {
            seq![trim_spec(cur)]
        } else {
            Seq::empty()
        }
    } else if s[0] == '+' {
        let rest = trigger_acc(s.drop_first(), Seq::empty());
        if nonblank(cur) {
            seq![trim_spec(cur)] + rest
        } else {
            rest
        }
    } else {
        trigger_acc(s.drop_first(), cur.push(s[0]))
    }
}

pub open spec fn trigger_spec(s: Seq<char>) -> Seq<Seq<char>> {
    trigger_acc(s, Seq::empty())
}

proof fn lemma_trigger_acc(s: Seq<char>, cur: Seq<char>, i: int, parts: Seq<Seq<char>>, part: Seq<char>)
    requires
        0 <= i <= s.len(),
        trigger_acc(s, Seq::empty()) == parts + trigger_acc(s.skip(i), part),
    ensures
        i < s.len() && s[i] == '+' ==> trigger_acc(s, Seq::empty()) == (if nonblank(part) {
            parts.push(trim_spec(part))
        } else {
            parts
        }) + trigger_acc(s.skip(i + 1), Seq::empty()),
        i < s.len() && s[i] != '+' ==> trigger_acc(s, Seq::empty()) == parts + trigger_acc(
            s.skip(i + 1),
            part.push(s[i]),
        ),
{
    if i < s.len() {
        assert(s.skip(i).drop_first() =~= s.skip(i + 1));
        assert(s.skip(i)[0] == s[i]);
        if s[i] == '+' && nonblank(part) {
            assert(parts + (seq![trim_spec(part)] + trigger_acc(s.skip(i + 1), Seq::empty())) =~= parts.push(
                trim_spec(part),
            ) + trigger_acc(s.skip(i + 1), Seq::empty()));
        }
    }
}

pub open spec fn strings_view(v: Seq<String>) -> Seq<Seq<char>> {
    v.map_values(|s: String| s@)
}

/// The keys of a trigger setting; none (the hotkey off) when it names none.
pub fn parse_trigger(spec: &str) -> (r: Vec<String>)
    ensures
        strings_view(r@) == trigger_spec(spec@),
{
    let s = chars_of(spec);
    let mut out: Vec<String> = Vec::new();
    let mut cur: Vec<char> = Vec::new();
    let mut i: usize = 0;
    assert(s@.skip(0) =~= s@);
    assert(strings_view(out@) + trigger_acc(s@.skip(0), cur@) =~= trigger_acc(s@, Seq::empty()));
    while i < s.len()
        invariant
            i <= s@.len(),
            s@ == spec@,
            trigger_acc(s@, Seq::empty()) == strings_view(out@) + trigger_acc(s@.skip(i as int), cur@),
        decreases s@.len() - i,
    {
        proof { lemma_trigger_acc(s@, Seq::empty(), i as int, strings_view(out@), cur@); }
        if s[i] == '+' {
            if is_nonblank(&cur) {
                let t = string_of(&trim_chars(&cur));
                let ghost before = out@;
                out.push(t);
                assert(strings_view(out@) =~= strings_view(before).push(t@));
            }
            cur = Vec::new();
            assert(cur@ =~= Seq::<char>::empty());
        } else {
            cur.push(s[i]);
        }
        i = i + 1;
    }
    assert(s@.skip(i as int) =~= Seq::<char>::empty());
    if is_nonblank(&cur) {
        let t = string_of(&trim_chars(&cur));
        let ghost before = out@;
        out.push(t);
        assert(strings_view(out@) =~= strings_view(before) + seq![t@]);
    } else {
        assert(strings_view(out@) + Seq::<Seq<char>>::empty() =~= strings_view(out@));
    }
    out
}

/// A change of the trigger chord.
#[derive(Clone, Copy, PartialEq, Eq, Structural, Debug)]
pub enum ChordEvent {
    /// Nothing to do.
    Nothing,
    /// Every key of the trigger is now down.
    Pressed,
    /// The trigger was down and a key of it went up.
    Released,
}

/// The keys held down and whether the trigger is held. The trigger is read on every event,
/// so a change of the hotkey applies at once.
pub struct Chord {
    pressed: Vec<String>,
    armed: bool,
}

pub open spec fn all_in(trigger: Seq<Seq<char>>, pressed: Set<Seq<char>>) -> bool {
    trigger.len() > 0 && forall|i: int| 0 <= i < trigger.len() ==> pressed.contains(#[trigger] trigger[i])
}

impl Chord {
    pub closed spec fn pressed(&self) -> Set<Seq<char>> {
        strings_view(self.pressed@).to_set()
    }

    pub closed spec fn held(&self) -> bool {
        self.armed
    }

    /// Each key is listed once.
    pub closed spec fn wf(&self) -> bool {
        forall|a: int, b: int| 0 <= a < b < self.pressed@.len() ==> (#[trigger] self.pressed@[a])@ != (
        #[trigger] self.pressed@[b])@
    }

    pub fn new() -> (c: Chord)
        ensures
            c.wf(),
            c.pressed() == Set::<Seq<char>>::empty(),
            !c.held(),
    {
        let c = Chord { pressed: Vec::new(), armed: false };
        assert(strings_view(c.pressed@).to_set() =~= Set::<Seq<char>>::empty());
        c
    }

    fn position(&self, name: &str) -> (r: Option<usize>)
        ensures
            match r {
                Some(i) => i < self.pressed@.len() && self.pressed@[i as int]@ == name@,
                None => !strings_view(self.pressed@).contains(name@),
            },
    {
        let mut i: usize = 0;
        while i < self.pressed.len()
            invariant
                i <= self.pressed@.len(),
                forall|j: int| 0 <= j < i ==> (#[trigger] self.pressed@[j])@ != name@,
            decreases self.pressed@.len() - i,
        {
            if str_eq(self.pressed[i].as_str(), name) {
                return Some(i);
            }
            i = i + 1;
        }
        proof {
            if strings_view(self.pressed@).contains(name@) {
                let j = choose|j: int| 0 <= j < strings_view(self.pressed@).len() && strings_view(self.pressed@)[j] == name@;
                assert(self.pressed@[j]@ == name@);
            }
        }
        None
    }

    fn all_down(&self, trigger: &Vec<String>) -> (b: bool)
        ensures
            b == all_in(strings_view(trigger@), self.pressed()),
    {
        if trigger.len() == 0 {
            return false;
        }
        let mut i: usize = 0;
        while i < trigger.len()
            invariant
                i <= trigger@.len(),
                forall|j: int| 0 <= j < i ==> self.pressed().contains(#[trigger] strings_view(trigger@)[j]),
            decreases trigger@.len() - i,
        {
            let ghost t = trigger@[i as int]@;
            match self.position(trigger[i].as_str()) {
                Some(k) => {
                    proof {
                        assert(strings_view(self.pressed@)[k as int] == t);
                        assert(strings_view(self.pressed@).contains(t));
                    }
                },
                None => {
                    assert(!self.pressed().contains(strings_view(trigger@)[i as int]));
                    return false;
                },
            }
            i = i + 1;
        }
        true
    }

    /// A key went down or up. The trigger counts as held while every one of its keys is
    /// down (and it names at least one); the change of that is reported once.
    pub fn key(&mut self, name: &str, down: bool, trigger: &Vec<String>) -> (e: ChordEvent)
        requires
            old(self).wf(),
        ensures
            final(self).wf(),
            final(self).pressed() == (if down { old(self).pressed().insert(name@) } else { old(self).pressed().remove(name@) }),
            final(self).held() == all_in(strings_view(trigger@), final(self).pressed()),
            e == (if final(self).held() && !old(self).held() {
                ChordEvent::Pressed
            } else if !final(self).held() && old(self).held() {
                ChordEvent::Released
            } else {
                ChordEvent::Nothing
            }),
    {
        let ghost before = strings_view(self.pressed@);
        match self.position(name) {
            Some(i) => {
                if !down {
                    let ghost old_p = self.pressed@;
                    self.pressed.remove(i);
                    proof {
                        assert(strings_view(self.pressed@) =~= before.remove(i as int));
                        assert forall|a: int, b: int| 0 <= a < b < before.len() implies before[a] != before[b] by {
                            assert(before[a] == old_p[a]@ && before[b] == old_p[b]@);
                        }
                        self.lemma_removed(before, i as int, name@);
                        assert forall|a: int, b: int| 0 <= a < b < self.pressed@.len() implies (
                        #[trigger] self.pressed@[a])@ != (#[trigger] self.pressed@[b])@ by {
                            let a0 = if a < i { a } else { a + 1 };
                            let b0 = if b < i { b } else { b + 1 };
                            assert(self.pressed@[a] == old_p[a0] && self.pressed@[b] == old_p[b0]);
                        }
                    }
                } else {
                    assert(before[i as int] == name@);
                    assert(before.contains(name@));
                    assert(before.to_set().insert(name@) =~= before.to_set());
                }
            },
            None => {
                if down {
                    let n = name.to_owned();
                    let ghost old_p = self.pressed@;
                    self.pressed.push(n);
                    assert forall|a: int, b: int| 0 <= a < b < self.pressed@.len() implies (
                    #[trigger] self.pressed@[a])@ != (#[trigger] self.pressed@[b])@ by {
                        if b == old_p.len() {
                            assert(self.pressed@[a] == old_p[a]);
                            assert(strings_view(old_p)[a] == old_p[a]@);
                        } else {
                            assert(self.pressed@[a] == old_p[a] && self.pressed@[b] == old_p[b]);
                        }
                    }
                    assert(strings_view(self.pressed@) =~= before.push(name@));
                    assert(before.push(name@).to_set() =~= before.to_set().insert(name@)) by {
                        before.lemma_push_to_set_commute(name@);
                    }
                } else {
                    assert(before.to_set().remove(name@) =~= before.to_set());
                }
            },
        }
        let all = self.all_down(trigger);
        let was = self.armed;
        self.armed = all;
        if all && !was {
            ChordEvent::Pressed
        } else if !all && was {
            ChordEvent::Released
        } else {
            ChordEvent::Nothing
        }
    }

    proof fn lemma_removed(&self, before: Seq<Seq<char>>, i: int, name: Seq<char>)
        requires
            0 <= i < before.len(),
            before[i] == name,
            strings_view(self.pressed@) == before.remove(i),
            forall|a: int, b: int| 0 <= a < b < before.len() ==> before[a] != before[b],
        ensures
            self.pressed() == before.to_set().remove(name),
    {
        let after = before.remove(i);
        assert forall|x: Seq<char>| #[trigger] after.to_set().contains(x) == before.to_set().remove(name).contains(x) by {
            if after.contains(x) {
                let k = choose|k: int| 0 <= k < after.len() && after[k] == x;
                let k0 = if k < i { k } else { k + 1 };
                assert(before[k0] == x);
                if x == name {
                    if k0 < i {
                        assert(before[k0] != before[i]);
                    } else {
                        assert(before[i] != before[k0]);
                    }
                }
            }
            if before.contains(x) && x != name {
                let k = choose|k: int| 0 <= k < before.len() && before[k] == x;
                assert(k != i);
                if k < i {
                    assert(after[k] == x);
                } else {
                    assert(after[k - 1] == x);
                }
            }
        }
        assert(after.to_set() =~= before.to_set().remove(name));
    }
}

} // verus!

verus! {

/// What a press of the trigger does.
#[derive(Clone, Copy, PartialEq, Eq, Structural, Debug)]
pub enum DictAction {
    Begin,
    Finish,
    Nothing,
}

/// The dictation mode is "toggle" (press to start, press again to stop) rather than
/// "hold" (record while held).
pub fn is_toggle(store: &Store) -> (b: bool)
    requires
        store.wf(),
    ensures
        b == (store@.settings.contains_key("dict_mode"@) && store@.settings["dict_mode"@] == "toggle"@),
{
    match store.get_setting("dict_mode") {
        Some(m) => str_eq(m.as_str(), "toggle"),
        None => false,
    }
}

/// The trigger was pressed: in toggle mode a recording stops and otherwise starts; in hold
/// mode a recording starts.
pub fn on_trigger_down(toggle: bool, recording: bool) -> (a: DictAction)
    ensures
        a == (if toggle && recording { DictAction::Finish } else { DictAction::Begin }),
{
    if toggle && recording {
        DictAction::Finish
    } else {
        DictAction::Begin
    }
}

/// The trigger was released: in hold mode the recording stops.
pub fn on_trigger_up(toggle: bool) -> (a: DictAction)
    ensures
        a == (if toggle { DictAction::Nothing } else { DictAction::Finish }),
{
    if toggle {
        DictAction::Nothing
    } else {
        DictAction::Finish
    }
}

/// A start while recording, or a stop while not recording, does nothing.
pub fn dictation_step(action: DictAction, recording: bool) -> (a: DictAction)
    ensures
        a == (match action {
            DictAction::Begin => if recording { DictAction::Nothing } else { DictAction::Begin },
            DictAction::Finish => if recording { DictAction::Finish } else { DictAction::Nothing },
            DictAction::Nothing => DictAction::Nothing,
        }),
{
    match action {
        DictAction::Begin => if recording { DictAction::Nothing } else { DictAction::Begin },
        DictAction::Finish => if recording { DictAction::Finish } else { DictAction::Nothing },
        DictAction::Nothing => DictAction::Nothing,
    }
}

/// The text of a finished dictation, trimmed; `None` when nothing was said.
pub fn dictated_text(text: &str) -> (r: Option<String>)
    ensures
        match r {
            Some(t) => t@ == trim_spec(text@) && t@.len() > 0,
            None => trim_spec(text@).len() == 0,
        },
{
    let t = trim_chars(&chars_of(text));
    if t.len() > 0 {
        Some(string_of(&t))
    } else {
        None
    }
}

/// Id of a stored dictation: `dict-<milliseconds>`.
pub fn dictation_id(now_ms: u64) -> (r: String)
    ensures
        r@ == "dict-"@ + crate::text::dec_spec(now_ms as nat),
{
    let mut v = chars_of("dict-");
    crate::text::push_dec(&mut v, now_ms);
    string_of(&v)
}

/// A finished dictation as it is kept: its text trimmed, under `dict-<milliseconds>`, with
/// the length of its `samples` (16 kHz), the dictation model and the dictation language of
/// the settings; none when nothing was said.
pub fn dictation_entry(store: &Store, text: &str, now_ms: u64, samples: u64) -> (r: Option<
    crate::store::StoredDictation,
>)
    requires
        store.wf(),
        now_ms <= i64::MAX,
    ensures
        trim_spec(text@).len() == 0 ==> r is None,
        trim_spec(text@).len() > 0 ==> (r matches Some(d) && d@ == (crate::store::DictV {
            id: "dict-"@ + crate::text::dec_spec(now_ms as nat),
            text: trim_spec(text@),
            created_at: now_ms as int,
            duration_ms: Some(samples / 16),
            model: crate::models::dict_asr_id_spec(store@.settings),
            lang: setting_or(store@.settings, "dict_lang"@, ""@),
        })),
{
    match dictated_text(text) {
        None => None,
        Some(t) => Some(
            crate::store::StoredDictation {
                id: dictation_id(now_ms),
                text: t,
                created_at: now_ms as i64,
                duration_ms: Some(samples / 16),
                model: crate::models::dict_asr_id(store),
                lang: setting_or_default(store, "dict_lang", ""),
            },
        ),
    }
}

/// Number of speakers given to the diarizer: the one asked for, 0 (automatic) when none or
/// negative.
pub fn speaker_count(num: Option<i32>) -> (n: i32)
    ensures
        n == (match num {
            Some(k) => if k > 0 { k } else { 0 },
            None => 0,
        }),
{
    match num {
        Some(k) => if k > 0 { k } else { 0 },
        None => 0,
    }
}

// ───────────────────────── summaries ─────────────────────────

/// The request for an outside chat assistant (the fallback of weak machines): the prompt of
/// the kind, a separator, then the transcript with the speakers' names.
pub fn llm_export_prompt(kind: &str, ui_lang: Option<&str>, job: Option<(&str, &str)>) -> (r: Result<String, String>)
    ensures
        crate::llm::parse_kind_spec(kind@) is None ==> (r matches Err(e) && e@ == "неизвестный тип итога"@),
        crate::llm::parse_kind_spec(kind@) is Some && job is None ==> (r matches Err(e) && e@ == "запись не найдена"@),
        crate::llm::parse_kind_spec(kind@) matches Some(k) ==> (job matches Some((text, speakers)) ==> (r matches Ok(s)
            && s@ == crate::llm::prompt_spec(k, if ui_lang matches Some(l) && l@ == "en"@ {
                crate::llm::Lang::En
            } else {
                crate::llm::Lang::Ru
            }) + "\n\n---\n\nРасшифровка:\n\n"@ + crate::llm::prepare_spec(text@, crate::llm::parsed_names(speakers@)))),
{
    let k = match crate::llm::ResultKind::parse(kind) {
        Some(k) => k,
        None => return Err("неизвестный тип итога".to_owned()),
    };
    match job {
        None => Err("запись не найдена".to_owned()),
        Some((text, speakers)) => {
            let t = crate::llm::prepare_transcript(text, speakers);
            let mut v = chars_of(crate::llm::prompt_text(k, ui_lang));
            extend_chars(&mut v, &chars_of("\n\n---\n\nРасшифровка:\n\n"));
            extend_chars(&mut v, &chars_of(t.as_str()));
            Ok(string_of(&v))
        },
    }
}

/// What a summary of a job is made from: its kind, and its transcript with the speakers'
/// names; refused for an unknown kind, a missing job and a job without text, in that order.
pub fn generation_input(kind: &str, job: Option<(&str, &str)>) -> (r: Result<(crate::llm::ResultKind, String), String>)
    ensures
        crate::llm::parse_kind_spec(kind@) is None ==> (r matches Err(e) && e@ == "неизвестный тип итога"@),
        crate::llm::parse_kind_spec(kind@) is Some && job is None ==> (r matches Err(e) && e@
            == "запись не найдена в истории"@),
        crate::llm::parse_kind_spec(kind@) is Some ==> (job matches Some((text, _s)) ==> (!nonblank(text@) ==> (r matches Err(
            e,
        ) && e@ == "в записи нет текста"@))),
        crate::llm::parse_kind_spec(kind@) matches Some(k) ==> (job matches Some((text, speakers)) ==> (nonblank(text@)
            ==> (r matches Ok((k2, t)) && k2 == k && t@ == crate::llm::prepare_spec(
            text@,
            crate::llm::parsed_names(speakers@),
        )))),
{
    let k = match crate::llm::ResultKind::parse(kind) {
        Some(k) => k,
        None => return Err("неизвестный тип итога".to_owned()),
    };
    match job {
        None => Err("запись не найдена в истории".to_owned()),
        Some((text, speakers)) => {
            if !is_nonblank(&chars_of(text)) {
                Err("в записи нет текста".to_owned())
            } else {
                Ok((k, crate::llm::prepare_transcript(text, speakers)))
            }
        },
    }
}

/// A title is asked for only while the model is in memory (it then costs seconds).
pub fn display_name_allowed(warm: bool) -> (r: Result<(), String>)
    ensures
        warm <==> r is Ok,
        r matches Err(e) ==> e@ == "помощник не запущен"@,
{
    if warm {
        Ok(())
    } else {
        Err("помощник не запущен".to_owned())
    }
}

/// A generated title is kept when it is not blank and at most 80 characters long.
pub fn accept_display_name(name: String) -> (r: Result<String, String>)
    ensures
        (nonblank(name@) && name@.len() <= 80) ==> r == Ok::<String, String>(name),
        !(nonblank(name@) && name@.len() <= 80) ==> (r matches Err(e) && e@ == "название не получилось"@),
{
    if crate::llm::title_acceptable(name.as_str()) {
        Ok(name)
    } else {
        Err("название не получилось".to_owned())
    }
}

/// An artefact edited by the user (ticked tasks and the like), stamped with the summary
/// model and the time.
pub fn save_result_text(store: &mut Store, job_id: &str, kind: &str, text: &str, model: &str, now_ms: i64) -> (r: Result<(), String>)
    requires
        old(store).wf(),
    ensures
        final(store).wf(),
        r is Ok,
        final(store)@.results == old(store)@.results.insert(
            (job_id@, kind@),
            crate::store::ResultV { job_id: job_id@, kind: kind@, text: text@, model: model@, created_at: now_ms as int },
        ),
        final(store)@.jobs == old(store)@.jobs,
        final(store)@.dictations == old(store)@.dictations,
        final(store)@.settings == old(store)@.settings,
{
    let r = crate::store::JobResult {
        job_id: job_id.to_owned(),
        kind: kind.to_owned(),
        text: text.to_owned(),
        model: model.to_owned(),
        created_at: now_ms,
    };
    store.save_result(&r)
}

// ───────────────────────── links ─────────────────────────

/// Only http(s) addresses are opened in the browser.
pub fn open_url_allowed(url: &str) -> (r: Result<(), String>)
    ensures
        (crate::text::starts_with_spec(url@, "http://"@) || crate::text::starts_with_spec(url@, "https://"@)) <==> r is Ok,
        r matches Err(e) ==> e@ == "недопустимый адрес"@,
{
    let u = chars_of(url);
    if crate::text::starts_with(&u, &chars_of("http://")) || crate::text::starts_with(&u, &chars_of("https://")) {
        Ok(())
    } else {
        Err("недопустимый адрес".to_owned())
    }
}

// ───────────────────────── MCP commands ─────────────────────────

/// The default port of the MCP server.
pub const MCP_DEFAULT_PORT: u16 = 8722;

pub open spec fn is_digit(c: char) -> bool {
    '0' <= c && c <= '9'
}

/// Value of a string of decimal digits.
pub open spec fn digits_value(s: Seq<char>) -> nat
    decreases s.len(),
{
    if s.len() == 0 {
        0
    } else {
        digits_value(s.drop_last()) * 10 + ((s.last() as u32 - 48) as nat)
    }
}

pub open spec fn all_digits(d: Seq<char>) -> bool {
    forall|i: int| 0 <= i < d.len() ==> is_digit(#[trigger] d[i])
}

/// The digits of an unsigned number: the text without one leading `+`.
pub open spec fn unsigned_digits(s: Seq<char>) -> Seq<char> {
    if s.len() > 0 && s[0] == '+' {
        s.drop_first()
    } else {
        s
    }
}

/// `u16::from_str`: an optional `+`, then at least one decimal digit, of value at most 65535.
pub open spec fn parse_u16_spec(s: Seq<char>) -> Option<u16> {
    let d = unsigned_digits(s);
    if d.len() > 0 && all_digits(d) && digits_value(d) <= 65535 {
        Some(digits_value(d) as u16)
    } else {
        None
    }
}

pub fn parse_u16(s: &str) -> (r: Option<u16>)
    ensures
        r == parse_u16_spec(s@),
{
    let c = chars_of(s);
    let start: usize = if c.len() > 0 && c[0] == '+' { 1 } else { 0 };
    let ghost d = unsigned_digits(s@);
    assert(d =~= c@.skip(start as int));
    if start >= c.len() {
        return None;
    }
    let mut v: u32 = 0;
    let mut i: usize = start;
    while i < c.len()
        invariant
            start <= i <= c@.len(),
            d == c@.skip(start as int),
            c@ == s@,
            d == unsigned_digits(s@),
            forall|j: int| 0 <= j < i - start ==> is_digit(#[trigger] d[j]),
            v == digits_value(d.take(i - start)),
            v <= 65535,
        decreases c@.len() - i,
    {
        let ch = c[i];
        assert(d[i - start] == ch);
        assert(d.take(i - start + 1).drop_last() =~= d.take(i - start));
        if !('0' <= ch && ch <= '9') {
            assert(!all_digits(d)) by {
                assert(!is_digit(d[(i - start) as int]));
            }
            return None;
        }
        let dv = (ch as u32) - 48;
        if v > 6553 || (v == 6553 && dv > 5) {
            proof {
                let k = (i - start + 1) as int;
                assert(is_digit(d[k - 1]));
                assert(d.take(k).last() == ch);
                assert(digits_value(d.take(k)) == digits_value(d.take(k - 1)) * 10 + dv);
                assert(digits_value(d.take(k)) > 65535);
                lemma_digits_grow(d, k);
                assert(all_digits(d) ==> digits_value(d) > 65535);
            }
            return None;
        }
        v = v * 10 + dv;
        i = i + 1;
    }
    assert(d.take(d.len() as int) =~= d);
    assert(all_digits(d));
    Some(v as u16)
}

proof fn lemma_digits_grow(d: Seq<char>, k: int)
    requires
        0 <= k <= d.len(),
        forall|j: int| 0 <= j < k ==> is_digit(#[trigger] d[j]),
    ensures
        all_digits(d) ==> digits_value(d) >= digits_value(d.take(k)),
    decreases d.len() - k,
{
    if k < d.len() && all_digits(d) {
        lemma_digits_grow(d, k + 1);
        assert(d.take(k + 1).drop_last() =~= d.take(k));
    } else if k == d.len() {
        assert(d.take(k) =~= d);
    }
}

/// The configured port of the MCP server (`mcp_port`), `MCP_DEFAULT_PORT` when unset or not
/// a port number.
pub fn mcp_port_setting(store: &Store) -> (p: u16)
    requires
        store.wf(),
    ensures
        p == (if store@.settings.contains_key("mcp_port"@) && parse_u16_spec(store@.settings["mcp_port"@]) is Some {
            parse_u16_spec(store@.settings["mcp_port"@])->0
        } else {
            MCP_DEFAULT_PORT
        }),
{
    match store.get_setting("mcp_port") {
        Some(v) => match parse_u16(v.as_str()) {
            Some(p) => p,
            None => MCP_DEFAULT_PORT,
        },
        None => MCP_DEFAULT_PORT,
    }
}

/// The MCP token, when one is set and not empty.
pub fn mcp_token(store: &Store) -> (r: Option<String>)
    requires
        store.wf(),
    ensures
        match r {
            Some(t) => store@.settings.contains_key("mcp_token"@) && t@ == store@.settings["mcp_token"@] && t@.len() > 0,
            None => !(store@.settings.contains_key("mcp_token"@) && store@.settings["mcp_token"@].len() > 0),
        },
{
    match store.get_setting("mcp_token") {
        Some(t) => if !t.as_str().is_empty() { Some(t) } else { None },
        None => None,
    }
}

/// The address clients connect to.
pub fn mcp_url(port: u16) -> (r: String)
    ensures
        r@ == "http://127.0.0.1:"@ + crate::text::dec_spec(port as nat) + "/mcp"@,
{
    let mut v = chars_of("http://127.0.0.1:");
    crate::text::push_dec(&mut v, port as u64);
    extend_chars(&mut v, &chars_of("/mcp"));
    string_of(&v)
}

/// The status line of the tray: recording, else the MCP server, else ready.
pub fn tray_status_text(recording: bool, mcp_port: Option<u16>) -> (r: String)
    ensures
        r@ == (if recording {
            "● Идёт запись диктовки"@
        } else if mcp_port is Some {
            "MCP-сервер: вкл :"@ + crate::text::dec_spec(mcp_port->0 as nat)
        } else {
            "Готов"@
        }),
{
    if recording {
        return "● Идёт запись диктовки".to_owned();
    }
    match mcp_port {
        Some(p) => {
            let mut v = chars_of("MCP-сервер: вкл :");
            crate::text::push_dec(&mut v, p as u64);
            string_of(&v)
        },
        None => "Готов".to_owned(),
    }
}

// ───────────────────────── permissions ─────────────────────────

/// The settings pane opened to grant a permission on macOS, by its kind; other kinds are
/// refused ("неизвестное разрешение"). Other systems need none.
pub fn permission_anchor(kind: &str) -> (r: Result<&'static str, String>)
    ensures
        kind@ == "accessibility"@ ==> (r matches Ok(a) && a@ == "Privacy_Accessibility"@),
        kind@ == "input-monitoring"@ ==> (r matches Ok(a) && a@ == "Privacy_ListenEvent"@),
        !(kind@ == "accessibility"@ || kind@ == "input-monitoring"@) ==> (r matches Err(e) && e@
            == "неизвестное разрешение"@),
{
    proof {
        reveal_strlit("accessibility");
        reveal_strlit("input-monitoring");
        assert("accessibility"@[0] != "input-monitoring"@[0]);
    }
    if str_eq(kind, "accessibility") {
        Ok("Privacy_Accessibility")
    } else if str_eq(kind, "input-monitoring") {
        Ok("Privacy_ListenEvent")
    } else {
        Err("неизвестное разрешение".to_owned())
    }
}

/// The settings URL of a privacy pane on macOS.
pub fn privacy_settings_url(anchor: &str) -> (r: String)
    ensures
        r@ == "x-apple.systempreferences:com.apple.preference.security?"@ + anchor@,
{
    crate::text::concat("x-apple.systempreferences:com.apple.preference.security?", anchor)
}

} // verus!

verus! {

/// The MCP page of the interface.
pub struct McpStatus {
    pub running: bool,
    pub port: u16,
    pub url: String,
    pub autostart: bool,
    pub has_token: bool,
    pub tools: Vec<String>,
}

/// The status: the running port, else the configured one.
pub fn mcp_status(server: &crate::mcp::McpServer, store: &Store) -> (s: McpStatus)
    requires
        store.wf(),
    ensures
        s.running == server@ is Some,
        s.port == (match server@ {
            Some(p) => p,
            None => mcp_port_setting_spec(store@.settings),
        }),
        s.url@ == "http://127.0.0.1:"@ + crate::text::dec_spec(s.port as nat) + "/mcp"@,
        s.autostart == bool_setting(store@.settings, "mcp_autostart"@, false),
        s.has_token == (store@.settings.contains_key("mcp_token"@) && store@.settings["mcp_token"@].len() > 0),
        strings_view(s.tools@) == crate::mcp::tool_names_spec(),
{
    let running = server.is_running();
    let port = match server.running_port() {
        Some(p) => p,
        None => mcp_port_setting(store),
    };
    let names = crate::mcp::tool_names();
    let mut tools: Vec<String> = Vec::new();
    let mut i: usize = 0;
    while i < names.len()
        invariant
            i <= names@.len(),
            strings_view(tools@) == names@.take(i as int).map_values(|s: &'static str| s@),
        decreases names@.len() - i,
    {
        let ghost before = tools@;
        tools.push(names[i].to_owned());
        assert(strings_view(tools@) =~= strings_view(before).push(names@[i as int]@));
        assert(names@.take(i + 1).map_values(|s: &'static str| s@) =~= names@.take(i as int).map_values(
            |s: &'static str| s@,
        ).push(names@[i as int]@));
        i = i + 1;
    }
    assert(names@.take(names@.len() as int) =~= names@);
    McpStatus {
        running,
        port,
        url: mcp_url(port),
        autostart: get_bool(store, "mcp_autostart", false),
        has_token: mcp_token(store).is_some(),
        tools,
    }
}

pub open spec fn mcp_port_setting_spec(st: Map<Seq<char>, Seq<char>>) -> u16 {
    if st.contains_key("mcp_port"@) && parse_u16_spec(st["mcp_port"@]) is Some {
        parse_u16_spec(st["mcp_port"@])->0
    } else {
        MCP_DEFAULT_PORT
    }
}

/// The MCP settings as the form shows them.
pub struct McpConfig {
    pub enabled: bool,
    pub port: u16,
    pub token: String,
    pub autostart: bool,
}

pub fn mcp_config(server: &crate::mcp::McpServer, store: &Store) -> (c: McpConfig)
    requires
        store.wf(),
    ensures
        c.enabled == server@ is Some,
        c.port == mcp_port_setting_spec(store@.settings),
        c.token@ == setting_or(store@.settings, "mcp_token"@, ""@),
        c.autostart == bool_setting(store@.settings, "mcp_autostart"@, false),
{
    McpConfig {
        enabled: server.is_running(),
        port: mcp_port_setting(store),
        token: setting_or_default(store, "mcp_token", ""),
        autostart: get_bool(store, "mcp_autostart", false),
    }
}

/// What applying new MCP settings takes: stopping the running server (to restart it with
/// them), then, when enabled, binding anew.
pub struct McpReconfig {
    pub stopped: bool,
    pub bind: Option<(u16, Option<String>)>,
}

/// Stores the MCP settings and plans the restart.
pub fn set_mcp_config(store: &mut Store, server: &mut crate::mcp::McpServer, c: &McpConfig) -> (r: McpReconfig)
    requires
        old(store).wf(),
    ensures
        final(store).wf(),
        final(store)@.settings == old(store)@.settings.insert("mcp_port"@, crate::text::dec_spec(c.port as nat))
            .insert("mcp_token"@, c.token@).insert("mcp_autostart"@, flag(c.autostart)),
        final(store)@.jobs == old(store)@.jobs,
        final(store)@.dictations == old(store)@.dictations,
        final(store)@.results == old(store)@.results,
        r.stopped == old(server)@ is Some,
        final(server)@ is None,
        c.enabled ==> (r.bind matches Some((p, t)) && p == c.port && crate::mcp::opt_str(t)
            == crate::mcp::auth_spec(Some(c.token@))),
        !c.enabled ==> r.bind is None,
{
    let mut v: Vec<char> = Vec::new();
    crate::text::push_dec(&mut v, c.port as u64);
    assert(v@ =~= crate::text::dec_spec(c.port as nat));
    let ps = string_of(&v);
    let _ = store.set_setting("mcp_port", ps.as_str());
    let _ = store.set_setting("mcp_token", c.token.as_str());
    let _ = store.set_setting("mcp_autostart", if c.autostart { "1" } else { "0" });
    let stopped = server.stop();
    let bind = if c.enabled {
        match server.start(c.port, Some(c.token.as_str())) {
            crate::mcp::McpStart::Bind { port, token } => Some((port, token)),
            crate::mcp::McpStart::Running(_) => None,
        }
    } else {
        None
    };
    McpReconfig { stopped, bind }
}

/// A start from the interface: on the configured port, with the configured token.
pub fn mcp_start(store: &Store, server: &crate::mcp::McpServer) -> (r: crate::mcp::McpStart)
    requires
        store.wf(),
    ensures
        server@ matches Some(p) ==> r == crate::mcp::McpStart::Running(p),
        server@ is None ==> (r matches crate::mcp::McpStart::Bind { port: bp, token: t } && bp
            == mcp_port_setting_spec(store@.settings) && crate::mcp::opt_str(t) == (if store@.settings.contains_key(
            "mcp_token"@,
        ) && store@.settings["mcp_token"@].len() > 0 {
            Some(store@.settings["mcp_token"@])
        } else {
            None
        })),
{
    let port = mcp_port_setting(store);
    let token = mcp_token(store);
    match &token {
        Some(t) => server.start(port, Some(t.as_str())),
        None => server.start(port, None),
    }
}

/// The server is bound on `port`: it runs there, and that port becomes the configured one.
pub fn mcp_started(store: &mut Store, server: &mut crate::mcp::McpServer, port: u16)
    requires
        old(store).wf(),
    ensures
        final(store).wf(),
        final(server)@ == Some(port),
        final(store)@.settings == old(store)@.settings.insert("mcp_port"@, crate::text::dec_spec(port as nat)),
        final(store)@.jobs == old(store)@.jobs,
        final(store)@.dictations == old(store)@.dictations,
        final(store)@.results == old(store)@.results,
{
    server.bound(port);
    let mut v: Vec<char> = Vec::new();
    crate::text::push_dec(&mut v, port as u64);
    assert(v@ =~= crate::text::dec_spec(port as nat));
    let ps = string_of(&v);
    let _ = store.set_setting("mcp_port", ps.as_str());
}

} // verus!

verus! {

/// `usize::from_str`: an optional `+`, then at least one decimal digit, of value at most
/// `usize::MAX`.
pub open spec fn parse_usize_spec(s: Seq<char>) -> Option<usize> {
    let d = unsigned_digits(s);
    if d.len() > 0 && all_digits(d) && digits_value(d) <= usize::MAX {
        Some(digits_value(d) as usize)
    } else {
        None
    }
}

pub fn parse_usize(s: &str) -> (r: Option<usize>)
    ensures
        r == parse_usize_spec(s@),
{
    let c = chars_of(s);
    let start: usize = if c.len() > 0 && c[0] == '+' { 1 } else { 0 };
    let ghost d = unsigned_digits(s@);
    assert(d =~= c@.skip(start as int));
    if start >= c.len() {
        return None;
    }
    let mut v: usize = 0;
    let mut i: usize = start;
    while i < c.len()
        invariant
            start <= i <= c@.len(),
            d == c@.skip(start as int),
            c@ == s@,
            d == unsigned_digits(s@),
            forall|j: int| 0 <= j < i - start ==> is_digit(#[trigger] d[j]),
            v == digits_value(d.take(i - start)),
        decreases c@.len() - i,
    {
        let ch = c[i];
        assert(d[i - start] == ch);
        assert(d.take(i - start + 1).drop_last() =~= d.take(i - start));
        if !('0' <= ch && ch <= '9') {
            assert(!all_digits(d)) by {
                assert(!is_digit(d[(i - start) as int]));
            }
            return None;
        }
        let dv = ((ch as u32) - 48) as usize;
        let next = match v.checked_mul(10) {
            Some(m) => m.checked_add(dv),
            None => None,
        };
        match next {
            None => {
                proof {
                    let k = (i - start + 1) as int;
                    assert(is_digit(d[k - 1]));
                    assert(d.take(k).last() == ch);
                    assert(digits_value(d.take(k)) == digits_value(d.take(k - 1)) * 10 + dv);
                    assert(digits_value(d.take(k)) > usize::MAX);
                    lemma_digits_grow(d, k);
                    assert(all_digits(d) ==> digits_value(d) > usize::MAX);
                }
                return None;
            },
            Some(nv) => {
                v = nv;
            },
        }
        i = i + 1;
    }
    assert(d.take(d.len() as int) =~= d);
    assert(all_digits(d));
    Some(v)
}

} // verus!
