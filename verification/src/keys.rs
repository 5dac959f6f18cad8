//! Global keys for push-to-talk: the platform key codes mapped to the names the interface
//! uses (`ShiftRight`, `ControlLeft`, `KeyA`, `Num1`, `F5`, `Space`, ...), and which events are
//! presses and releases. The platform hooks deliver the raw codes; the names are decided here.
use vstd::prelude::*;

verus! {

pub open spec fn opt_name(v: Option<&'static str>) -> Option<Seq<char>> {
    match v {
        Some(s) => Some(s@),
        None => None,
    }
}

/// macOS virtual key code of an ordinary key → its name.
pub open spec fn key_name_spec(k: i64) -> Option<Seq<char>> {
    match k {
        0 => Some("KeyA"@),
        1 => Some("KeyS"@),
        2 => Some("KeyD"@),
        3 => Some("KeyF"@),
        4 => Some("KeyH"@),
        5 => Some("KeyG"@),
        6 => Some("KeyZ"@),
        7 => Some("KeyX"@),
        8 => Some("KeyC"@),
        9 => Some("KeyV"@),
        11 => Some("KeyB"@),
        12 => Some("KeyQ"@),
        13 => Some("KeyW"@),
        14 => Some("KeyE"@),
        15 => Some("KeyR"@),
        16 => Some("KeyY"@),
        17 => Some("KeyT"@),
        31 => Some("KeyO"@),
        32 => Some("KeyU"@),
        34 => Some("KeyI"@),
        35 => Some("KeyP"@),
        37 => Some("KeyL"@),
        38 => Some("KeyJ"@),
        40 => Some("KeyK"@),
        45 => Some("KeyN"@),
        46 => Some("KeyM"@),
        29 => Some("Num0"@),
        18 => Some("Num1"@),
        19 => Some("Num2"@),
        20 => Some("Num3"@),
        21 => Some("Num4"@),
        23 => Some("Num5"@),
        22 => Some("Num6"@),
        26 => Some("Num7"@),
        28 => Some("Num8"@),
        25 => Some("Num9"@),
        49 => Some("Space"@),
        36 => Some("Return"@),
        48 => Some("Tab"@),
        53 => Some("Escape"@),
        51 => Some("Backspace"@),
        122 => Some("F1"@),
        120 => Some("F2"@),
        99 => Some("F3"@),
        118 => Some("F4"@),
        96 => Some("F5"@),
        97 => Some("F6"@),
        98 => Some("F7"@),
        100 => Some("F8"@),
        101 => Some("F9"@),
        109 => Some("F10"@),
        103 => Some("F11"@),
        111 => Some("F12"@),
        123 => Some("LeftArrow"@),
        124 => Some("RightArrow"@),
        125 => Some("DownArrow"@),
        126 => Some("UpArrow"@),
        _ => None,
    }
}

pub fn key_name(k: i64) -> (r: Option<&'static str>)
    ensures
        opt_name(r) == key_name_spec(k),
{
    match k {
        0 => Some("KeyA"),
        1 => Some("KeyS"),
        2 => Some("KeyD"),
        3 => Some("KeyF"),
        4 => Some("KeyH"),
        5 => Some("KeyG"),
        6 => Some("KeyZ"),
        7 => Some("KeyX"),
        8 => Some("KeyC"),
        9 => Some("KeyV"),
        11 => Some("KeyB"),
        12 => Some("KeyQ"),
        13 => Some("KeyW"),
        14 => Some("KeyE"),
        15 => Some("KeyR"),
        16 => Some("KeyY"),
        17 => Some("KeyT"),
        31 => Some("KeyO"),
        32 => Some("KeyU"),
        34 => Some("KeyI"),
        35 => Some("KeyP"),
        37 => Some("KeyL"),
        38 => Some("KeyJ"),
        40 => Some("KeyK"),
        45 => Some("KeyN"),
        46 => Some("KeyM"),
        29 => Some("Num0"),
        18 => Some("Num1"),
        19 => Some("Num2"),
        20 => Some("Num3"),
        21 => Some("Num4"),
        23 => Some("Num5"),
        22 => Some("Num6"),
        26 => Some("Num7"),
        28 => Some("Num8"),
        25 => Some("Num9"),
        49 => Some("Space"),
        36 => Some("Return"),
        48 => Some("Tab"),
        53 => Some("Escape"),
        51 => Some("Backspace"),
        122 => Some("F1"),
        120 => Some("F2"),
        99 => Some("F3"),
        118 => Some("F4"),
        96 => Some("F5"),
        97 => Some("F6"),
        98 => Some("F7"),
        100 => Some("F8"),
        101 => Some("F9"),
        109 => Some("F10"),
        103 => Some("F11"),
        111 => Some("F12"),
        123 => Some("LeftArrow"),
        124 => Some("RightArrow"),
        125 => Some("DownArrow"),
        126 => Some("UpArrow"),
        _ => None,
    }
}

/// macOS modifier key code (of a flags-changed event) → its name and its device-dependent
/// mask in the event flags.
pub open spec fn mod_name_spec(k: i64) -> Option<(Seq<char>, u64)> {
    match k {
        56 => Some(("ShiftLeft"@, 0x0000_0002)),
        60 => Some(("ShiftRight"@, 0x0000_0004)),
        59 => Some(("ControlLeft"@, 0x0000_0001)),
        62 => Some(("ControlRight"@, 0x0000_2000)),
        58 => Some(("Alt"@, 0x0000_0020)),
        61 => Some(("AltGr"@, 0x0000_0040)),
        55 => Some(("MetaLeft"@, 0x0000_0008)),
        54 => Some(("MetaRight"@, 0x0000_0010)),
        57 => Some(("CapsLock"@, 0x0001_0000)),
        _ => None,
    }
}

pub fn mod_name(k: i64) -> (r: Option<(&'static str, u64)>)
    ensures
        match r {
            Some(p) => mod_name_spec(k) == Some((p.0@, p.1)),
            None => mod_name_spec(k) is None,
        },
{
    match k {
        56 => Some(("ShiftLeft", 0x0000_0002)),
        60 => Some(("ShiftRight", 0x0000_0004)),
        59 => Some(("ControlLeft", 0x0000_0001)),
        62 => Some(("ControlRight", 0x0000_2000)),
        58 => Some(("Alt", 0x0000_0020)),
        61 => Some(("AltGr", 0x0000_0040)),
        55 => Some(("MetaLeft", 0x0000_0008)),
        54 => Some(("MetaRight", 0x0000_0010)),
        57 => Some(("CapsLock", 0x0001_0000)),
        _ => None,
    }
}

/// Kind of a macOS keyboard event.
#[derive(Clone, Copy, PartialEq, Eq, Structural, Debug)]
pub enum MacEvent {
    KeyDown,
    KeyUp,
    FlagsChanged,
    Other,
}

/// A macOS keyboard event as (name, pressed): ordinary keys by their event kind, modifiers
/// pressed while their bit is set in the event flags.
pub open spec fn mac_key_spec(kind: MacEvent, keycode: i64, flags: u64) -> Option<(Seq<char>, bool)> {
    match kind {
        MacEvent::KeyDown => match key_name_spec(keycode) {
            Some(n) => Some((n, true)),
            None => None,
        },
        MacEvent::KeyUp => match key_name_spec(keycode) {
            Some(n) => Some((n, false)),
            None => None,
        },
        MacEvent::FlagsChanged => match mod_name_spec(keycode) {
            Some((n, mask)) => Some((n, flags & mask != 0)),
            None => None,
        },
        MacEvent::Other => None,
    }
}

pub fn mac_key(kind: MacEvent, keycode: i64, flags: u64) -> (r: Option<(&'static str, bool)>)
    ensures
        match r {
            Some(p) => mac_key_spec(kind, keycode, flags) == Some((p.0@, p.1)),
            None => mac_key_spec(kind, keycode, flags) is None,
        },
{
    match kind {
        MacEvent::KeyDown => match key_name(keycode) {
            Some(n) => Some((n, true)),
            None => None,
        },
        MacEvent::KeyUp => match key_name(keycode) {
            Some(n) => Some((n, false)),
            None => None,
        },
        MacEvent::FlagsChanged => match mod_name(keycode) {
            Some((n, mask)) => Some((n, flags & mask != 0)),
            None => None,
        },
        MacEvent::Other => None,
    }
}

/// Flag of an extended key in the Windows low-level keyboard hook.
pub const LLKHF_EXTENDED: u32 = 0x01;

/// Windows virtual key → its name; left and right modifiers told apart by the scan code or
/// the extended-key flag.
pub open spec fn vk_name_spec(vk: u32, scan: u32, flags: u32) -> Option<Seq<char>> {
    let ext = flags & LLKHF_EXTENDED != 0;
    match vk {
        0x10 => Some(if scan == 0x36 { "ShiftRight"@ } else { "ShiftLeft"@ }),
        0x11 => Some(if ext { "ControlRight"@ } else { "ControlLeft"@ }),
        0x12 => Some(if ext { "AltGr"@ } else { "Alt"@ }),
        0x5B => Some("MetaLeft"@),
        0x5C => Some("MetaRight"@),
        0x20 => Some("Space"@),
        0x0D => Some("Return"@),
        0x09 => Some("Tab"@),
        0x1B => Some("Escape"@),
        0x08 => Some("Backspace"@),
        0x25 => Some("LeftArrow"@),
        0x26 => Some("UpArrow"@),
        0x27 => Some("RightArrow"@),
        0x28 => Some("DownArrow"@),
        0xA0 => Some("ShiftLeft"@),
        0xA1 => Some("ShiftRight"@),
        0xA2 => Some("ControlLeft"@),
        0xA3 => Some("ControlRight"@),
        0xA4 => Some("Alt"@),
        0xA5 => Some("AltGr"@),
        0x41 => Some("KeyA"@),
        0x42 => Some("KeyB"@),
        0x43 => Some("KeyC"@),
        0x44 => Some("KeyD"@),
        0x45 => Some("KeyE"@),
        0x46 => Some("KeyF"@),
        0x47 => Some("KeyG"@),
        0x48 => Some("KeyH"@),
        0x49 => Some("KeyI"@),
        0x4A => Some("KeyJ"@),
        0x4B => Some("KeyK"@),
        0x4C => Some("KeyL"@),
        0x4D => Some("KeyM"@),
        0x4E => Some("KeyN"@),
        0x4F => Some("KeyO"@),
        0x50 => Some("KeyP"@),
        0x51 => Some("KeyQ"@),
        0x52 => Some("KeyR"@),
        0x53 => Some("KeyS"@),
        0x54 => Some("KeyT"@),
        0x55 => Some("KeyU"@),
        0x56 => Some("KeyV"@),
        0x57 => Some("KeyW"@),
        0x58 => Some("KeyX"@),
        0x59 => Some("KeyY"@),
        0x5A => Some("KeyZ"@),
        0x30 => Some("Num0"@),
        0x31 => Some("Num1"@),
        0x32 => Some("Num2"@),
        0x33 => Some("Num3"@),
        0x34 => Some("Num4"@),
        0x35 => Some("Num5"@),
        0x36 => Some("Num6"@),
        0x37 => Some("Num7"@),
        0x38 => Some("Num8"@),
        0x39 => Some("Num9"@),
        0x70 => Some("F1"@),
        0x71 => Some("F2"@),
        0x72 => Some("F3"@),
        0x73 => Some("F4"@),
        0x74 => Some("F5"@),
        0x75 => Some("F6"@),
        0x76 => Some("F7"@),
        0x77 => Some("F8"@),
        0x78 => Some("F9"@),
        0x79 => Some("F10"@),
        0x7A => Some("F11"@),
        0x7B => Some("F12"@),
        _ => None,
    }
}

pub fn vk_name(vk: u32, scan: u32, flags: u32) -> (r: Option<&'static str>)
    ensures
        opt_name(r) == vk_name_spec(vk, scan, flags),
{
    let ext = flags & LLKHF_EXTENDED != 0;
    match vk {
        0x10 => Some(if scan == 0x36 { "ShiftRight" } else { "ShiftLeft" }),
        0x11 => Some(if ext { "ControlRight" } else { "ControlLeft" }),
        0x12 => Some(if ext { "AltGr" } else { "Alt" }),
        0x5B => Some("MetaLeft"),
        0x5C => Some("MetaRight"),
        0x20 => Some("Space"),
        0x0D => Some("Return"),
        0x09 => Some("Tab"),
        0x1B => Some("Escape"),
        0x08 => Some("Backspace"),
        0x25 => Some("LeftArrow"),
        0x26 => Some("UpArrow"),
        0x27 => Some("RightArrow"),
        0x28 => Some("DownArrow"),
        0xA0 => Some("ShiftLeft"),
        0xA1 => Some("ShiftRight"),
        0xA2 => Some("ControlLeft"),
        0xA3 => Some("ControlRight"),
        0xA4 => Some("Alt"),
        0xA5 => Some("AltGr"),
        0x41 => Some("KeyA"),
        0x42 => Some("KeyB"),
        0x43 => Some("KeyC"),
        0x44 => Some("KeyD"),
        0x45 => Some("KeyE"),
        0x46 => Some("KeyF"),
        0x47 => Some("KeyG"),
        0x48 => Some("KeyH"),
        0x49 => Some("KeyI"),
        0x4A => Some("KeyJ"),
        0x4B => Some("KeyK"),
        0x4C => Some("KeyL"),
        0x4D => Some("KeyM"),
        0x4E => Some("KeyN"),
        0x4F => Some("KeyO"),
        0x50 => Some("KeyP"),
        0x51 => Some("KeyQ"),
        0x52 => Some("KeyR"),
        0x53 => Some("KeyS"),
        0x54 => Some("KeyT"),
        0x55 => Some("KeyU"),
        0x56 => Some("KeyV"),
        0x57 => Some("KeyW"),
        0x58 => Some("KeyX"),
        0x59 => Some("KeyY"),
        0x5A => Some("KeyZ"),
        0x30 => Some("Num0"),
        0x31 => Some("Num1"),
        0x32 => Some("Num2"),
        0x33 => Some("Num3"),
        0x34 => Some("Num4"),
        0x35 => Some("Num5"),
        0x36 => Some("Num6"),
        0x37 => Some("Num7"),
        0x38 => Some("Num8"),
        0x39 => Some("Num9"),
        0x70 => Some("F1"),
        0x71 => Some("F2"),
        0x72 => Some("F3"),
        0x73 => Some("F4"),
        0x74 => Some("F5"),
        0x75 => Some("F6"),
        0x76 => Some("F7"),
        0x77 => Some("F8"),
        0x78 => Some("F9"),
        0x79 => Some("F10"),
        0x7A => Some("F11"),
        0x7B => Some("F12"),
        _ => None,
    }
}

pub const WM_KEYDOWN: u32 = 0x0100;
pub const WM_KEYUP: u32 = 0x0101;
pub const WM_SYSKEYDOWN: u32 = 0x0104;
pub const WM_SYSKEYUP: u32 = 0x0105;

/// A Windows hook event as (name, pressed): only for a non-negative hook code and a key
/// message (system keys included) of a known key.
pub open spec fn win_key_spec(code: i32, msg: u32, vk: u32, scan: u32, flags: u32) -> Option<(Seq<char>, bool)> {
    let down = msg == WM_KEYDOWN || msg == WM_SYSKEYDOWN;
    let up = msg == WM_KEYUP || msg == WM_SYSKEYUP;
    if code >= 0 && (down || up) {
        match vk_name_spec(vk, scan, flags) {
            Some(n) => Some((n, down)),
            None => None,
        }
    } else {
        None
    }
}

pub fn win_key(code: i32, msg: u32, vk: u32, scan: u32, flags: u32) -> (r: Option<(&'static str, bool)>)
    ensures
        match r {
            Some(p) => win_key_spec(code, msg, vk, scan, flags) == Some((p.0@, p.1)),
            None => win_key_spec(code, msg, vk, scan, flags) is None,
        },
{
    let down = msg == WM_KEYDOWN || msg == WM_SYSKEYDOWN;
    let up = msg == WM_KEYUP || msg == WM_SYSKEYUP;
    if code >= 0 && (down || up) {
        match vk_name(vk, scan, flags) {
            Some(n) => Some((n, down)),
            None => None,
        }
    } else {
        None
    }
}

/// The global listener where the platform has none: the callback is never called.
pub fn listen<F: Fn(&str, bool)>(_cb: F) {
}

} // verus!
