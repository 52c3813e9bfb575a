//! Global shortcuts from raw key events: key names, binding strings, the
//! modifier state and the press/release state machine.
use vstd::prelude::*;
use crate::numfmt::{dec_char, dec_digits};
use crate::text::{
    chars_of, copy_string, lowercase, push_str, str_eq, str_to_string, string_of, to_lowercase,
    trim, trim_str,
};

verus! {

/// A keyboard key.
#[derive(Debug, Clone, Copy, PartialEq, Eq, Structural)]
pub enum Key {
    CapsLock,
    F1,
    F2,
    F3,
    F4,
    F5,
    F6,
    F7,
    F8,
    F9,
    F10,
    F11,
    F12,
    F13,
    F14,
    F15,
    F16,
    F17,
    F18,
    F19,
    F20,
    F21,
    F22,
    F23,
    F24,
    Space,
    Return,
    Tab,
    Backspace,
    Escape,
    Delete,
    Insert,
    Home,
    End,
    PageUp,
    PageDown,
    UpArrow,
    DownArrow,
    LeftArrow,
    RightArrow,
    Kp0,
    Kp1,
    Kp2,
    Kp3,
    Kp4,
    Kp5,
    Kp6,
    Kp7,
    Kp8,
    Kp9,
    KpMultiply,
    KpPlus,
    KpMinus,
    KpDecimal,
    KpDivide,
    KpReturn,
    KeyA,
    KeyB,
    KeyC,
    KeyD,
    KeyE,
    KeyF,
    KeyG,
    KeyH,
    KeyI,
    KeyJ,
    KeyK,
    KeyL,
    KeyM,
    KeyN,
    KeyO,
    KeyP,
    KeyQ,
    KeyR,
    KeyS,
    KeyT,
    KeyU,
    KeyV,
    KeyW,
    KeyX,
    KeyY,
    KeyZ,
    Num0,
    Num1,
    Num2,
    Num3,
    Num4,
    Num5,
    Num6,
    Num7,
    Num8,
    Num9,
    BackQuote,
    Minus,
    Equal,
    LeftBracket,
    RightBracket,
    BackSlash,
    SemiColon,
    Quote,
    Comma,
    Dot,
    Slash,
    PrintScreen,
    ScrollLock,
    Pause,
    NumLock,
    IntlBackslash,
    ControlLeft,
    ControlRight,
    ShiftLeft,
    ShiftRight,
    Alt,
    AltGr,
    MetaLeft,
    MetaRight,
    /// Any other key.
    Other,
}

/// The key names a binding may use, in the order they are tried.
pub open spec fn key_table() -> Seq<(Seq<char>, Key)> {
    seq![
        ("caps lock"@, Key::CapsLock),
        ("capslock"@, Key::CapsLock),
        ("caps"@, Key::CapsLock),
        ("f1"@, Key::F1),
        ("f2"@, Key::F2),
        ("f3"@, Key::F3),
        ("f4"@, Key::F4),
        ("f5"@, Key::F5),
        ("f6"@, Key::F6),
        ("f7"@, Key::F7),
        ("f8"@, Key::F8),
        ("f9"@, Key::F9),
        ("f10"@, Key::F10),
        ("f11"@, Key::F11),
        ("f12"@, Key::F12),
        ("f13"@, Key::F13),
        ("f14"@, Key::F14),
        ("f15"@, Key::F15),
        ("f16"@, Key::F16),
        ("f17"@, Key::F17),
        ("f18"@, Key::F18),
        ("f19"@, Key::F19),
        ("f20"@, Key::F20),
        ("f21"@, Key::F21),
        ("f22"@, Key::F22),
        ("f23"@, Key::F23),
        ("f24"@, Key::F24),
        ("space"@, Key::Space),
        ("spacebar"@, Key::Space),
        ("enter"@, Key::Return),
        ("return"@, Key::Return),
        ("tab"@, Key::Tab),
        ("backspace"@, Key::Backspace),
        ("back"@, Key::Backspace),
        ("escape"@, Key::Escape),
        ("esc"@, Key::Escape),
        ("delete"@, Key::Delete),
        ("del"@, Key::Delete),
        ("insert"@, Key::Insert),
        ("ins"@, Key::Insert),
        ("home"@, Key::Home),
        ("end"@, Key::End),
        ("pageup"@, Key::PageUp),
        ("page up"@, Key::PageUp),
        ("pgup"@, Key::PageUp),
        ("pagedown"@, Key::PageDown),
        ("page down"@, Key::PageDown),
        ("pgdn"@, Key::PageDown),
        ("up"@, Key::UpArrow),
        ("arrowup"@, Key::UpArrow),
        ("down"@, Key::DownArrow),
        ("arrowdown"@, Key::DownArrow),
        ("left"@, Key::LeftArrow),
        ("arrowleft"@, Key::LeftArrow),
        ("right"@, Key::RightArrow),
        ("arrowright"@, Key::RightArrow),
        ("num0"@, Key::Kp0),
        ("numpad0"@, Key::Kp0),
        ("num1"@, Key::Kp1),
        ("numpad1"@, Key::Kp1),
        ("num2"@, Key::Kp2),
        ("numpad2"@, Key::Kp2),
        ("num3"@, Key::Kp3),
        ("numpad3"@, Key::Kp3),
        ("num4"@, Key::Kp4),
        ("numpad4"@, Key::Kp4),
        ("num5"@, Key::Kp5),
        ("numpad5"@, Key::Kp5),
        ("num6"@, Key::Kp6),
        ("numpad6"@, Key::Kp6),
        ("num7"@, Key::Kp7),
        ("numpad7"@, Key::Kp7),
        ("num8"@, Key::Kp8),
        ("numpad8"@, Key::Kp8),
        ("num9"@, Key::Kp9),
        ("numpad9"@, Key::Kp9),
        ("nummultiply"@, Key::KpMultiply),
        ("numpad*"@, Key::KpMultiply),
        ("num*"@, Key::KpMultiply),
        ("numadd"@, Key::KpPlus),
        ("numpad+"@, Key::KpPlus),
        ("num+"@, Key::KpPlus),
        ("numsubtract"@, Key::KpMinus),
        ("numpad-"@, Key::KpMinus),
        ("num-"@, Key::KpMinus),
        ("numdecimal"@, Key::KpDecimal),
        ("numpad."@, Key::KpDecimal),
        ("num."@, Key::KpDecimal),
        ("numdivide"@, Key::KpDivide),
        ("numpad/"@, Key::KpDivide),
        ("num/"@, Key::KpDivide),
        ("numenter"@, Key::KpReturn),
        ("a"@, Key::KeyA),
        ("b"@, Key::KeyB),
        ("c"@, Key::KeyC),
        ("d"@, Key::KeyD),
        ("e"@, Key::KeyE),
        ("f"@, Key::KeyF),
        ("g"@, Key::KeyG),
        ("h"@, Key::KeyH),
        ("i"@, Key::KeyI),
        ("j"@, Key::KeyJ),
        ("k"@, Key::KeyK),
        ("l"@, Key::KeyL),
        ("m"@, Key::KeyM),
        ("n"@, Key::KeyN),
        ("o"@, Key::KeyO),
        ("p"@, Key::KeyP),
        ("q"@, Key::KeyQ),
        ("r"@, Key::KeyR),
        ("s"@, Key::KeyS),
        ("t"@, Key::KeyT),
        ("u"@, Key::KeyU),
        ("v"@, Key::KeyV),
        ("w"@, Key::KeyW),
        ("x"@, Key::KeyX),
        ("y"@, Key::KeyY),
        ("z"@, Key::KeyZ),
        ("0"@, Key::Num0),
        ("1"@, Key::Num1),
        ("2"@, Key::Num2),
        ("3"@, Key::Num3),
        ("4"@, Key::Num4),
        ("5"@, Key::Num5),
        ("6"@, Key::Num6),
        ("7"@, Key::Num7),
        ("8"@, Key::Num8),
        ("9"@, Key::Num9),
        ("`"@, Key::BackQuote),
        ("backquote"@, Key::BackQuote),
        ("grave"@, Key::BackQuote),
        ("-"@, Key::Minus),
        ("minus"@, Key::Minus),
        ("="@, Key::Equal),
        ("equal"@, Key::Equal),
        ("equals"@, Key::Equal),
        ("["@, Key::LeftBracket),
        ("bracketleft"@, Key::LeftBracket),
        ("]"@, Key::RightBracket),
        ("bracketright"@, Key::RightBracket),
        ("\\"@, Key::BackSlash),
        ("backslash"@, Key::BackSlash),
        (";"@, Key::SemiColon),
        ("semicolon"@, Key::SemiColon),
        ("'"@, Key::Quote),
        ("quote"@, Key::Quote),
        ("apostrophe"@, Key::Quote),
        (","@, Key::Comma),
        ("comma"@, Key::Comma),
        ("."@, Key::Dot),
        ("period"@, Key::Dot),
        ("/"@, Key::Slash),
        ("slash"@, Key::Slash),
        ("printscreen"@, Key::PrintScreen),
        ("print"@, Key::PrintScreen),
        ("prtsc"@, Key::PrintScreen),
        ("scrolllock"@, Key::ScrollLock),
        ("scroll"@, Key::ScrollLock),
        ("pause"@, Key::Pause),
        ("break"@, Key::Pause),
        ("numlock"@, Key::NumLock),
        ("kpdelete"@, Key::Delete),
        ("numpaddelete"@, Key::Delete),
        ("numdel"@, Key::Delete),
        ("intlbackslash"@, Key::IntlBackslash),
        ("oem102"@, Key::IntlBackslash),
    ]
}

fn key_table_exec() -> (r: Vec<(&'static str, Key)>)
    ensures
        key_table_view(r@) == key_table(),
{
    let r = vec![
        ("caps lock", Key::CapsLock),
        ("capslock", Key::CapsLock),
        ("caps", Key::CapsLock),
        ("f1", Key::F1),
        ("f2", Key::F2),
        ("f3", Key::F3),
        ("f4", Key::F4),
        ("f5", Key::F5),
        ("f6", Key::F6),
        ("f7", Key::F7),
        ("f8", Key::F8),
        ("f9", Key::F9),
        ("f10", Key::F10),
        ("f11", Key::F11),
        ("f12", Key::F12),
        ("f13", Key::F13),
        ("f14", Key::F14),
        ("f15", Key::F15),
        ("f16", Key::F16),
        ("f17", Key::F17),
        ("f18", Key::F18),
        ("f19", Key::F19),
        ("f20", Key::F20),
        ("f21", Key::F21),
        ("f22", Key::F22),
        ("f23", Key::F23),
        ("f24", Key::F24),
        ("space", Key::Space),
        ("spacebar", Key::Space),
        ("enter", Key::Return),
        ("return", Key::Return),
        ("tab", Key::Tab),
        ("backspace", Key::Backspace),
        ("back", Key::Backspace),
        ("escape", Key::Escape),
        ("esc", Key::Escape),
        ("delete", Key::Delete),
        ("del", Key::Delete),
        ("insert", Key::Insert),
        ("ins", Key::Insert),
        ("home", Key::Home),
        ("end", Key::End),
        ("pageup", Key::PageUp),
        ("page up", Key::PageUp),
        ("pgup", Key::PageUp),
        ("pagedown", Key::PageDown),
        ("page down", Key::PageDown),
        ("pgdn", Key::PageDown),
        ("up", Key::UpArrow),
        ("arrowup", Key::UpArrow),
        ("down", Key::DownArrow),
        ("arrowdown", Key::DownArrow),
        ("left", Key::LeftArrow),
        ("arrowleft", Key::LeftArrow),
        ("right", Key::RightArrow),
        ("arrowright", Key::RightArrow),
        ("num0", Key::Kp0),
        ("numpad0", Key::Kp0),
        ("num1", Key::Kp1),
        ("numpad1", Key::Kp1),
        ("num2", Key::Kp2),
        ("numpad2", Key::Kp2),
        ("num3", Key::Kp3),
        ("numpad3", Key::Kp3),
        ("num4", Key::Kp4),
        ("numpad4", Key::Kp4),
        ("num5", Key::Kp5),
        ("numpad5", Key::Kp5),
        ("num6", Key::Kp6),
        ("numpad6", Key::Kp6),
        ("num7", Key::Kp7),
        ("numpad7", Key::Kp7),
        ("num8", Key::Kp8),
        ("numpad8", Key::Kp8),
        ("num9", Key::Kp9),
        ("numpad9", Key::Kp9),
        ("nummultiply", Key::KpMultiply),
        ("numpad*", Key::KpMultiply),
        ("num*", Key::KpMultiply),
        ("numadd", Key::KpPlus),
        ("numpad+", Key::KpPlus),
        ("num+", Key::KpPlus),
        ("numsubtract", Key::KpMinus),
        ("numpad-", Key::KpMinus),
        ("num-", Key::KpMinus),
        ("numdecimal", Key::KpDecimal),
        ("numpad.", Key::KpDecimal),
        ("num.", Key::KpDecimal),
        ("numdivide", Key::KpDivide),
        ("numpad/", Key::KpDivide),
        ("num/", Key::KpDivide),
        ("numenter", Key::KpReturn),
        ("a", Key::KeyA),
        ("b", Key::KeyB),
        ("c", Key::KeyC),
        ("d", Key::KeyD),
        ("e", Key::KeyE),
        ("f", Key::KeyF),
        ("g", Key::KeyG),
        ("h", Key::KeyH),
        ("i", Key::KeyI),
        ("j", Key::KeyJ),
        ("k", Key::KeyK),
        ("l", Key::KeyL),
        ("m", Key::KeyM),
        ("n", Key::KeyN),
        ("o", Key::KeyO),
        ("p", Key::KeyP),
        ("q", Key::KeyQ),
        ("r", Key::KeyR),
        ("s", Key::KeyS),
        ("t", Key::KeyT),
        ("u", Key::KeyU),
        ("v", Key::KeyV),
        ("w", Key::KeyW),
        ("x", Key::KeyX),
        ("y", Key::KeyY),
        ("z", Key::KeyZ),
        ("0", Key::Num0),
        ("1", Key::Num1),
        ("2", Key::Num2),
        ("3", Key::Num3),
        ("4", Key::Num4),
        ("5", Key::Num5),
        ("6", Key::Num6),
        ("7", Key::Num7),
        ("8", Key::Num8),
        ("9", Key::Num9),
        ("`", Key::BackQuote),
        ("backquote", Key::BackQuote),
        ("grave", Key::BackQuote),
        ("-", Key::Minus),
        ("minus", Key::Minus),
        ("=", Key::Equal),
        ("equal", Key::Equal),
        ("equals", Key::Equal),
        ("[", Key::LeftBracket),
        ("bracketleft", Key::LeftBracket),
        ("]", Key::RightBracket),
        ("bracketright", Key::RightBracket),
        ("\\", Key::BackSlash),
        ("backslash", Key::BackSlash),
        (";", Key::SemiColon),
        ("semicolon", Key::SemiColon),
        ("'", Key::Quote),
        ("quote", Key::Quote),
        ("apostrophe", Key::Quote),
        (",", Key::Comma),
        ("comma", Key::Comma),
        (".", Key::Dot),
        ("period", Key::Dot),
        ("/", Key::Slash),
        ("slash", Key::Slash),
        ("printscreen", Key::PrintScreen),
        ("print", Key::PrintScreen),
        ("prtsc", Key::PrintScreen),
        ("scrolllock", Key::ScrollLock),
        ("scroll", Key::ScrollLock),
        ("pause", Key::Pause),
        ("break", Key::Pause),
        ("numlock", Key::NumLock),
        ("kpdelete", Key::Delete),
        ("numpaddelete", Key::Delete),
        ("numdel", Key::Delete),
        ("intlbackslash", Key::IntlBackslash),
        ("oem102", Key::IntlBackslash),
    ];
    assert(key_table_view(r@) =~= key_table());
    r
}

/// Model of a key table.
pub open spec fn key_table_view(v: Seq<(&str, Key)>) -> Seq<(Seq<char>, Key)> {
    v.map_values(|p: (&str, Key)| (p.0@, p.1))
}

/// The first key of `t` named `name`.
pub open spec fn table_lookup(t: Seq<(Seq<char>, Key)>, name: Seq<char>) -> Option<Key>
    decreases t.len(),
{
    if t.len() == 0 {
        None
    } else if t[0].0 == name {
        Some(t[0].1)
    } else {
        table_lookup(t.drop_first(), name)
    }
}

/// The key named `name` (already lowercased and trimmed).
pub open spec fn key_named(name: Seq<char>) -> Option<Key> {
    table_lookup(key_table(), name)
}

/// The key of a letter: `a` is `KeyA`, and so on to `z`.
pub open spec fn letter_key(c: char) -> Option<Key> {
    match c {
        'a' => Some(Key::KeyA),
        'b' => Some(Key::KeyB),
        'c' => Some(Key::KeyC),
        'd' => Some(Key::KeyD),
        'e' => Some(Key::KeyE),
        'f' => Some(Key::KeyF),
        'g' => Some(Key::KeyG),
        'h' => Some(Key::KeyH),
        'i' => Some(Key::KeyI),
        'j' => Some(Key::KeyJ),
        'k' => Some(Key::KeyK),
        'l' => Some(Key::KeyL),
        'm' => Some(Key::KeyM),
        'n' => Some(Key::KeyN),
        'o' => Some(Key::KeyO),
        'p' => Some(Key::KeyP),
        'q' => Some(Key::KeyQ),
        'r' => Some(Key::KeyR),
        's' => Some(Key::KeyS),
        't' => Some(Key::KeyT),
        'u' => Some(Key::KeyU),
        'v' => Some(Key::KeyV),
        'w' => Some(Key::KeyW),
        'x' => Some(Key::KeyX),
        'y' => Some(Key::KeyY),
        'z' => Some(Key::KeyZ),
        _ => None,
    }
}

/// The first key of `t` named `name` sits at the first index where the name
/// occurs.
proof fn lemma_lookup_at(t: Seq<(Seq<char>, Key)>, name: Seq<char>, i: int)
    requires
        0 <= i < t.len(),
        t[i].0 == name,
        forall|j: int| 0 <= j < i ==> (#[trigger] t[j]).0 != name,
    ensures
        table_lookup(t, name) == Some(t[i].1),
    decreases i,
{
    if i > 0 {
        let d = t.drop_first();
        assert forall|j: int| 0 <= j < i - 1 implies (#[trigger] d[j]).0 != name by {
            assert(d[j] == t[j + 1]);
        }
        lemma_lookup_at(d, name, i - 1);
    }
}

/// The key names before the letters are all longer than one character.
proof fn lemma_names_before_letters()
    ensures
        forall|j: int| 0 <= j < 92 ==> (#[trigger] key_table()[j]).0.len() != 1,
        forall|k: int| 0 <= k < 26 ==> (#[trigger] key_table()[92 + k]).0 == seq![(('a' as int) + k) as char]
            && Some(key_table()[92 + k].1) == letter_key((('a' as int) + k) as char),
        forall|k: int| 0 <= k < 10 ==> (#[trigger] key_table()[118 + k]).0 == seq![(('0' as int) + k) as char]
            && Some(key_table()[118 + k].1) == digit_key((('0' as int) + k) as char),
{
    let t = key_table();
    reveal_strlit("caps lock");
    reveal_strlit("capslock");
    reveal_strlit("caps");
    reveal_strlit("f1");
    reveal_strlit("f2");
    reveal_strlit("f3");
    reveal_strlit("f4");
    reveal_strlit("f5");
    reveal_strlit("f6");
    reveal_strlit("f7");
    reveal_strlit("f8");
    reveal_strlit("f9");
    reveal_strlit("f10");
    reveal_strlit("f11");
    reveal_strlit("f12");
    reveal_strlit("f13");
    reveal_strlit("f14");
    reveal_strlit("f15");
    reveal_strlit("f16");
    reveal_strlit("f17");
    reveal_strlit("f18");
    reveal_strlit("f19");
    reveal_strlit("f20");
    reveal_strlit("f21");
    reveal_strlit("f22");
    reveal_strlit("f23");
    reveal_strlit("f24");
    reveal_strlit("space");
    reveal_strlit("spacebar");
    reveal_strlit("enter");
    reveal_strlit("return");
    reveal_strlit("tab");
    reveal_strlit("backspace");
    reveal_strlit("back");
    reveal_strlit("escape");
    reveal_strlit("esc");
    reveal_strlit("delete");
    reveal_strlit("del");
    reveal_strlit("insert");
    reveal_strlit("ins");
    reveal_strlit("home");
    reveal_strlit("end");
    reveal_strlit("pageup");
    reveal_strlit("page up");
    reveal_strlit("pgup");
    reveal_strlit("pagedown");
    reveal_strlit("page down");
    reveal_strlit("pgdn");
    reveal_strlit("up");
    reveal_strlit("arrowup");
    reveal_strlit("down");
    reveal_strlit("arrowdown");
    reveal_strlit("left");
    reveal_strlit("arrowleft");
    reveal_strlit("right");
    reveal_strlit("arrowright");
    reveal_strlit("num0");
    reveal_strlit("numpad0");
    reveal_strlit("num1");
    reveal_strlit("numpad1");
    reveal_strlit("num2");
    reveal_strlit("numpad2");
    reveal_strlit("num3");
    reveal_strlit("numpad3");
    reveal_strlit("num4");
    reveal_strlit("numpad4");
    reveal_strlit("num5");
    reveal_strlit("numpad5");
    reveal_strlit("num6");
    reveal_strlit("numpad6");
    reveal_strlit("num7");
    reveal_strlit("numpad7");
    reveal_strlit("num8");
    reveal_strlit("numpad8");
    reveal_strlit("num9");
    reveal_strlit("numpad9");
    reveal_strlit("nummultiply");
    reveal_strlit("numpad*");
    reveal_strlit("num*");
    reveal_strlit("numadd");
    reveal_strlit("numpad+");
    reveal_strlit("num+");
    reveal_strlit("numsubtract");
    reveal_strlit("numpad-");
    reveal_strlit("num-");
    reveal_strlit("numdecimal");
    reveal_strlit("numpad.");
    reveal_strlit("num.");
    reveal_strlit("numdivide");
    reveal_strlit("numpad/");
    reveal_strlit("num/");
    reveal_strlit("numenter");
    reveal_strlit("a");
    reveal_strlit("b");
    reveal_strlit("c");
    reveal_strlit("d");
    reveal_strlit("e");
    reveal_strlit("f");
    reveal_strlit("g");
    reveal_strlit("h");
    reveal_strlit("i");
    reveal_strlit("j");
    reveal_strlit("k");
    reveal_strlit("l");
    reveal_strlit("m");
    reveal_strlit("n");
    reveal_strlit("o");
    reveal_strlit("p");
    reveal_strlit("q");
    reveal_strlit("r");
    reveal_strlit("s");
    reveal_strlit("t");
    reveal_strlit("u");
    reveal_strlit("v");
    reveal_strlit("w");
    reveal_strlit("x");
    reveal_strlit("y");
    reveal_strlit("z");
    assert(t[0].0.len() != 1);
    assert(t[1].0.len() != 1);
    assert(t[2].0.len() != 1);
    assert(t[3].0.len() != 1);
    assert(t[4].0.len() != 1);
    assert(t[5].0.len() != 1);
    assert(t[6].0.len() != 1);
    assert(t[7].0.len() != 1);
    assert(t[8].0.len() != 1);
    assert(t[9].0.len() != 1);
    assert(t[10].0.len() != 1);
    assert(t[11].0.len() != 1);
    assert(t[12].0.len() != 1);
    assert(t[13].0.len() != 1);
    assert(t[14].0.len() != 1);
    assert(t[15].0.len() != 1);
    assert(t[16].0.len() != 1);
    assert(t[17].0.len() != 1);
    assert(t[18].0.len() != 1);
    assert(t[19].0.len() != 1);
    assert(t[20].0.len() != 1);
    assert(t[21].0.len() != 1);
    assert(t[22].0.len() != 1);
    assert(t[23].0.len() != 1);
    assert(t[24].0.len() != 1);
    assert(t[25].0.len() != 1);
    assert(t[26].0.len() != 1);
    assert(t[27].0.len() != 1);
    assert(t[28].0.len() != 1);
    assert(t[29].0.len() != 1);
    assert(t[30].0.len() != 1);
    assert(t[31].0.len() != 1);
    assert(t[32].0.len() != 1);
    assert(t[33].0.len() != 1);
    assert(t[34].0.len() != 1);
    assert(t[35].0.len() != 1);
    assert(t[36].0.len() != 1);
    assert(t[37].0.len() != 1);
    assert(t[38].0.len() != 1);
    assert(t[39].0.len() != 1);
    assert(t[40].0.len() != 1);
    assert(t[41].0.len() != 1);
    assert(t[42].0.len() != 1);
    assert(t[43].0.len() != 1);
    assert(t[44].0.len() != 1);
    assert(t[45].0.len() != 1);
    assert(t[46].0.len() != 1);
    assert(t[47].0.len() != 1);
    assert(t[48].0.len() != 1);
    assert(t[49].0.len() != 1);
    assert(t[50].0.len() != 1);
    assert(t[51].0.len() != 1);
    assert(t[52].0.len() != 1);
    assert(t[53].0.len() != 1);
    assert(t[54].0.len() != 1);
    assert(t[55].0.len() != 1);
    assert(t[56].0.len() != 1);
    assert(t[57].0.len() != 1);
    assert(t[58].0.len() != 1);
    assert(t[59].0.len() != 1);
    assert(t[60].0.len() != 1);
    assert(t[61].0.len() != 1);
    assert(t[62].0.len() != 1);
    assert(t[63].0.len() != 1);
    assert(t[64].0.len() != 1);
    assert(t[65].0.len() != 1);
    assert(t[66].0.len() != 1);
    assert(t[67].0.len() != 1);
    assert(t[68].0.len() != 1);
    assert(t[69].0.len() != 1);
    assert(t[70].0.len() != 1);
    assert(t[71].0.len() != 1);
    assert(t[72].0.len() != 1);
    assert(t[73].0.len() != 1);
    assert(t[74].0.len() != 1);
    assert(t[75].0.len() != 1);
    assert(t[76].0.len() != 1);
    assert(t[77].0.len() != 1);
    assert(t[78].0.len() != 1);
    assert(t[79].0.len() != 1);
    assert(t[80].0.len() != 1);
    assert(t[81].0.len() != 1);
    assert(t[82].0.len() != 1);
    assert(t[83].0.len() != 1);
    assert(t[84].0.len() != 1);
    assert(t[85].0.len() != 1);
    assert(t[86].0.len() != 1);
    assert(t[87].0.len() != 1);
    assert(t[88].0.len() != 1);
    assert(t[89].0.len() != 1);
    assert(t[90].0.len() != 1);
    assert(t[91].0.len() != 1);
    assert(t[92].0 == seq![(('a' as int) + 0) as char]);
    assert(t[93].0 == seq![(('a' as int) + 1) as char]);
    assert(t[94].0 == seq![(('a' as int) + 2) as char]);
    assert(t[95].0 == seq![(('a' as int) + 3) as char]);
    assert(t[96].0 == seq![(('a' as int) + 4) as char]);
    assert(t[97].0 == seq![(('a' as int) + 5) as char]);
    assert(t[98].0 == seq![(('a' as int) + 6) as char]);
    assert(t[99].0 == seq![(('a' as int) + 7) as char]);
    assert(t[100].0 == seq![(('a' as int) + 8) as char]);
    assert(t[101].0 == seq![(('a' as int) + 9) as char]);
    assert(t[102].0 == seq![(('a' as int) + 10) as char]);
    assert(t[103].0 == seq![(('a' as int) + 11) as char]);
    assert(t[104].0 == seq![(('a' as int) + 12) as char]);
    assert(t[105].0 == seq![(('a' as int) + 13) as char]);
    assert(t[106].0 == seq![(('a' as int) + 14) as char]);
    assert(t[107].0 == seq![(('a' as int) + 15) as char]);
    assert(t[108].0 == seq![(('a' as int) + 16) as char]);
    assert(t[109].0 == seq![(('a' as int) + 17) as char]);
    assert(t[110].0 == seq![(('a' as int) + 18) as char]);
    assert(t[111].0 == seq![(('a' as int) + 19) as char]);
    assert(t[112].0 == seq![(('a' as int) + 20) as char]);
    assert(t[113].0 == seq![(('a' as int) + 21) as char]);
    assert(t[114].0 == seq![(('a' as int) + 22) as char]);
    assert(t[115].0 == seq![(('a' as int) + 23) as char]);
    assert(t[116].0 == seq![(('a' as int) + 24) as char]);
    assert(t[117].0 == seq![(('a' as int) + 25) as char]);
    assert(Some(t[92].1) == letter_key((('a' as int) + 0) as char));
    assert(Some(t[93].1) == letter_key((('a' as int) + 1) as char));
    assert(Some(t[94].1) == letter_key((('a' as int) + 2) as char));
    assert(Some(t[95].1) == letter_key((('a' as int) + 3) as char));
    assert(Some(t[96].1) == letter_key((('a' as int) + 4) as char));
    assert(Some(t[97].1) == letter_key((('a' as int) + 5) as char));
    assert(Some(t[98].1) == letter_key((('a' as int) + 6) as char));
    assert(Some(t[99].1) == letter_key((('a' as int) + 7) as char));
    assert(Some(t[100].1) == letter_key((('a' as int) + 8) as char));
    assert(Some(t[101].1) == letter_key((('a' as int) + 9) as char));
    assert(Some(t[102].1) == letter_key((('a' as int) + 10) as char));
    assert(Some(t[103].1) == letter_key((('a' as int) + 11) as char));
    assert(Some(t[104].1) == letter_key((('a' as int) + 12) as char));
    assert(Some(t[105].1) == letter_key((('a' as int) + 13) as char));
    assert(Some(t[106].1) == letter_key((('a' as int) + 14) as char));
    assert(Some(t[107].1) == letter_key((('a' as int) + 15) as char));
    assert(Some(t[108].1) == letter_key((('a' as int) + 16) as char));
    assert(Some(t[109].1) == letter_key((('a' as int) + 17) as char));
    assert(Some(t[110].1) == letter_key((('a' as int) + 18) as char));
    assert(Some(t[111].1) == letter_key((('a' as int) + 19) as char));
    assert(Some(t[112].1) == letter_key((('a' as int) + 20) as char));
    assert(Some(t[113].1) == letter_key((('a' as int) + 21) as char));
    assert(Some(t[114].1) == letter_key((('a' as int) + 22) as char));
    assert(Some(t[115].1) == letter_key((('a' as int) + 23) as char));
    assert(Some(t[116].1) == letter_key((('a' as int) + 24) as char));
    assert(Some(t[117].1) == letter_key((('a' as int) + 25) as char));
    reveal_strlit("0");
    reveal_strlit("1");
    reveal_strlit("2");
    reveal_strlit("3");
    reveal_strlit("4");
    reveal_strlit("5");
    reveal_strlit("6");
    reveal_strlit("7");
    reveal_strlit("8");
    reveal_strlit("9");
    assert(t[118].0 == seq![(('0' as int) + 0) as char]);
    assert(t[119].0 == seq![(('0' as int) + 1) as char]);
    assert(t[120].0 == seq![(('0' as int) + 2) as char]);
    assert(t[121].0 == seq![(('0' as int) + 3) as char]);
    assert(t[122].0 == seq![(('0' as int) + 4) as char]);
    assert(t[123].0 == seq![(('0' as int) + 5) as char]);
    assert(t[124].0 == seq![(('0' as int) + 6) as char]);
    assert(t[125].0 == seq![(('0' as int) + 7) as char]);
    assert(t[126].0 == seq![(('0' as int) + 8) as char]);
    assert(t[127].0 == seq![(('0' as int) + 9) as char]);
    assert(Some(t[118].1) == digit_key((('0' as int) + 0) as char));
    assert(Some(t[119].1) == digit_key((('0' as int) + 1) as char));
    assert(Some(t[120].1) == digit_key((('0' as int) + 2) as char));
    assert(Some(t[121].1) == digit_key((('0' as int) + 3) as char));
    assert(Some(t[122].1) == digit_key((('0' as int) + 4) as char));
    assert(Some(t[123].1) == digit_key((('0' as int) + 5) as char));
    assert(Some(t[124].1) == digit_key((('0' as int) + 6) as char));
    assert(Some(t[125].1) == digit_key((('0' as int) + 7) as char));
    assert(Some(t[126].1) == digit_key((('0' as int) + 8) as char));
    assert(Some(t[127].1) == digit_key((('0' as int) + 9) as char));
}

/// The letter a key types, for the letter keys.
pub open spec fn key_letter(k: Key) -> Option<char> {
    match k {
        Key::KeyA => Some('a'),
        Key::KeyB => Some('b'),
        Key::KeyC => Some('c'),
        Key::KeyD => Some('d'),
        Key::KeyE => Some('e'),
        Key::KeyF => Some('f'),
        Key::KeyG => Some('g'),
        Key::KeyH => Some('h'),
        Key::KeyI => Some('i'),
        Key::KeyJ => Some('j'),
        Key::KeyK => Some('k'),
        Key::KeyL => Some('l'),
        Key::KeyM => Some('m'),
        Key::KeyN => Some('n'),
        Key::KeyO => Some('o'),
        Key::KeyP => Some('p'),
        Key::KeyQ => Some('q'),
        Key::KeyR => Some('r'),
        Key::KeyS => Some('s'),
        Key::KeyT => Some('t'),
        Key::KeyU => Some('u'),
        Key::KeyV => Some('v'),
        Key::KeyW => Some('w'),
        Key::KeyX => Some('x'),
        Key::KeyY => Some('y'),
        Key::KeyZ => Some('z'),
        _ => None,
    }
}

/// A one-letter key name, `a` to `z`, names the key of that very letter:
/// `d` is `KeyD`, and the key it names types `d` again.
pub proof fn lemma_letter_key_names(c: char)
    requires
        'a' <= c <= 'z',
    ensures
        key_named(seq![c]) == letter_key(c),
        key_named(seq![c]) is Some,
        key_letter(key_named(seq![c])->0) == Some(c),
{
    let t = key_table();
    let k = c as int - 'a' as int;
    lemma_names_before_letters();
    assert(t[92 + k].0 == seq![c]);
    assert forall|j: int| 0 <= j < 92 + k implies (#[trigger] t[j]).0 != seq![c] by {
        if j < 92 {
            assert(t[j].0.len() != 1);
        } else {
            assert(t[92 + (j - 92)].0 == seq![(('a' as int) + (j - 92)) as char]);
            assert(seq![(('a' as int) + (j - 92)) as char][0] != seq![c][0]);
        }
    }
    lemma_lookup_at(t, seq![c], 92 + k);
    assert(Some(t[92 + k].1) == letter_key((('a' as int) + k) as char));
}

/// Distinct letter names name distinct keys: no two letters share a key.
pub proof fn lemma_letter_key_names_distinct(c: char, d: char)
    requires
        'a' <= c <= 'z',
        'a' <= d <= 'z',
        c != d,
    ensures
        key_named(seq![c]) != key_named(seq![d]),
{
    lemma_letter_key_names(c);
    lemma_letter_key_names(d);
}

/// The key of a digit on the main row: `0` is `Num0`, and so on to `9`.
pub open spec fn digit_key(c: char) -> Option<Key> {
    match c {
        '0' => Some(Key::Num0),
        '1' => Some(Key::Num1),
        '2' => Some(Key::Num2),
        '3' => Some(Key::Num3),
        '4' => Some(Key::Num4),
        '5' => Some(Key::Num5),
        '6' => Some(Key::Num6),
        '7' => Some(Key::Num7),
        '8' => Some(Key::Num8),
        '9' => Some(Key::Num9),
        _ => None,
    }
}

/// The digit a main-row digit key types.
pub open spec fn key_digit(k: Key) -> Option<char> {
    match k {
        Key::Num0 => Some('0'),
        Key::Num1 => Some('1'),
        Key::Num2 => Some('2'),
        Key::Num3 => Some('3'),
        Key::Num4 => Some('4'),
        Key::Num5 => Some('5'),
        Key::Num6 => Some('6'),
        Key::Num7 => Some('7'),
        Key::Num8 => Some('8'),
        Key::Num9 => Some('9'),
        _ => None,
    }
}

/// A one-digit key name, `0` to `9`, names the main-row key of that digit,
/// and distinct digits name distinct keys.
pub proof fn lemma_digit_key_names(c: char, d: char)
    requires
        '0' <= c <= '9',
        '0' <= d <= '9',
    ensures
        key_named(seq![c]) == digit_key(c),
        key_named(seq![c]) is Some,
        key_digit(key_named(seq![c])->0) == Some(c),
        c != d ==> key_named(seq![c]) != key_named(seq![d]),
{
    lemma_one_digit(c);
    lemma_one_digit(d);
}

proof fn lemma_one_digit(c: char)
    requires
        '0' <= c <= '9',
    ensures
        key_named(seq![c]) == digit_key(c),
        key_digit(digit_key(c)->0) == Some(c),
        digit_key(c) is Some,
{
    let t = key_table();
    let k = c as int - '0' as int;
    lemma_names_before_letters();
    assert(t[118 + k].0 == seq![c]);
    assert forall|j: int| 0 <= j < 118 + k implies (#[trigger] t[j]).0 != seq![c] by {
        if j < 92 {
            assert(t[j].0.len() != 1);
        } else if j < 118 {
            assert(t[92 + (j - 92)].0 == seq![(('a' as int) + (j - 92)) as char]);
            assert(seq![(('a' as int) + (j - 92)) as char][0] != seq![c][0]);
        } else {
            assert(t[118 + (j - 118)].0 == seq![(('0' as int) + (j - 118)) as char]);
            assert(seq![(('0' as int) + (j - 118)) as char][0] != seq![c][0]);
        }
    }
    lemma_lookup_at(t, seq![c], 118 + k);
    assert(Some(t[118 + k].1) == digit_key((('0' as int) + k) as char));
}

/// The function key numbered `n`, `F1` to `F24`.
pub open spec fn function_key(n: int) -> Option<Key> {
    if n == 1 {
        Some(Key::F1)
    } else if n == 2 {
        Some(Key::F2)
    } else if n == 3 {
        Some(Key::F3)
    } else if n == 4 {
        Some(Key::F4)
    } else if n == 5 {
        Some(Key::F5)
    } else if n == 6 {
        Some(Key::F6)
    } else if n == 7 {
        Some(Key::F7)
    } else if n == 8 {
        Some(Key::F8)
    } else if n == 9 {
        Some(Key::F9)
    } else if n == 10 {
        Some(Key::F10)
    } else if n == 11 {
        Some(Key::F11)
    } else if n == 12 {
        Some(Key::F12)
    } else if n == 13 {
        Some(Key::F13)
    } else if n == 14 {
        Some(Key::F14)
    } else if n == 15 {
        Some(Key::F15)
    } else if n == 16 {
        Some(Key::F16)
    } else if n == 17 {
        Some(Key::F17)
    } else if n == 18 {
        Some(Key::F18)
    } else if n == 19 {
        Some(Key::F19)
    } else if n == 20 {
        Some(Key::F20)
    } else if n == 21 {
        Some(Key::F21)
    } else if n == 22 {
        Some(Key::F22)
    } else if n == 23 {
        Some(Key::F23)
    } else if n == 24 {
        Some(Key::F24)
    } else {
        None
    }
}

/// The number of a function key.
pub open spec fn key_function_number(k: Key) -> Option<int> {
    match k {
        Key::F1 => Some(1int),
        Key::F2 => Some(2int),
        Key::F3 => Some(3int),
        Key::F4 => Some(4int),
        Key::F5 => Some(5int),
        Key::F6 => Some(6int),
        Key::F7 => Some(7int),
        Key::F8 => Some(8int),
        Key::F9 => Some(9int),
        Key::F10 => Some(10int),
        Key::F11 => Some(11int),
        Key::F12 => Some(12int),
        Key::F13 => Some(13int),
        Key::F14 => Some(14int),
        Key::F15 => Some(15int),
        Key::F16 => Some(16int),
        Key::F17 => Some(17int),
        Key::F18 => Some(18int),
        Key::F19 => Some(19int),
        Key::F20 => Some(20int),
        Key::F21 => Some(21int),
        Key::F22 => Some(22int),
        Key::F23 => Some(23int),
        Key::F24 => Some(24int),
        _ => None,
    }
}

/// Decimal digits of a number below 100.
proof fn lemma_two_digits(m: nat)
    requires
        m < 100,
    ensures
        dec_digits(m) == if m < 10 {
            seq![dec_char(m)]
        } else {
            seq![dec_char(m / 10), dec_char(m % 10)]
        },
{
    if m >= 10 {
        assert(dec_digits(m / 10) == seq![dec_char(m / 10)]);
        assert(dec_digits(m) =~= seq![dec_char(m / 10), dec_char(m % 10)]);
    }
}

/// Distinct numbers below 100 have distinct decimal digits.
proof fn lemma_two_digits_distinct(m: nat, n: nat)
    requires
        m < 100,
        n < 100,
        m != n,
    ensures
        dec_digits(m) != dec_digits(n),
{
    lemma_two_digits(m);
    lemma_two_digits(n);
    if dec_digits(m) == dec_digits(n) {
        if m < 10 && n < 10 {
            assert(dec_digits(m)[0] == dec_digits(n)[0]);
            lemma_dec_char_injective(m, n);
        } else if m >= 10 && n >= 10 {
            assert(dec_digits(m)[0] == dec_digits(n)[0]);
            assert(dec_digits(m)[1] == dec_digits(n)[1]);
            lemma_dec_char_injective(m / 10, n / 10);
            lemma_dec_char_injective(m % 10, n % 10);
        } else {
            assert(dec_digits(m).len() != dec_digits(n).len());
        }
    }
}

proof fn lemma_dec_char_injective(d: nat, e: nat)
    requires
        d < 10,
        e < 10,
        dec_char(d) == dec_char(e),
    ensures
        d == e,
{
    assert(((48 + d) as u8) as char as int == 48 + d);
    assert(((48 + e) as u8) as char as int == 48 + e);
}

/// The function key names, `f1` to `f24`, in the table.
proof fn lemma_function_key_entries()
    ensures
        forall|j: int| 0 <= j < 3 ==> (#[trigger] key_table()[j]).0[0] == 'c',
        forall|n: int| 1 <= n <= 24 ==> (#[trigger] key_table()[2 + n]).0 == "f"@ + dec_digits(n as nat)
            && Some(key_table()[2 + n].1) == function_key(n),
{
    let t = key_table();
    reveal_strlit("f1");
    reveal_strlit("f2");
    reveal_strlit("f3");
    reveal_strlit("f4");
    reveal_strlit("f5");
    reveal_strlit("f6");
    reveal_strlit("f7");
    reveal_strlit("f8");
    reveal_strlit("f9");
    reveal_strlit("f10");
    reveal_strlit("f11");
    reveal_strlit("f12");
    reveal_strlit("f13");
    reveal_strlit("f14");
    reveal_strlit("f15");
    reveal_strlit("f16");
    reveal_strlit("f17");
    reveal_strlit("f18");
    reveal_strlit("f19");
    reveal_strlit("f20");
    reveal_strlit("f21");
    reveal_strlit("f22");
    reveal_strlit("f23");
    reveal_strlit("f24");
    reveal_strlit("caps lock");
    reveal_strlit("capslock");
    reveal_strlit("caps");
    reveal_strlit("f");
    assert(dec_digits(1) =~= seq![dec_char(1)]);
    assert(dec_digits(2) =~= seq![dec_char(2)]);
    assert(dec_digits(3) =~= seq![dec_char(3)]);
    assert(dec_digits(4) =~= seq![dec_char(4)]);
    assert(dec_digits(5) =~= seq![dec_char(5)]);
    assert(dec_digits(6) =~= seq![dec_char(6)]);
    assert(dec_digits(7) =~= seq![dec_char(7)]);
    assert(dec_digits(8) =~= seq![dec_char(8)]);
    assert(dec_digits(9) =~= seq![dec_char(9)]);
    assert(dec_digits(10) =~= seq![dec_char(1), dec_char(0)]);
    assert(dec_digits(11) =~= seq![dec_char(1), dec_char(1)]);
    assert(dec_digits(12) =~= seq![dec_char(1), dec_char(2)]);
    assert(dec_digits(13) =~= seq![dec_char(1), dec_char(3)]);
    assert(dec_digits(14) =~= seq![dec_char(1), dec_char(4)]);
    assert(dec_digits(15) =~= seq![dec_char(1), dec_char(5)]);
    assert(dec_digits(16) =~= seq![dec_char(1), dec_char(6)]);
    assert(dec_digits(17) =~= seq![dec_char(1), dec_char(7)]);
    assert(dec_digits(18) =~= seq![dec_char(1), dec_char(8)]);
    assert(dec_digits(19) =~= seq![dec_char(1), dec_char(9)]);
    assert(dec_digits(20) =~= seq![dec_char(2), dec_char(0)]);
    assert(dec_digits(21) =~= seq![dec_char(2), dec_char(1)]);
    assert(dec_digits(22) =~= seq![dec_char(2), dec_char(2)]);
    assert(dec_digits(23) =~= seq![dec_char(2), dec_char(3)]);
    assert(dec_digits(24) =~= seq![dec_char(2), dec_char(4)]);
    assert(t[3].0 =~= "f"@ + dec_digits(1));
    assert(Some(t[3].1) == function_key(1));
    assert(t[4].0 =~= "f"@ + dec_digits(2));
    assert(Some(t[4].1) == function_key(2));
    assert(t[5].0 =~= "f"@ + dec_digits(3));
    assert(Some(t[5].1) == function_key(3));
    assert(t[6].0 =~= "f"@ + dec_digits(4));
    assert(Some(t[6].1) == function_key(4));
    assert(t[7].0 =~= "f"@ + dec_digits(5));
    assert(Some(t[7].1) == function_key(5));
    assert(t[8].0 =~= "f"@ + dec_digits(6));
    assert(Some(t[8].1) == function_key(6));
    assert(t[9].0 =~= "f"@ + dec_digits(7));
    assert(Some(t[9].1) == function_key(7));
    assert(t[10].0 =~= "f"@ + dec_digits(8));
    assert(Some(t[10].1) == function_key(8));
    assert(t[11].0 =~= "f"@ + dec_digits(9));
    assert(Some(t[11].1) == function_key(9));
    assert(t[12].0 =~= "f"@ + dec_digits(10));
    assert(Some(t[12].1) == function_key(10));
    assert(t[13].0 =~= "f"@ + dec_digits(11));
    assert(Some(t[13].1) == function_key(11));
    assert(t[14].0 =~= "f"@ + dec_digits(12));
    assert(Some(t[14].1) == function_key(12));
    assert(t[15].0 =~= "f"@ + dec_digits(13));
    assert(Some(t[15].1) == function_key(13));
    assert(t[16].0 =~= "f"@ + dec_digits(14));
    assert(Some(t[16].1) == function_key(14));
    assert(t[17].0 =~= "f"@ + dec_digits(15));
    assert(Some(t[17].1) == function_key(15));
    assert(t[18].0 =~= "f"@ + dec_digits(16));
    assert(Some(t[18].1) == function_key(16));
    assert(t[19].0 =~= "f"@ + dec_digits(17));
    assert(Some(t[19].1) == function_key(17));
    assert(t[20].0 =~= "f"@ + dec_digits(18));
    assert(Some(t[20].1) == function_key(18));
    assert(t[21].0 =~= "f"@ + dec_digits(19));
    assert(Some(t[21].1) == function_key(19));
    assert(t[22].0 =~= "f"@ + dec_digits(20));
    assert(Some(t[22].1) == function_key(20));
    assert(t[23].0 =~= "f"@ + dec_digits(21));
    assert(Some(t[23].1) == function_key(21));
    assert(t[24].0 =~= "f"@ + dec_digits(22));
    assert(Some(t[24].1) == function_key(22));
    assert(t[25].0 =~= "f"@ + dec_digits(23));
    assert(Some(t[25].1) == function_key(23));
    assert(t[26].0 =~= "f"@ + dec_digits(24));
    assert(Some(t[26].1) == function_key(24));
}

/// The name `f` followed by a number from 1 to 24 names the function key of
/// that number, and distinct numbers name distinct keys.
pub proof fn lemma_function_key_names(n: int, m: int)
    requires
        1 <= n <= 24,
        1 <= m <= 24,
    ensures
        key_named("f"@ + dec_digits(n as nat)) == function_key(n),
        function_key(n) is Some,
        key_function_number(function_key(n)->0) == Some(n),
        n != m ==> key_named("f"@ + dec_digits(n as nat)) != key_named("f"@ + dec_digits(m as nat)),
{
    lemma_one_function_key(n);
    lemma_one_function_key(m);
}

proof fn lemma_one_function_key(n: int)
    requires
        1 <= n <= 24,
    ensures
        key_named("f"@ + dec_digits(n as nat)) == function_key(n),
        function_key(n) is Some,
        key_function_number(function_key(n)->0) == Some(n),
{
    let t = key_table();
    let name = "f"@ + dec_digits(n as nat);
    reveal_strlit("f");
    lemma_function_key_entries();
    assert(t[2 + n].0 == name);
    assert forall|j: int| 0 <= j < 2 + n implies (#[trigger] t[j]).0 != name by {
        if j < 3 {
            assert(t[j].0[0] == 'c');
            assert(name[0] == 'f');
        } else {
            assert(t[2 + (j - 2)].0 == "f"@ + dec_digits((j - 2) as nat));
            lemma_two_digits_distinct((j - 2) as nat, n as nat);
            if t[j].0 == name {
                assert(dec_digits((j - 2) as nat) =~= t[j].0.skip(1));
                assert(dec_digits(n as nat) =~= name.skip(1));
            }
        }
    }
    lemma_lookup_at(t, name, 2 + n);
}

/// The refusal of an unknown key name.
pub open spec fn unknown_key_message(name: Seq<char>) -> Seq<char> {
    "Unknown key: '"@ + name + "'"@
}

/// The key for an already lowercased name (surrounding whitespace ignored).
pub fn key_from_lowercase_name(lowered: &str) -> (r: Result<Key, String>)
    ensures
        match key_named(trim(lowered@)) {
            Some(k) => r == Ok::<Key, String>(k),
            None => r is Err && r->Err_0@ == unknown_key_message(trim(lowered@)),
        },
{
    let name = trim_str(lowered);
    let table = key_table_exec();
    let ghost t = key_table();
    let mut i: usize = 0;
    assert(t.skip(0) =~= t);
    while i < table.len()
        invariant
            0 <= i <= table.len(),
            key_table_view(table@) == t,
            t == key_table(),
            name@ == trim(lowered@),
            table_lookup(t, name@) == table_lookup(t.skip(i as int), name@),
        decreases table.len() - i,
    {
        assert(t.skip(i as int)[0] == t[i as int]);
        assert(t.skip(i as int).drop_first() =~= t.skip(i + 1));
    assert(t[i as int].0 == table@[i as int].0@);
    assert(t[i as int].1 == table@[i as int].1);
        if str_eq(table[i].0, name.as_str()) {
            return Ok(table[i].1);
        }
        i = i + 1;
    }
    assert(t.skip(i as int).len() == 0);
    let mut m = chars_of("Unknown key: '");
    push_str(&mut m, name.as_str());
    push_str(&mut m, "'");
    Err(string_of(m.as_slice()))
}

/// The key a binding part names, compared case-insensitively.
pub fn string_to_key(s: &str) -> (r: Result<Key, String>)
    ensures
        match key_named(trim(lowercase(s@))) {
            Some(k) => r == Ok::<Key, String>(k),
            None => r is Err && r->Err_0@ == unknown_key_message(trim(lowercase(s@))),
        },
{
    let lowered = to_lowercase(s);
    key_from_lowercase_name(lowered.as_str())
}

/// The modifier keys held down.
#[derive(Debug, Clone, Copy, PartialEq, Eq, Structural)]
pub struct ModifierState {
    pub ctrl: bool,
    pub shift: bool,
    pub alt: bool,
    pub win: bool,
}

impl Default for ModifierState {
    fn default() -> (r: Self)
        ensures
            r == no_modifiers(),
    {
        ModifierState { ctrl: false, shift: false, alt: false, win: false }
    }
}

/// No modifier held.
pub open spec fn no_modifiers() -> ModifierState {
    ModifierState { ctrl: false, shift: false, alt: false, win: false }
}

/// The modifier state after `key` went down (`pressed`) or up.
pub open spec fn spec_update(m: ModifierState, key: Key, pressed: bool) -> ModifierState {
    match key {
        Key::ControlLeft | Key::ControlRight => ModifierState { ctrl: pressed, ..m },
        Key::ShiftLeft | Key::ShiftRight => ModifierState { shift: pressed, ..m },
        Key::Alt | Key::AltGr => ModifierState { alt: pressed, ..m },
        Key::MetaLeft | Key::MetaRight => ModifierState { win: pressed, ..m },
        _ => m,
    }
}

/// `key` is a modifier key.
pub open spec fn is_modifier(key: Key) -> bool {
    match key {
        Key::ControlLeft | Key::ControlRight | Key::ShiftLeft | Key::ShiftRight | Key::Alt
        | Key::AltGr | Key::MetaLeft | Key::MetaRight => true,
        _ => false,
    }
}

impl ModifierState {
    /// Records that `key` went down (`pressed`) or up.
    pub fn update(&mut self, key: Key, pressed: bool)
        ensures
            *final(self) == spec_update(*old(self), key, pressed),
    {
        match key {
            Key::ControlLeft | Key::ControlRight => self.ctrl = pressed,
            Key::ShiftLeft | Key::ShiftRight => self.shift = pressed,
            Key::Alt | Key::AltGr => self.alt = pressed,
            Key::MetaLeft | Key::MetaRight => self.win = pressed,
            _ => {},
        }
    }

    /// Whether the held modifiers are exactly the required ones.
    pub fn matches(&self, required: &ModifierState) -> (r: bool)
        ensures
            r == (*self == *required),
    {
        self.ctrl == required.ctrl && self.shift == required.shift && self.alt == required.alt
            && self.win == required.win
    }
}

/// Whether `key` is a modifier key.
pub fn is_modifier_key(key: Key) -> (r: bool)
    ensures
        r == is_modifier(key),
{
    match key {
        Key::ControlLeft | Key::ControlRight | Key::ShiftLeft | Key::ShiftRight | Key::Alt
        | Key::AltGr | Key::MetaLeft | Key::MetaRight => true,
        _ => false,
    }
}

/// The pieces of `s` between the separators `c` (`str::split`): always at
/// least one, empty pieces included.
pub open spec fn split_on(s: Seq<char>, c: char) -> Seq<Seq<char>>
    decreases s.len(),
{
    if s.len() == 0 {
        seq![Seq::<char>::empty()]
    } else {
        let p = split_on(s.drop_last(), c);
        if s.last() == c {
            p.push(Seq::<char>::empty())
        } else {
            p.update(p.len() - 1, p.last().push(s.last()))
        }
    }
}

proof fn lemma_split_nonempty(s: Seq<char>, c: char)
    ensures
        split_on(s, c).len() >= 1,
    decreases s.len(),
{
    if s.len() > 0 {
        lemma_split_nonempty(s.drop_last(), c);
    }
}

/// Model of a list of strings.
pub open spec fn strings_view(v: Seq<String>) -> Seq<Seq<char>> {
    v.map_values(|x: String| x@)
}

/// Splits `s` at every `c`.
pub fn split_chars(s: &[char], c: char) -> (r: Vec<String>)
    ensures
        strings_view(r@) == split_on(s@, c),
{
    let mut done: Vec<String> = Vec::new();
    let mut cur: Vec<char> = Vec::new();
    let mut i: usize = 0;
    assert(s@.take(0) =~= Seq::<char>::empty());
    assert(strings_view(done@).push(cur@) =~= seq![Seq::<char>::empty()]);
    while i < s.len()
        invariant
            0 <= i <= s.len(),
            split_on(s@.take(i as int), c) == strings_view(done@).push(cur@),
        decreases s.len() - i,
    {
        let ghost prev_done = strings_view(done@);
        let ghost prev_cur = cur@;
        assert(s@.take(i + 1).drop_last() =~= s@.take(i as int));
        assert(s@.take(i + 1).last() == s@[i as int]);
        if s[i] == c {
            let piece = string_of(cur.as_slice());
            done.push(piece);
            cur = Vec::new();
            assert(strings_view(done@) =~= prev_done.push(prev_cur));
            assert(strings_view(done@).push(cur@) =~= prev_done.push(prev_cur).push(Seq::<char>::empty()));
        } else {
            cur.push(s[i]);
            assert(strings_view(done@).push(cur@) =~= prev_done.push(prev_cur).update(
                prev_done.len() as int,
                prev_cur.push(s@[i as int]),
            ));
        }
        i = i + 1;
    }
    assert(s@.take(s.len() as int) =~= s@);
    let last = string_of(cur.as_slice());
    let ghost d = strings_view(done@);
    done.push(last);
    assert(strings_view(done@) =~= d.push(cur@));
    done
}

/// Parsing state: the main key found so far and the modifiers, or the error.
pub type ParseState = Result<(Option<Key>, ModifierState), Seq<char>>;

/// The refusal of a second main key.
pub open spec fn multiple_keys_message(part: Seq<char>) -> Seq<char> {
    "Multiple main keys in shortcut: already have a key, found '"@ + part + "'"@
}

/// One part of a binding read into the state.
pub open spec fn parse_step(acc: ParseState, part: Seq<char>) -> ParseState {
    match acc {
        Err(e) => Err(e),
        Ok((k, m)) => if part == "ctrl"@ || part == "control"@ {
            Ok((k, ModifierState { ctrl: true, ..m }))
        } else if part == "shift"@ {
            Ok((k, ModifierState { shift: true, ..m }))
        } else if part == "alt"@ {
            Ok((k, ModifierState { alt: true, ..m }))
        } else if part == "win"@ || part == "super"@ || part == "meta"@ || part == "cmd"@ || part
            == "command"@ {
            Ok((k, ModifierState { win: true, ..m }))
        } else if k is Some {
            Err(multiple_keys_message(part))
        } else {
            match key_named(trim(lowercase(part))) {
                Some(key) => Ok((Some(key), m)),
                None => Err(unknown_key_message(trim(lowercase(part)))),
            }
        },
    }
}

/// The parts read in order.
pub open spec fn parse_parts(parts: Seq<Seq<char>>) -> ParseState
    decreases parts.len(),
{
    if parts.len() == 0 {
        Ok((None, no_modifiers()))
    } else {
        parse_step(parse_parts(parts.drop_last()), parts.last())
    }
}

/// The parts of an already lowercased binding: split at `+`, each trimmed.
pub open spec fn binding_parts(lowered: Seq<char>) -> Seq<Seq<char>> {
    split_on(trim(lowered), '+').map_values(|p: Seq<char>| trim(p))
}

/// What a lowercased binding parses to: a main key (or none) and the
/// modifiers; a binding with neither is refused.
pub open spec fn parse_lowered(lowered: Seq<char>) -> ParseState {
    match parse_parts(binding_parts(lowered)) {
        Ok((None, m)) => if m == no_modifiers() {
            Err("Shortcut must have at least one key or modifier"@)
        } else {
            Ok((None, m))
        },
        other => other,
    }
}

/// Model of a parse result.
pub open spec fn parse_view(r: Result<(Option<Key>, ModifierState), String>) -> ParseState {
    match r {
        Ok(x) => Ok(x),
        Err(e) => Err(e@),
    }
}

proof fn lemma_parse_parts_step(parts: Seq<Seq<char>>, i: int)
    requires
        0 <= i < parts.len(),
    ensures
        parse_parts(parts.take(i + 1)) == parse_step(parse_parts(parts.take(i)), parts[i]),
{
    assert(parts.take(i + 1).drop_last() =~= parts.take(i));
}

proof fn lemma_parse_err_stays(parts: Seq<Seq<char>>, i: int)
    requires
        0 <= i <= parts.len(),
        parse_parts(parts.take(i)) is Err,
    ensures
        parse_parts(parts) == parse_parts(parts.take(i)),
    decreases parts.len() - i,
{
    if i < parts.len() {
        lemma_parse_parts_step(parts, i);
        lemma_parse_err_stays(parts, i + 1);
    } else {
        assert(parts.take(i) =~= parts);
    }
}

/// Parses an already lowercased binding.
pub fn parse_lowercase_binding(lowered: &str) -> (r: Result<(Option<Key>, ModifierState), String>)
    ensures
        parse_view(r) == parse_lowered(lowered@),
{
    let t = trim_str(lowered);
    let tv = chars_of(t.as_str());
    let raw = split_chars(tv.as_slice(), '+');
    let ghost parts = binding_parts(lowered@);
    let mut modifiers = ModifierState { ctrl: false, shift: false, alt: false, win: false };
    let mut main_key: Option<Key> = None;
    let mut i: usize = 0;
    assert(parts.take(0) =~= Seq::<Seq<char>>::empty());
    while i < raw.len()
        invariant
            0 <= i <= raw.len(),
            parts == binding_parts(lowered@),
            strings_view(raw@) == split_on(trim(lowered@), '+'),
            parts.len() == raw.len(),
            parse_parts(parts.take(i as int)) == Ok::<(Option<Key>, ModifierState), Seq<char>>((main_key, modifiers)),
        decreases raw.len() - i,
    {
        proof {
            lemma_parse_parts_step(parts, i as int);
        }
        let part = trim_str(raw[i].as_str());
        assert(part@ == parts[i as int]);
        let p = part.as_str();
        if str_eq(p, "ctrl") || str_eq(p, "control") {
            modifiers.ctrl = true;
        } else if str_eq(p, "shift") {
            modifiers.shift = true;
        } else if str_eq(p, "alt") {
            modifiers.alt = true;
        } else if str_eq(p, "win") || str_eq(p, "super") || str_eq(p, "meta") || str_eq(p, "cmd")
            || str_eq(p, "command") {
            modifiers.win = true;
        } else {
            if main_key.is_some() {
                let mut m = chars_of("Multiple main keys in shortcut: already have a key, found '");
                push_str(&mut m, p);
                push_str(&mut m, "'");
                proof {
                    lemma_parse_err_stays(parts, i + 1);
                }
                let e = string_of(m.as_slice());
                assert(parse_lowered(lowered@) == Err::<(Option<Key>, ModifierState), Seq<char>>(e@));
                return Err(e);
            }
            match string_to_key(p) {
                Ok(k) => {
                    main_key = Some(k);
                },
                Err(e) => {
                    proof {
                        lemma_parse_err_stays(parts, i + 1);
                    }
                    assert(parse_lowered(lowered@) == Err::<(Option<Key>, ModifierState), Seq<char>>(e@));
                    return Err(e);
                },
            }
        }
        i = i + 1;
    }
    assert(parts.take(raw.len() as int) =~= parts);
    if main_key.is_none() && !modifiers.ctrl && !modifiers.shift && !modifiers.alt && !modifiers.win {
        return Err(str_to_string("Shortcut must have at least one key or modifier"));
    }
    Ok((main_key, modifiers))
}

/// Parses a binding like `ctrl+shift+a`, `caps lock` or `ctrl+alt` into its
/// main key (none for a modifier-only binding) and modifiers, ignoring case.
pub fn parse_shortcut_string(binding: &str) -> (r: Result<(Option<Key>, ModifierState), String>)
    ensures
        parse_view(r) == parse_lowered(lowercase(binding@)),
{
    let lowered = to_lowercase(binding);
    parse_lowercase_binding(lowered.as_str())
}

/// A registered shortcut: its main key (none for modifier-only), the exact
/// modifiers and the binding text it came from.
#[derive(Debug)]
pub struct RegisteredShortcut {
    pub key: Option<Key>,
    pub modifiers: ModifierState,
    pub original_binding: String,
}

/// A shortcut going down or up.
#[derive(Debug)]
pub struct ShortcutEvent {
    pub id: String,
    pub binding: String,
    pub pressed: bool,
}

/// Model of a registered shortcut.
pub struct ShortcutView {
    pub key: Option<Key>,
    pub modifiers: ModifierState,
    pub binding: Seq<char>,
}

/// Model of an event.
pub struct EventView {
    pub id: Seq<char>,
    pub binding: Seq<char>,
    pub pressed: bool,
}

impl View for RegisteredShortcut {
    type V = ShortcutView;

    open spec fn view(&self) -> ShortcutView {
        ShortcutView { key: self.key, modifiers: self.modifiers, binding: self.original_binding@ }
    }
}

impl View for ShortcutEvent {
    type V = EventView;

    open spec fn view(&self) -> EventView {
        EventView { id: self.id@, binding: self.binding@, pressed: self.pressed }
    }
}

/// Model of a list of events.
pub open spec fn events_view(v: Seq<ShortcutEvent>) -> Seq<EventView> {
    v.map_values(|e: ShortcutEvent| e@)
}

/// A press of `key`, with `mods` held after it, triggers shortcut `s`: its
/// main key with exactly its modifiers, or, for a modifier-only shortcut, a
/// modifier key completing exactly its modifiers.
pub open spec fn press_triggers(s: ShortcutView, key: Key, mods: ModifierState) -> bool {
    match s.key {
        Some(k) => k == key && mods == s.modifiers,
        None => mods == s.modifiers && is_modifier(key),
    }
}

/// A release of `key`, with `mods` held after it, ends shortcut `s`: its
/// main key went up, or its modifiers no longer match.
pub open spec fn release_ends(s: ShortcutView, key: Key, mods: ModifierState) -> bool {
    match s.key {
        Some(k) => k == key || mods != s.modifiers,
        None => mods != s.modifiers,
    }
}

/// Model of the registered shortcuts.
pub open spec fn shortcuts_view(v: Seq<(String, RegisteredShortcut)>) -> Seq<(Seq<char>, ShortcutView)> {
    v.map_values(|p: (String, RegisteredShortcut)| (p.0@, p.1@))
}

/// The events of a press, in registration order: shortcuts it triggers that
/// were not already down.
pub open spec fn press_events(
    s: Seq<(Seq<char>, ShortcutView)>,
    active: Set<Seq<char>>,
    key: Key,
    mods: ModifierState,
) -> Seq<EventView>
    decreases s.len(),
{
    if s.len() == 0 {
        Seq::empty()
    } else {
        let r = press_events(s.drop_last(), active, key, mods);
        let (id, sv) = s.last();
        if press_triggers(sv, key, mods) && !active.contains(id) {
            r.push(EventView { id, binding: sv.binding, pressed: true })
        } else {
            r
        }
    }
}

/// The events of a release, in registration order: shortcuts it ends that
/// were down.
pub open spec fn release_events(
    s: Seq<(Seq<char>, ShortcutView)>,
    active: Set<Seq<char>>,
    key: Key,
    mods: ModifierState,
) -> Seq<EventView>
    decreases s.len(),
{
    if s.len() == 0 {
        Seq::empty()
    } else {
        let r = release_events(s.drop_last(), active, key, mods);
        let (id, sv) = s.last();
        if release_ends(sv, key, mods) && active.contains(id) {
            r.push(EventView { id, binding: sv.binding, pressed: false })
        } else {
            r
        }
    }
}

/// The ids a press triggers.
pub open spec fn triggered_ids(s: Seq<(Seq<char>, ShortcutView)>, key: Key, mods: ModifierState) -> Set<Seq<char>> {
    Set::new(|id: Seq<char>| exists|i: int| 0 <= i < s.len() && #[trigger] s[i].0 == id && press_triggers(s[i].1, key, mods))
}

/// The ids a release ends.
pub open spec fn ended_ids(s: Seq<(Seq<char>, ShortcutView)>, key: Key, mods: ModifierState) -> Set<Seq<char>> {
    Set::new(|id: Seq<char>| exists|i: int| 0 <= i < s.len() && #[trigger] s[i].0 == id && release_ends(s[i].1, key, mods))
}

/// Registered ids are distinct.
pub open spec fn unique_ids(s: Seq<(Seq<char>, ShortcutView)>) -> bool {
    forall|i: int, j: int| 0 <= i < j < s.len() ==> #[trigger] s[i].0 != #[trigger] s[j].0
}

/// Model of the listener.
pub struct ListenerView {
    pub running: bool,
    pub modifiers: ModifierState,
    pub shortcuts: Seq<(Seq<char>, ShortcutView)>,
    pub active: Set<Seq<char>>,
}

/// The key listener's state: whether it runs, the held modifiers, the
/// registered shortcuts and those currently down. The raw key hook feeds it
/// events from outside.
pub struct KeyListenerManager {
    running: bool,
    modifiers: ModifierState,
    shortcuts: Vec<(String, RegisteredShortcut)>,
    active: Vec<String>,
}

impl View for KeyListenerManager {
    type V = ListenerView;

    closed spec fn view(&self) -> ListenerView {
        ListenerView {
            running: self.running,
            modifiers: self.modifiers,
            shortcuts: shortcuts_view(self.shortcuts@),
            active: strings_view(self.active@).to_set(),
        }
    }
}

fn contains_string(v: &Vec<String>, s: &str) -> (r: bool)
    ensures
        r == strings_view(v@).contains(s@),
{
    let mut i: usize = 0;
    while i < v.len()
        invariant
            0 <= i <= v.len(),
            forall|j: int| 0 <= j < i ==> (#[trigger] v@[j])@ != s@,
        decreases v.len() - i,
    {
        if str_eq(v[i].as_str(), s) {
            assert(strings_view(v@)[i as int] == s@);
            return true;
        }
        i = i + 1;
    }
    assert forall|j: int| 0 <= j < strings_view(v@).len() implies #[trigger] strings_view(v@)[j] != s@ by {
        assert(v@[j]@ != s@);
    }
    false
}

fn remove_string(v: &Vec<String>, s: &str) -> (r: Vec<String>)
    requires
        strings_view(v@).no_duplicates(),
    ensures
        strings_view(r@).no_duplicates(),
        strings_view(r@).to_set() == strings_view(v@).to_set().remove(s@),
{
    let ghost sv = strings_view(v@);
    let mut out: Vec<String> = Vec::new();
    let mut i: usize = 0;
    while i < v.len()
        invariant
            0 <= i <= v.len(),
            sv == strings_view(v@),
            sv.no_duplicates(),
            strings_view(out@).no_duplicates(),
            forall|x: Seq<char>| #[trigger] strings_view(out@).contains(x) <==> (sv.take(i as int).contains(x) && x != s@),
        decreases v.len() - i,
    {
        let ghost before = strings_view(out@);
        assert(sv.take(i + 1) =~= sv.take(i as int).push(sv[i as int]));
        if !str_eq(v[i].as_str(), s) {
            proof {
                if before.contains(sv[i as int]) {
                    let k = choose|k: int| 0 <= k < i && #[trigger] sv.take(i as int)[k] == sv[i as int];
                    assert(sv[k] == sv[i as int]);
                }
            }
            out.push(copy_string(&v[i]));
            assert(strings_view(out@) =~= before.push(sv[i as int]));
        }
        proof {
            let now = strings_view(out@);
            assert forall|x: Seq<char>| #[trigger] now.contains(x) <==> (sv.take(i + 1).contains(x) && x != s@) by {
                if now.contains(x) && !before.contains(x) {
                    assert(now[now.len() - 1] == x);
                    assert(sv.take(i + 1)[i as int] == x);
                }
                if before.contains(x) {
                    let k = choose|k: int| 0 <= k < before.len() && #[trigger] before[k] == x;
                    assert(now[k] == x);
                    assert(sv.take(i as int).contains(x));
                    let q = choose|q: int| 0 <= q < i && #[trigger] sv.take(i as int)[q] == x;
                    assert(sv.take(i + 1)[q] == x);
                }
                if sv.take(i + 1).contains(x) && x != s@ {
                    let q = choose|q: int| 0 <= q < i + 1 && #[trigger] sv.take(i + 1)[q] == x;
                    if q < i {
                        assert(sv.take(i as int)[q] == x);
                    } else {
                        assert(now[now.len() - 1] == x);
                    }
                }
            }
        }
        i = i + 1;
    }
    assert(sv.take(v.len() as int) =~= sv);
    assert(strings_view(out@).to_set() =~= sv.to_set().remove(s@));
    out
}

impl KeyListenerManager {
    /// The state is well formed: ids registered once, each active id once.
    pub closed spec fn wf(&self) -> bool {
        &&& unique_ids(shortcuts_view(self.shortcuts@))
        &&& strings_view(self.active@).no_duplicates()
    }

    /// A stopped listener with nothing registered.
    pub fn new() -> (r: Self)
        ensures
            r.wf(),
            !r@.running,
            r@.modifiers == no_modifiers(),
            r@.shortcuts.len() == 0,
            r@.active.is_empty(),
    {
        let r = KeyListenerManager {
            running: false,
            modifiers: ModifierState { ctrl: false, shift: false, alt: false, win: false },
            shortcuts: Vec::new(),
            active: Vec::new(),
        };
        assert(shortcuts_view(r.shortcuts@) =~= Seq::<(Seq<char>, ShortcutView)>::empty());
        assert(strings_view(r.active@).to_set() =~= Set::<Seq<char>>::empty());
        r
    }

    /// Starts listening; `false` when it already ran.
    pub fn start(&mut self) -> (started: bool)
        requires
            old(self).wf(),
        ensures
            final(self).wf(),
            started == !old(self)@.running,
            final(self)@ == (ListenerView { running: true, ..old(self)@ }),
    {
        if self.running {
            return false;
        }
        self.running = true;
        true
    }

    /// Stops listening: the held modifiers and the shortcuts down are
    /// forgotten. `false` when it was not running.
    pub fn stop(&mut self) -> (stopped: bool)
        requires
            old(self).wf(),
        ensures
            final(self).wf(),
            stopped == old(self)@.running,
            stopped ==> final(self)@ == (ListenerView {
                running: false,
                modifiers: no_modifiers(),
                active: Set::empty(),
                ..old(self)@
            }),
            !stopped ==> final(self)@ == old(self)@,
    {
        if !self.running {
            return false;
        }
        self.running = false;
        self.modifiers = ModifierState { ctrl: false, shift: false, alt: false, win: false };
        self.active = Vec::new();
        assert(strings_view(self.active@).to_set() =~= Set::<Seq<char>>::empty());
        true
    }

    /// Whether the listener runs.
    pub fn is_running(&self) -> (r: bool)
        ensures
            r == self@.running,
    {
        self.running
    }

    /// The modifiers held now.
    pub fn get_modifier_state(&self) -> (r: ModifierState)
        ensures
            r == self@.modifiers,
    {
        self.modifiers
    }

    fn index_of(&self, id: &str) -> (r: Option<usize>)
        ensures
            match r {
                Some(i) => i < self@.shortcuts.len() && self@.shortcuts[i as int].0 == id@,
                None => forall|j: int| 0 <= j < self@.shortcuts.len() ==> #[trigger] self@.shortcuts[j].0 != id@,
            },
    {
        let mut i: usize = 0;
        while i < self.shortcuts.len()
            invariant
                0 <= i <= self.shortcuts.len(),
                forall|j: int| 0 <= j < i ==> #[trigger] self@.shortcuts[j].0 != id@,
            decreases self.shortcuts.len() - i,
        {
            assert(self@.shortcuts[i as int].0 == self.shortcuts@[i as int].0@);
            if str_eq(self.shortcuts[i].0.as_str(), id) {
                return Some(i);
            }
            i = i + 1;
        }
        None
    }

    /// Whether a shortcut is registered under `id`.
    pub fn is_shortcut_registered(&self, id: &str) -> (r: bool)
        ensures
            r == exists|j: int| 0 <= j < self@.shortcuts.len() && #[trigger] self@.shortcuts[j].0 == id@,
    {
        match self.index_of(id) {
            Some(i) => true,
            None => false,
        }
    }

    /// The registered ids, in registration order.
    pub fn get_registered_shortcuts(&self) -> (r: Vec<String>)
        ensures
            strings_view(r@) == self@.shortcuts.map_values(|p: (Seq<char>, ShortcutView)| p.0),
    {
        let mut out: Vec<String> = Vec::new();
        let mut i: usize = 0;
        while i < self.shortcuts.len()
            invariant
                0 <= i <= self.shortcuts.len(),
                strings_view(out@) == self@.shortcuts.take(i as int).map_values(|p: (Seq<char>, ShortcutView)| p.0),
            decreases self.shortcuts.len() - i,
        {
            let ghost before = strings_view(out@);
            out.push(copy_string(&self.shortcuts[i].0));
            assert(strings_view(out@) =~= before.push(self.shortcuts@[i as int].0@));
            assert(self@.shortcuts.take(i + 1).map_values(|p: (Seq<char>, ShortcutView)| p.0) =~= self@.shortcuts.take(i as int).map_values(|p: (Seq<char>, ShortcutView)| p.0).push(self@.shortcuts[i as int].0));
            i = i + 1;
        }
        assert(self@.shortcuts.take(i as int) =~= self@.shortcuts);
        out
    }
}

/// The shortcuts with `(id, sv)` registered: it replaces the one with the
/// same id, or comes last.
pub open spec fn upsert(s: Seq<(Seq<char>, ShortcutView)>, id: Seq<char>, sv: ShortcutView) -> Seq<
    (Seq<char>, ShortcutView),
> {
    if exists|i: int| 0 <= i < s.len() && #[trigger] s[i].0 == id {
        s.update(choose|i: int| 0 <= i < s.len() && #[trigger] s[i].0 == id, (id, sv))
    } else {
        s.push((id, sv))
    }
}

/// The shortcuts without the one registered as `id`.
pub open spec fn without(s: Seq<(Seq<char>, ShortcutView)>, id: Seq<char>) -> Seq<(Seq<char>, ShortcutView)> {
    if exists|i: int| 0 <= i < s.len() && #[trigger] s[i].0 == id {
        s.remove(choose|i: int| 0 <= i < s.len() && #[trigger] s[i].0 == id)
    } else {
        s
    }
}

proof fn lemma_index_unique(s: Seq<(Seq<char>, ShortcutView)>, id: Seq<char>, i: int)
    requires
        unique_ids(s),
        0 <= i < s.len(),
        s[i].0 == id,
    ensures
        (choose|k: int| 0 <= k < s.len() && #[trigger] s[k].0 == id) == i,
{
    let k = choose|k: int| 0 <= k < s.len() && #[trigger] s[k].0 == id;
    if k != i {
        if k < i {
            assert(s[k].0 != s[i].0);
        } else {
            assert(s[i].0 != s[k].0);
        }
    }
}

/// Unregistering an id just registered gives the shortcuts as they would
/// be without it: registering leaves nothing behind once undone, and the
/// shortcut is registered in between.
pub proof fn lemma_register_then_unregister(s: Seq<(Seq<char>, ShortcutView)>, id: Seq<char>, sv: ShortcutView)
    requires
        unique_ids(s),
    ensures
        exists|j: int| 0 <= j < upsert(s, id, sv).len() && #[trigger] upsert(s, id, sv)[j].0 == id,
        without(upsert(s, id, sv), id) == without(s, id),
        (forall|j: int| 0 <= j < s.len() ==> (#[trigger] s[j]).0 != id) ==> without(upsert(s, id, sv), id) == s,
{
    let u = upsert(s, id, sv);
    if exists|i: int| 0 <= i < s.len() && #[trigger] s[i].0 == id {
        let i = choose|i: int| 0 <= i < s.len() && #[trigger] s[i].0 == id;
        assert(u == s.update(i, (id, sv)));
        assert(unique_ids(u)) by {
            assert forall|a: int, b: int| 0 <= a < b < u.len() implies #[trigger] u[a].0 != #[trigger] u[b].0 by {
                assert(s[a].0 != s[b].0);
                if a == i {
                    assert(u[a].0 == s[i].0);
                } else if b == i {
                    assert(u[b].0 == s[i].0);
                }
            }
        }
        assert(u[i].0 == id);
        lemma_index_unique(u, id, i);
        lemma_index_unique(s, id, i);
        assert(u.remove(i) =~= s.remove(i));
    } else {
        assert(u == s.push((id, sv)));
        let n = s.len() as int;
        assert(u[n].0 == id);
        assert(unique_ids(u)) by {
            assert forall|a: int, b: int| 0 <= a < b < u.len() implies #[trigger] u[a].0 != #[trigger] u[b].0 by {
                if b == n {
                    assert(u[a] == s[a]);
                } else {
                    assert(u[a] == s[a] && u[b] == s[b]);
                }
            }
        }
        lemma_index_unique(u, id, n);
        assert(u.remove(n) =~= s);
    }
}

/// The refusal to unregister an unknown id.
pub open spec fn not_found_message(id: Seq<char>) -> Seq<char> {
    "Shortcut '"@ + id + "' not found"@
}

proof fn lemma_press_step(
    s: Seq<(Seq<char>, ShortcutView)>,
    active: Set<Seq<char>>,
    key: Key,
    mods: ModifierState,
    i: int,
)
    requires
        0 <= i < s.len(),
    ensures
        press_events(s.take(i + 1), active, key, mods) == if press_triggers(s[i].1, key, mods)
            && !active.contains(s[i].0) {
            press_events(s.take(i), active, key, mods).push(
                EventView { id: s[i].0, binding: s[i].1.binding, pressed: true },
            )
        } else {
            press_events(s.take(i), active, key, mods)
        },
        release_events(s.take(i + 1), active, key, mods) == if release_ends(s[i].1, key, mods)
            && active.contains(s[i].0) {
            release_events(s.take(i), active, key, mods).push(
                EventView { id: s[i].0, binding: s[i].1.binding, pressed: false },
            )
        } else {
            release_events(s.take(i), active, key, mods)
        },
{
    assert(s.take(i + 1).drop_last() =~= s.take(i));
    assert(s.take(i + 1).last() == s[i]);
}

impl KeyListenerManager {
    /// Registers (or replaces) the shortcut `id` for `binding`; a binding that
    /// does not parse is refused and nothing changes.
    pub fn register_shortcut(&mut self, id: String, binding: String) -> (r: Result<(), String>)
        requires
            old(self).wf(),
        ensures
            final(self).wf(),
            match parse_lowered(lowercase(binding@)) {
                Ok((key, mods)) => r is Ok && final(self)@ == (ListenerView {
                    shortcuts: upsert(
                        old(self)@.shortcuts,
                        id@,
                        ShortcutView { key, modifiers: mods, binding: binding@ },
                    ),
                    ..old(self)@
                }),
                Err(e) => r is Err && r->Err_0@ == e && final(self)@ == old(self)@,
            },
    {
        let parsed = parse_shortcut_string(binding.as_str());
        let (key, modifiers) = match parsed {
            Ok(x) => x,
            Err(e) => return Err(e),
        };
        let ghost idv = id@;
        let ghost sv = ShortcutView { key, modifiers, binding: binding@ };
        let ghost old_s = self@.shortcuts;
        let shortcut = RegisteredShortcut { key, modifiers, original_binding: binding };
        match self.index_of(id.as_str()) {
            Some(i) => {
                proof {
                    lemma_index_unique(old_s, idv, i as int);
                }
                self.shortcuts.set(i, (id, shortcut));
                assert(shortcuts_view(self.shortcuts@) =~= old_s.update(i as int, (idv, sv)));
                proof {
                    let n = shortcuts_view(self.shortcuts@);
                    assert forall|a: int, b: int| 0 <= a < b < n.len() implies #[trigger] n[a].0 != #[trigger] n[b].0 by {
                        assert(old_s[a].0 != old_s[b].0);
                    }
                }
            },
            None => {
                self.shortcuts.push((id, shortcut));
                assert(shortcuts_view(self.shortcuts@) =~= old_s.push((idv, sv)));
                proof {
                    let n = shortcuts_view(self.shortcuts@);
                    assert forall|a: int, b: int| 0 <= a < b < n.len() implies #[trigger] n[a].0 != #[trigger] n[b].0 by {
                        if b < old_s.len() {
                            assert(old_s[a].0 != old_s[b].0);
                        } else {
                            assert(old_s[a].0 != idv);
                        }
                    }
                }
            },
        }
        Ok(())
    }

    /// Unregisters the shortcut `id`; an unknown id is refused.
    pub fn unregister_shortcut(&mut self, id: &str) -> (r: Result<(), String>)
        requires
            old(self).wf(),
        ensures
            final(self).wf(),
            (exists|i: int| 0 <= i < old(self)@.shortcuts.len() && #[trigger] old(self)@.shortcuts[i].0 == id@) ==> r is Ok
                && final(self)@ == (ListenerView { shortcuts: without(old(self)@.shortcuts, id@), ..old(self)@ }),
            !(exists|i: int| 0 <= i < old(self)@.shortcuts.len() && #[trigger] old(self)@.shortcuts[i].0 == id@) ==> r is Err
                && r->Err_0@ == not_found_message(id@) && final(self)@ == old(self)@,
    {
        let ghost old_s = self@.shortcuts;
        match self.index_of(id) {
            Some(i) => {
                proof {
                    lemma_index_unique(old_s, id@, i as int);
                }
                self.shortcuts.remove(i);
                assert(shortcuts_view(self.shortcuts@) =~= old_s.remove(i as int));
                proof {
                    let n = shortcuts_view(self.shortcuts@);
                    assert forall|a: int, b: int| 0 <= a < b < n.len() implies #[trigger] n[a].0 != #[trigger] n[b].0 by {
                        let a0 = if a < i { a } else { a + 1 };
                        let b0 = if b < i { b } else { b + 1 };
                        assert(n[a] == old_s[a0] && n[b] == old_s[b0]);
                        assert(old_s[a0].0 != old_s[b0].0);
                    }
                }
                Ok(())
            },
            None => {
                let mut m = chars_of("Shortcut '");
                push_str(&mut m, id);
                push_str(&mut m, "' not found");
                Err(string_of(m.as_slice()))
            },
        }
    }

    /// A key went down: the modifiers are updated and the shortcuts it
    /// triggers go down; the events are those that were not down already
    /// (a held key repeating triggers nothing).
    pub fn handle_key_press(&mut self, key: Key) -> (events: Vec<ShortcutEvent>)
        requires
            old(self).wf(),
        ensures
            final(self).wf(),
            final(self)@.modifiers == spec_update(old(self)@.modifiers, key, true),
            final(self)@.running == old(self)@.running,
            final(self)@.shortcuts == old(self)@.shortcuts,
            final(self)@.active == old(self)@.active.union(
                triggered_ids(old(self)@.shortcuts, key, final(self)@.modifiers),
            ),
            events_view(events@) == press_events(
                old(self)@.shortcuts,
                old(self)@.active,
                key,
                final(self)@.modifiers,
            ),
    {
        self.modifiers.update(key, true);
        let mods = self.modifiers;
        let ghost s = self@.shortcuts;
        let ghost a0 = self@.active;
        let mut events: Vec<ShortcutEvent> = Vec::new();
        let mut i: usize = 0;
        assert(s.take(0) =~= Seq::<(Seq<char>, ShortcutView)>::empty());
        assert(a0.union(triggered_ids(s.take(0), key, mods)) =~= a0);
        while i < self.shortcuts.len()
            invariant
                0 <= i <= self.shortcuts.len(),
                s == shortcuts_view(self.shortcuts@),
                unique_ids(s),
                mods == self.modifiers,
                self.running == old(self).running,
                strings_view(self.active@).no_duplicates(),
                strings_view(self.active@).to_set() == a0.union(triggered_ids(s.take(i as int), key, mods)),
                events_view(events@) == press_events(s.take(i as int), a0, key, mods),
            decreases self.shortcuts.len() - i,
        {
            proof {
                lemma_press_step(s, a0, key, mods, i as int);
            }
            let ghost id = s[i as int].0;
            let ghost before_set = strings_view(self.active@).to_set();
            let trig = match self.shortcuts[i].1.key {
                Some(k) => k == key && mods.matches(&self.shortcuts[i].1.modifiers),
                None => mods.matches(&self.shortcuts[i].1.modifiers) && is_modifier_key(key),
            };
            assert(trig == press_triggers(s[i as int].1, key, mods));
            proof {
                assert(!triggered_ids(s.take(i as int), key, mods).contains(id)) by {
                    if triggered_ids(s.take(i as int), key, mods).contains(id) {
                        let q = choose|q: int| 0 <= q < s.take(i as int).len() && #[trigger] s.take(i as int)[q].0 == id && press_triggers(s.take(i as int)[q].1, key, mods);
                        assert(s[q].0 != s[i as int].0);
                    }
                }
            }
            if trig {
                assert(self.shortcuts@[i as int].0@ == id);
                let already = contains_string(&self.active, self.shortcuts[i].0.as_str());
                assert(already == before_set.contains(id));
                assert(already == a0.contains(id));
                if !already {
                    let ghost av = strings_view(self.active@);
                    self.active.push(copy_string(&self.shortcuts[i].0));
                    assert(strings_view(self.active@) =~= av.push(id));
                    proof {
                        let nv = av.push(id);
                        assert forall|x: Seq<char>| nv.contains(x) <==> (av.contains(x) || x == id) by {
                            if nv.contains(x) {
                                let q = choose|q: int| 0 <= q < nv.len() && nv[q] == x;
                                if q < av.len() {
                                    assert(av[q] == x);
                                }
                            }
                            if av.contains(x) {
                                let q = choose|q: int| 0 <= q < av.len() && av[q] == x;
                                assert(nv[q] == x);
                            }
                            if x == id {
                                assert(nv[av.len() as int] == x);
                            }
                        }
                    }
                    assert(strings_view(self.active@).to_set() =~= before_set.insert(id));
                    let ev = ShortcutEvent {
                        id: copy_string(&self.shortcuts[i].0),
                        binding: copy_string(&self.shortcuts[i].1.original_binding),
                        pressed: true,
                    };
                    let ghost evs = events_view(events@);
                    events.push(ev);
                    assert(events_view(events@) =~= evs.push(EventView { id, binding: s[i as int].1.binding, pressed: true }));
                }
            }
            proof {
                let t1 = triggered_ids(s.take(i + 1), key, mods);
                let t0 = triggered_ids(s.take(i as int), key, mods);
                assert forall|x: Seq<char>| #[trigger] t1.contains(x) <==> (t0.contains(x) || (x == id && trig)) by {
                    if t1.contains(x) {
                        let q = choose|q: int| 0 <= q < s.take(i + 1).len() && #[trigger] s.take(i + 1)[q].0 == x && press_triggers(s.take(i + 1)[q].1, key, mods);
                        if q < i {
                            assert(s.take(i as int)[q] == s.take(i + 1)[q]);
                        }
                    }
                    if t0.contains(x) {
                        let q = choose|q: int| 0 <= q < s.take(i as int).len() && #[trigger] s.take(i as int)[q].0 == x && press_triggers(s.take(i as int)[q].1, key, mods);
                        assert(s.take(i + 1)[q] == s.take(i as int)[q]);
                    }
                    if x == id && trig {
                        assert(s.take(i + 1)[i as int] == s[i as int]);
                    }
                }
                assert(strings_view(self.active@).to_set() =~= a0.union(t1));
            }
            i = i + 1;
        }
        assert(s.take(i as int) =~= s);
        events
    }

    /// A key went up: the modifiers are updated and the shortcuts it ends go
    /// up; the events are those that were down.
    pub fn handle_key_release(&mut self, key: Key) -> (events: Vec<ShortcutEvent>)
        requires
            old(self).wf(),
        ensures
            final(self).wf(),
            final(self)@.modifiers == spec_update(old(self)@.modifiers, key, false),
            final(self)@.running == old(self)@.running,
            final(self)@.shortcuts == old(self)@.shortcuts,
            final(self)@.active == old(self)@.active.difference(
                ended_ids(old(self)@.shortcuts, key, final(self)@.modifiers),
            ),
            events_view(events@) == release_events(
                old(self)@.shortcuts,
                old(self)@.active,
                key,
                final(self)@.modifiers,
            ),
    {
        self.modifiers.update(key, false);
        let mods = self.modifiers;
        let ghost s = self@.shortcuts;
        let ghost a0 = self@.active;
        let mut events: Vec<ShortcutEvent> = Vec::new();
        let mut i: usize = 0;
        assert(s.take(0) =~= Seq::<(Seq<char>, ShortcutView)>::empty());
        assert(a0.difference(ended_ids(s.take(0), key, mods)) =~= a0);
        while i < self.shortcuts.len()
            invariant
                0 <= i <= self.shortcuts.len(),
                s == shortcuts_view(self.shortcuts@),
                unique_ids(s),
                mods == self.modifiers,
                self.running == old(self).running,
                strings_view(self.active@).no_duplicates(),
                strings_view(self.active@).to_set() == a0.difference(ended_ids(s.take(i as int), key, mods)),
                events_view(events@) == release_events(s.take(i as int), a0, key, mods),
            decreases self.shortcuts.len() - i,
        {
            proof {
                lemma_press_step(s, a0, key, mods, i as int);
            }
            let ghost id = s[i as int].0;
            let ghost before_set = strings_view(self.active@).to_set();
            let same = mods.matches(&self.shortcuts[i].1.modifiers);
            let ends = match self.shortcuts[i].1.key {
                Some(k) => k == key || !same,
                None => !same,
            };
            assert(ends == release_ends(s[i as int].1, key, mods));
            proof {
                assert(!ended_ids(s.take(i as int), key, mods).contains(id)) by {
                    if ended_ids(s.take(i as int), key, mods).contains(id) {
                        let q = choose|q: int| 0 <= q < s.take(i as int).len() && #[trigger] s.take(i as int)[q].0 == id && release_ends(s.take(i as int)[q].1, key, mods);
                        assert(s[q].0 != s[i as int].0);
                    }
                }
            }
            if ends {
                assert(self.shortcuts@[i as int].0@ == id);
                let down = contains_string(&self.active, self.shortcuts[i].0.as_str());
                assert(down == before_set.contains(id));
                assert(down == a0.contains(id));
                if down {
                    let rest = remove_string(&self.active, self.shortcuts[i].0.as_str());
                    self.active = rest;
                    assert(strings_view(self.active@).to_set() == before_set.remove(id));
                    let ev = ShortcutEvent {
                        id: copy_string(&self.shortcuts[i].0),
                        binding: copy_string(&self.shortcuts[i].1.original_binding),
                        pressed: false,
                    };
                    let ghost evs = events_view(events@);
                    events.push(ev);
                    assert(events_view(events@) =~= evs.push(EventView { id, binding: s[i as int].1.binding, pressed: false }));
                }
            }
            proof {
                let t1 = ended_ids(s.take(i + 1), key, mods);
                let t0 = ended_ids(s.take(i as int), key, mods);
                assert forall|x: Seq<char>| #[trigger] t1.contains(x) <==> (t0.contains(x) || (x == id && ends)) by {
                    if t1.contains(x) {
                        let q = choose|q: int| 0 <= q < s.take(i + 1).len() && #[trigger] s.take(i + 1)[q].0 == x && release_ends(s.take(i + 1)[q].1, key, mods);
                        if q < i {
                            assert(s.take(i as int)[q] == s.take(i + 1)[q]);
                        }
                    }
                    if t0.contains(x) {
                        let q = choose|q: int| 0 <= q < s.take(i as int).len() && #[trigger] s.take(i as int)[q].0 == x && release_ends(s.take(i as int)[q].1, key, mods);
                        assert(s.take(i + 1)[q] == s.take(i as int)[q]);
                    }
                    if x == id && ends {
                        assert(s.take(i + 1)[i as int] == s[i as int]);
                    }
                }
                assert(strings_view(self.active@).to_set() =~= a0.difference(t1));
            }
            i = i + 1;
        }
        assert(s.take(i as int) =~= s);
        events
    }
}

proof fn lemma_no_press_events(
    s: Seq<(Seq<char>, ShortcutView)>,
    active: Set<Seq<char>>,
    key: Key,
    mods: ModifierState,
)
    requires
        forall|i: int| 0 <= i < s.len() && press_triggers(s[i].1, key, mods) ==> active.contains(#[trigger] s[i].0),
    ensures
        press_events(s, active, key, mods).len() == 0,
    decreases s.len(),
{
    if s.len() > 0 {
        let d = s.drop_last();
        assert forall|i: int| 0 <= i < d.len() && press_triggers(d[i].1, key, mods) implies active.contains(#[trigger] d[i].0) by {
            assert(d[i] == s[i]);
        }
        lemma_no_press_events(d, active, key, mods);
        assert(s.last() == s[s.len() - 1]);
    }
}

proof fn lemma_press_event_facts(s: Seq<(Seq<char>, ShortcutView)>, active: Set<Seq<char>>, key: Key, mods: ModifierState)
    ensures
        forall|j: int|
            0 <= j < press_events(s, active, key, mods).len() ==> {
                let e = #[trigger] press_events(s, active, key, mods)[j];
                &&& e.pressed
                &&& !active.contains(e.id)
                &&& triggered_ids(s, key, mods).contains(e.id)
            },
    decreases s.len(),
{
    if s.len() > 0 {
        let init = s.drop_last();
        lemma_press_event_facts(init, active, key, mods);
        let r = press_events(init, active, key, mods);
        assert forall|j: int| 0 <= j < press_events(s, active, key, mods).len() implies {
            let e = #[trigger] press_events(s, active, key, mods)[j];
            &&& e.pressed
            &&& !active.contains(e.id)
            &&& triggered_ids(s, key, mods).contains(e.id)
        } by {
            let e = press_events(s, active, key, mods)[j];
            if j < r.len() {
                assert(e == r[j]);
                assert(triggered_ids(init, key, mods).contains(e.id));
                let i = choose|i: int| 0 <= i < init.len() && #[trigger] init[i].0 == e.id && press_triggers(
                    init[i].1,
                    key,
                    mods,
                );
                assert(s[i] == init[i]);
            } else {
                let n = s.len() - 1;
                assert(s[n].0 == e.id);
            }
        }
    }
}

proof fn lemma_release_event_facts(s: Seq<(Seq<char>, ShortcutView)>, active: Set<Seq<char>>, key: Key, mods: ModifierState)
    ensures
        forall|j: int|
            0 <= j < release_events(s, active, key, mods).len() ==> {
                let e = #[trigger] release_events(s, active, key, mods)[j];
                &&& !e.pressed
                &&& active.contains(e.id)
                &&& ended_ids(s, key, mods).contains(e.id)
            },
    decreases s.len(),
{
    if s.len() > 0 {
        let init = s.drop_last();
        lemma_release_event_facts(init, active, key, mods);
        let r = release_events(init, active, key, mods);
        assert forall|j: int| 0 <= j < release_events(s, active, key, mods).len() implies {
            let e = #[trigger] release_events(s, active, key, mods)[j];
            &&& !e.pressed
            &&& active.contains(e.id)
            &&& ended_ids(s, key, mods).contains(e.id)
        } by {
            let e = release_events(s, active, key, mods)[j];
            if j < r.len() {
                assert(e == r[j]);
                assert(ended_ids(init, key, mods).contains(e.id));
                let i = choose|i: int| 0 <= i < init.len() && #[trigger] init[i].0 == e.id && release_ends(
                    init[i].1,
                    key,
                    mods,
                );
                assert(s[i] == init[i]);
            } else {
                let n = s.len() - 1;
                assert(s[n].0 == e.id);
            }
        }
    }
}

/// Presses and releases of a shortcut alternate: a press reports a
/// shortcut only while it is up, and it is down afterwards; a release
/// reports one only while it is down, and it is up afterwards (the active
/// set after a key event is the one `handle_key_press` and
/// `handle_key_release` leave).
pub proof fn lemma_press_release_alternate(
    s: Seq<(Seq<char>, ShortcutView)>,
    active: Set<Seq<char>>,
    key: Key,
    mods: ModifierState,
)
    ensures
        forall|j: int|
            0 <= j < press_events(s, active, key, mods).len() ==> {
                let e = #[trigger] press_events(s, active, key, mods)[j];
                &&& e.pressed
                &&& !active.contains(e.id)
                &&& active.union(triggered_ids(s, key, mods)).contains(e.id)
            },
        forall|j: int|
            0 <= j < release_events(s, active, key, mods).len() ==> {
                let e = #[trigger] release_events(s, active, key, mods)[j];
                &&& !e.pressed
                &&& active.contains(e.id)
                &&& !active.difference(ended_ids(s, key, mods)).contains(e.id)
            },
{
    lemma_press_event_facts(s, active, key, mods);
    lemma_release_event_facts(s, active, key, mods);
}

/// A held key repeating triggers nothing: right after a press, pressing the
/// same key again emits no event.
pub proof fn lemma_key_repeat_is_silent(
    s: Seq<(Seq<char>, ShortcutView)>,
    active: Set<Seq<char>>,
    mods: ModifierState,
    key: Key,
)
    ensures
        press_events(
            s,
            active.union(triggered_ids(s, key, spec_update(mods, key, true))),
            key,
            spec_update(spec_update(mods, key, true), key, true),
        ).len() == 0,
{
    let m1 = spec_update(mods, key, true);
    assert(spec_update(m1, key, true) == m1);
    let a1 = active.union(triggered_ids(s, key, m1));
    assert forall|i: int| 0 <= i < s.len() && press_triggers(s[i].1, key, m1) implies a1.contains(#[trigger] s[i].0) by {
        assert(triggered_ids(s, key, m1).contains(s[i].0));
    }
    lemma_no_press_events(s, a1, key, m1);
}

/// Releasing a modifier undoes pressing it.
pub proof fn lemma_modifier_press_release(mods: ModifierState, key: Key)
    ensures
        spec_update(spec_update(mods, key, true), key, false) == spec_update(mods, key, false),
        !is_modifier(key) ==> spec_update(mods, key, true) == mods,
{
}

/// The held modifiers, the shortcuts down and the events reported after
/// one key event (`pressed` says whether the key went down), as
/// `handle_key_press` and `handle_key_release` leave them.
pub open spec fn key_step(
    s: Seq<(Seq<char>, ShortcutView)>,
    mods: ModifierState,
    active: Set<Seq<char>>,
    key: Key,
    pressed: bool,
) -> (ModifierState, Set<Seq<char>>, Seq<EventView>) {
    let m = spec_update(mods, key, pressed);
    if pressed {
        (m, active.union(triggered_ids(s, key, m)), press_events(s, active, key, m))
    } else {
        (m, active.difference(ended_ids(s, key, m)), release_events(s, active, key, m))
    }
}

/// The state after a sequence of key events, and every event reported on
/// the way, in order.
pub open spec fn key_run(
    s: Seq<(Seq<char>, ShortcutView)>,
    mods: ModifierState,
    active: Set<Seq<char>>,
    keys: Seq<(Key, bool)>,
) -> (ModifierState, Set<Seq<char>>, Seq<EventView>)
    decreases keys.len(),
{
    if keys.len() == 0 {
        (mods, active, Seq::empty())
    } else {
        let before = key_run(s, mods, active, keys.drop_last());
        let step = key_step(s, before.0, before.1, keys.last().0, keys.last().1);
        (step.0, step.1, before.2 + step.2)
    }
}

/// Whether each event reported for `id` was a press, in order.
pub open spec fn pressed_flags(events: Seq<EventView>, id: Seq<char>) -> Seq<bool>
    decreases events.len(),
{
    if events.len() == 0 {
        Seq::empty()
    } else {
        let r = pressed_flags(events.drop_last(), id);
        if events.last().id == id {
            r.push(events.last().pressed)
        } else {
            r
        }
    }
}

/// Presses and releases alternate, starting with a press.
pub open spec fn alternates(flags: Seq<bool>) -> bool {
    forall|i: int| 0 <= i < flags.len() ==> #[trigger] flags[i] == (i % 2 == 0)
}

proof fn lemma_flags_concat(a: Seq<EventView>, b: Seq<EventView>, id: Seq<char>)
    ensures
        pressed_flags(a + b, id) == pressed_flags(a, id) + pressed_flags(b, id),
    decreases b.len(),
{
    if b.len() == 0 {
        assert(a + b =~= a);
        assert(pressed_flags(a, id) + pressed_flags(b, id) =~= pressed_flags(a, id));
    } else {
        lemma_flags_concat(a, b.drop_last(), id);
        assert((a + b).drop_last() =~= a + b.drop_last());
        assert((a + b).last() == b.last());
        if b.last().id == id {
            assert(pressed_flags(a, id) + pressed_flags(b, id) =~= (pressed_flags(a, id) + pressed_flags(
                b.drop_last(),
                id,
            )).push(b.last().pressed));
        }
    }
}

proof fn lemma_press_flags(
    s: Seq<(Seq<char>, ShortcutView)>,
    active: Set<Seq<char>>,
    key: Key,
    mods: ModifierState,
    id: Seq<char>,
)
    requires
        unique_ids(s),
    ensures
        pressed_flags(press_events(s, active, key, mods), id) == if triggered_ids(s, key, mods).contains(id)
            && !active.contains(id) {
            seq![true]
        } else {
            Seq::<bool>::empty()
        },
    decreases s.len(),
{
    if s.len() == 0 {
        assert(!triggered_ids(s, key, mods).contains(id));
    } else {
        let init = s.drop_last();
        assert(unique_ids(init)) by {
            assert forall|a: int, b: int| 0 <= a < b < init.len() implies #[trigger] init[a].0 != #[trigger] init[b].0 by {
                assert(s[a].0 != s[b].0);
            }
        }
        lemma_press_flags(init, active, key, mods, id);
        let n = s.len() - 1;
        let (lid, sv) = s.last();
        if lid == id {
            assert(!triggered_ids(init, key, mods).contains(id)) by {
                if triggered_ids(init, key, mods).contains(id) {
                    let j = choose|j: int| 0 <= j < init.len() && #[trigger] init[j].0 == id && press_triggers(
                        init[j].1,
                        key,
                        mods,
                    );
                    assert(s[j].0 != s[n].0);
                }
            }
            assert(triggered_ids(s, key, mods).contains(id) == press_triggers(sv, key, mods)) by {
                if triggered_ids(s, key, mods).contains(id) {
                    let j = choose|j: int| 0 <= j < s.len() && #[trigger] s[j].0 == id && press_triggers(s[j].1, key, mods);
                    if j < n {
                        assert(s[j].0 != s[n].0);
                    }
                }
                if press_triggers(sv, key, mods) {
                    assert(s[n].0 == id);
                }
            }
            let r = press_events(init, active, key, mods);
            let pe = press_events(s, active, key, mods);
            if press_triggers(sv, key, mods) && !active.contains(id) {
                assert(pe.drop_last() =~= r);
                assert(pe.last().id == id);
                assert(pressed_flags(pe, id) =~= seq![true]);
            } else {
                assert(pe == r);
            }
        } else {
            let r = press_events(init, active, key, mods);
            let pe = press_events(s, active, key, mods);
            if pe.len() > r.len() {
                assert(pe.drop_last() =~= r);
                assert(pe.last().id == lid);
            } else {
                assert(pe == r);
            }
            assert(triggered_ids(s, key, mods).contains(id) == triggered_ids(init, key, mods).contains(id)) by {
                if triggered_ids(s, key, mods).contains(id) {
                    let j = choose|j: int| 0 <= j < s.len() && #[trigger] s[j].0 == id && press_triggers(s[j].1, key, mods);
                    assert(j < n);
                    assert(init[j] == s[j]);
                }
                if triggered_ids(init, key, mods).contains(id) {
                    let j = choose|j: int| 0 <= j < init.len() && #[trigger] init[j].0 == id && press_triggers(
                        init[j].1,
                        key,
                        mods,
                    );
                    assert(s[j] == init[j]);
                }
            }
        }
    }
}

proof fn lemma_release_flags(
    s: Seq<(Seq<char>, ShortcutView)>,
    active: Set<Seq<char>>,
    key: Key,
    mods: ModifierState,
    id: Seq<char>,
)
    requires
        unique_ids(s),
    ensures
        pressed_flags(release_events(s, active, key, mods), id) == if ended_ids(s, key, mods).contains(id)
            && active.contains(id) {
            seq![false]
        } else {
            Seq::<bool>::empty()
        },
    decreases s.len(),
{
    if s.len() == 0 {
        assert(!ended_ids(s, key, mods).contains(id));
    } else {
        let init = s.drop_last();
        assert(unique_ids(init)) by {
            assert forall|a: int, b: int| 0 <= a < b < init.len() implies #[trigger] init[a].0 != #[trigger] init[b].0 by {
                assert(s[a].0 != s[b].0);
            }
        }
        lemma_release_flags(init, active, key, mods, id);
        let n = s.len() - 1;
        let (lid, sv) = s.last();
        if lid == id {
            assert(!ended_ids(init, key, mods).contains(id)) by {
                if ended_ids(init, key, mods).contains(id) {
                    let j = choose|j: int| 0 <= j < init.len() && #[trigger] init[j].0 == id && release_ends(
                        init[j].1,
                        key,
                        mods,
                    );
                    assert(s[j].0 != s[n].0);
                }
            }
            assert(ended_ids(s, key, mods).contains(id) == release_ends(sv, key, mods)) by {
                if ended_ids(s, key, mods).contains(id) {
                    let j = choose|j: int| 0 <= j < s.len() && #[trigger] s[j].0 == id && release_ends(s[j].1, key, mods);
                    if j < n {
                        assert(s[j].0 != s[n].0);
                    }
                }
                if release_ends(sv, key, mods) {
                    assert(s[n].0 == id);
                }
            }
            let r = release_events(init, active, key, mods);
            let pe = release_events(s, active, key, mods);
            if release_ends(sv, key, mods) && active.contains(id) {
                assert(pe.drop_last() =~= r);
                assert(pe.last().id == id);
                assert(pressed_flags(pe, id) =~= seq![false]);
            } else {
                assert(pe == r);
            }
        } else {
            let r = release_events(init, active, key, mods);
            let pe = release_events(s, active, key, mods);
            if pe.len() > r.len() {
                assert(pe.drop_last() =~= r);
                assert(pe.last().id == lid);
            } else {
                assert(pe == r);
            }
            assert(ended_ids(s, key, mods).contains(id) == ended_ids(init, key, mods).contains(id)) by {
                if ended_ids(s, key, mods).contains(id) {
                    let j = choose|j: int| 0 <= j < s.len() && #[trigger] s[j].0 == id && release_ends(s[j].1, key, mods);
                    assert(j < n);
                    assert(init[j] == s[j]);
                }
                if ended_ids(init, key, mods).contains(id) {
                    let j = choose|j: int| 0 <= j < init.len() && #[trigger] init[j].0 == id && release_ends(
                        init[j].1,
                        key,
                        mods,
                    );
                    assert(s[j] == init[j]);
                }
            }
        }
    }
}

/// Over any sequence of key events, starting with nothing down, the events
/// reported for a shortcut alternate press, release, press, ... (a held
/// key's repeats report nothing), and the shortcut is down exactly when the
/// last event reported for it was a press.
pub proof fn lemma_key_events_alternate(
    s: Seq<(Seq<char>, ShortcutView)>,
    mods: ModifierState,
    keys: Seq<(Key, bool)>,
    id: Seq<char>,
)
    requires
        unique_ids(s),
    ensures
        alternates(pressed_flags(key_run(s, mods, Set::empty(), keys).2, id)),
        key_run(s, mods, Set::empty(), keys).1.contains(id) <==> pressed_flags(
            key_run(s, mods, Set::empty(), keys).2,
            id,
        ).len() % 2 == 1,
    decreases keys.len(),
{
    if keys.len() > 0 {
        lemma_key_events_alternate(s, mods, keys.drop_last(), id);
        let before = key_run(s, mods, Set::empty(), keys.drop_last());
        let (key, pressed) = keys.last();
        let m = spec_update(before.0, key, pressed);
        let step = key_step(s, before.0, before.1, key, pressed);
        let f = pressed_flags(before.2, id);
        lemma_flags_concat(before.2, step.2, id);
        if pressed {
            lemma_press_flags(s, before.1, key, m, id);
        } else {
            lemma_release_flags(s, before.1, key, m, id);
        }
        let g = pressed_flags(before.2 + step.2, id);
        assert forall|i: int| 0 <= i < g.len() implies #[trigger] g[i] == (i % 2 == 0) by {
            if i < f.len() {
                assert(g[i] == f[i]);
            }
        }
    }
}

} // verus!
