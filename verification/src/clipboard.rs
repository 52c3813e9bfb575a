//! How a transcription is pasted: the text, the clipboard handling, the
//! native input tool on Linux and its command line.
use vstd::prelude::*;
use crate::settings::{ClipboardHandling, PasteMethod};
use crate::text::{chars_of, matches_at, replace_all, replace_chars, str_to_string, string_of};
use crate::numfmt::dec_digits;

verus! {

/// One clipboard format and its data (saved and restored around a paste).
#[derive(Debug)]
pub struct ClipboardEntry {
    pub format: u32,
    pub data: Vec<u8>,
}

/// The text pasted: with a trailing space when the setting asks for one.
pub fn text_to_paste(text: String, append_trailing_space: bool) -> (r: String)
    ensures
        r@ == if append_trailing_space {
            text@.push(' ')
        } else {
            text@
        },
{
    if append_trailing_space {
        let mut v = chars_of(text.as_str());
        v.push(' ');
        string_of(v.as_slice())
    } else {
        text
    }
}

/// Line endings made CRLF: existing CRLF pairs are first made LF, then
/// every LF becomes CRLF.
pub open spec fn crlf(s: Seq<char>) -> Seq<char> {
    replace_all(replace_all(s, seq!['\r', '\n'], seq!['\n']), seq!['\n'], seq!['\r', '\n'])
}

/// Every LF made CRLF.
spec fn expand_lf(s: Seq<char>) -> Seq<char> {
    replace_all(s, seq!['\n'], seq!['\r', '\n'])
}

/// Every CRLF pair made LF.
spec fn collapse_crlf(s: Seq<char>) -> Seq<char> {
    replace_all(s, seq!['\r', '\n'], seq!['\n'])
}

proof fn lemma_expand_first(u: Seq<char>)
    requires
        u.len() > 0,
    ensures
        expand_lf(u).len() > 0,
        expand_lf(u)[0] != '\n',
{
    if matches_at(u, seq!['\n'], 0) {
        assert(u.subrange(0, 1)[0] == u[0]);
    } else {
        assert(u[0] != '\n') by {
            if u[0] == '\n' {
                assert(u.subrange(0, 1) =~= seq!['\n']);
            }
        }
    }
}

/// Collapsing CRLF pairs undoes expanding LF: every CR that expanding adds
/// stands right before an LF, and no CR of the text does.
proof fn lemma_collapse_expand(t: Seq<char>)
    ensures
        collapse_crlf(expand_lf(t)) == t,
    decreases t.len(),
{
    if t.len() > 0 {
        let rest = t.skip(1);
        lemma_collapse_expand(rest);
        let e = expand_lf(t);
        if t[0] == '\n' {
            assert(t.subrange(0, 1) =~= seq!['\n']);
            assert(e =~= seq!['\r', '\n'] + expand_lf(rest));
            assert(e.subrange(0, 2) =~= seq!['\r', '\n']);
            assert(e.skip(2) =~= expand_lf(rest));
            assert(collapse_crlf(e) =~= seq!['\n'] + rest);
        } else {
            assert(!matches_at(t, seq!['\n'], 0)) by {
                if matches_at(t, seq!['\n'], 0) {
                    assert(t.subrange(0, 1)[0] == t[0]);
                }
            }
            assert(e =~= seq![t[0]] + expand_lf(rest));
            assert(e.skip(1) =~= expand_lf(rest));
            assert(!matches_at(e, seq!['\r', '\n'], 0)) by {
                if matches_at(e, seq!['\r', '\n'], 0) {
                    assert(e.subrange(0, 2)[1] == e[1]);
                    lemma_expand_first(rest);
                    assert(e[1] == expand_lf(rest)[0]);
                }
            }
            assert(collapse_crlf(e) =~= seq![t[0]] + rest);
        }
        assert(t =~= seq![t[0]] + rest);
    }
}

/// Converting line endings twice gives what converting once gives: CRLF
/// pairs already in the text are not doubled.
pub proof fn lemma_crlf_idempotent(s: Seq<char>)
    ensures
        crlf(crlf(s)) == crlf(s),
{
    lemma_collapse_expand(collapse_crlf(s));
}

/// Converts line endings to CRLF.
pub fn convert_lf_to_crlf(text: &str) -> (r: String)
    ensures
        r@ == crlf(text@),
{
    let v = chars_of(text);
    let mut crlf_pat: Vec<char> = Vec::new();
    crlf_pat.push('\r');
    crlf_pat.push('\n');
    let mut lf: Vec<char> = Vec::new();
    lf.push('\n');
    assert(crlf_pat@ =~= seq!['\r', '\n']);
    assert(lf@ =~= seq!['\n']);
    let step = replace_chars(v.as_slice(), crlf_pat.as_slice(), lf.as_slice());
    let done = replace_chars(step.as_slice(), lf.as_slice(), crlf_pat.as_slice());
    string_of(done.as_slice())
}

/// How the paste is carried out.
#[derive(Debug)]
pub enum PastePlan {
    /// Nothing is pasted.
    Skip,
    /// The text is typed key by key.
    Direct { text: String },
    /// The text goes through the clipboard and a paste key combination.
    Clipboard {
        /// The text written to the clipboard.
        clipboard_text: String,
        /// The previous clipboard text is saved first and put back after.
        restore_previous: bool,
        /// All clipboard formats are saved and put back (where supported).
        restore_all_formats: bool,
    },
}

/// The paste plan: the method decides; through the clipboard, line endings
/// become CRLF when asked for (where `crlf_supported`), and the clipboard
/// handling decides what is restored. Also returns whether the text is
/// copied to the clipboard afterwards.
pub fn plan_paste(
    text: String,
    method: PasteMethod,
    handling: ClipboardHandling,
    convert_crlf: bool,
    crlf_supported: bool,
) -> (r: (PastePlan, bool))
    ensures
        r.1 == (handling == ClipboardHandling::CopyToClipboard),
        method == PasteMethod::NoPaste ==> r.0 is Skip,
        method == PasteMethod::Direct ==> (r.0 matches PastePlan::Direct { text: t } && t@ == text@),
        (method == PasteMethod::CtrlV || method == PasteMethod::CtrlShiftV || method
            == PasteMethod::ShiftInsert) ==> (r.0 matches PastePlan::Clipboard {
            clipboard_text: c,
            restore_previous: rp,
            restore_all_formats: ra,
        } && c@ == (if convert_crlf && crlf_supported {
            crlf(text@)
        } else {
            text@
        }) && rp == (handling == ClipboardHandling::DontModify) && ra == (handling
            == ClipboardHandling::RestoreAdvanced)),
{
    let copy_after = match handling {
        ClipboardHandling::CopyToClipboard => true,
        _ => false,
    };
    let plan = match method {
        PasteMethod::NoPaste => PastePlan::Skip,
        PasteMethod::Direct => PastePlan::Direct { text },
        _ => {
            let clipboard_text = if convert_crlf && crlf_supported {
                convert_lf_to_crlf(text.as_str())
            } else {
                text
            };
            let restore_previous = match handling {
                ClipboardHandling::DontModify => true,
                _ => false,
            };
            let restore_all_formats = match handling {
                ClipboardHandling::RestoreAdvanced => true,
                _ => false,
            };
            PastePlan::Clipboard { clipboard_text, restore_previous, restore_all_formats }
        },
    };
    (plan, copy_after)
}

/// A native input tool on Linux.
#[derive(Debug, Clone, Copy, PartialEq, Eq, Structural)]
pub enum LinuxInputTool {
    Wtype,
    Dotool,
    Ydotool,
    Xdotool,
}

/// Which tools are installed.
#[derive(Debug, Clone, Copy, PartialEq, Eq, Structural)]
pub struct ToolAvailability {
    pub wtype: bool,
    pub dotool: bool,
    pub ydotool: bool,
    pub xdotool: bool,
}

/// The tool used: on Wayland wtype, then dotool, then ydotool; on X11
/// xdotool, then ydotool; none when none of those is installed.
pub open spec fn spec_choose_tool(wayland: bool, a: ToolAvailability) -> Option<LinuxInputTool> {
    if wayland {
        if a.wtype {
            Some(LinuxInputTool::Wtype)
        } else if a.dotool {
            Some(LinuxInputTool::Dotool)
        } else if a.ydotool {
            Some(LinuxInputTool::Ydotool)
        } else {
            None
        }
    } else {
        if a.xdotool {
            Some(LinuxInputTool::Xdotool)
        } else if a.ydotool {
            Some(LinuxInputTool::Ydotool)
        } else {
            None
        }
    }
}

/// The tool used for key combinations and typing.
pub fn choose_linux_tool(wayland: bool, available: ToolAvailability) -> (r: Option<LinuxInputTool>)
    ensures
        r == spec_choose_tool(wayland, available),
{
    if wayland {
        if available.wtype {
            Some(LinuxInputTool::Wtype)
        } else if available.dotool {
            Some(LinuxInputTool::Dotool)
        } else if available.ydotool {
            Some(LinuxInputTool::Ydotool)
        } else {
            None
        }
    } else {
        if available.xdotool {
            Some(LinuxInputTool::Xdotool)
        } else if available.ydotool {
            Some(LinuxInputTool::Ydotool)
        } else {
            None
        }
    }
}

/// Model of a command line.
pub open spec fn argv_view(v: Seq<String>) -> Seq<Seq<char>> {
    v.map_values(|s: String| s@)
}

/// The command line that sends a paste key combination with a tool.
pub open spec fn key_combo_argv(tool: LinuxInputTool, method: PasteMethod) -> Option<Seq<Seq<char>>> {
    match (tool, method) {
        (LinuxInputTool::Wtype, PasteMethod::CtrlV) => Some(seq!["wtype"@, "-M"@, "ctrl"@, "-k"@, "v"@]),
        (LinuxInputTool::Wtype, PasteMethod::ShiftInsert) => Some(
            seq!["wtype"@, "-M"@, "shift"@, "-k"@, "Insert"@],
        ),
        (LinuxInputTool::Wtype, PasteMethod::CtrlShiftV) => Some(
            seq!["wtype"@, "-M"@, "ctrl"@, "-M"@, "shift"@, "-k"@, "v"@],
        ),
        (LinuxInputTool::Dotool, PasteMethod::CtrlV) => Some(seq!["sh"@, "-c"@, "echo key ctrl+v | dotool"@]),
        (LinuxInputTool::Dotool, PasteMethod::ShiftInsert) => Some(
            seq!["sh"@, "-c"@, "echo key shift+insert | dotool"@],
        ),
        (LinuxInputTool::Dotool, PasteMethod::CtrlShiftV) => Some(
            seq!["sh"@, "-c"@, "echo key ctrl+shift+v | dotool"@],
        ),
        (LinuxInputTool::Ydotool, PasteMethod::CtrlV) => Some(
            seq!["ydotool"@, "key"@, "29:1"@, "47:1"@, "47:0"@, "29:0"@],
        ),
        (LinuxInputTool::Ydotool, PasteMethod::ShiftInsert) => Some(
            seq!["ydotool"@, "key"@, "42:1"@, "110:1"@, "110:0"@, "42:0"@],
        ),
        (LinuxInputTool::Ydotool, PasteMethod::CtrlShiftV) => Some(
            seq!["ydotool"@, "key"@, "29:1"@, "42:1"@, "47:1"@, "47:0"@, "42:0"@, "29:0"@],
        ),
        (LinuxInputTool::Xdotool, PasteMethod::CtrlV) => Some(
            seq!["xdotool"@, "key"@, "--clearmodifiers"@, "ctrl+v"@],
        ),
        (LinuxInputTool::Xdotool, PasteMethod::CtrlShiftV) => Some(
            seq!["xdotool"@, "key"@, "--clearmodifiers"@, "ctrl+shift+v"@],
        ),
        (LinuxInputTool::Xdotool, PasteMethod::ShiftInsert) => Some(
            seq!["xdotool"@, "key"@, "--clearmodifiers"@, "shift+Insert"@],
        ),
        _ => None,
    }
}

fn argv(parts: &[&str]) -> (r: Vec<String>)
    ensures
        argv_view(r@) == parts@.map_values(|s: &str| s@),
{
    let mut v: Vec<String> = Vec::new();
    let mut i: usize = 0;
    while i < parts.len()
        invariant
            0 <= i <= parts.len(),
            argv_view(v@) == parts@.take(i as int).map_values(|s: &str| s@),
        decreases parts.len() - i,
    {
        let ghost before = argv_view(v@);
        v.push(str_to_string(parts[i]));
        assert(argv_view(v@) =~= before.push(parts@[i as int]@));
        assert(parts@.take(i + 1).map_values(|s: &str| s@) =~= parts@.take(i as int).map_values(|s: &str| s@).push(parts@[i as int]@));
        i = i + 1;
    }
    assert(parts@.take(i as int) =~= parts@);
    v
}

/// The command line sending the paste key combination; other methods are
/// refused.
pub fn key_combo_command(tool: LinuxInputTool, method: PasteMethod) -> (r: Result<Vec<String>, String>)
    ensures
        match key_combo_argv(tool, method) {
            Some(a) => r is Ok && argv_view(r->Ok_0@) == a,
            None => r is Err && r->Err_0@ == "Unsupported paste method"@,
        },
{
    let parts: Vec<&str> = match (tool, method) {
        (LinuxInputTool::Wtype, PasteMethod::CtrlV) => vec!["wtype", "-M", "ctrl", "-k", "v"],
        (LinuxInputTool::Wtype, PasteMethod::ShiftInsert) => vec!["wtype", "-M", "shift", "-k", "Insert"],
        (LinuxInputTool::Wtype, PasteMethod::CtrlShiftV) => vec!["wtype", "-M", "ctrl", "-M", "shift", "-k", "v"],
        (LinuxInputTool::Dotool, PasteMethod::CtrlV) => vec!["sh", "-c", "echo key ctrl+v | dotool"],
        (LinuxInputTool::Dotool, PasteMethod::ShiftInsert) => vec!["sh", "-c", "echo key shift+insert | dotool"],
        (LinuxInputTool::Dotool, PasteMethod::CtrlShiftV) => vec!["sh", "-c", "echo key ctrl+shift+v | dotool"],
        (LinuxInputTool::Ydotool, PasteMethod::CtrlV) => vec!["ydotool", "key", "29:1", "47:1", "47:0", "29:0"],
        (LinuxInputTool::Ydotool, PasteMethod::ShiftInsert) => vec!["ydotool", "key", "42:1", "110:1", "110:0", "42:0"],
        (LinuxInputTool::Ydotool, PasteMethod::CtrlShiftV) => vec![
            "ydotool",
            "key",
            "29:1",
            "42:1",
            "47:1",
            "47:0",
            "42:0",
            "29:0",
        ],
        (LinuxInputTool::Xdotool, PasteMethod::CtrlV) => vec!["xdotool", "key", "--clearmodifiers", "ctrl+v"],
        (LinuxInputTool::Xdotool, PasteMethod::CtrlShiftV) => vec!["xdotool", "key", "--clearmodifiers", "ctrl+shift+v"],
        (LinuxInputTool::Xdotool, PasteMethod::ShiftInsert) => vec!["xdotool", "key", "--clearmodifiers", "shift+Insert"],
        _ => return Err(str_to_string("Unsupported paste method")),
    };
    let r = argv(parts.as_slice());
    assert(parts@.map_values(|s: &str| s@) =~= key_combo_argv(tool, method)->0);
    Ok(r)
}

/// How a tool types text: the command line, and what goes to its input
/// (dotool reads `type <text>` commands).
pub open spec fn typing_command(tool: LinuxInputTool, text: Seq<char>) -> (Seq<Seq<char>>, Option<Seq<char>>) {
    match tool {
        LinuxInputTool::Wtype => (seq!["wtype"@, "--"@, text], None),
        LinuxInputTool::Xdotool => (seq!["xdotool"@, "type"@, "--clearmodifiers"@, "--"@, text], None),
        LinuxInputTool::Dotool => (seq!["dotool"@], Some("type "@ + text + "\n"@)),
        LinuxInputTool::Ydotool => (seq!["ydotool"@, "type"@, "--"@, text], None),
    }
}

/// The command typing `text` with a tool.
pub fn type_text_command(tool: LinuxInputTool, text: &str) -> (r: (Vec<String>, Option<String>))
    ensures
        argv_view(r.0@) == typing_command(tool, text@).0,
        crate::settings::opt_chars(r.1) == typing_command(tool, text@).1,
{
    match tool {
        LinuxInputTool::Wtype => {
            let mut v = argv(["wtype", "--"].as_slice());
            let ghost b = argv_view(v@);
            v.push(str_to_string(text));
            assert(argv_view(v@) =~= b.push(text@));
            assert(["wtype", "--"]@.map_values(|s: &str| s@) =~= seq!["wtype"@, "--"@]);
            (v, None)
        },
        LinuxInputTool::Xdotool => {
            let mut v = argv(["xdotool", "type", "--clearmodifiers", "--"].as_slice());
            let ghost b = argv_view(v@);
            v.push(str_to_string(text));
            assert(argv_view(v@) =~= b.push(text@));
            assert(["xdotool", "type", "--clearmodifiers", "--"]@.map_values(|s: &str| s@) =~= seq![
                "xdotool"@,
                "type"@,
                "--clearmodifiers"@,
                "--"@,
            ]);
            (v, None)
        },
        LinuxInputTool::Dotool => {
            let v = argv(["dotool"].as_slice());
            assert(["dotool"]@.map_values(|s: &str| s@) =~= seq!["dotool"@]);
            let mut input = chars_of("type ");
            crate::text::push_str(&mut input, text);
            crate::text::push_str(&mut input, "\n");
            (v, Some(string_of(input.as_slice())))
        },
        LinuxInputTool::Ydotool => {
            let mut v = argv(["ydotool", "type", "--"].as_slice());
            let ghost b = argv_view(v@);
            v.push(str_to_string(text));
            assert(argv_view(v@) =~= b.push(text@));
            assert(["ydotool", "type", "--"]@.map_values(|s: &str| s@) =~= seq!["ydotool"@, "type"@, "--"@]);
            (v, None)
        },
    }
}


/// The keys a paste method presses, modifiers first, as Linux key codes:
/// Ctrl is 29, Shift 42, V 47 and Insert 110. Direct typing and no paste
/// press no key combination.
pub open spec fn paste_chord(method: PasteMethod) -> Option<Seq<int>> {
    match method {
        PasteMethod::CtrlV => Some(seq![29int, 47int]),
        PasteMethod::ShiftInsert => Some(seq![42int, 110int]),
        PasteMethod::CtrlShiftV => Some(seq![29int, 42int, 47int]),
        _ => None,
    }
}

/// The lowercase name of a key code.
pub open spec fn chord_key_name(code: int) -> Seq<char> {
    if code == 29 {
        "ctrl"@
    } else if code == 42 {
        "shift"@
    } else if code == 47 {
        "v"@
    } else {
        "insert"@
    }
}

/// The X keysym of a key code: as the lowercase name, but `Insert`.
pub open spec fn chord_keysym(code: int) -> Seq<char> {
    if code == 110 {
        "Insert"@
    } else {
        chord_key_name(code)
    }
}

/// Names joined by `+`.
pub open spec fn join_plus(names: Seq<Seq<char>>) -> Seq<char>
    decreases names.len(),
{
    if names.len() == 0 {
        Seq::empty()
    } else if names.len() == 1 {
        names[0]
    } else {
        names[0] + "+"@ + join_plus(names.skip(1))
    }
}

/// wtype's arguments for a chord: `-M` and the name of each modifier, then
/// `-k` and the last key.
pub open spec fn wtype_chord(chord: Seq<int>) -> Seq<Seq<char>>
    decreases chord.len(),
{
    if chord.len() <= 1 {
        seq!["-k"@, chord_keysym(chord[0])]
    } else {
        seq!["-M"@, chord_key_name(chord[0])] + wtype_chord(chord.skip(1))
    }
}

/// ydotool's key events for a chord: each key pressed (`code:1`) in order,
/// then each released (`code:0`) in the reverse order.
pub open spec fn ydotool_chord(chord: Seq<int>) -> Seq<Seq<char>>
    decreases chord.len(),
{
    if chord.len() == 0 {
        Seq::empty()
    } else {
        seq![dec_digits(chord[0] as nat) + ":1"@] + ydotool_chord(chord.skip(1)) + seq![dec_digits(chord[0] as nat) + ":0"@]
    }
}

/// The command line that presses a chord with a tool.
pub open spec fn chord_command(tool: LinuxInputTool, chord: Seq<int>) -> Seq<Seq<char>> {
    match tool {
        LinuxInputTool::Xdotool => seq!["xdotool"@, "key"@, "--clearmodifiers"@, join_plus(chord.map_values(|c: int| chord_keysym(c)))],
        LinuxInputTool::Dotool => seq!["sh"@, "-c"@, "echo key "@ + join_plus(chord.map_values(|c: int| chord_key_name(c))) + " | dotool"@],
        LinuxInputTool::Wtype => seq!["wtype"@] + wtype_chord(chord),
        LinuxInputTool::Ydotool => seq!["ydotool"@, "key"@] + ydotool_chord(chord),
    }
}

proof fn lemma_chord_pieces()
    ensures
        dec_digits(29) == "29"@,
        dec_digits(42) == "42"@,
        dec_digits(47) == "47"@,
        dec_digits(110) == "110"@,
{
    reveal_strlit("29");
    reveal_strlit("42");
    reveal_strlit("47");
    reveal_strlit("110");
    assert(dec_digits(2) == seq!['2']);
    assert(dec_digits(4) == seq!['4']);
    assert(dec_digits(1) == seq!['1']);
    assert(dec_digits(11) =~= seq!['1', '1']);
    assert(dec_digits(29) =~= seq!['2', '9']);
    assert(dec_digits(42) =~= seq!['4', '2']);
    assert(dec_digits(47) =~= seq!['4', '7']);
    assert(dec_digits(110) =~= seq!['1', '1', '0']);
}

/// Whatever the tool, the paste command presses exactly the keys of the
/// chosen paste method: xdotool and dotool name them joined by `+`, wtype
/// holds each modifier with `-M` and types the last key with `-k`, and
/// ydotool presses them in order and releases them in reverse. Methods
/// that press no combination have no command.
pub proof fn lemma_paste_command_presses_the_chord(tool: LinuxInputTool, method: PasteMethod)
    ensures
        paste_chord(method) is Some ==> key_combo_argv(tool, method) == Some(chord_command(tool, paste_chord(method)->0)),
        paste_chord(method) is None ==> key_combo_argv(tool, method) is None,
{
    lemma_chord_pieces();
    reveal_strlit("ctrl");
    reveal_strlit("shift");
    reveal_strlit("v");
    reveal_strlit("insert");
    reveal_strlit("Insert");
    reveal_strlit("+");
    reveal_strlit(":1");
    reveal_strlit(":0");
    reveal_strlit("echo key ");
    reveal_strlit(" | dotool");
    reveal_strlit("ctrl+v");
    reveal_strlit("ctrl+shift+v");
    reveal_strlit("shift+Insert");
    reveal_strlit("echo key ctrl+v | dotool");
    reveal_strlit("echo key shift+insert | dotool");
    reveal_strlit("echo key ctrl+shift+v | dotool");
    reveal_strlit("29:1");
    reveal_strlit("47:1");
    reveal_strlit("47:0");
    reveal_strlit("29:0");
    reveal_strlit("42:1");
    reveal_strlit("42:0");
    reveal_strlit("110:1");
    reveal_strlit("110:0");
    if let Some(ch) = paste_chord(method) {
        let names = ch.map_values(|c: int| chord_key_name(c));
        let syms = ch.map_values(|c: int| chord_keysym(c));
        if ch.len() == 2 {
            assert(names =~= seq![chord_key_name(ch[0]), chord_key_name(ch[1])]);
            assert(syms =~= seq![chord_keysym(ch[0]), chord_keysym(ch[1])]);
            assert(names.skip(1) =~= seq![chord_key_name(ch[1])]);
            assert(syms.skip(1) =~= seq![chord_keysym(ch[1])]);
            assert(join_plus(names.skip(1)) == chord_key_name(ch[1]));
            assert(join_plus(syms.skip(1)) == chord_keysym(ch[1]));
            assert(join_plus(names) == chord_key_name(ch[0]) + "+"@ + chord_key_name(ch[1]));
            assert(join_plus(syms) == chord_keysym(ch[0]) + "+"@ + chord_keysym(ch[1]));
            assert(ch.skip(1) =~= seq![ch[1]]);
            assert(ch.skip(1).skip(1) =~= Seq::<int>::empty());
            assert(wtype_chord(ch.skip(1)) == seq!["-k"@, chord_keysym(ch[1])]);
            assert(ydotool_chord(ch.skip(1).skip(1)) == Seq::<Seq<char>>::empty());
            assert(wtype_chord(ch) == seq!["-M"@, chord_key_name(ch[0])] + seq!["-k"@, chord_keysym(ch[1])]);
            assert(ydotool_chord(ch.skip(1)) == seq![dec_digits(ch[1] as nat) + ":1"@] + Seq::<Seq<char>>::empty()
                + seq![dec_digits(ch[1] as nat) + ":0"@]);
        } else {
            assert(names =~= seq![chord_key_name(ch[0]), chord_key_name(ch[1]), chord_key_name(ch[2])]);
            assert(syms =~= seq![chord_keysym(ch[0]), chord_keysym(ch[1]), chord_keysym(ch[2])]);
            assert(names.skip(1) =~= seq![chord_key_name(ch[1]), chord_key_name(ch[2])]);
            assert(syms.skip(1) =~= seq![chord_keysym(ch[1]), chord_keysym(ch[2])]);
            assert(names.skip(1).skip(1) =~= seq![chord_key_name(ch[2])]);
            assert(syms.skip(1).skip(1) =~= seq![chord_keysym(ch[2])]);
            assert(join_plus(names.skip(1).skip(1)) == chord_key_name(ch[2]));
            assert(join_plus(syms.skip(1).skip(1)) == chord_keysym(ch[2]));
            assert(join_plus(names.skip(1)) == chord_key_name(ch[1]) + "+"@ + chord_key_name(ch[2]));
            assert(join_plus(syms.skip(1)) == chord_keysym(ch[1]) + "+"@ + chord_keysym(ch[2]));
            assert(join_plus(names) == chord_key_name(ch[0]) + "+"@ + (chord_key_name(ch[1]) + "+"@ + chord_key_name(ch[2])));
            assert(join_plus(syms) == chord_keysym(ch[0]) + "+"@ + (chord_keysym(ch[1]) + "+"@ + chord_keysym(ch[2])));
            assert(ch.skip(1) =~= seq![ch[1], ch[2]]);
            assert(ch.skip(1).skip(1) =~= seq![ch[2]]);
            assert(ch.skip(1).skip(1).skip(1) =~= Seq::<int>::empty());
            assert(wtype_chord(ch.skip(1).skip(1)) == seq!["-k"@, chord_keysym(ch[2])]);
            assert(wtype_chord(ch.skip(1)) == seq!["-M"@, chord_key_name(ch[1])] + seq!["-k"@, chord_keysym(ch[2])]);
            assert(ydotool_chord(ch.skip(1).skip(1).skip(1)) == Seq::<Seq<char>>::empty());
            assert(wtype_chord(ch) == seq!["-M"@, chord_key_name(ch[0])] + (seq!["-M"@, chord_key_name(ch[1])] + seq!["-k"@, chord_keysym(ch[2])]));
            assert(ydotool_chord(ch.skip(1).skip(1)) == seq![dec_digits(ch[2] as nat) + ":1"@] + Seq::<Seq<char>>::empty()
                + seq![dec_digits(ch[2] as nat) + ":0"@]);
            assert(ydotool_chord(ch.skip(1)) == seq![dec_digits(ch[1] as nat) + ":1"@] + ydotool_chord(ch.skip(1).skip(1))
                + seq![dec_digits(ch[1] as nat) + ":0"@]);
        }
        reveal_strlit("shift+insert");
        reveal_strlit("29");
        reveal_strlit("42");
        reveal_strlit("47");
        reveal_strlit("110");
        assert("ctrl"@ + "+"@ + "v"@ =~= "ctrl+v"@);
        assert("shift"@ + "+"@ + "Insert"@ =~= "shift+Insert"@);
        assert("shift"@ + "+"@ + "insert"@ =~= "shift+insert"@);
        assert("ctrl"@ + "+"@ + ("shift"@ + "+"@ + "v"@) =~= "ctrl+shift+v"@);
        assert("echo key "@ + "ctrl+v"@ + " | dotool"@ =~= "echo key ctrl+v | dotool"@);
        assert("echo key "@ + "shift+insert"@ + " | dotool"@ =~= "echo key shift+insert | dotool"@);
        assert("echo key "@ + "ctrl+shift+v"@ + " | dotool"@ =~= "echo key ctrl+shift+v | dotool"@);
        assert("29"@ + ":1"@ =~= "29:1"@);
        assert("29"@ + ":0"@ =~= "29:0"@);
        assert("42"@ + ":1"@ =~= "42:1"@);
        assert("42"@ + ":0"@ =~= "42:0"@);
        assert("47"@ + ":1"@ =~= "47:1"@);
        assert("47"@ + ":0"@ =~= "47:0"@);
        assert("110"@ + ":1"@ =~= "110:1"@);
        assert("110"@ + ":0"@ =~= "110:0"@);
        assert(key_combo_argv(tool, method)->0 =~= chord_command(tool, ch));
    }
}

/// For one tool, distinct paste methods give distinct commands.
pub proof fn lemma_paste_commands_distinct(tool: LinuxInputTool, m1: PasteMethod, m2: PasteMethod)
    requires
        paste_chord(m1) is Some,
        paste_chord(m2) is Some,
        m1 != m2,
    ensures
        key_combo_argv(tool, m1) != key_combo_argv(tool, m2),
{
    reveal_strlit("v");
    reveal_strlit("Insert");
    reveal_strlit("ctrl");
    reveal_strlit("shift");
    reveal_strlit("ctrl+v");
    reveal_strlit("ctrl+shift+v");
    reveal_strlit("shift+Insert");
    reveal_strlit("echo key ctrl+v | dotool");
    reveal_strlit("echo key shift+insert | dotool");
    reveal_strlit("echo key ctrl+shift+v | dotool");
    reveal_strlit("29:1");
    reveal_strlit("42:1");
    reveal_strlit("47:1");
    let a = key_combo_argv(tool, m1)->0;
    let b = key_combo_argv(tool, m2)->0;
    match tool {
        LinuxInputTool::Xdotool => {
            assert(a[3][5] != b[3][5]);
        },
        LinuxInputTool::Dotool => {
            assert(a[2][14] != b[2][14]);
        },
        LinuxInputTool::Wtype => {
            assert(a.len() != b.len() || a[2][0] != b[2][0]);
        },
        LinuxInputTool::Ydotool => {
            assert(a.len() != b.len() || a[2][0] != b[2][0]);
        },
    }
}


/// Every tool types the text as given: wtype, xdotool and ydotool take it
/// as their last argument, after `--` so that it is never read as an
/// option; dotool reads it from its input as one `type` command line.
pub proof fn lemma_typing_passes_text_verbatim(tool: LinuxInputTool, text: Seq<char>)
    ensures
        tool != LinuxInputTool::Dotool ==> {
            let argv = typing_command(tool, text).0;
            &&& argv.len() >= 3
            &&& argv.last() == text
            &&& argv[argv.len() - 2] == "--"@
            &&& typing_command(tool, text).1 is None
        },
        tool == LinuxInputTool::Dotool ==> typing_command(tool, text).1 == Some("type "@ + text + "\n"@),
{
}

} // verus!
