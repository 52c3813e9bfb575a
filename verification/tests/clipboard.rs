use aivorelay::clipboard::{
    choose_linux_tool, convert_lf_to_crlf, key_combo_command, plan_paste, text_to_paste, type_text_command,
    LinuxInputTool, PastePlan, ToolAvailability,
};
use aivorelay::settings::{ClipboardHandling, PasteMethod};

#[test]
fn trailing_space_and_crlf() {
    assert_eq!(text_to_paste("hi".to_string(), true), "hi ");
    assert_eq!(text_to_paste("hi".to_string(), false), "hi");
    assert_eq!(convert_lf_to_crlf("a\nb\r\nc"), "a\r\nb\r\nc");
    assert_eq!(convert_lf_to_crlf("none"), "none");
}

#[test]
fn paste_plans() {
    let (p, copy) = plan_paste("t".to_string(), PasteMethod::NoPaste, ClipboardHandling::CopyToClipboard, false, true);
    assert!(matches!(p, PastePlan::Skip));
    assert!(copy);
    let (p, _) = plan_paste("t".to_string(), PasteMethod::Direct, ClipboardHandling::DontModify, true, true);
    assert!(matches!(p, PastePlan::Direct { text } if text == "t"));
    let (p, copy) = plan_paste("a\nb".to_string(), PasteMethod::CtrlV, ClipboardHandling::DontModify, true, true);
    assert!(!copy);
    match p {
        PastePlan::Clipboard { clipboard_text, restore_previous, restore_all_formats } => {
            assert_eq!(clipboard_text, "a\r\nb");
            assert!(restore_previous);
            assert!(!restore_all_formats);
        }
        other => panic!("unexpected {:?}", other),
    }
    let (p, _) = plan_paste("a\nb".to_string(), PasteMethod::ShiftInsert, ClipboardHandling::RestoreAdvanced, true, false);
    match p {
        PastePlan::Clipboard { clipboard_text, restore_previous, restore_all_formats } => {
            assert_eq!(clipboard_text, "a\nb");
            assert!(!restore_previous);
            assert!(restore_all_formats);
        }
        other => panic!("unexpected {:?}", other),
    }
}

#[test]
fn linux_tools() {
    let all = ToolAvailability { wtype: true, dotool: true, ydotool: true, xdotool: true };
    assert_eq!(choose_linux_tool(true, all), Some(LinuxInputTool::Wtype));
    assert_eq!(choose_linux_tool(false, all), Some(LinuxInputTool::Xdotool));
    let some = ToolAvailability { wtype: false, dotool: false, ydotool: true, xdotool: false };
    assert_eq!(choose_linux_tool(true, some), Some(LinuxInputTool::Ydotool));
    let none = ToolAvailability { wtype: false, dotool: false, ydotool: false, xdotool: false };
    assert_eq!(choose_linux_tool(false, none), None);
    assert_eq!(
        key_combo_command(LinuxInputTool::Wtype, PasteMethod::CtrlV).unwrap(),
        vec!["wtype", "-M", "ctrl", "-k", "v"]
    );
    assert_eq!(
        key_combo_command(LinuxInputTool::Xdotool, PasteMethod::ShiftInsert).unwrap(),
        vec!["xdotool", "key", "--clearmodifiers", "shift+Insert"]
    );
    assert_eq!(key_combo_command(LinuxInputTool::Ydotool, PasteMethod::Direct), Err("Unsupported paste method".to_string()));
    assert_eq!(type_text_command(LinuxInputTool::Dotool, "hey"), (vec!["dotool".to_string()], Some("type hey\n".to_string())));
    assert_eq!(
        type_text_command(LinuxInputTool::Xdotool, "hey").0,
        vec!["xdotool", "type", "--clearmodifiers", "--", "hey"]
    );
}

#[test]
fn crlf_conversion_twice_is_once() {
    for s in ["a\nb\r\nc", "\r\r\n\n", "\r", "x\n\n\r\ny", ""] {
        let once = convert_lf_to_crlf(s);
        assert_eq!(convert_lf_to_crlf(&once), once);
    }
    assert_eq!(convert_lf_to_crlf("\r\r\n\n"), "\r\r\n\r\n");
}
