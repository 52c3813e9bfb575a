use aivorelay::key_listener::{is_modifier_key, parse_shortcut_string, string_to_key, Key, KeyListenerManager, ModifierState};

fn mods(ctrl: bool, shift: bool, alt: bool, win: bool) -> ModifierState {
    ModifierState { ctrl, shift, alt, win }
}

#[test]
fn key_names() {
    assert_eq!(string_to_key("Caps Lock"), Ok(Key::CapsLock));
    assert_eq!(string_to_key(" ESC "), Ok(Key::Escape));
    assert_eq!(string_to_key("f12"), Ok(Key::F12));
    assert_eq!(string_to_key("pgdn"), Ok(Key::PageDown));
    assert_eq!(string_to_key("xyz"), Err("Unknown key: 'xyz'".to_string()));
    assert!(is_modifier_key(Key::ShiftLeft));
    assert!(!is_modifier_key(Key::KeyA));
}

#[test]
fn parse_bindings() {
    assert_eq!(parse_shortcut_string("Ctrl+Shift+K"), Ok((Some(Key::KeyK), mods(true, true, false, false))));
    assert_eq!(parse_shortcut_string("ctrl+alt"), Ok((None, mods(true, false, true, false))));
    assert_eq!(parse_shortcut_string("cmd + space"), Ok((Some(Key::Space), mods(false, false, false, true))));
    assert_eq!(
        parse_shortcut_string("a+b"),
        Err("Multiple main keys in shortcut: already have a key, found 'b'".to_string())
    );
    assert_eq!(parse_shortcut_string("ctrl+nokey"), Err("Unknown key: 'nokey'".to_string()));
}

#[test]
fn registration() {
    let mut m = KeyListenerManager::new();
    assert!(m.start());
    assert!(!m.start());
    assert!(m.is_running());
    assert_eq!(m.register_shortcut("t".to_string(), "ctrl+space".to_string()), Ok(()));
    assert!(m.is_shortcut_registered("t"));
    assert!(m.register_shortcut("bad".to_string(), "ctrl+nokey".to_string()).is_err());
    assert_eq!(m.get_registered_shortcuts(), vec!["t".to_string()]);
    assert_eq!(m.unregister_shortcut("zz"), Err("Shortcut 'zz' not found".to_string()));
    assert_eq!(m.unregister_shortcut("t"), Ok(()));
    assert!(!m.is_shortcut_registered("t"));
    assert!(m.stop());
}

#[test]
fn press_and_release_events() {
    let mut m = KeyListenerManager::new();
    m.start();
    m.register_shortcut("t".to_string(), "ctrl+space".to_string()).unwrap();
    assert!(m.handle_key_press(Key::ControlLeft).is_empty());
    assert_eq!(m.get_modifier_state(), mods(true, false, false, false));
    let down = m.handle_key_press(Key::Space);
    assert_eq!(down.len(), 1);
    assert_eq!(down[0].id, "t");
    assert!(down[0].pressed);
    // A repeating key triggers nothing more.
    assert!(m.handle_key_press(Key::Space).is_empty());
    let up = m.handle_key_release(Key::Space);
    assert_eq!(up.len(), 1);
    assert!(!up[0].pressed);
    assert_eq!(up[0].binding, "ctrl+space");
    assert!(m.handle_key_release(Key::ControlLeft).is_empty());
}

#[test]
fn modifier_only_shortcut() {
    let mut m = KeyListenerManager::new();
    m.start();
    m.register_shortcut("m".to_string(), "ctrl+alt".to_string()).unwrap();
    assert!(m.handle_key_press(Key::ControlLeft).is_empty());
    let down = m.handle_key_press(Key::Alt);
    assert_eq!(down.len(), 1);
    let up = m.handle_key_release(Key::ControlLeft);
    assert_eq!(up.len(), 1);
    assert_eq!(up[0].id, "m");
}

#[test]
fn register_then_unregister_leaves_nothing_behind() {
    let mut m = KeyListenerManager::new();
    m.register_shortcut("a".to_string(), "ctrl+a".to_string()).unwrap();
    m.register_shortcut("b".to_string(), "ctrl+b".to_string()).unwrap();
    let before = m.get_registered_shortcuts();
    m.register_shortcut("c".to_string(), "alt+c".to_string()).unwrap();
    assert!(m.is_shortcut_registered("c"));
    m.unregister_shortcut("c").unwrap();
    assert_eq!(m.get_registered_shortcuts(), before);
    assert!(!m.is_shortcut_registered("c"));
    assert_eq!(m.unregister_shortcut("c"), Err("Shortcut 'c' not found".to_string()));
}

#[test]
fn events_alternate_over_a_sequence() {
    let mut m = KeyListenerManager::new();
    m.start();
    m.register_shortcut("t".to_string(), "ctrl+space".to_string()).unwrap();
    let keys = [
        (Key::ControlLeft, true),
        (Key::Space, true),
        (Key::Space, true),
        (Key::ControlLeft, false),
        (Key::Space, false),
        (Key::ControlLeft, true),
        (Key::Space, true),
        (Key::Space, false),
        (Key::ControlLeft, false),
    ];
    let mut flags = Vec::new();
    for (key, down) in keys {
        let events = if down { m.handle_key_press(key) } else { m.handle_key_release(key) };
        for e in events {
            flags.push(e.pressed);
        }
    }
    assert_eq!(flags, vec![true, false, true, false]);
}
