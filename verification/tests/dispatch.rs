use aivorelay::dispatch::{
    action_enabled, action_for_binding, dispatch_shortcut, extension_gate, ExtensionGate, uses_push_to_talk, Dispatch, KeyState, ShortcutSettings,
    ToggleStates,
};
use aivorelay::settings::TranscriptionProfile;

fn settings() -> ShortcutSettings {
    ShortcutSettings {
        push_to_talk: false,
        send_to_extension_enabled: false,
        send_to_extension_push_to_talk: true,
        send_to_extension_with_selection_enabled: true,
        send_to_extension_with_selection_push_to_talk: false,
        ai_replace_selection_push_to_talk: true,
        send_screenshot_to_extension_enabled: true,
        send_screenshot_to_extension_push_to_talk: true,
    }
}

fn profile(id: &str, push_to_talk: bool) -> TranscriptionProfile {
    TranscriptionProfile {
        id: id.to_string(),
        name: id.to_string(),
        language: "en".to_string(),
        translate_to_english: false,
        description: id.to_string(),
        system_prompt: String::new(),
        stt_prompt_override_enabled: false,
        include_in_cycle: true,
        push_to_talk,
        llm_post_process_enabled: false,
        llm_prompt_override: None,
        llm_model_override: None,
    }
}

#[test]
fn actions_of_bindings() {
    assert_eq!(action_for_binding("transcribe", false), Some("transcribe".to_string()));
    assert_eq!(action_for_binding("transcribe_profile_1", false), Some("transcribe".to_string()));
    assert_eq!(action_for_binding("voice_command", true), Some("voice_command".to_string()));
    assert_eq!(action_for_binding("voice_command", false), None);
    assert_eq!(action_for_binding("cycle_profile", true), None);
}

#[test]
fn extension_actions_can_be_disabled() {
    let s = settings();
    assert!(!action_enabled("send_to_extension", &s));
    assert!(action_enabled("send_to_extension_with_selection", &s));
    assert!(action_enabled("transcribe", &s));
}

#[test]
fn push_to_talk_follows_profiles() {
    let s = settings();
    let ps = vec![profile("p1", true)];
    assert!(uses_push_to_talk("transcribe", &s, &ps, "p1"));
    assert!(!uses_push_to_talk("transcribe", &s, &ps, "default"));
    assert!(!uses_push_to_talk("transcribe", &s, &ps, "missing"));
    assert!(uses_push_to_talk("transcribe_p1", &s, &ps, "default"));
    assert!(!uses_push_to_talk("transcribe_p2", &s, &ps, "default"));
    assert!(uses_push_to_talk("ai_replace_selection", &s, &ps, "default"));
    assert!(!uses_push_to_talk("repaste_last", &s, &ps, "default"));
}

#[test]
fn toggle_mode_alternates() {
    let s = settings();
    let ps: Vec<TranscriptionProfile> = Vec::new();
    let mut t = ToggleStates::new();
    assert_eq!(dispatch_shortcut("transcribe", KeyState::Pressed, false, false, &s, &ps, "default", &mut t), Dispatch::Start);
    assert!(t.is_on("transcribe"));
    assert_eq!(dispatch_shortcut("transcribe", KeyState::Released, false, false, &s, &ps, "default", &mut t), Dispatch::Ignore);
    assert_eq!(dispatch_shortcut("transcribe", KeyState::Pressed, false, false, &s, &ps, "default", &mut t), Dispatch::Stop);
    assert!(!t.is_on("transcribe"));
}

#[test]
fn push_to_talk_starts_and_stops() {
    let s = settings();
    let ps: Vec<TranscriptionProfile> = Vec::new();
    let mut t = ToggleStates::new();
    assert_eq!(
        dispatch_shortcut("ai_replace_selection", KeyState::Pressed, false, false, &s, &ps, "default", &mut t),
        Dispatch::Start
    );
    assert_eq!(
        dispatch_shortcut("ai_replace_selection", KeyState::Released, false, false, &s, &ps, "default", &mut t),
        Dispatch::Stop
    );
    assert!(!t.is_on("ai_replace_selection"));
}

#[test]
fn cancel_disabled_and_instant() {
    let s = settings();
    let ps: Vec<TranscriptionProfile> = Vec::new();
    let mut t = ToggleStates::new();
    assert_eq!(dispatch_shortcut("cancel", KeyState::Pressed, true, false, &s, &ps, "default", &mut t), Dispatch::Start);
    assert_eq!(dispatch_shortcut("cancel", KeyState::Pressed, false, false, &s, &ps, "default", &mut t), Dispatch::Ignore);
    assert_eq!(
        dispatch_shortcut("send_to_extension", KeyState::Pressed, false, false, &s, &ps, "default", &mut t),
        Dispatch::Ignore
    );
    assert_eq!(dispatch_shortcut("repaste_last", KeyState::Pressed, false, true, &s, &ps, "default", &mut t), Dispatch::Start);
    assert_eq!(dispatch_shortcut("repaste_last", KeyState::Released, false, true, &s, &ps, "default", &mut t), Dispatch::Ignore);
    assert!(!t.is_on("repaste_last"));
}

#[test]
fn reset_turns_toggles_off() {
    let mut t = ToggleStates::new();
    assert!(t.toggle("a"));
    assert!(t.toggle("b"));
    t.reset("a");
    assert!(!t.is_on("a"));
    assert!(t.is_on("b"));
    t.reset_all();
    assert!(!t.is_on("b"));
}

#[test]
fn extension_actions_wait_for_the_extension() {
    assert_eq!(extension_gate("send_to_extension", true, false), ExtensionGate::ShowOffline);
    assert_eq!(extension_gate("send_screenshot_to_extension", false, false), ExtensionGate::DropSession);
    assert_eq!(extension_gate("send_to_extension_with_selection", true, true), ExtensionGate::Proceed);
    assert_eq!(extension_gate("transcribe", true, false), ExtensionGate::Proceed);
    assert_eq!(extension_gate("ai_replace_selection", false, false), ExtensionGate::Proceed);
}

#[test]
fn shortcut_settings_defaults() {
    let d = ShortcutSettings::default();
    assert!(d.push_to_talk && d.send_to_extension_push_to_talk && d.ai_replace_selection_push_to_talk);
    assert!(d.send_to_extension_with_selection_push_to_talk && d.send_screenshot_to_extension_push_to_talk);
    assert!(!d.send_to_extension_enabled && !d.send_to_extension_with_selection_enabled);
    assert!(!d.send_screenshot_to_extension_enabled);
}
