use aivorelay::profiles::{
    check_registration, cycle_to_next_profile, default_bindings, migrate_keep_window_open, profile_display_name, register_failure_message,
    set_active_profile, transcription_profile, transcription_profile_by_binding, validate_provider_exists,
    validate_shortcut_string, BindingChange, BindingResponse, Platform, ProfileSettings, PromptSettings,
};
use aivorelay::settings::{
    ExecutionPolicy, LLMPrompt, PostProcessProvider, ProfileLlmSettings, ShortcutBinding, TranscriptionProfile,
    VoiceCommandDefaults,
};

fn profile(id: &str, name: &str, include_in_cycle: bool, push_to_talk: bool) -> TranscriptionProfile {
    TranscriptionProfile {
        id: id.to_string(),
        name: name.to_string(),
        language: "en".to_string(),
        translate_to_english: false,
        description: name.to_string(),
        system_prompt: String::new(),
        stt_prompt_override_enabled: false,
        include_in_cycle,
        push_to_talk,
        llm_post_process_enabled: false,
        llm_prompt_override: None,
        llm_model_override: None,
    }
}

fn binding(id: &str, key: &str) -> ShortcutBinding {
    ShortcutBinding {
        id: id.to_string(),
        name: id.to_string(),
        description: String::new(),
        default_binding: key.to_string(),
        current_binding: key.to_string(),
    }
}

fn empty_settings() -> ProfileSettings {
    ProfileSettings { transcription_profiles: Vec::new(), active_profile_id: "default".to_string(), bindings: Vec::new() }
}

#[test]
fn shortcut_needs_a_non_modifier_key() {
    assert_eq!(validate_shortcut_string("ctrl+space"), Ok(()));
    assert_eq!(validate_shortcut_string("f5"), Ok(()));
    assert_eq!(validate_shortcut_string(" CTRL + Shift + K "), Ok(()));
    assert_eq!(
        validate_shortcut_string("ctrl+shift"),
        Err("Shortcut must contain at least one non-modifier key".to_string())
    );
    assert_eq!(
        validate_shortcut_string(" Ctrl + ALT "),
        Err("Shortcut must contain at least one non-modifier key".to_string())
    );
}

#[test]
fn profile_lookup() {
    let ps = vec![profile("p1", "One", true, false), profile("p2", "Two", true, true)];
    assert_eq!(transcription_profile(&ps, "p2").unwrap().name, "Two");
    assert!(transcription_profile(&ps, "p3").is_none());
    assert_eq!(transcription_profile_by_binding(&ps, "transcribe_p1").unwrap().name, "One");
    assert!(transcription_profile_by_binding(&ps, "p1").is_none());
    assert!(transcription_profile_by_binding(&ps, "transcribe_p9").is_none());
}

#[test]
fn add_profile_creates_profile_and_binding() {
    let mut s = empty_settings();
    let p = s.add_transcription_profile(
        1234,
        "French".to_string(),
        "fr".to_string(),
        true,
        "prompt".to_string(),
        true,
        None,
        true,
    );
    assert_eq!(p.id, "profile_1234");
    assert_eq!(p.description, "French → English");
    assert!(p.include_in_cycle);
    assert!(p.llm_post_process_enabled);
    assert_eq!(s.transcription_profiles.len(), 1);
    assert_eq!(s.bindings.len(), 1);
    assert_eq!(s.bindings[0].id, "transcribe_profile_1234");
    assert_eq!(s.bindings[0].name, "French");
    assert_eq!(s.bindings[0].current_binding, "");
}

#[test]
fn update_profile_renames_binding() {
    let mut s = empty_settings();
    let p = s.add_transcription_profile(1, "A".to_string(), "en".to_string(), false, String::new(), false, None, false);
    let llm = ProfileLlmSettings { enabled: true, prompt_override: Some("x".to_string()), model_override: None };
    assert_eq!(
        s.update_transcription_profile(&p.id, "B".to_string(), "de".to_string(), true, "sp".to_string(), false, true, llm),
        Ok(())
    );
    let q = &s.transcription_profiles[0];
    assert_eq!(q.id, "profile_1");
    assert_eq!(q.name, "B");
    assert_eq!(q.language, "de");
    assert_eq!(q.description, "B → English");
    assert!(!q.include_in_cycle);
    assert_eq!(q.llm_prompt_override.as_deref(), Some("x"));
    assert_eq!(s.bindings[0].name, "B");
    assert_eq!(s.bindings[0].description, "B → English");
    let llm2 = ProfileLlmSettings { enabled: false, prompt_override: None, model_override: None };
    assert_eq!(
        s.update_transcription_profile("nope", "C".to_string(), "en".to_string(), false, String::new(), true, true, llm2),
        Err("Profile with id 'nope' not found".to_string())
    );
}

#[test]
fn delete_profile_resets_active_and_returns_binding() {
    let mut s = empty_settings();
    let p = s.add_transcription_profile(7, "A".to_string(), "en".to_string(), false, String::new(), false, None, false);
    s.active_profile_id = p.id.clone();
    let change = s.change_binding("transcribe_profile_7", "ctrl+k".to_string()).unwrap();
    match change {
        BindingChange::Register { previous, updated } => {
            assert_eq!(previous.current_binding, "");
            assert_eq!(updated.current_binding, "ctrl+k");
            s.put_binding(updated);
        }
        BindingChange::Stored(_) => panic!("a profile binding is registered"),
    }
    let removed = s.delete_transcription_profile("profile_7").unwrap();
    assert_eq!(removed.unwrap().current_binding, "ctrl+k");
    assert!(s.transcription_profiles.is_empty());
    assert!(s.bindings.is_empty());
    assert_eq!(s.active_profile_id, "default");
    assert_eq!(
        s.delete_transcription_profile("profile_7").unwrap_err(),
        "Profile with id 'profile_7' not found".to_string()
    );
}

#[test]
fn change_binding_cases() {
    let mut s = empty_settings();
    s.put_binding(binding("cancel", "escape"));
    s.put_binding(binding("transcribe", "ctrl+space"));
    match s.change_binding("cancel", "f9".to_string()).unwrap() {
        BindingChange::Stored(b) => assert_eq!(b.current_binding, "f9"),
        BindingChange::Register { .. } => panic!("cancel is stored directly"),
    }
    assert_eq!(s.bindings[0].current_binding, "f9");
    assert!(matches!(
        s.change_binding("missing", "f1".to_string()),
        Err(e) if e == "Binding with id 'missing' not found"
    ));
    assert!(matches!(
        s.change_binding("transcribe", "ctrl+alt".to_string()),
        Err(e) if e == "Shortcut must contain at least one non-modifier key"
    ));
    assert_eq!(s.bindings[1].current_binding, "ctrl+space");
    assert_eq!(register_failure_message("busy"), "Failed to register shortcut: busy");
    let resp = BindingResponse::stored(binding("transcribe", "f2"));
    assert!(resp.success);
    assert!(resp.error.is_none());
}

#[test]
fn reset_binding_uses_default() {
    let mut s = empty_settings();
    let mut b = binding("transcribe", "ctrl+space");
    b.current_binding = "f8".to_string();
    s.put_binding(b);
    match s.reset_binding("transcribe").unwrap() {
        BindingChange::Register { previous, updated } => {
            assert_eq!(previous.current_binding, "f8");
            assert_eq!(updated.current_binding, "ctrl+space");
        }
        BindingChange::Stored(_) => panic!("transcribe is registered"),
    }
}

#[test]
fn cycle_goes_through_included_profiles() {
    let ps = vec![profile("a", "A", true, false), profile("b", "B", false, false), profile("c", "C", true, false)];
    assert_eq!(cycle_to_next_profile(&ps, "default"), "a");
    assert_eq!(cycle_to_next_profile(&ps, "a"), "c");
    assert_eq!(cycle_to_next_profile(&ps, "c"), "default");
    assert_eq!(cycle_to_next_profile(&ps, "b"), "a");
    let none = vec![profile("b", "B", false, false)];
    assert_eq!(cycle_to_next_profile(&none, "b"), "default");
}

#[test]
fn set_active_profile_checks_id() {
    let mut s = empty_settings();
    s.transcription_profiles.push(profile("p1", "One", true, false));
    assert_eq!(set_active_profile(&mut s, "p1"), Ok(()));
    assert_eq!(s.active_profile_id, "p1");
    assert_eq!(set_active_profile(&mut s, "zz"), Err("Profile 'zz' not found".to_string()));
    assert_eq!(s.active_profile_id, "p1");
    assert_eq!(set_active_profile(&mut s, "default"), Ok(()));
    assert_eq!(profile_display_name(&s.transcription_profiles, "default"), "Default");
    assert_eq!(profile_display_name(&s.transcription_profiles, "p1"), "One");
    assert_eq!(profile_display_name(&s.transcription_profiles, "zz"), "zz");
}

#[test]
fn provider_must_exist() {
    let providers = vec![PostProcessProvider {
        id: "openai".to_string(),
        label: "OpenAI".to_string(),
        base_url: "u".to_string(),
        allow_base_url_edit: false,
        models_endpoint: None,
    }];
    assert_eq!(validate_provider_exists(&providers, "openai"), Ok(()));
    assert_eq!(validate_provider_exists(&providers, "x"), Err("Provider 'x' not found".to_string()));
}

#[test]
fn prompts_add_update_delete_select() {
    let mut p = PromptSettings {
        post_process_prompts: vec![LLMPrompt { id: "d".to_string(), name: "D".to_string(), prompt: "p".to_string() }],
        post_process_selected_prompt_id: Some("d".to_string()),
    };
    assert_eq!(p.delete_post_process_prompt("d"), Err("Cannot delete the last prompt".to_string()));
    let added = p.add_post_process_prompt(55, "N".to_string(), "q".to_string());
    assert_eq!(added.id, "prompt_55");
    assert_eq!(p.update_post_process_prompt("prompt_55", "N2".to_string(), "q2".to_string()), Ok(()));
    assert_eq!(p.post_process_prompts[1].name, "N2");
    assert_eq!(
        p.update_post_process_prompt("zz", "a".to_string(), "b".to_string()),
        Err("Prompt with id 'zz' not found".to_string())
    );
    assert_eq!(p.delete_post_process_prompt("zz"), Err("Prompt with id 'zz' not found".to_string()));
    assert_eq!(p.delete_post_process_prompt("d"), Ok(()));
    assert_eq!(p.post_process_selected_prompt_id.as_deref(), Some("prompt_55"));
    assert_eq!(p.set_post_process_selected_prompt("zz".to_string()), Err("Prompt with id 'zz' not found".to_string()));
    assert_eq!(p.set_post_process_selected_prompt("prompt_55".to_string()), Ok(()));
}

#[test]
fn default_bindings_by_platform() {
    let win = default_bindings(Platform::Windows);
    let ids: Vec<&str> = win.iter().map(|b| b.id.as_str()).collect();
    assert_eq!(
        ids,
        vec![
            "transcribe",
            "send_to_extension",
            "send_to_extension_with_selection",
            "ai_replace_selection",
            "send_screenshot_to_extension",
            "cancel",
            "repaste_last",
            "voice_command",
            "transcribe_default",
            "cycle_profile"
        ]
    );
    assert_eq!(win[0].current_binding, "ctrl+space");
    let mac = default_bindings(Platform::MacOs);
    assert_eq!(mac.len(), 7);
    assert_eq!(mac[0].current_binding, "option+space");
    assert_eq!(mac[1].current_binding, "option+command+space");
    assert_eq!(mac[2].current_binding, "option+command+shift+space");
    let other = default_bindings(Platform::Other);
    assert_eq!(other[0].default_binding, "alt+space");
    assert_eq!(other[2].default_binding, "alt+shift+space");
}

#[test]
fn merging_default_bindings_twice_adds_nothing() {
    let mut s = empty_settings();
    let mut custom = binding("transcribe", "ctrl+space");
    custom.current_binding = "f4".to_string();
    s.put_binding(custom);
    let defaults = default_bindings(Platform::Linux);
    assert!(s.merge_default_bindings(&defaults));
    assert_eq!(s.bindings.len(), 7);
    assert_eq!(s.bindings[0].current_binding, "f4");
    assert!(!s.merge_default_bindings(&defaults));
    assert_eq!(s.bindings.len(), 7);
}

#[test]
fn startup_bindings_skip_cancel_and_unset() {
    let mut s = empty_settings();
    let defaults = default_bindings(Platform::Linux);
    s.merge_default_bindings(&defaults);
    let p = s.add_transcription_profile(3, "P".to_string(), "en".to_string(), false, String::new(), false, None, false);
    let mut pb = binding(&format!("transcribe_{}", p.id), "");
    pb.current_binding = "ctrl+1".to_string();
    s.put_binding(pb);
    let ids: Vec<String> = s.startup_bindings(&defaults).into_iter().map(|b| b.id).collect();
    assert_eq!(
        ids,
        vec![
            "transcribe".to_string(),
            "send_to_extension".to_string(),
            "send_to_extension_with_selection".to_string(),
            "repaste_last".to_string(),
            "transcribe_profile_3".to_string()
        ]
    );
}

#[test]
fn unknown_active_profile_falls_back() {
    let mut s = empty_settings();
    s.active_profile_id = "gone".to_string();
    assert!(s.normalize_active_profile());
    assert_eq!(s.active_profile_id, "default");
    assert!(!s.normalize_active_profile());
}

#[test]
fn keep_window_open_migration() {
    let mut d = VoiceCommandDefaults { silent: true, no_profile: false, use_pwsh: false, execution_policy: ExecutionPolicy::Bypass };
    let mut keep = true;
    assert!(migrate_keep_window_open(&mut d, &mut keep));
    assert!(!d.silent);
    assert!(!keep);
    assert!(!migrate_keep_window_open(&mut d, &mut keep));
}

#[test]
fn add_then_delete_restores_profiles_and_bindings() {
    let mut s = empty_settings();
    s.transcription_profiles.push(profile("profile_1", "One", true, false));
    s.bindings.push(binding("transcribe", "ctrl+space"));
    s.bindings.push(binding("transcribe_profile_1", "ctrl+1"));
    let profiles_before: Vec<String> = s.transcription_profiles.iter().map(|p| p.id.clone()).collect();
    let bindings_before: Vec<(String, String)> =
        s.bindings.iter().map(|b| (b.id.clone(), b.current_binding.clone())).collect();
    let p = s.add_transcription_profile(2, "Two".to_string(), "de".to_string(), true, String::new(), false, None, false);
    assert_eq!(s.transcription_profiles.len(), 2);
    assert_eq!(s.bindings.len(), 3);
    assert!(matches!(s.delete_transcription_profile(&p.id), Ok(None)));
    let profiles_after: Vec<String> = s.transcription_profiles.iter().map(|p| p.id.clone()).collect();
    let bindings_after: Vec<(String, String)> =
        s.bindings.iter().map(|b| (b.id.clone(), b.current_binding.clone())).collect();
    assert_eq!(profiles_after, profiles_before);
    assert_eq!(bindings_after, bindings_before);
    assert_eq!(s.active_profile_id, "default");
}

#[test]
fn registration_checks() {
    assert_eq!(check_registration("ctrl+k", Ok(()), false), Ok(()));
    assert_eq!(
        check_registration("ctrl", Ok(()), false),
        Err("Shortcut must contain at least one non-modifier key".to_string())
    );
    assert_eq!(
        check_registration("ctrl+k", Err("bad key".to_string()), false),
        Err("Failed to parse shortcut 'ctrl+k': bad key".to_string())
    );
    assert_eq!(check_registration("ctrl+k", Ok(()), true), Err("Shortcut 'ctrl+k' is already in use".to_string()));
}
