use aivorelay::settings::{
    FeatureFlags,
    change_transcription_prompt, default_overlay_position, default_paste_method, default_post_process_prompts, default_remote_stt_settings, log_level_from_name,
    log_level_from_number, parse_clipboard_handling, parse_overlay_position, parse_paste_method,
    parse_remote_stt_debug_mode, parse_sound_theme, parse_transcription_provider, resolve_stt_prompt, table_get,
    table_put, table_remove, ClipboardHandling, LogLevel, ModelUnloadTimeout, OverlayPosition, PasteMethod,
    RemoteSttDebugMode, SoundTheme, TranscriptionProfile, TranscriptionProvider,
};

#[test]
fn log_levels() {
    assert_eq!(log_level_from_name("WARN"), Some(LogLevel::Warn));
    assert_eq!(log_level_from_name("warning"), None);
    assert_eq!(log_level_from_name("loud"), None);
    assert_eq!(log_level_from_number(1), Some(LogLevel::Trace));
    assert_eq!(log_level_from_number(5), Some(LogLevel::Error));
    assert_eq!(log_level_from_number(9), None);
}

#[test]
fn setting_names_parse_with_defaults() {
    assert_eq!(parse_sound_theme("pop"), SoundTheme::Pop);
    assert_eq!(parse_sound_theme("weird"), SoundTheme::Marimba);
    assert_eq!(parse_overlay_position("none"), OverlayPosition::Hidden);
    assert_eq!(parse_overlay_position("top"), OverlayPosition::Top);
    assert_eq!(parse_overlay_position("left"), OverlayPosition::Bottom);
    assert_eq!(parse_paste_method("shift_insert"), PasteMethod::ShiftInsert);
    assert_eq!(parse_paste_method("none"), PasteMethod::NoPaste);
    assert_eq!(parse_paste_method("?"), PasteMethod::CtrlV);
    assert_eq!(parse_clipboard_handling("restore_advanced"), ClipboardHandling::RestoreAdvanced);
    assert_eq!(parse_clipboard_handling("?"), ClipboardHandling::DontModify);
    assert_eq!(parse_remote_stt_debug_mode("verbose"), RemoteSttDebugMode::Verbose);
    assert_eq!(parse_remote_stt_debug_mode("x"), RemoteSttDebugMode::Normal);
    assert_eq!(parse_transcription_provider("local", false), Ok(TranscriptionProvider::Local));
    assert_eq!(
        parse_transcription_provider("remote_openai_compatible", true),
        Ok(TranscriptionProvider::RemoteOpenAiCompatible)
    );
    assert_eq!(
        parse_transcription_provider("remote_openai_compatible", false),
        Err("Remote STT is only available on Windows".to_string())
    );
    assert_eq!(parse_transcription_provider("bogus", false), Ok(TranscriptionProvider::Local));
}

#[test]
fn sound_paths_and_timeouts() {
    assert_eq!(SoundTheme::Pop.to_start_path(), "resources/pop_start.wav");
    assert_eq!(SoundTheme::Marimba.to_stop_path(), "resources/marimba_stop.wav");
    assert_eq!(ModelUnloadTimeout::Min15.to_seconds(), Some(900));
    assert_eq!(ModelUnloadTimeout::Sec5.to_seconds(), Some(5));
    assert_eq!(ModelUnloadTimeout::Never.to_minutes(), None);
    assert_eq!(default_paste_method(true), PasteMethod::Direct);
}

#[test]
fn remote_defaults() {
    let r = default_remote_stt_settings();
    assert_eq!(r.base_url, "https://api.groq.com/openai/v1");
    assert_eq!(r.model_id, "whisper-large-v3-turbo");
    assert!(!r.debug_capture);
    assert_eq!(r.debug_mode, RemoteSttDebugMode::Normal);
}

#[test]
fn table_read_after_write() {
    let mut t: Vec<(String, String)> = Vec::new();
    table_put(&mut t, "a".to_string(), "1".to_string());
    table_put(&mut t, "b".to_string(), "2".to_string());
    table_put(&mut t, "a".to_string(), "3".to_string());
    assert_eq!(t.len(), 2);
    assert_eq!(table_get(&t, "a"), Some("3".to_string()));
    assert_eq!(table_get(&t, "b"), Some("2".to_string()));
    table_remove(&mut t, "a");
    assert_eq!(table_get(&t, "a"), None);
    assert_eq!(table_get(&t, "b"), Some("2".to_string()));
}

#[test]
fn blank_transcription_prompt_removes_it() {
    let mut t: Vec<(String, String)> = Vec::new();
    change_transcription_prompt(&mut t, "whisper".to_string(), "Names: Ada".to_string());
    assert_eq!(resolve_stt_prompt(None, &t, "whisper"), Some("Names: Ada".to_string()));
    change_transcription_prompt(&mut t, "whisper".to_string(), "   ".to_string());
    assert_eq!(table_get(&t, "whisper"), None);
    assert_eq!(resolve_stt_prompt(None, &t, "whisper"), None);
}

#[test]
fn profile_prompt_override_decides() {
    let t = vec![("m".to_string(), "global".to_string())];
    let mut p = TranscriptionProfile {
        id: "p".to_string(),
        name: "p".to_string(),
        language: "en".to_string(),
        translate_to_english: false,
        description: "p".to_string(),
        system_prompt: "own".to_string(),
        stt_prompt_override_enabled: true,
        include_in_cycle: true,
        push_to_talk: false,
        llm_post_process_enabled: false,
        llm_prompt_override: None,
        llm_model_override: None,
    };
    assert_eq!(resolve_stt_prompt(Some(&p), &t, "m"), Some("own".to_string()));
    p.system_prompt = "  ".to_string();
    assert_eq!(resolve_stt_prompt(Some(&p), &t, "m"), None);
    p.stt_prompt_override_enabled = false;
    assert_eq!(resolve_stt_prompt(Some(&p), &t, "m"), Some("global".to_string()));
}

#[test]
fn default_overlay_and_prompts() {
    assert_eq!(default_overlay_position(true), OverlayPosition::Hidden);
    assert_eq!(default_overlay_position(false), OverlayPosition::Bottom);
    let prompts = default_post_process_prompts();
    assert_eq!(prompts.len(), 1);
    assert_eq!(prompts[0].id, "default_improve_transcriptions");
    assert_eq!(prompts[0].name, "Improve Transcriptions");
    assert!(prompts[0].prompt.starts_with("Clean this transcript:\n1. Fix spelling"));
    assert!(prompts[0].prompt.contains("twenty-five \u{2192} 25"));
    assert!(prompts[0].prompt.ends_with("Transcript:\n${output}"));
}

#[test]
fn feature_flags_default_and_load() {
    let mut f = FeatureFlags::default();
    assert!(!f.beta_voice_commands_enabled);
    assert!(!f.text_replacements_enabled);
    assert!(!f.text_replacements_before_llm);
    assert!(!f.filler_word_filter_enabled);
    assert!(f.enable_beta_on_load());
    assert!(f.beta_voice_commands_enabled);
    assert!(!f.enable_beta_on_load());
    assert!(f.beta_voice_commands_enabled);
    assert!(!f.text_replacements_enabled);
}
