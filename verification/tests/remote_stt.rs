use aivorelay::remote_stt::{
    check_transcription_settings, failure_message, get_model_prompt_limit, plan_connection_test, plan_transcription,
    should_record_line, supports_translation, take_chars, DebugBuffer, RemoteSttManager,
};
use aivorelay::settings::{RemoteSttDebugMode, RemoteSttSettings};

fn settings(base_url: &str, model_id: &str) -> RemoteSttSettings {
    RemoteSttSettings {
        base_url: base_url.to_string(),
        model_id: model_id.to_string(),
        debug_capture: true,
        debug_mode: RemoteSttDebugMode::Normal,
    }
}

#[test]
fn model_limits_and_translation() {
    assert_eq!(get_model_prompt_limit("whisper-large-v3"), Some(896));
    assert_eq!(get_model_prompt_limit("Whisper-1"), Some(896));
    assert_eq!(get_model_prompt_limit("nova-2"), Some(2000));
    assert_eq!(get_model_prompt_limit("gpt-4o-transcribe"), None);
    assert!(supports_translation("whisper-large-v3"));
    assert!(!supports_translation("whisper-large-v3-turbo"));
    assert!(supports_translation("whisper-1"));
    assert!(!supports_translation("nova-2"));
}

#[test]
fn settings_checks() {
    assert_eq!(check_transcription_settings(&settings(" https://x/v1// ", "m")), Ok("https://x/v1".to_string()));
    assert_eq!(
        check_transcription_settings(&settings(" / ", "m")),
        Err("Remote STT base URL is empty".to_string())
    );
    assert_eq!(
        check_transcription_settings(&settings("https://x", "  ")),
        Err("Remote STT model ID is empty".to_string())
    );
}

#[test]
fn transcription_request_plan() {
    let s = settings("https://api.groq.com/openai/v1/", "whisper-large-v3");
    assert!(plan_transcription(&s, false, None, None, false).unwrap().is_none());
    let req = plan_transcription(&s, true, Some("  Names  ".to_string()), Some("zh-Hans".to_string()), true)
        .unwrap()
        .unwrap();
    assert_eq!(req.url, "https://api.groq.com/openai/v1/audio/translations");
    assert_eq!(req.endpoint, "translations");
    assert_eq!(req.model, "whisper-large-v3");
    assert_eq!(req.language.as_deref(), Some("zh"));
    assert_eq!(req.prompt.as_deref(), Some("Names"));
    let turbo = settings("https://x", "whisper-large-v3-turbo");
    let req = plan_transcription(&turbo, true, Some(" ".to_string()), Some("auto".to_string()), true)
        .unwrap()
        .unwrap();
    assert_eq!(req.endpoint, "transcriptions");
    assert_eq!(req.language, None);
    assert_eq!(req.prompt, None);
}

#[test]
fn long_prompt_is_refused() {
    let s = settings("https://x", "whisper-1");
    let long = "a".repeat(900);
    assert_eq!(
        plan_transcription(&s, true, Some(long), None, false).unwrap_err(),
        "System prompt is too long (900 characters). The whisper-1 model has a limit of 896 characters. Please shorten your prompt."
    );
}

#[test]
fn connection_test_address() {
    let s = settings("https://conf/v1/", "m");
    assert_eq!(plan_connection_test(&s, ""), Ok("https://conf/v1/models".to_string()));
    assert_eq!(plan_connection_test(&s, " https://given/ "), Ok("https://given/models".to_string()));
    let empty = settings("", "m");
    assert_eq!(plan_connection_test(&empty, " "), Err("Remote STT base URL is empty".to_string()));
}

#[test]
fn debug_log_is_capped() {
    let mut b = DebugBuffer::new();
    for i in 0..60 {
        b.push_line(format!("line {}", i), RemoteSttDebugMode::Normal);
    }
    let lines = b.lines();
    assert_eq!(lines.len(), 50);
    assert_eq!(lines[0], "line 10");
    assert_eq!(lines[49], "line 59");
    b.clear();
    assert!(b.lines().is_empty());
    assert!(should_record_line(true, RemoteSttDebugMode::Normal, true));
    assert!(!should_record_line(true, RemoteSttDebugMode::Normal, false));
    assert!(should_record_line(true, RemoteSttDebugMode::Verbose, false));
    assert!(!should_record_line(false, RemoteSttDebugMode::Verbose, true));
}

#[test]
fn cancel_applies_to_running_operations_only() {
    let mut m = RemoteSttManager::new();
    let first = m.start_operation();
    m.cancel();
    let second = m.start_operation();
    assert!(m.is_cancelled(first));
    assert!(!m.is_cancelled(second));
    let s = settings("https://x", "m");
    assert!(m.record_line(&s, "boom".to_string(), true));
    assert!(!m.record_line(&s, "info".to_string(), false));
    assert_eq!(m.get_debug_dump(), vec!["boom".to_string()]);
    m.clear_debug();
    assert!(m.get_debug_dump().is_empty());
}

#[test]
fn messages() {
    assert_eq!(take_chars("héllo", 2), "hé");
    assert_eq!(take_chars("ab", 5), "ab");
    assert_eq!(
        failure_message("Remote STT failed", "401 Unauthorized", 120, "bad key"),
        "Remote STT failed: status=401 Unauthorized elapsed_ms=120 body_snippet=bad key"
    );
    let long = "x".repeat(600);
    let m = failure_message("P", "500", 7, &long);
    assert_eq!(m, format!("P: status=500 elapsed_ms=7 body_snippet={}", "x".repeat(500)));
}

#[test]
fn prompt_limit_counts_characters() {
    let s = settings("https://x", "whisper-1");
    // 800 characters, 1600 bytes in UTF-8: within the limit of 896 characters.
    let names = "\u{e4}".repeat(800);
    let req = plan_transcription(&s, true, Some(names.clone()), None, false).unwrap().unwrap();
    assert_eq!(req.prompt, Some(names));
    let long = "\u{e9}".repeat(897);
    assert_eq!(
        plan_transcription(&s, true, Some(long), None, false).unwrap_err(),
        "System prompt is too long (897 characters). The whisper-1 model has a limit of 896 characters. Please shorten your prompt."
    );
}
