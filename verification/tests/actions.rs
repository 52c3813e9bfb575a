use aivorelay::actions::{
    voice_command_llm_step, voice_command_step, VoiceCommandStep, ai_replace_end, ai_replace_instruction_check, ai_replace_reply, ai_replace_selection, selection_voice_step, AiReplaceEnd, VoiceStep, build_extension_message, final_transcription, local_post_process_outcome,
    local_transcription_outcome, maybe_convert_chinese_variant, plan_ai_replace, plan_post_process,
    remote_post_process_outcome, remote_transcription_outcome, repaste_text, transcription_or_cleanup, AiReplacePrompts,
    ExtensionMessageSettings, PostProcessOutcome, PostProcessPlan, RepasteEntry, TranscriptionOutcome,
};
use aivorelay::llm_settings::LlmSettings;
use aivorelay::settings::LLMPrompt;

fn llm() -> LlmSettings {
    let mut s = LlmSettings {
        post_process_enabled: true,
        post_process_provider_id: "openai".to_string(),
        post_process_providers: Vec::new(),
        post_process_api_keys: Vec::new(),
        post_process_models: Vec::new(),
        post_process_prompts: vec![LLMPrompt {
            id: "p".to_string(),
            name: "P".to_string(),
            prompt: "Fix: ${output}".to_string(),
        }],
        post_process_selected_prompt_id: Some("p".to_string()),
        ai_replace_provider_id: None,
        ai_replace_api_keys: Vec::new(),
        ai_replace_models: Vec::new(),
        voice_command_provider_id: None,
        voice_command_api_keys: Vec::new(),
        voice_command_models: Vec::new(),
    };
    s.ensure_post_process_defaults(true);
    s
}

#[test]
fn chinese_variants() {
    assert_eq!(maybe_convert_chinese_variant("zh-Hans", "漢語"), Some("汉语".to_string()));
    assert_eq!(maybe_convert_chinese_variant("zh-Hant", "汉语"), Some("漢語".to_string()));
    assert_eq!(maybe_convert_chinese_variant("en", "汉语"), None);
}

#[test]
fn post_processing_needs_model_and_prompt() {
    let mut s = llm();
    assert!(matches!(plan_post_process(&s, false, true, "hi"), PostProcessPlan::Skip));
    s.change_post_process_model_setting("openai".to_string(), "gpt".to_string()).unwrap();
    s.change_post_process_api_key_setting("openai".to_string(), "sk".to_string()).unwrap();
    match plan_post_process(&s, false, true, "hi") {
        PostProcessPlan::Remote { provider, model, api_key, prompt, prompt_template } => {
            assert_eq!(provider.id, "openai");
            assert_eq!(model, "gpt");
            assert_eq!(api_key, "sk");
            assert_eq!(prompt, "Fix: hi");
            assert_eq!(prompt_template, "Fix: ${output}");
        }
        other => panic!("unexpected {:?}", other),
    }
    // On Windows the key comes from the credential store, not the settings
    // (built without a platform store here, the store holds nothing).
    match plan_post_process(&s, true, true, "hi") {
        PostProcessPlan::Remote { api_key, .. } => assert_eq!(api_key, ""),
        other => panic!("unexpected {:?}", other),
    }
    s.set_post_process_provider("apple_intelligence".to_string()).unwrap();
    match plan_post_process(&s, false, true, "hi") {
        PostProcessPlan::AppleIntelligence { prompt, model, .. } => {
            assert_eq!(prompt, "Fix: hi");
            assert_eq!(model, "Apple Intelligence");
        }
        other => panic!("unexpected {:?}", other),
    }
    // Where the device's own model is not available, choosing it skips.
    assert!(matches!(plan_post_process(&s, false, false, "hi"), PostProcessPlan::Skip));
    s.post_process_enabled = false;
    assert!(matches!(plan_post_process(&s, false, true, "hi"), PostProcessPlan::Skip));
}

#[test]
fn post_process_outcomes() {
    assert!(matches!(remote_post_process_outcome(Ok(Some("x".to_string())), true, "t".to_string()), PostProcessOutcome::Cancelled));
    assert!(matches!(remote_post_process_outcome(Ok(None), false, "t".to_string()), PostProcessOutcome::Skipped));
    assert!(matches!(remote_post_process_outcome(Err("e".to_string()), false, "t".to_string()), PostProcessOutcome::Skipped));
    match remote_post_process_outcome(Ok(Some("x".to_string())), false, "t".to_string()) {
        PostProcessOutcome::Processed { text, prompt_template } => {
            assert_eq!(text, "x");
            assert_eq!(prompt_template, "t");
        }
        other => panic!("unexpected {:?}", other),
    }
    assert!(matches!(local_post_process_outcome(Ok("  ".to_string()), false, "t".to_string()), PostProcessOutcome::Skipped));
    assert_eq!(
        final_transcription("raw".to_string(), None, PostProcessOutcome::Skipped),
        Some(("raw".to_string(), None, None))
    );
    assert_eq!(final_transcription("raw".to_string(), None, PostProcessOutcome::Cancelled), None);
    assert_eq!(
        final_transcription("raw".to_string(), Some("conv".to_string()), PostProcessOutcome::Cancelled),
        Some(("conv".to_string(), Some("conv".to_string()), None))
    );
}

#[test]
fn transcription_outcomes() {
    assert!(matches!(remote_transcription_outcome(Ok("t".to_string()), true), TranscriptionOutcome::Cancelled));
    assert_eq!(transcription_or_cleanup(remote_transcription_outcome(Ok("t".to_string()), false)), (Some("t".to_string()), false));
    assert_eq!(transcription_or_cleanup(remote_transcription_outcome(Err("e".to_string()), false)), (None, false));
    assert_eq!(transcription_or_cleanup(local_transcription_outcome(Err("e".to_string()))), (None, true));
    assert_eq!(transcription_or_cleanup(TranscriptionOutcome::Cancelled), (None, false));
}

fn ext(allow_no_voice: bool, no_voice: &str, user: &str, system: &str) -> ExtensionMessageSettings {
    ExtensionMessageSettings {
        send_to_extension_with_selection_allow_no_voice: allow_no_voice,
        send_to_extension_with_selection_no_voice_system_prompt: no_voice.to_string(),
        send_to_extension_with_selection_user_prompt: user.to_string(),
        send_to_extension_with_selection_system_prompt: system.to_string(),
    }
}

#[test]
fn extension_messages() {
    let s = ext(true, "", "", "");
    assert_eq!(build_extension_message(&s, " ", " sel "), "sel");
    let s = ext(true, "Summarize", "", "");
    assert_eq!(build_extension_message(&s, "", "sel"), "SYSTEM:\nSummarize\n\nsel");
    let s = ext(false, "x", "", "");
    assert_eq!(build_extension_message(&s, "", "sel"), "");
    assert_eq!(build_extension_message(&s, " do it ", "  "), "do it");
    assert_eq!(build_extension_message(&s, "do it", "text"), "INSTRUCTION:\ndo it\n\nTEXT:\ntext");
    let s = ext(false, "", "I=${instruction} O=${output}", "Be brief");
    assert_eq!(build_extension_message(&s, "do", "txt"), "SYSTEM:\nBe brief\n\nI=do O=txt");
}

fn prompts(user: &str) -> AiReplacePrompts {
    AiReplacePrompts {
        ai_replace_system_prompt: "sys".to_string(),
        ai_replace_user_prompt: user.to_string(),
        ai_replace_allow_no_selection: true,
        ai_replace_no_selection_system_prompt: "nosel".to_string(),
        ai_replace_allow_quick_tap: true,
        ai_replace_quick_tap_system_prompt: "quick".to_string(),
    }
}

#[test]
fn ai_replace_plans() {
    let mut s = llm();
    assert_eq!(
        plan_ai_replace(&s, false, &prompts("${instruction}: ${output}"), "text", "fix").unwrap_err(),
        "No model configured for provider 'OpenAI'"
    );
    s.change_post_process_model_setting("openai".to_string(), "gpt".to_string()).unwrap();
    let req = plan_ai_replace(&s, false, &prompts("${instruction}: ${output}"), "text", "fix").unwrap();
    assert_eq!(req.model, "gpt");
    assert_eq!(req.system_prompt, "sys");
    assert_eq!(req.user_prompt, "fix: text");
    let quick = plan_ai_replace(&s, false, &prompts("${output}"), "text", " ").unwrap();
    assert_eq!(quick.system_prompt, "quick");
    let nosel = plan_ai_replace(&s, false, &prompts("${instruction}"), "", "write").unwrap();
    assert_eq!(nosel.system_prompt, "nosel");
    assert_eq!(
        plan_ai_replace(&s, false, &prompts("  "), "a", "b").unwrap_err(),
        "AI replace prompt template is empty"
    );
    s.set_ai_replace_provider(Some("groq".to_string())).unwrap();
    assert_eq!(
        plan_ai_replace(&s, false, &prompts("x"), "a", "b").unwrap_err(),
        "No model configured for provider 'Groq'"
    );
    assert_eq!(ai_replace_reply(Ok(Some("out".to_string()))), Ok("out".to_string()));
    assert_eq!(ai_replace_reply(Ok(None)), Err("LLM API response has no content".to_string()));
    assert_eq!(ai_replace_reply(Err("timeout".to_string())), Err("LLM request failed: timeout".to_string()));
}

fn entry(action: &str, ai: Option<&str>, post: Option<&str>, raw: &str) -> RepasteEntry {
    RepasteEntry {
        action_type: action.to_string(),
        ai_response: ai.map(|s| s.to_string()),
        post_processed_text: post.map(|s| s.to_string()),
        transcription_text: raw.to_string(),
    }
}

#[test]
fn repaste_picks_the_right_text() {
    assert_eq!(repaste_text(Ok(Some(entry("ai_replace", Some("answer"), Some("p"), "raw")))), Ok("answer".to_string()));
    assert_eq!(
        repaste_text(Ok(Some(entry("ai_replace", None, Some("p"), "raw")))),
        Err("AI response was never received for this entry.".to_string())
    );
    assert_eq!(repaste_text(Ok(Some(entry("transcribe", None, Some("clean"), "raw")))), Ok("clean".to_string()));
    assert_eq!(repaste_text(Ok(Some(entry("transcribe", None, None, "raw")))), Ok("raw".to_string()));
    assert_eq!(
        repaste_text(Ok(Some(entry("transcribe", None, None, "  ")))),
        Err("No text available to repaste.".to_string())
    );
    assert_eq!(repaste_text(Ok(None)), Err("No history entries available.".to_string()));
    assert_eq!(repaste_text(Err("db locked".to_string())), Err("Failed to retrieve history.".to_string()));
}

#[test]
fn ai_replace_inputs() {
    assert_eq!(
        ai_replace_selection("  ", Ok("text".to_string()), false, false, 20000),
        Err("No instruction captured.".to_string())
    );
    assert_eq!(ai_replace_selection("  ", Ok("text".to_string()), true, false, 20000), Ok("text".to_string()));
    assert_eq!(
        ai_replace_selection("fix", Err("no focus".to_string()), false, false, 20000),
        Err("Could not capture selection.".to_string())
    );
    assert_eq!(ai_replace_selection("fix", Err("no focus".to_string()), false, true, 20000), Ok(String::new()));
    assert_eq!(
        ai_replace_selection("fix", Ok("ERROR_NO_SELECTION".to_string()), false, true, 20000),
        Err("Could not capture selection.".to_string())
    );
}

#[test]
fn ai_replace_endings() {
    assert!(matches!(ai_replace_end(Ok("out".to_string()), true), AiReplaceEnd::Discard));
    assert!(matches!(ai_replace_end(Err("x".to_string()), true), AiReplaceEnd::Discard));
    assert!(matches!(ai_replace_end(Ok("out".to_string()), false), AiReplaceEnd::Paste(ref t) if t == "out"));
    assert!(
        matches!(ai_replace_end(Err("x".to_string()), false), AiReplaceEnd::Fail(ref m) if m == "AI replace failed.")
    );
}

#[test]
fn selection_voice_steps() {
    assert_eq!(selection_voice_step(" \n", false), VoiceStep::Abort);
    assert_eq!(selection_voice_step("", true), VoiceStep::NoVoice);
    assert_eq!(selection_voice_step("summarize", false), VoiceStep::PostProcess);
}

#[test]
fn voice_command_steps() {
    assert!(matches!(voice_command_step("  ", Some("x".to_string()), true), VoiceCommandStep::Error(ref e) if e == "No command detected"));
    match voice_command_step("open notepad", Some("notepad.exe".to_string()), false) {
        VoiceCommandStep::Confirm(p) => {
            assert_eq!(p.command, "notepad.exe");
            assert_eq!(p.spoken_text, "open notepad");
            assert!(!p.from_llm);
        }
        other => panic!("unexpected {:?}", other),
    }
    assert!(matches!(voice_command_step("open notepad", None, true), VoiceCommandStep::AskLlm));
    assert!(matches!(
        voice_command_step("open notepad", None, false),
        VoiceCommandStep::Error(ref e) if e == "No matching command found for: 'open notepad'"
    ));
    match voice_command_llm_step("list files", Ok("Get-ChildItem".to_string())) {
        VoiceCommandStep::Confirm(p) => {
            assert_eq!(p.command, "Get-ChildItem");
            assert!(p.from_llm);
        }
        other => panic!("unexpected {:?}", other),
    }
    assert!(matches!(
        voice_command_llm_step("list files", Err("timeout".to_string())),
        VoiceCommandStep::Error(ref e) if e == "Failed to generate command: timeout"
    ));
}

#[test]
fn instruction_checked_before_capture() {
    assert_eq!(ai_replace_instruction_check(" ", false), Err("No instruction captured.".to_string()));
    assert_eq!(ai_replace_instruction_check(" ", true), Ok(()));
    assert_eq!(ai_replace_instruction_check("shorter", false), Ok(()));
}

#[test]
fn prompt_defaults() {
    let p = AiReplacePrompts::default();
    assert_eq!(p.ai_replace_user_prompt, "INSTRUCTION:\n${instruction}\n\nTEXT:\n${output}");
    assert!(p.ai_replace_system_prompt.starts_with("You are a text transformation engine.\n"));
    assert!(p.ai_replace_no_selection_system_prompt.starts_with("You are a helpful assistant.\n"));
    assert!(p.ai_replace_quick_tap_system_prompt.starts_with("You are a text improvement engine.\n"));
    assert!(p.ai_replace_allow_no_selection && p.ai_replace_allow_quick_tap);
    let e = ExtensionMessageSettings::default();
    assert!(e.send_to_extension_with_selection_allow_no_voice);
    assert_eq!(e.send_to_extension_with_selection_user_prompt, p.ai_replace_user_prompt);
    assert_eq!(e.send_to_extension_with_selection_system_prompt, "");
    assert_eq!(aivorelay::actions::DEFAULT_AI_REPLACE_MAX_CHARS, 20000);
    assert_eq!(aivorelay::actions::DEFAULT_AI_REPLACE_QUICK_TAP_THRESHOLD_MS, 800);
    assert_eq!(aivorelay::actions::DEFAULT_QUICK_TAP_THRESHOLD_MS, 500);
    assert_eq!(aivorelay::settings::default_connector_port(), 38243);
}

#[test]
fn selection_over_the_limit_is_refused() {
    let long = "x".repeat(11);
    assert_eq!(
        ai_replace_selection("fix", Ok(long), false, false, 10),
        Err("Selected text is too long (11 characters). The limit is 10 characters.".to_string())
    );
    assert_eq!(ai_replace_selection("fix", Ok("x".repeat(10)), false, false, 10), Ok("x".repeat(10)));
}
