use aivorelay::llm_settings::{
    default_model_for_provider, default_post_process_api_keys, default_post_process_models, default_post_process_providers,
    LlmSettings,
};
use aivorelay::settings::{table_get, LlmFeature};

fn empty() -> LlmSettings {
    LlmSettings {
        post_process_enabled: false,
        post_process_provider_id: "openai".to_string(),
        post_process_providers: Vec::new(),
        post_process_api_keys: Vec::new(),
        post_process_models: Vec::new(),
        post_process_prompts: Vec::new(),
        post_process_selected_prompt_id: None,
        ai_replace_provider_id: None,
        ai_replace_api_keys: Vec::new(),
        ai_replace_models: Vec::new(),
        voice_command_provider_id: None,
        voice_command_api_keys: Vec::new(),
        voice_command_models: Vec::new(),
    }
}

#[test]
fn default_providers_end_with_custom() {
    let ids: Vec<String> = default_post_process_providers(false).into_iter().map(|p| p.id).collect();
    assert_eq!(ids, vec!["openai", "openrouter", "anthropic", "groq", "cerebras", "custom"]);
    let with_apple = default_post_process_providers(true);
    assert_eq!(with_apple.len(), 7);
    assert_eq!(with_apple[5].id, "apple_intelligence");
    assert_eq!(with_apple[5].models_endpoint, None);
    assert_eq!(with_apple[6].base_url, "http://localhost:11434/v1");
    assert!(with_apple[6].allow_base_url_edit);
    assert_eq!(with_apple[3].base_url, "https://api.groq.com/openai/v1");
}

#[test]
fn default_models() {
    assert_eq!(default_model_for_provider("apple_intelligence"), "Apple Intelligence");
    assert_eq!(default_model_for_provider("openai"), "");
}

#[test]
fn defaults_merge_once() {
    let mut s = empty();
    s.post_process_models.push(("apple_intelligence".to_string(), String::new()));
    s.post_process_api_keys.push(("openai".to_string(), "sk".to_string()));
    assert!(s.ensure_post_process_defaults(true));
    assert_eq!(s.post_process_providers.len(), 7);
    assert_eq!(table_get(&s.post_process_api_keys, "openai"), Some("sk".to_string()));
    assert_eq!(table_get(&s.post_process_api_keys, "groq"), Some(String::new()));
    assert_eq!(table_get(&s.post_process_models, "apple_intelligence"), Some("Apple Intelligence".to_string()));
    assert_eq!(table_get(&s.post_process_models, "custom"), Some(String::new()));
    assert!(!s.ensure_post_process_defaults(true));
    assert_eq!(s.post_process_providers.len(), 7);
}

#[test]
fn keys_and_models_need_a_known_provider() {
    let mut s = empty();
    s.ensure_post_process_defaults(false);
    assert_eq!(s.change_post_process_api_key_setting("groq".to_string(), "k1".to_string()), Ok(()));
    assert_eq!(table_get(&s.post_process_api_keys, "groq"), Some("k1".to_string()));
    assert_eq!(
        s.change_post_process_api_key_setting("nope".to_string(), "k".to_string()),
        Err("Provider 'nope' not found".to_string())
    );
    assert_eq!(s.change_post_process_model_setting("groq".to_string(), "llama".to_string()), Ok(()));
    assert_eq!(table_get(&s.post_process_models, "groq"), Some("llama".to_string()));
    assert_eq!(s.change_ai_replace_model_setting("openai".to_string(), "gpt".to_string()), Ok(()));
    assert_eq!(s.change_ai_replace_api_key_setting("openai".to_string(), "ak".to_string()), Ok(()));
    assert_eq!(s.change_voice_command_model_setting("openai".to_string(), "vm".to_string()), Ok(()));
    assert_eq!(s.change_voice_command_api_key_setting("openai".to_string(), "vk".to_string()), Ok(()));
    assert_eq!(s.set_post_process_provider("groq".to_string()), Ok(()));
    assert_eq!(s.post_process_provider_id, "groq");
    assert_eq!(s.set_post_process_provider("x".to_string()), Err("Provider 'x' not found".to_string()));
    assert_eq!(s.set_ai_replace_provider(Some("openai".to_string())), Ok(()));
    assert_eq!(s.set_ai_replace_provider(Some("x".to_string())), Err("Provider 'x' not found".to_string()));
    assert_eq!(s.ai_replace_provider_id.as_deref(), Some("openai"));
    assert_eq!(s.set_voice_command_provider(None), Ok(()));
    let cfg = s.llm_config_for(LlmFeature::AiReplace).unwrap();
    assert_eq!(cfg.provider_id, "openai");
    assert_eq!(cfg.model, "gpt");
    assert_eq!(cfg.api_key, "ak");
    let vc = s.llm_config_for(LlmFeature::VoiceCommand).unwrap();
    assert_eq!(vc.provider_id, "groq");
    assert_eq!(vc.model, "llama");
}

#[test]
fn only_custom_base_url_is_editable() {
    let mut s = empty();
    s.ensure_post_process_defaults(false);
    assert_eq!(s.change_post_process_base_url_setting("custom", "http://h/v1".to_string()), Ok(()));
    assert_eq!(s.post_process_providers[5].base_url, "http://h/v1");
    assert_eq!(
        s.change_post_process_base_url_setting("openai", "x".to_string()),
        Err("Provider 'OpenAI' does not allow editing the base URL".to_string())
    );
    assert_eq!(
        s.change_post_process_base_url_setting("zz", "x".to_string()),
        Err("Provider 'zz' not found".to_string())
    );
}

#[test]
fn default_key_and_model_tables() {
    let keys = default_post_process_api_keys(false);
    let ids: Vec<&str> = keys.iter().map(|(k, _)| k.as_str()).collect();
    assert_eq!(ids, vec!["openai", "openrouter", "anthropic", "groq", "cerebras", "custom"]);
    assert!(keys.iter().all(|(_, v)| v.is_empty()));
    let models = default_post_process_models(true);
    assert_eq!(models.len(), 7);
    assert_eq!(table_get(&models, "apple_intelligence"), Some("Apple Intelligence".to_string()));
    assert_eq!(table_get(&models, "openai"), Some(String::new()));
}
