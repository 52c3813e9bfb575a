use aivorelay::secure_keys::{
    delete_api_key, get_ai_replace_api_key, get_api_key, get_post_process_api_key, has_api_key, interpret_key_read,
    interpret_key_write, interpret_strict_read, key_is_present, migrate_keys_from_settings, set_api_key,
    set_post_process_api_key, KeyType, StoreError,
};
use aivorelay::remote_stt::{
    clear_remote_stt_api_key, get_remote_stt_api_key, has_remote_stt_api_key, set_remote_stt_api_key,
};

#[test]
fn credential_names() {
    assert_eq!(KeyType::RemoteStt.credential_name(None), "remote_stt_api_key");
    assert_eq!(KeyType::PostProcess.credential_name(Some("openai")), "post_process_api_key_openai");
    assert_eq!(KeyType::AiReplace.credential_name(Some("groq")), "ai_replace_api_key_groq");
}

#[test]
fn store_answers() {
    assert_eq!(interpret_key_read(Ok("k".to_string())), Ok("k".to_string()));
    assert_eq!(interpret_key_read(Err(StoreError::NoEntry)), Ok(String::new()));
    assert_eq!(
        interpret_key_read(Err(StoreError::Other("locked".to_string()))),
        Err("Failed to read API key: locked".to_string())
    );
    assert_eq!(interpret_key_write(Err(StoreError::NoEntry), true, "Failed to delete API key: "), Ok(()));
    assert_eq!(
        interpret_key_write(Err(StoreError::NoEntry), false, "Failed to store API key: "),
        Err("Failed to store API key: No matching entry found in secure storage".to_string())
    );
    assert_eq!(
        interpret_strict_read(Err(StoreError::NoEntry)),
        Err("Failed to read API key: No matching entry found in secure storage".to_string())
    );
    assert!(key_is_present(&Ok(" k ".to_string())));
    assert!(!key_is_present(&Ok("  ".to_string())));
    assert!(!key_is_present(&Err("x".to_string())));
}

#[test]
fn store_without_a_platform_backend_holds_nothing() {
    // Built without a platform credential store, the keyring crate keeps
    // nothing between entries: a read finds no key.
    assert_eq!(get_api_key(true, KeyType::PostProcess, Some("test-provider")), Ok(String::new()));
    assert!(!has_api_key(true, KeyType::PostProcess, Some("test-provider")));
}

#[test]
fn migration_skips_blank_keys() {
    let post = vec![("openai".to_string(), "sk".to_string()), ("groq".to_string(), "  ".to_string())];
    let ai: Vec<(String, String)> = Vec::new();
    let (migrated, pp, ai_ids) = migrate_keys_from_settings(true, &post, &ai);
    assert!(ai_ids.is_empty());
    assert!(!pp.contains(&"groq".to_string()));
    assert_eq!(migrated, !pp.is_empty());
}

#[test]
fn no_store_off_windows() {
    let refused: Result<(), String> = Err("Secure key storage is only available on Windows".to_string());
    assert_eq!(set_api_key(false, KeyType::PostProcess, Some("openai"), "sk"), refused);
    assert_eq!(
        get_api_key(false, KeyType::AiReplace, Some("openai")),
        Err("Secure key storage is only available on Windows".to_string())
    );
    assert_eq!(delete_api_key(false, KeyType::RemoteStt, None), refused);
    assert_eq!(set_post_process_api_key(false, "openai", "sk"), refused);
    assert!(!has_api_key(false, KeyType::PostProcess, Some("openai")));
    assert_eq!(get_post_process_api_key(false, "openai"), "");
    assert_eq!(get_ai_replace_api_key(false, "openai"), "");
    let remote: Result<(), String> = Err("Remote STT is only available on Windows".to_string());
    assert_eq!(set_remote_stt_api_key(false, "k"), remote);
    assert_eq!(clear_remote_stt_api_key(false), remote);
    assert_eq!(get_remote_stt_api_key(false), Err("Remote STT is only available on Windows".to_string()));
    assert!(!has_remote_stt_api_key(false));
    let post = vec![("openai".to_string(), "sk".to_string())];
    assert_eq!(migrate_keys_from_settings(false, &post, &post), (false, Vec::new(), Vec::new()));
}

#[test]
fn blank_key_deletes() {
    // A blank key deletes the credential; deleting a missing one succeeds.
    assert_eq!(set_api_key(true, KeyType::PostProcess, Some("nothing-here"), "   "), Ok(()));
    assert_eq!(delete_api_key(true, KeyType::AiReplace, Some("nothing-here")), Ok(()));
}
