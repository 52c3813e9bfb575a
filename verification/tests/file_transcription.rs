use aivorelay::file_transcription::{
    check_decoded_samples, file_profile_id, file_route, get_supported_audio_extensions, validate_audio_file,
};

#[test]
fn supported_extensions_list() {
    assert_eq!(get_supported_audio_extensions(), vec!["wav", "mp3", "m4a", "ogg", "flac", "webm"]);
}

#[test]
fn audio_file_checks() {
    assert_eq!(validate_audio_file("/a/b.wav", false, "b.wav"), Err("File not found: /a/b.wav".to_string()));
    assert_eq!(validate_audio_file("/a/b.MP3", true, "b.MP3"), Ok("mp3".to_string()));
    assert_eq!(
        validate_audio_file("/a/b.txt", true, "b.txt"),
        Err("Unsupported audio format: .txt. Supported formats: wav, mp3, m4a, ogg, flac, webm".to_string())
    );
    assert_eq!(
        validate_audio_file("/a/b", true, "b"),
        Err("Unsupported audio format: .. Supported formats: wav, mp3, m4a, ogg, flac, webm".to_string())
    );
    assert_eq!(check_decoded_samples(0), Err("Audio file contains no audio data".to_string()));
    assert_eq!(check_decoded_samples(5), Ok(()));
}

#[test]
fn routes() {
    let r = file_route(false, true, None, true, true);
    assert!(r.use_remote && !r.unload_override_model && r.apply_custom_words);
    let r = file_route(true, true, Some(false), true, true);
    assert!(!r.use_remote && r.unload_override_model && !r.custom_words_enabled && !r.apply_custom_words);
    let r = file_route(false, false, Some(true), false, false);
    assert!(!r.use_remote && r.custom_words_enabled && !r.apply_custom_words);
    assert_eq!(file_profile_id(None, "default"), "default");
    assert_eq!(file_profile_id(Some("p".to_string()), "default"), "p");
}
