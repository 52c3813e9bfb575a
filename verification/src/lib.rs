//! The verified core of a voice-to-text desktop relay: the browser-extension
//! connector, its authentication handshake, and the rules the application
//! applies to transcriptions and settings.
pub mod actions;
pub mod clipboard;
pub mod connector;
pub mod connector_auth;
pub mod connector_poll;
pub mod dispatch;
pub mod file_transcription;
pub mod key_listener;
pub mod llm_client;
pub mod llm_settings;
pub mod numfmt;
pub mod plus_overlay_state;
pub mod profiles;
pub mod region_capture;
pub mod remote_stt;
pub mod screenshot;
pub mod secure_keys;
pub mod session_manager;
pub mod settings;
pub mod text;
pub mod text_replacement;
pub mod virtual_screen;
pub mod voice_command;
