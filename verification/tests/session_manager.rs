use aivorelay::session_manager::{
    begin_processing, begin_recording, cancel_session, exit_processing, is_wayland_session, take_session,
    take_session_if_matches, Cleanup, RecordingSession, SessionState,
};

#[test]
fn cancel_shortcut_registers_once() {
    let mut s = RecordingSession::new_with_resources(true, false);
    assert!(s.register_cancel_shortcut());
    assert!(!s.register_cancel_shortcut());
}

#[test]
fn finish_releases_exactly_once() {
    let mut s = RecordingSession::new_with_resources(true, true);
    s.register_cancel_shortcut();
    assert_eq!(
        s.finish(),
        Some(Cleanup { unregister_cancel_shortcut: true, remove_mute: true, reset_ui: false })
    );
    assert_eq!(s.finish(), None);
    assert_eq!(s.drop_session(), None);
}

#[test]
fn drop_without_finish_resets_the_interface() {
    let mut s = RecordingSession::new_with_resources(true, false);
    assert_eq!(
        s.drop_session(),
        Some(Cleanup { unregister_cancel_shortcut: false, remove_mute: false, reset_ui: true })
    );
}

#[test]
fn recording_then_processing_then_idle() {
    let mut state: SessionState<u32> = SessionState::Idle;
    assert_eq!(begin_recording(&mut state, 7, "transcribe".to_string()), Ok(()));
    // A second recording is refused while one is active.
    assert_eq!(begin_recording(&mut state, 8, "ai_replace".to_string()), Err(8));
    // Another binding's stop does not take this session.
    assert_eq!(begin_processing(&mut state, "ai_replace"), None);
    assert!(matches!(state, SessionState::Recording { session: 7, .. }));
    assert_eq!(begin_processing(&mut state, "transcribe"), Some(7));
    assert!(matches!(&state, SessionState::Processing { binding_id } if binding_id == "transcribe"));
    // Recording stays blocked while processing.
    assert_eq!(begin_recording(&mut state, 9, "transcribe".to_string()), Err(9));
    exit_processing(&mut state);
    assert!(matches!(state, SessionState::Idle));
}

#[test]
fn take_session_matches_binding() {
    let mut state: SessionState<u32> = SessionState::Idle;
    assert_eq!(take_session(&mut state), None);
    begin_recording(&mut state, 1, "a".to_string()).unwrap();
    assert_eq!(take_session_if_matches(&mut state, "b"), None);
    assert_eq!(take_session_if_matches(&mut state, "a"), Some(1));
    assert!(matches!(state, SessionState::Idle));
    begin_recording(&mut state, 2, "c".to_string()).unwrap();
    assert_eq!(take_session(&mut state), Some((2, "c".to_string())));
}

#[test]
fn cancel_always_ends_idle() {
    let mut state: SessionState<u32> = SessionState::Processing { binding_id: "x".to_string() };
    assert_eq!(cancel_session(&mut state), None);
    assert!(matches!(state, SessionState::Idle));
    begin_recording(&mut state, 3, "y".to_string()).unwrap();
    assert_eq!(cancel_session(&mut state), Some((3, "y".to_string())));
    assert!(matches!(state, SessionState::Idle));
}

#[test]
fn wayland_detection() {
    assert!(is_wayland_session(true, None));
    assert!(is_wayland_session(false, Some("Wayland")));
    assert!(!is_wayland_session(false, Some("x11")));
    assert!(!is_wayland_session(false, None));
}

