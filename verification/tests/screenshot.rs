use aivorelay::screenshot::{
    default_screenshot_folder, default_screenshot_settings,
    file_extension_of, next_env_var_name, substitute_env_var, is_image_file_name, newest_index, screenshot_folder_error, screenshot_instruction, watch_step,
    WatchEvent, WatchStep,
};
use aivorelay::settings::{NativeRegionCaptureMode, ScreenshotCaptureMethod};

#[test]
fn extensions_of_file_names() {
    assert_eq!(file_extension_of("shot.png"), Some("png".to_string()));
    assert_eq!(file_extension_of("a.b.JPG"), Some("JPG".to_string()));
    assert_eq!(file_extension_of(".png"), None);
    assert_eq!(file_extension_of("noext"), None);
    assert_eq!(file_extension_of("trailing."), Some(String::new()));
    assert_eq!(file_extension_of(".."), None);
}

#[test]
fn image_names() {
    assert!(is_image_file_name("Screenshot 1.PNG"));
    assert!(is_image_file_name("x.jpeg"));
    assert!(is_image_file_name("x.webp"));
    assert!(!is_image_file_name("notes.txt"));
    assert!(!is_image_file_name(".png"));
}

#[test]
fn newest_is_first_latest() {
    assert_eq!(newest_index(&vec![]), None);
    assert_eq!(newest_index(&vec![5, 9, 3, 9]), Some(1));
    assert_eq!(newest_index(&vec![1]), Some(0));
}

#[test]
fn watch_decisions() {
    assert!(matches!(watch_step(WatchEvent::Deadline { newest_found: true }, true), WatchStep::TakeNewest));
    match watch_step(WatchEvent::Deadline { newest_found: true }, false) {
        WatchStep::Fail(e) => assert_eq!(e, "Screenshot timeout: no new image detected"),
        _ => panic!("expected a timeout"),
    }
    assert!(matches!(
        watch_step(WatchEvent::Reported { exists: true, known_old: false, modified_after_start: true }, false),
        WatchStep::TakeReported
    ));
    assert!(matches!(
        watch_step(WatchEvent::Reported { exists: true, known_old: false, modified_after_start: false }, false),
        WatchStep::Wait
    ));
    // A file that was there before and was rewritten is not a new screenshot.
    assert!(matches!(
        watch_step(WatchEvent::Reported { exists: true, known_old: true, modified_after_start: true }, false),
        WatchStep::Wait
    ));
    assert!(matches!(
        watch_step(WatchEvent::Reported { exists: true, known_old: true, modified_after_start: false }, false),
        WatchStep::Wait
    ));
    assert!(matches!(
        watch_step(WatchEvent::Reported { exists: false, known_old: false, modified_after_start: true }, false),
        WatchStep::Wait
    ));
    assert!(matches!(watch_step(WatchEvent::Quiet { newest: Some((false, true)) }, false), WatchStep::TakeNewest));
    assert!(matches!(watch_step(WatchEvent::Quiet { newest: Some((false, false)) }, false), WatchStep::Wait));
    assert!(matches!(watch_step(WatchEvent::Quiet { newest: Some((true, false)) }, false), WatchStep::Wait));
    assert!(matches!(watch_step(WatchEvent::Quiet { newest: None }, false), WatchStep::Wait));
    match watch_step(WatchEvent::Disconnected, true) {
        WatchStep::Fail(e) => assert_eq!(e, "File watcher disconnected"),
        _ => panic!("expected a failure"),
    }
}

#[test]
fn folder_errors() {
    assert_eq!(screenshot_folder_error(false, false, "C:\\x"), Some("Screenshot folder not found: C:\\x".to_string()));
    assert_eq!(screenshot_folder_error(true, false, "f"), Some("Screenshot path is not a folder: f".to_string()));
    assert_eq!(screenshot_folder_error(true, true, "f"), None);
}

#[test]
fn instruction_defaults_when_silent() {
    assert_eq!(screenshot_instruction("  ".to_string(), true, "Describe"), "Describe");
    assert_eq!(screenshot_instruction("  ".to_string(), false, "Describe"), "  ");
    assert_eq!(screenshot_instruction("what is this".to_string(), true, "Describe"), "what is this");
}

#[test]
fn env_var_steps() {
    assert_eq!(next_env_var_name("%USERPROFILE%\\Pictures"), Some("USERPROFILE".to_string()));
    assert_eq!(next_env_var_name("C:\\a%b"), None);
    assert_eq!(next_env_var_name("C:\\plain"), None);
    assert_eq!(next_env_var_name("%%x"), Some(String::new()));
    assert_eq!(
        substitute_env_var("%HOME%\\a\\%HOME%", "HOME", "C:\\Users\\me"),
        "C:\\Users\\me\\a\\C:\\Users\\me"
    );
}

#[test]
fn screenshot_defaults() {
    let s = default_screenshot_settings(Some("C:\\Users\\ana"));
    assert_eq!(s.capture_method, ScreenshotCaptureMethod::Native);
    assert_eq!(s.native_region_capture_mode, NativeRegionCaptureMode::LiveDesktop);
    assert_eq!(s.capture_command, "& \"C:\\Program Files\\ShareX\\ShareX.exe\" -RectangleRegion");
    assert_eq!(s.folder, "C:\\Users\\ana\\Documents\\ShareX\\Screenshots");
    assert!(s.require_recent);
    assert_eq!(s.timeout_seconds, 5);
    assert!(s.include_subfolders);
    assert!(s.allow_no_voice);
    assert_eq!(s.quick_tap_threshold_ms, 500);
    assert_eq!(s.no_voice_default_prompt, "Look at this picture and provide a helpful response.");
    assert_eq!(default_screenshot_folder(None), "Documents\\ShareX\\Screenshots");
}
