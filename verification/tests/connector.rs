use aivorelay::connector::{
    auto_open_tab_url, classify_post, effective_wait_seconds, extension_status, image_mime_type, is_online,
    next_cursor, status_change, ConnectorManager, ConnectorState, ExtensionStatus, PendingBlob, PostKind, DEFAULT_PORT,
};

fn queue(state: &mut ConnectorState, text: &str, id: &str, ts: i64) {
    state.queue_message(text, id.to_string(), ts).unwrap();
}

#[test]
fn queue_message_trims_text() {
    let mut state = ConnectorState::new();
    let ev = state.queue_message("  hello world \n", "m1".to_string(), 42).unwrap();
    assert_eq!(ev.id, "m1");
    assert_eq!(ev.text, "hello world");
    assert_eq!(ev.timestamp, 42);
    let (msgs, ids) = state.pending_messages(0);
    assert_eq!(msgs.len(), 1);
    assert_eq!(msgs[0].text, "hello world");
    assert_eq!(msgs[0].msg_type, "text");
    assert_eq!(ids, vec!["m1".to_string()]);
}

#[test]
fn queue_message_refuses_blank_text() {
    let mut state = ConnectorState::new();
    let err = state.queue_message(" \t\n ", "m1".to_string(), 1).unwrap_err();
    assert_eq!(err, "Message is empty");
    assert_eq!(state.message_count(), 0);
}

#[test]
fn queue_keeps_the_newest_hundred() {
    let mut state = ConnectorState::new();
    for i in 0..105 {
        queue(&mut state, "x", &format!("m{}", i), i as i64);
    }
    assert_eq!(state.message_count(), 100);
    let (msgs, _) = state.pending_messages(0);
    assert_eq!(msgs[0].id, "m5");
    assert_eq!(msgs[99].id, "m104");
}

#[test]
fn pending_messages_start_at_the_cursor() {
    let mut state = ConnectorState::new();
    queue(&mut state, "a", "a", 10);
    queue(&mut state, "b", "b", 20);
    queue(&mut state, "c", "c", 30);
    let (msgs, ids) = state.pending_messages(20);
    assert_eq!(ids, vec!["b".to_string(), "c".to_string()]);
    assert_eq!(next_cursor(&msgs, 20), 31);
    let (none, _) = state.pending_messages(31);
    assert!(none.is_empty());
    assert_eq!(next_cursor(&none, 31), 31);
}

#[test]
fn delivered_message_cannot_be_cancelled() {
    let mut state = ConnectorState::new();
    queue(&mut state, "a", "a", 1);
    queue(&mut state, "b", "b", 2);
    state.mark_delivered(&["a".to_string()]);
    assert!(!state.cancel_queued_message("a"));
    assert!(state.cancel_queued_message("b"));
    let (msgs, _) = state.pending_messages(0);
    assert_eq!(msgs.len(), 1);
    assert_eq!(msgs[0].id, "a");
    assert!(!state.cancel_queued_message("unknown"));
}

#[test]
fn cancel_removes_only_that_message() {
    let mut state = ConnectorState::new();
    queue(&mut state, "a", "a", 1);
    queue(&mut state, "b", "b", 2);
    queue(&mut state, "c", "c", 3);
    assert!(state.cancel_queued_message("b"));
    let (_, ids) = state.pending_messages(0);
    assert_eq!(ids, vec!["a".to_string(), "c".to_string()]);
}

#[test]
fn keepalive_every_fifteen_seconds() {
    let mut state = ConnectorState::new();
    assert!(state.keepalive_tick(15_001, "k1".to_string()));
    assert!(!state.keepalive_tick(30_001, "k2".to_string()));
    assert!(state.keepalive_tick(30_002, "k3".to_string()));
    let (msgs, _) = state.pending_messages(0);
    assert_eq!(msgs.len(), 2);
    assert_eq!(msgs[0].msg_type, "keepalive");
    assert_eq!(msgs[0].text, "keepalive");
    assert_eq!(msgs[1].id, "k3");
}

#[test]
fn blob_read_after_write() {
    let mut state = ConnectorState::new();
    let blob = PendingBlob { data: vec![1, 2, 3], mime_type: "image/png".to_string(), expires_at: 1000 };
    state.insert_blob("att".to_string(), blob);
    let got = state.take_blob("att", 999).unwrap();
    assert_eq!(got.data, vec![1, 2, 3]);
    assert_eq!(got.mime_type, "image/png");
    assert!(state.take_blob("other", 999).is_none());
}

#[test]
fn expired_blob_is_gone() {
    let mut state = ConnectorState::new();
    let blob = PendingBlob { data: vec![9], mime_type: "image/png".to_string(), expires_at: 1000 };
    state.insert_blob("att".to_string(), blob);
    assert!(state.take_blob("att", 1001).is_none());
}

#[test]
fn bundle_message_points_at_its_blob() {
    let mut state = ConnectorState::new();
    let ev = state.queue_bundle_message(
        " look ",
        vec![7, 7, 7, 7],
        "image/jpeg",
        Some("shot.jpg".to_string()),
        "att1".to_string(),
        "msg1".to_string(),
        1_000,
        DEFAULT_PORT,
        1_000,
    );
    assert_eq!(ev.id, "msg1");
    assert_eq!(ev.text, "look");
    let (msgs, _) = state.pending_messages(0);
    assert_eq!(msgs.len(), 1);
    assert_eq!(msgs[0].msg_type, "bundle");
    let atts = msgs[0].attachments.as_ref().unwrap();
    assert_eq!(atts.len(), 1);
    assert_eq!(atts[0].att_id, "att1");
    assert_eq!(atts[0].kind, "image");
    assert_eq!(atts[0].mime.as_deref(), Some("image/jpeg"));
    assert_eq!(atts[0].size, Some(4));
    assert_eq!(atts[0].filename.as_deref(), Some("shot.jpg"));
    assert_eq!(atts[0].fetch.url, "http://127.0.0.1:63155/blob/att1");
    assert_eq!(atts[0].fetch.method.as_deref(), Some("GET"));
    assert_eq!(atts[0].fetch.expires_at, Some(301_000));
    let blob = state.take_blob("att1", 2_000).unwrap();
    assert_eq!(blob.data, vec![7, 7, 7, 7]);
    assert_eq!(blob.expires_at, 301_000);
}

#[test]
fn extension_status_values() {
    assert_eq!(extension_status(false, 100, 200), ExtensionStatus::Unknown);
    assert_eq!(extension_status(true, 0, 200), ExtensionStatus::Unknown);
    assert_eq!(extension_status(true, 100, 35_099), ExtensionStatus::Online);
    assert_eq!(extension_status(true, 100, 35_100), ExtensionStatus::Offline);
    assert!(is_online(100, 35_099));
    assert!(!is_online(0, 10));
}

#[test]
fn wait_seconds_are_capped() {
    assert_eq!(effective_wait_seconds(None), 0);
    assert_eq!(effective_wait_seconds(Some(10)), 10);
    assert_eq!(effective_wait_seconds(Some(99)), 30);
}

#[test]
fn auto_open_needs_a_url() {
    assert_eq!(auto_open_tab_url(true, "https://x.test"), Some("https://x.test".to_string()));
    assert_eq!(auto_open_tab_url(true, ""), None);
    assert_eq!(auto_open_tab_url(false, "https://x.test"), None);
}

#[test]
fn image_mime_from_extension() {
    assert_eq!(image_mime_type(Some("JPG")), "image/jpeg");
    assert_eq!(image_mime_type(Some("webp")), "image/webp");
    assert_eq!(image_mime_type(Some("tiff")), "image/png");
    assert_eq!(image_mime_type(None), "image/png");
}

#[test]
fn post_types() {
    assert_eq!(classify_post(Some("keepalive_ack")), PostKind::KeepaliveAck);
    assert_eq!(classify_post(Some("password_ack")), PostKind::PasswordAck);
    assert_eq!(classify_post(Some("other")), PostKind::Other);
    assert_eq!(classify_post(None), PostKind::Other);
}

#[test]
fn manager_start_and_restart() {
    let mut m = ConnectorManager::new(0);
    assert_eq!(m.port(), DEFAULT_PORT);
    assert_eq!(m.start_server(), Ok(true));
    assert_eq!(m.start_server(), Ok(false));
    assert!(m.record_poll(1_000));
    assert!(!m.record_poll(2_000));
    assert_eq!(m.get_status(3_000).status, ExtensionStatus::Online);
    assert!(m.restart_on_port(40_000));
    assert!(m.stop_requested());
    m.server_stopped();
    assert_eq!(m.restart_after_stop(), Ok(true));
    assert_eq!(m.port(), 40_000);
    assert_eq!(m.get_status(3_000).status, ExtensionStatus::Unknown);
}

#[test]
fn manager_refuses_privileged_port() {
    let mut m = ConnectorManager::new(80);
    assert_eq!(
        m.start_server(),
        Err("Port 80 is not allowed. Please use a port number of 1024 or higher.".to_string())
    );
    assert!(!m.server_running());
}

#[test]
fn status_watcher_reports_changes_only() {
    assert_eq!(status_change(false, 0, 100), None);
    assert_eq!(status_change(false, 1_000, 2_000), Some(ExtensionStatus::Online));
    assert_eq!(status_change(true, 1_000, 2_000), None);
    assert_eq!(status_change(true, 1_000, 36_000), Some(ExtensionStatus::Offline));
    assert_eq!(status_change(false, 1_000, 36_000), None);
}

#[test]
fn image_file_mime_from_its_extension() {
    let cases: [(Option<&str>, &str); 5] = [
        (Some("Shot.JPEG"), "image/jpeg"),
        (Some("a.webp"), "image/webp"),
        (Some("a.tiff"), "image/png"),
        (Some("noext"), "image/png"),
        (None, "image/png"),
    ];
    for (i, (name, mime)) in cases.iter().enumerate() {
        let mut m = ConnectorManager::new(0);
        let att = format!("att{}", i);
        m.queue_image_file("see", vec![1, 2], name.map(|n| n.to_string()), att.clone(), format!("m{}", i), 5, 5);
        let (msgs, _) = m.pending_messages(0);
        let a = &msgs[0].attachments.as_ref().unwrap()[0];
        assert_eq!(a.mime.as_deref(), Some(*mime));
        assert_eq!(a.filename.as_deref(), *name);
        let blob = m.take_blob(&att, 6).unwrap();
        assert_eq!(blob.mime_type, *mime);
    }
}
