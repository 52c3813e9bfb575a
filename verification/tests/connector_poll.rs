use aivorelay::connector::ConnectorManager;
use aivorelay::connector_auth::{generate_secure_password, ConnectorPasswordSettings};
use aivorelay::connector_poll::{answer_poll, answer_post};
use aivorelay::settings::default_connector_password;

fn fresh_password() -> ConnectorPasswordSettings {
    ConnectorPasswordSettings {
        connector_password: default_connector_password(),
        connector_pending_password: None,
        connector_password_user_set: false,
    }
}

#[test]
fn poll_delivers_pending_and_offers_password() {
    let mut m = ConnectorManager::new(0);
    let mut pw = fresh_password();
    m.queue_message("first", "a".to_string(), 10).unwrap();
    m.queue_message("second", "b".to_string(), 20).unwrap();
    let answer = answer_poll(&mut m, &mut pw, 15, true, "https://chat.example", 77, 5, "ThreadId(1)");
    assert_eq!(answer.messages.len(), 1);
    assert_eq!(answer.messages[0].id, "b");
    assert_eq!(answer.cursor, 21);
    assert_eq!(answer.auto_open_tab_url.as_deref(), Some("https://chat.example"));
    let offered = generate_secure_password(77, 5, "ThreadId(1)");
    assert_eq!(answer.password_update.as_deref(), Some(offered.as_str()));
    assert_eq!(pw.connector_pending_password.as_deref(), Some(offered.as_str()));
    // Once delivered, a message can no longer be cancelled; the other can.
    assert!(!m.cancel_queued_message("b"));
    assert!(m.cancel_queued_message("a"));
}

#[test]
fn empty_poll_keeps_the_cursor() {
    let mut m = ConnectorManager::new(0);
    let mut pw = ConnectorPasswordSettings {
        connector_password: "chosen".to_string(),
        connector_pending_password: None,
        connector_password_user_set: true,
    };
    let answer = answer_poll(&mut m, &mut pw, 42, false, "https://chat.example", 1, 1, "t");
    assert!(answer.messages.is_empty());
    assert_eq!(answer.cursor, 42);
    assert_eq!(answer.auto_open_tab_url, None);
    assert_eq!(answer.password_update, None);
    assert_eq!(pw.connector_password, "chosen");
}

#[test]
fn password_ack_commits_the_offer() {
    let mut m = ConnectorManager::new(0);
    let mut pw = fresh_password();
    let answer = answer_poll(&mut m, &mut pw, 0, true, "", 9, 9, "t");
    let offered = answer.password_update.unwrap();
    assert_eq!(answer.auto_open_tab_url, None);
    assert!(!answer_post(&mut m, &mut pw, Some("keepalive_ack"), 500));
    assert_eq!(pw.connector_pending_password.as_deref(), Some(offered.as_str()));
    assert!(answer_post(&mut m, &mut pw, Some("password_ack"), 600));
    assert_eq!(pw.connector_password, offered);
    assert_eq!(pw.connector_pending_password, None);
    assert!(!answer_post(&mut m, &mut pw, Some("password_ack"), 700));
    assert_eq!(m.get_status(700).last_poll_at, 700);
}

#[test]
fn post_without_type_only_counts_as_life() {
    let mut m = ConnectorManager::new(0);
    let mut pw = fresh_password();
    assert!(!answer_post(&mut m, &mut pw, None, 1234));
    assert_eq!(pw.connector_password, default_connector_password());
    assert!(m.is_online(1234));
}
