use aivorelay::connector_auth::{
    constant_time_eq, generate_secure_password, is_probably_autogenerated_password, uuid_simple,
    validate_auth_header, ConnectorPasswordSettings,
};
use aivorelay::settings::default_connector_password;

fn reference_password(ts_nanos: u128, pid: u32, thread_id: &str) -> String {
    let seed = format!("{}{}{}{}", ts_nanos, pid, thread_id, ts_nanos.wrapping_mul(0x517cc1b727220a95));
    let mut acc: u64 = 0;
    for (i, &b) in seed.as_bytes().iter().enumerate() {
        acc = acc.wrapping_add((b as u64).wrapping_mul((i as u64).wrapping_add(1)));
        acc = acc.wrapping_mul(0x517cc1b727220a95);
    }
    let mut out = String::new();
    for i in 0..4u64 {
        let chunk = acc.wrapping_mul(i + 1).wrapping_add(ts_nanos as u64);
        out.push_str(&format!("{:08x}", chunk as u32));
    }
    out
}

#[test]
fn generated_password_matches_its_formula() {
    let cases: [(u128, u32, &str); 3] = [
        (1_700_000_000_123_456_789, 4242, "ThreadId(1)"),
        (0, 0, ""),
        (u128::MAX, u32::MAX, "ThreadId(17)"),
    ];
    for (ts, pid, tid) in cases {
        let p = generate_secure_password(ts, pid, tid);
        assert_eq!(p, reference_password(ts, pid, tid));
        assert_eq!(p.len(), 32);
        assert!(is_probably_autogenerated_password(&p));
    }
}

#[test]
fn autogenerated_shape() {
    assert!(is_probably_autogenerated_password("0123456789abcdef0123456789abcdef"));
    assert!(!is_probably_autogenerated_password("0123456789ABCDEF0123456789abcdef"));
    assert!(!is_probably_autogenerated_password("0123456789abcdef"));
    assert!(!is_probably_autogenerated_password("fklejqwhfiu342lhk3"));
}

#[test]
fn constant_time_eq_compares_bytes() {
    assert!(constant_time_eq(b"secret", b"secret"));
    assert!(!constant_time_eq(b"secret", b"secreT"));
    assert!(!constant_time_eq(b"secret", b"secrets"));
    assert!(constant_time_eq(b"", b""));
}

#[test]
fn auth_header_accepts_current_and_pending() {
    assert!(validate_auth_header(Some("Bearer pw1"), "pw1", None));
    assert!(validate_auth_header(Some("Bearer pw2"), "pw1", Some("pw2")));
    assert!(!validate_auth_header(Some("Bearer pw3"), "pw1", Some("pw2")));
    assert!(!validate_auth_header(Some("bearer pw1"), "pw1", None));
    assert!(!validate_auth_header(Some("pw1"), "pw1", None));
    assert!(!validate_auth_header(None, "pw1", None));
    assert!(!validate_auth_header(Some("Bearer "), "", None));
}

#[test]
fn uuid_is_time_in_hex() {
    assert_eq!(uuid_simple(255), "000000000000000000000000000000ff");
    assert_eq!(uuid_simple(0), "00000000000000000000000000000000");
}

fn settings(password: &str, pending: Option<&str>, user_set: bool) -> ConnectorPasswordSettings {
    ConnectorPasswordSettings {
        connector_password: password.to_string(),
        connector_pending_password: pending.map(|s| s.to_string()),
        connector_password_user_set: user_set,
    }
}

#[test]
fn password_handshake_offers_then_commits() {
    let mut s = settings(&default_connector_password(), None, false);
    let offered = s.maybe_generate_new_password(123, 7, "ThreadId(2)").unwrap();
    assert_eq!(offered, reference_password(123, 7, "ThreadId(2)"));
    // Until the extension acknowledges, both passwords are accepted.
    assert!(validate_auth_header(
        Some(&format!("Bearer {}", default_connector_password())),
        &s.connector_password,
        s.connector_pending_password.as_deref()
    ));
    assert!(validate_auth_header(
        Some(&format!("Bearer {}", offered)),
        &s.connector_password,
        s.connector_pending_password.as_deref()
    ));
    // The same pending password is offered again.
    assert_eq!(s.maybe_generate_new_password(999, 8, "ThreadId(3)"), Some(offered.clone()));
    assert!(s.commit_pending_password());
    assert_eq!(s.connector_password, offered);
    assert_eq!(s.connector_pending_password, None);
    assert!(!s.commit_pending_password());
    // Nothing more is offered once a generated password is in place.
    assert_eq!(s.maybe_generate_new_password(5, 5, "ThreadId(5)"), None);
}

#[test]
fn user_password_change() {
    let mut s = settings("old", None, false);
    assert_eq!(
        s.change_connector_password("   "),
        Err("Connector password cannot be empty".to_string())
    );
    assert_eq!(s.connector_pending_password, None);
    assert_eq!(s.change_connector_password(" old "), Ok(()));
    assert_eq!(s.connector_pending_password, None);
    assert_eq!(s.change_connector_password("  new  "), Ok(()));
    assert_eq!(s.connector_password, "old");
    assert_eq!(s.connector_pending_password.as_deref(), Some("new"));
    assert!(s.connector_password_user_set);
}

#[test]
fn legacy_password_migrates_to_pending() {
    let legacy = "0123456789abcdef0123456789abcdef";
    let mut s = settings(legacy, None, false);
    assert!(s.maybe_migrate_legacy_connector_password());
    assert_eq!(s.connector_password, default_connector_password());
    assert_eq!(s.connector_pending_password.as_deref(), Some(legacy));
    assert!(!s.maybe_migrate_legacy_connector_password());

    let mut chosen = settings(legacy, None, true);
    assert!(!chosen.maybe_migrate_legacy_connector_password());
    let mut plain = settings("my password", None, false);
    assert!(!plain.maybe_migrate_legacy_connector_password());
}
