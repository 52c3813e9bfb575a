use aivorelay::plus_overlay_state::{categorize_error, error_payload, OverlayErrorCategory};

#[test]
fn test_categorize_tls_certificate() {
    assert!(matches!(
        categorize_error("invalid peer certificate: UnknownIssuer"),
        OverlayErrorCategory::TlsCertificate
    ));
    assert!(matches!(
        categorize_error("certificate has expired"),
        OverlayErrorCategory::TlsCertificate
    ));
}

#[test]
fn test_categorize_timeout() {
    assert!(matches!(
        categorize_error("request timed out"),
        OverlayErrorCategory::Timeout
    ));
}

#[test]
fn test_categorize_network() {
    assert!(matches!(
        categorize_error("error trying to connect"),
        OverlayErrorCategory::NetworkError
    ));
    assert!(matches!(
        categorize_error("dns resolution failed"),
        OverlayErrorCategory::NetworkError
    ));
}

#[test]
fn test_categorize_server() {
    assert!(matches!(
        categorize_error("status=500"),
        OverlayErrorCategory::ServerError
    ));
}

#[test]
fn test_categorize_parse() {
    assert!(matches!(
        categorize_error("failed to parse JSON"),
        OverlayErrorCategory::ParseError
    ));
}

#[test]
fn test_categorize_unknown() {
    assert!(matches!(
        categorize_error("something weird happened"),
        OverlayErrorCategory::Unknown
    ));
}

#[test]
fn categorize_handshake_and_case() {
    assert_eq!(categorize_error("TLS HANDSHAKE failed"), OverlayErrorCategory::TlsHandshake);
    assert_eq!(categorize_error("Connection TIMEOUT"), OverlayErrorCategory::Timeout);
    assert_eq!(categorize_error("Bad Gateway 502"), OverlayErrorCategory::ServerError);
}

#[test]
fn display_texts_and_payload() {
    assert_eq!(OverlayErrorCategory::TlsCertificate.display_text(), "Certificate error");
    assert_eq!(OverlayErrorCategory::Unknown.display_text(), "Transcription failed");
    let p = error_payload(OverlayErrorCategory::Timeout);
    assert_eq!(p.state, "error");
    assert_eq!(p.error_category, Some(OverlayErrorCategory::Timeout));
    assert_eq!(p.error_message.as_deref(), Some("Request timed out"));
}
