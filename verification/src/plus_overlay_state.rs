//! Categories of transcription errors, as the error overlay shows them.
use vstd::prelude::*;
use crate::text::{chars_of, contains, lowercase, str_contains, str_to_string, to_lowercase};

verus! {

/// Error categories for overlay display.
#[derive(Debug, Clone, Copy, PartialEq, Eq, Structural)]
pub enum OverlayErrorCategory {
    TlsCertificate,
    TlsHandshake,
    Timeout,
    NetworkError,
    ServerError,
    ParseError,
    Unknown,
}

/// The text shown for each category.
pub open spec fn category_text(c: OverlayErrorCategory) -> Seq<char> {
    match c {
        OverlayErrorCategory::TlsCertificate => "Certificate error"@,
        OverlayErrorCategory::TlsHandshake => "Connection failed"@,
        OverlayErrorCategory::Timeout => "Request timed out"@,
        OverlayErrorCategory::NetworkError => "Network unavailable"@,
        OverlayErrorCategory::ServerError => "Server error"@,
        OverlayErrorCategory::ParseError => "Invalid response"@,
        OverlayErrorCategory::Unknown => "Transcription failed"@,
    }
}

impl OverlayErrorCategory {
    /// The display text for this error category.
    pub fn display_text(&self) -> (r: &'static str)
        ensures
            r@ == category_text(*self),
    {
        match self {
            OverlayErrorCategory::TlsCertificate => "Certificate error",
            OverlayErrorCategory::TlsHandshake => "Connection failed",
            OverlayErrorCategory::Timeout => "Request timed out",
            OverlayErrorCategory::NetworkError => "Network unavailable",
            OverlayErrorCategory::ServerError => "Server error",
            OverlayErrorCategory::ParseError => "Invalid response",
            OverlayErrorCategory::Unknown => "Transcription failed",
        }
    }
}

/// Overlay payload with error information.
#[derive(Debug)]
pub struct OverlayPayload {
    pub state: String,
    pub error_category: Option<OverlayErrorCategory>,
    pub error_message: Option<String>,
}

/// The category of an error whose lowercased message is `s`: the first group
/// of keywords that occurs in it decides.
pub open spec fn categorize_lowered(s: Seq<char>) -> OverlayErrorCategory {
    if contains(s, "certificate"@) || contains(s, "unknownissuer"@) || contains(
        s,
        "certnotvalidforname"@,
    ) || contains(s, "expired"@) {
        OverlayErrorCategory::TlsCertificate
    } else if contains(s, "tls"@) || contains(s, "handshake"@) || contains(s, "ssl"@) || contains(
        s,
        "secure"@,
    ) {
        OverlayErrorCategory::TlsHandshake
    } else if contains(s, "timeout"@) || contains(s, "timed out"@) {
        OverlayErrorCategory::Timeout
    } else if contains(s, "connect"@) || contains(s, "network"@) || contains(s, "dns"@) || contains(
        s,
        "resolve"@,
    ) || contains(s, "unreachable"@) {
        OverlayErrorCategory::NetworkError
    } else if contains(s, "status="@) || contains(s, "server"@) || contains(s, "500"@) || contains(
        s,
        "502"@,
    ) || contains(s, "503"@) || contains(s, "504"@) {
        OverlayErrorCategory::ServerError
    } else if contains(s, "parse"@) || contains(s, "json"@) || contains(s, "deserialize"@)
        || contains(s, "invalid response"@) {
        OverlayErrorCategory::ParseError
    } else {
        OverlayErrorCategory::Unknown
    }
}

/// The category of an already lowercased error message.
pub fn categorize_lowered_error(lowered: &str) -> (r: OverlayErrorCategory)
    ensures
        r == categorize_lowered(lowered@),
{
    let s = chars_of(lowered);
    let v = s.as_slice();
    if str_contains(v, "certificate") || str_contains(v, "unknownissuer") || str_contains(
        v,
        "certnotvalidforname",
    ) || str_contains(v, "expired") {
        OverlayErrorCategory::TlsCertificate
    } else if str_contains(v, "tls") || str_contains(v, "handshake") || str_contains(v, "ssl")
        || str_contains(v, "secure") {
        OverlayErrorCategory::TlsHandshake
    } else if str_contains(v, "timeout") || str_contains(v, "timed out") {
        OverlayErrorCategory::Timeout
    } else if str_contains(v, "connect") || str_contains(v, "network") || str_contains(v, "dns")
        || str_contains(v, "resolve") || str_contains(v, "unreachable") {
        OverlayErrorCategory::NetworkError
    } else if str_contains(v, "status=") || str_contains(v, "server") || str_contains(v, "500")
        || str_contains(v, "502") || str_contains(v, "503") || str_contains(v, "504") {
        OverlayErrorCategory::ServerError
    } else if str_contains(v, "parse") || str_contains(v, "json") || str_contains(v, "deserialize")
        || str_contains(v, "invalid response") {
        OverlayErrorCategory::ParseError
    } else {
        OverlayErrorCategory::Unknown
    }
}

/// Categorizes an error message, case-insensitively.
pub fn categorize_error(err_string: &str) -> (r: OverlayErrorCategory)
    ensures
        r == categorize_lowered(lowercase(err_string@)),
{
    let lowered = to_lowercase(err_string);
    categorize_lowered_error(lowered.as_str())
}

/// The payload that shows the error overlay for `category`.
pub fn error_payload(category: OverlayErrorCategory) -> (r: OverlayPayload)
    ensures
        r.state@ == "error"@,
        r.error_category == Some(category),
        r.error_message is Some,
        r.error_message->0@ == category_text(category),
{
    let text = category.display_text();
    OverlayPayload {
        state: str_to_string("error"),
        error_category: Some(category),
        error_message: Some(str_to_string(text)),
    }
}

} // verus!
