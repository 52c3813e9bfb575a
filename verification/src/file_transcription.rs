//! The checks and choices of transcribing an audio file: which files are
//! accepted, which engine transcribes them, and whether custom words apply.
use vstd::prelude::*;
use crate::key_listener::strings_view;
use crate::screenshot::file_extension;
use crate::text::{chars_of, lowercase, push_str, str_eq, str_to_string, string_of, to_lowercase};

verus! {

/// The audio formats accepted, by extension.
pub open spec fn supported_extensions() -> Seq<Seq<char>> {
    seq!["wav"@, "mp3"@, "m4a"@, "ogg"@, "flac"@, "webm"@]
}

/// The audio formats accepted, by extension.
pub fn get_supported_audio_extensions() -> (r: Vec<String>)
    ensures
        strings_view(r@) == supported_extensions(),
{
    let mut v: Vec<String> = Vec::new();
    v.push(str_to_string("wav"));
    v.push(str_to_string("mp3"));
    v.push(str_to_string("m4a"));
    v.push(str_to_string("ogg"));
    v.push(str_to_string("flac"));
    v.push(str_to_string("webm"));
    assert(strings_view(v@) =~= supported_extensions());
    v
}

/// The extension of an audio file, lowercased; empty when it has none.
pub open spec fn audio_extension(file_name: Seq<char>) -> Seq<char> {
    match file_extension(file_name) {
        Some(e) => lowercase(e),
        None => Seq::empty(),
    }
}

/// The error for an unsupported format.
pub open spec fn unsupported_format(ext: Seq<char>) -> Seq<char> {
    "Unsupported audio format: ."@ + ext + ". Supported formats: wav, mp3, m4a, ogg, flac, webm"@
}

/// Checks an audio file before decoding it: it must exist and have a
/// supported extension, which comes back.
pub fn validate_audio_file(file_path: &str, exists: bool, file_name: &str) -> (r: Result<String, String>)
    ensures
        !exists ==> r is Err && r->Err_0@ == "File not found: "@ + file_path@,
        exists && supported_extensions().contains(audio_extension(file_name@)) ==> r is Ok && r->Ok_0@
            == audio_extension(file_name@),
        exists && !supported_extensions().contains(audio_extension(file_name@)) ==> r is Err && r->Err_0@
            == unsupported_format(audio_extension(file_name@)),
{
    if !exists {
        let mut v = chars_of("File not found: ");
        push_str(&mut v, file_path);
        return Err(string_of(v.as_slice()));
    }
    let ext = match crate::screenshot::file_extension_of(file_name) {
        Some(e) => to_lowercase(e.as_str()),
        None => String::new(),
    };
    assert(ext@ == audio_extension(file_name@));
    let e = ext.as_str();
    let supported = str_eq(e, "wav") || str_eq(e, "mp3") || str_eq(e, "m4a") || str_eq(e, "ogg") || str_eq(
        e,
        "flac",
    ) || str_eq(e, "webm");
    proof {
        let s = supported_extensions();
        if supported {
            if e@ == "wav"@ {
                assert(s[0] == e@);
            } else if e@ == "mp3"@ {
                assert(s[1] == e@);
            } else if e@ == "m4a"@ {
                assert(s[2] == e@);
            } else if e@ == "ogg"@ {
                assert(s[3] == e@);
            } else if e@ == "flac"@ {
                assert(s[4] == e@);
            } else {
                assert(s[5] == e@);
            }
        } else {
            assert forall|i: int| 0 <= i < s.len() implies s[i] != e@ by {}
        }
    }
    if !supported {
        let mut v = chars_of("Unsupported audio format: .");
        push_str(&mut v, e);
        push_str(&mut v, ". Supported formats: wav, mp3, m4a, ogg, flac, webm");
        return Err(string_of(v.as_slice()));
    }
    Ok(ext)
}

/// A decoded file must hold some audio.
pub fn check_decoded_samples(sample_count: usize) -> (r: Result<(), String>)
    ensures
        sample_count == 0 ==> r is Err && r->Err_0@ == "Audio file contains no audio data"@,
        sample_count > 0 ==> r is Ok,
{
    if sample_count == 0 {
        Err(str_to_string("Audio file contains no audio data"))
    } else {
        Ok(())
    }
}

/// How a file is transcribed.
#[derive(Clone, Copy, Debug, PartialEq, Eq, Structural)]
pub struct FileRoute {
    /// Through the remote speech-to-text service.
    pub use_remote: bool,
    /// Unload the override model afterwards.
    pub unload_override_model: bool,
    /// Custom words are switched on for this file.
    pub custom_words_enabled: bool,
    /// Custom word corrections are applied to the remote result.
    pub apply_custom_words: bool,
}

/// The route of a file transcription: an override model forces the local
/// engine (and is unloaded afterwards when the remote service is the
/// configured one); otherwise the configured provider decides. The custom
/// words switch can be overridden; corrections need some words.
pub fn file_route(
    has_model_override: bool,
    remote_provider: bool,
    custom_words_enabled_override: Option<bool>,
    custom_words_enabled: bool,
    has_custom_words: bool,
) -> (r: FileRoute)
    ensures
        r.use_remote == (!has_model_override && remote_provider),
        r.unload_override_model == (has_model_override && remote_provider),
        r.custom_words_enabled == match custom_words_enabled_override {
            Some(b) => b,
            None => custom_words_enabled,
        },
        r.apply_custom_words == (r.custom_words_enabled && has_custom_words),
{
    let enabled = match custom_words_enabled_override {
        Some(b) => b,
        None => custom_words_enabled,
    };
    FileRoute {
        use_remote: !has_model_override && remote_provider,
        unload_override_model: has_model_override && remote_provider,
        custom_words_enabled: enabled,
        apply_custom_words: enabled && has_custom_words,
    }
}

/// The profile a file is transcribed with: the one asked for, or the
/// active one.
pub fn file_profile_id(profile_id: Option<String>, active_profile_id: &str) -> (r: String)
    ensures
        r@ == match profile_id {
            Some(p) => p@,
            None => active_profile_id@,
        },
{
    match profile_id {
        Some(p) => p,
        None => str_to_string(active_profile_id),
    }
}

} // verus!
