//! Remote (OpenAI-compatible) speech-to-text: model limits, request
//! planning, the debug log and cancellation of running requests.
use vstd::prelude::*;
use crate::numfmt::{dec_digits, dec_u128};
use crate::secure_keys::{
    after_opening, delete_access, key_is_present, key_present, key_write_result, read_access, remote_account,
    result_view, strict_read_result, unit_result_view, write_access, StoreError,
};
use crate::settings::{RemoteSttDebugMode, RemoteSttSettings};
use crate::text::{
    all_ws, chars_of, contains, copy_string, is_blank, lowercase, push_all, push_str, str_contains,
    str_eq, str_to_string, string_of, to_lowercase, trim, trim_chars, trim_end_char,
    trim_end_char_exec, trim_str,
};

verus! {

/// The prompt limit of a model, in characters, by its lowercased id.
pub open spec fn prompt_limit_for(lower: Seq<char>) -> Option<usize> {
    if contains(lower, "whisper"@) || lower == "whisper-1"@ {
        Some(896)
    } else if contains(lower, "deepgram"@) || contains(lower, "nova"@) {
        Some(2000)
    } else {
        None
    }
}

/// The known prompt limit for a lowercased model id.
pub fn prompt_limit_for_lowercase(lower: &str) -> (r: Option<usize>)
    ensures
        r == prompt_limit_for(lower@),
{
    let v = chars_of(lower);
    if str_contains(v.as_slice(), "whisper") {
        return Some(896);
    }
    if str_eq(lower, "whisper-1") {
        return Some(896);
    }
    if str_contains(v.as_slice(), "deepgram") || str_contains(v.as_slice(), "nova") {
        return Some(2000);
    }
    None
}

/// The known character limit of a model's prompt (`None`: unknown model, no
/// limit enforced here).
pub fn get_model_prompt_limit(model_id: &str) -> (r: Option<usize>)
    ensures
        r == prompt_limit_for(lowercase(model_id@)),
{
    let lower = to_lowercase(model_id);
    prompt_limit_for_lowercase(lower.as_str())
}

/// Whether a model, by its lowercased id, supports the translation endpoint:
/// Whisper models except the turbo ones.
pub open spec fn translation_supported(lower: Seq<char>) -> bool {
    if contains(lower, "whisper"@) && contains(lower, "turbo"@) {
        false
    } else if contains(lower, "whisper-large-v3"@) {
        true
    } else if lower == "whisper-1"@ {
        true
    } else {
        contains(lower, "whisper"@) && !contains(lower, "turbo"@)
    }
}

/// Whether a lowercased model id supports translation.
pub fn translation_supported_lowercase(lower: &str) -> (r: bool)
    ensures
        r == translation_supported(lower@),
{
    let v = chars_of(lower);
    let whisper = str_contains(v.as_slice(), "whisper");
    let turbo = str_contains(v.as_slice(), "turbo");
    if whisper && turbo {
        return false;
    }
    if str_contains(v.as_slice(), "whisper-large-v3") {
        return true;
    }
    if str_eq(lower, "whisper-1") {
        return true;
    }
    whisper && !turbo
}

/// Whether a model supports translation to English.
pub fn supports_translation(model_id: &str) -> (r: bool)
    ensures
        r == translation_supported(lowercase(model_id@)),
{
    let lower = to_lowercase(model_id);
    translation_supported_lowercase(lower.as_str())
}

/// Lines kept in the debug log in normal mode.
pub const DEBUG_CAP_NORMAL: usize = 50;

/// Lines kept in the debug log in verbose mode.
pub const DEBUG_CAP_VERBOSE: usize = 300;

/// The line limit of a debug mode.
pub open spec fn debug_cap(mode: RemoteSttDebugMode) -> usize {
    match mode {
        RemoteSttDebugMode::Verbose => DEBUG_CAP_VERBOSE,
        RemoteSttDebugMode::Normal => DEBUG_CAP_NORMAL,
    }
}

/// `s` with `line` appended and its oldest lines dropped beyond `cap`.
pub open spec fn push_capped(s: Seq<Seq<char>>, line: Seq<char>, cap: usize) -> Seq<Seq<char>> {
    let t = s.push(line);
    if t.len() > cap {
        t.skip(t.len() - cap)
    } else {
        t
    }
}

/// The debug log of remote requests, bounded by the mode's limit.
pub struct DebugBuffer {
    lines: Vec<String>,
}

impl View for DebugBuffer {
    type V = Seq<Seq<char>>;

    closed spec fn view(&self) -> Seq<Seq<char>> {
        self.lines@.map_values(|s: String| s@)
    }
}

impl DebugBuffer {
    /// An empty log.
    pub fn new() -> (r: Self)
        ensures
            r@.len() == 0,
    {
        let r = DebugBuffer { lines: Vec::new() };
        assert(r@ =~= Seq::<Seq<char>>::empty());
        r
    }

    /// Appends a line, dropping the oldest beyond the mode's limit.
    pub fn push_line(&mut self, line: String, mode: RemoteSttDebugMode)
        ensures
            final(self)@ == push_capped(old(self)@, line@, debug_cap(mode)),
    {
        let cap = match mode {
            RemoteSttDebugMode::Verbose => DEBUG_CAP_VERBOSE,
            RemoteSttDebugMode::Normal => DEBUG_CAP_NORMAL,
        };
        let ghost t = old(self)@.push(line@);
        self.lines.push(line);
        assert(self@ =~= t);
        assert(t.skip(0) =~= t);
        let ghost mut k: int = 0;
        while self.lines.len() > cap
            invariant
                0 <= k <= t.len(),
                self@ == t.skip(k),
                self.lines@.len() == t.len() - k,
                k > 0 ==> t.len() - k >= cap,
                cap == debug_cap(mode),
            decreases self.lines.len(),
        {
            let ghost before = self.lines@;
            self.lines.remove(0);
            proof {
                assert forall|i: int| 0 <= i < self.lines@.len() implies #[trigger] self@[i] == t.skip(
                    k + 1,
                )[i] by {
                    assert(self.lines@[i] == before[i + 1]);
                    assert(t.skip(k)[i + 1] == t.skip(k + 1)[i]);
                }
                assert(self@ =~= t.skip(k + 1));
                k = k + 1;
            }
        }
        assert(self@ =~= push_capped(old(self)@, line@, cap));
    }

    /// The lines, oldest first.
    pub fn lines(&self) -> (r: Vec<String>)
        ensures
            r@.map_values(|s: String| s@) == self@,
    {
        let mut out: Vec<String> = Vec::new();
        let mut i: usize = 0;
        while i < self.lines.len()
            invariant
                0 <= i <= self.lines.len(),
                out@.map_values(|s: String| s@) == self@.take(i as int),
            decreases self.lines.len() - i,
        {
            let ghost before = out@.map_values(|s: String| s@);
            out.push(copy_string(&self.lines[i]));
            assert(out@.map_values(|s: String| s@) =~= before.push(self.lines@[i as int]@));
            assert(self@[i as int] == self.lines@[i as int]@);
            assert(self@.take(i + 1) =~= self@.take(i as int).push(self@[i as int]));
            i = i + 1;
        }
        assert(self@.take(i as int) =~= self@);
        out
    }

    /// Empties the log.
    pub fn clear(&mut self)
        ensures
            final(self)@.len() == 0,
    {
        self.lines = Vec::new();
        assert(self@ =~= Seq::<Seq<char>>::empty());
    }
}

/// Whether a debug line is recorded: capture is on, and in normal mode only
/// errors are.
pub open spec fn records_line(debug_capture: bool, mode: RemoteSttDebugMode, is_error: bool) -> bool {
    debug_capture && (mode == RemoteSttDebugMode::Verbose || is_error)
}

/// Whether a debug line is recorded.
pub fn should_record_line(debug_capture: bool, mode: RemoteSttDebugMode, is_error: bool) -> (r: bool)
    ensures
        r == records_line(debug_capture, mode, is_error),
{
    if !debug_capture {
        return false;
    }
    match mode {
        RemoteSttDebugMode::Normal => is_error,
        RemoteSttDebugMode::Verbose => true,
    }
}

/// The state of the remote transcription manager: operation ids for
/// cancellation and the debug log. The HTTP client stays with the caller.
pub struct RemoteSttManager {
    debug: DebugBuffer,
    current_operation_id: u64,
    cancelled_before_id: u64,
}

/// Model of the manager's operation counters.
pub struct OperationsView {
    pub current: u64,
    pub cancelled_before: u64,
}

impl RemoteSttManager {
    /// The operation counters.
    pub closed spec fn ops(&self) -> OperationsView {
        OperationsView { current: self.current_operation_id, cancelled_before: self.cancelled_before_id }
    }

    /// The debug log.
    pub closed spec fn log(&self) -> Seq<Seq<char>> {
        self.debug@
    }

    /// A manager with no operation and an empty log.
    pub fn new() -> (r: Self)
        ensures
            r.ops().current == 0,
            r.ops().cancelled_before == 0,
            r.log().len() == 0,
    {
        RemoteSttManager { debug: DebugBuffer::new(), current_operation_id: 0, cancelled_before_id: 0 }
    }

    /// Starts an operation and returns its id (one more than the last).
    pub fn start_operation(&mut self) -> (r: u64)
        requires
            old(self).ops().current < u64::MAX,
        ensures
            (final(self).ops(), r) == spec_start(old(self).ops()),
            final(self).log() == old(self).log(),
    {
        self.current_operation_id = self.current_operation_id + 1;
        self.current_operation_id
    }

    /// Cancels every operation started so far.
    pub fn cancel(&mut self)
        requires
            old(self).ops().current < u64::MAX,
        ensures
            final(self).ops() == spec_cancel_all(old(self).ops()),
            final(self).log() == old(self).log(),
    {
        self.cancelled_before_id = self.current_operation_id + 1;
    }

    /// Whether operation `operation_id` was cancelled.
    pub fn is_cancelled(&self, operation_id: u64) -> (r: bool)
        ensures
            r == spec_is_cancelled(self.ops(), operation_id),
    {
        operation_id < self.cancelled_before_id
    }

    /// The debug log, oldest line first.
    pub fn get_debug_dump(&self) -> (r: Vec<String>)
        ensures
            r@.map_values(|s: String| s@) == self.log(),
    {
        self.debug.lines()
    }

    /// Empties the debug log.
    pub fn clear_debug(&mut self)
        ensures
            final(self).log().len() == 0,
            final(self).ops() == old(self).ops(),
    {
        self.debug.clear();
    }

    /// Records a debug line when the settings ask for it; returns whether it
    /// did (the caller then emits it).
    pub fn record_line(&mut self, settings: &RemoteSttSettings, line: String, is_error: bool) -> (r: bool)
        ensures
            r == records_line(settings.debug_capture, settings.debug_mode, is_error),
            r ==> final(self).log() == push_capped(old(self).log(), line@, debug_cap(settings.debug_mode)),
            !r ==> final(self).log() == old(self).log(),
            final(self).ops() == old(self).ops(),
    {
        if should_record_line(settings.debug_capture, settings.debug_mode, is_error) {
            self.debug.push_line(line, settings.debug_mode);
            true
        } else {
            false
        }
    }
}

/// The counters after an operation started, and its id.
pub open spec fn spec_start(m: OperationsView) -> (OperationsView, u64) {
    (OperationsView { current: (m.current + 1) as u64, ..m }, (m.current + 1) as u64)
}

/// The counters after a cancel.
pub open spec fn spec_cancel_all(m: OperationsView) -> OperationsView {
    OperationsView { cancelled_before: (m.current + 1) as u64, ..m }
}

/// Whether an operation counts as cancelled.
pub open spec fn spec_is_cancelled(m: OperationsView, id: u64) -> bool {
    id < m.cancelled_before
}

/// A cancel stops every operation started before it, and none started
/// after it.
pub proof fn lemma_cancel_scope(m: OperationsView)
    requires
        m.current < u64::MAX - 1,
    ensures
        spec_is_cancelled(spec_cancel_all(spec_start(m).0), spec_start(m).1),
        !spec_is_cancelled(spec_start(spec_cancel_all(m)).0, spec_start(spec_cancel_all(m)).1),
{
}

/// The debug log never holds more lines than the mode allows, and the newest
/// line is the one pushed.
pub proof fn lemma_debug_log_bounded(s: Seq<Seq<char>>, line: Seq<char>, mode: RemoteSttDebugMode)
    ensures
        push_capped(s, line, debug_cap(mode)).len() <= debug_cap(mode),
        push_capped(s, line, debug_cap(mode)).last() == line,
{
}

/// The base address with surrounding whitespace and trailing slashes removed.
pub open spec fn clean_base_url(s: Seq<char>) -> Seq<char> {
    trim_end_char(trim(s), '/')
}

/// `base_url` with its trailing slashes dropped (after trimming).
pub fn clean_base_url_exec(base_url: &str) -> (r: Vec<char>)
    ensures
        r@ == clean_base_url(base_url@),
{
    let v = chars_of(base_url);
    let t = trim_chars(v.as_slice());
    trim_end_char_exec(t.as_slice(), '/')
}

/// Checks the settings before a transcription: the base address (trimmed,
/// without trailing slashes) and the model id must be set. Returns the
/// cleaned base address.
pub fn check_transcription_settings(settings: &RemoteSttSettings) -> (r: Result<String, String>)
    ensures
        clean_base_url(settings.base_url@).len() == 0 ==> r is Err && r->Err_0@
            == "Remote STT base URL is empty"@,
        clean_base_url(settings.base_url@).len() > 0 && all_ws(settings.model_id@) ==> r is Err
            && r->Err_0@ == "Remote STT model ID is empty"@,
        clean_base_url(settings.base_url@).len() > 0 && !all_ws(settings.model_id@) ==> r is Ok
            && r->Ok_0@ == clean_base_url(settings.base_url@),
{
    let base = clean_base_url_exec(settings.base_url.as_str());
    if base.len() == 0 {
        return Err(str_to_string("Remote STT base URL is empty"));
    }
    if is_blank(settings.model_id.as_str()) {
        return Err(str_to_string("Remote STT model ID is empty"));
    }
    Ok(string_of(base.as_slice()))
}

/// The language code sent with a request: none for `auto`, `zh` for the
/// Chinese script variants, the code itself otherwise.
pub open spec fn request_language(language: Option<Seq<char>>) -> Option<Seq<char>> {
    match language {
        None => None,
        Some(l) => if l == "auto"@ {
            None
        } else if l == "zh-Hans"@ || l == "zh-Hant"@ {
            Some("zh"@)
        } else {
            Some(l)
        },
    }
}

/// The planned request: its address and form fields.
#[derive(Debug)]
pub struct TranscriptionRequest {
    /// `<base>/audio/translations` or `<base>/audio/transcriptions`.
    pub url: String,
    /// `translations` or `transcriptions`.
    pub endpoint: String,
    pub model: String,
    pub language: Option<String>,
    pub prompt: Option<String>,
}

/// The prompt sent: the trimmed prompt, unless blank.
pub open spec fn request_prompt(prompt: Option<Seq<char>>) -> Option<Seq<char>> {
    match prompt {
        Some(p) => if trim(p).len() > 0 {
            Some(trim(p))
        } else {
            None
        },
        None => None,
    }
}

/// The refusal of an over-long prompt.
pub open spec fn prompt_too_long_message(len: nat, model: Seq<char>, limit: nat) -> Seq<char> {
    "System prompt is too long ("@ + dec_digits(len) + " characters). The "@ + model
        + " model has a limit of "@ + dec_digits(limit) + " characters. Please shorten your prompt."@
}

/// Model of an optional string.
pub open spec fn opt_view(o: Option<String>) -> Option<Seq<char>> {
    match o {
        Some(s) => Some(s@),
        None => None,
    }
}

/// The endpoint used: translation when asked for and supported by the model.
pub open spec fn request_endpoint(translate: bool, supported: bool) -> Seq<char> {
    if translate && supported {
        "translations"@
    } else {
        "transcriptions"@
    }
}

/// The request for a transcription once the settings were checked, given
/// whether the model supports translation: the endpoint, the language and
/// the prompt, which must fit the model's known limit `limit` (counted in
/// characters of the trimmed prompt).
pub fn build_transcription_request(
    base_url: &str,
    model_id: &str,
    translation_supported: bool,
    limit: Option<usize>,
    prompt: Option<String>,
    language: Option<String>,
    translate_to_english: bool,
) -> (r: Result<TranscriptionRequest, String>)
    ensures
        match r {
            Ok(req) => {
                &&& req.endpoint@ == request_endpoint(translate_to_english, translation_supported)
                &&& req.url@ == base_url@ + "/audio/"@ + req.endpoint@
                &&& req.model@ == model_id@
                &&& opt_view(req.language) == request_language(opt_view(language))
                &&& opt_view(req.prompt) == request_prompt(opt_view(prompt))
                &&& (limit is Some && request_prompt(opt_view(prompt)) is Some) ==> (request_prompt(
                    opt_view(prompt),
                )->0).len() <= limit->0
            },
            Err(e) => {
                &&& limit is Some
                &&& request_prompt(opt_view(prompt)) is Some
                &&& (request_prompt(opt_view(prompt))->0).len() > limit->0
                &&& e@ == prompt_too_long_message(
                    (request_prompt(opt_view(prompt))->0).len(),
                    model_id@,
                    limit->0 as nat,
                )
            },
        },
{
    let endpoint = if translate_to_english && translation_supported {
        str_to_string("translations")
    } else {
        str_to_string("transcriptions")
    };
    let mut url = chars_of(base_url);
    push_str(&mut url, "/audio/");
    push_str(&mut url, endpoint.as_str());
    let lang = match language {
        None => None,
        Some(l) => {
            if str_eq(l.as_str(), "auto") {
                None
            } else if str_eq(l.as_str(), "zh-Hans") || str_eq(l.as_str(), "zh-Hant") {
                Some(str_to_string("zh"))
            } else {
                Some(l)
            }
        },
    };
    let ghost prompt_view = opt_view(prompt);
    let sent_prompt = match prompt {
        None => None,
        Some(p) => {
            proof {
                crate::text::lemma_trim_empty_iff(p@);
            }
            let trimmed = trim_str(p.as_str());
            if is_blank(p.as_str()) {
                None
            } else {
                Some(trimmed)
            }
        },
    };
    match (&sent_prompt, limit) {
        (Some(t), Some(lim)) => {
            let n = chars_of(t.as_str()).len();
            if n > lim {
                let mut m = chars_of("System prompt is too long (");
                let d = dec_u128(n as u128);
                push_all(&mut m, d.as_slice());
                push_str(&mut m, " characters). The ");
                push_str(&mut m, model_id);
                push_str(&mut m, " model has a limit of ");
                let dl = dec_u128(lim as u128);
                push_all(&mut m, dl.as_slice());
                push_str(&mut m, " characters. Please shorten your prompt.");
                return Err(string_of(m.as_slice()));
            }
        },
        _ => {},
    }
    Ok(
        TranscriptionRequest {
            url: string_of(url.as_slice()),
            endpoint,
            model: str_to_string(model_id),
            language: lang,
            prompt: sent_prompt,
        },
    )
}

/// Plans a transcription request: no audio means nothing to send
/// (`Ok(None)`); then the settings are checked and the request built with the
/// model's translation support and prompt limit.
pub fn plan_transcription(
    settings: &RemoteSttSettings,
    has_audio: bool,
    prompt: Option<String>,
    language: Option<String>,
    translate_to_english: bool,
) -> (r: Result<Option<TranscriptionRequest>, String>)
    ensures
        !has_audio ==> r == Ok::<Option<TranscriptionRequest>, String>(None),
        has_audio && clean_base_url(settings.base_url@).len() == 0 ==> r is Err && r->Err_0@
            == "Remote STT base URL is empty"@,
        has_audio && clean_base_url(settings.base_url@).len() > 0 && all_ws(settings.model_id@) ==> r is Err
            && r->Err_0@ == "Remote STT model ID is empty"@,
        has_audio && clean_base_url(settings.base_url@).len() > 0 && !all_ws(settings.model_id@) ==> ({
            let limit = prompt_limit_for(lowercase(settings.model_id@));
            let sent = request_prompt(opt_view(prompt));
            let too_long = limit is Some && sent is Some && (sent->0).len() > limit->0;
            match r {
                Ok(Some(req)) => {
                    &&& !too_long
                    &&& req.endpoint@ == request_endpoint(
                        translate_to_english,
                        translation_supported(lowercase(settings.model_id@)),
                    )
                    &&& req.url@ == clean_base_url(settings.base_url@) + "/audio/"@ + req.endpoint@
                    &&& req.model@ == settings.model_id@
                    &&& opt_view(req.language) == request_language(opt_view(language))
                    &&& opt_view(req.prompt) == sent
                },
                Ok(None) => false,
                Err(e) => too_long && e@ == prompt_too_long_message(
                    (sent->0).len(),
                    settings.model_id@,
                    limit->0 as nat,
                ),
            }
        }),
{
    if !has_audio {
        return Ok(None);
    }
    let base = match check_transcription_settings(settings) {
        Ok(b) => b,
        Err(e) => return Err(e),
    };
    let supported = supports_translation(settings.model_id.as_str());
    let limit = get_model_prompt_limit(settings.model_id.as_str());
    match build_transcription_request(
        base.as_str(),
        settings.model_id.as_str(),
        supported,
        limit,
        prompt,
        language,
        translate_to_english,
    ) {
        Ok(req) => Ok(Some(req)),
        Err(e) => Err(e),
    }
}

/// The address tested: the given one (trimmed) or, when blank, the
/// configured one; trailing slashes dropped.
pub open spec fn test_base_url(given: Seq<char>, configured: Seq<char>) -> Seq<char> {
    if trim(given).len() == 0 {
        trim_end_char(trim(configured), '/')
    } else {
        trim_end_char(trim(given), '/')
    }
}

/// The address of a connection test (`<base>/models`), or the refusal of an
/// empty base address.
pub fn plan_connection_test(settings: &RemoteSttSettings, base_url: &str) -> (r: Result<String, String>)
    ensures
        test_base_url(base_url@, settings.base_url@).len() == 0 ==> r is Err && r->Err_0@
            == "Remote STT base URL is empty"@,
        test_base_url(base_url@, settings.base_url@).len() > 0 ==> r is Ok && r->Ok_0@ == test_base_url(
            base_url@,
            settings.base_url@,
        ) + "/models"@,
{
    proof {
        crate::text::lemma_trim_empty_iff(base_url@);
    }
    let base = if is_blank(base_url) {
        clean_base_url_exec(settings.base_url.as_str())
    } else {
        clean_base_url_exec(base_url)
    };
    if base.len() == 0 {
        return Err(str_to_string("Remote STT base URL is empty"));
    }
    let mut v = base;
    push_str(&mut v, "/models");
    Ok(string_of(v.as_slice()))
}

/// At most the first `n` characters of `s`.
pub fn take_chars(s: &str, n: usize) -> (r: String)
    ensures
        r@ == if s@.len() <= n {
            s@
        } else {
            s@.take(n as int)
        },
{
    let v = chars_of(s);
    if v.len() <= n {
        string_of(v.as_slice())
    } else {
        let t = crate::text::slice_range(v.as_slice(), 0, n);
        assert(t@ =~= s@.take(n as int));
        string_of(t.as_slice())
    }
}

/// The error for a failed response: its status line, the time taken and the
/// first 500 characters of the body.
pub fn failure_message(prefix: &str, status: &str, elapsed_ms: u128, body: &str) -> (r: String)
    ensures
        r@ == prefix@ + ": status="@ + status@ + " elapsed_ms="@ + dec_digits(elapsed_ms as nat)
            + " body_snippet="@ + (if body@.len() <= 500 {
            body@
        } else {
            body@.take(500)
        }),
{
    let mut v = chars_of(prefix);
    push_str(&mut v, ": status=");
    push_str(&mut v, status);
    push_str(&mut v, " elapsed_ms=");
    let d = dec_u128(elapsed_ms);
    push_all(&mut v, d.as_slice());
    push_str(&mut v, " body_snippet=");
    let snippet = take_chars(body, 500);
    push_str(&mut v, snippet.as_str());
    string_of(v.as_slice())
}

/// The refusal where the platform has no credential store.
pub open spec fn remote_unavailable_message() -> Seq<char> {
    "Remote STT is only available on Windows"@
}

/// Stores the remote transcription API key in the credential
/// `remote_stt_api_key` (Windows only; elsewhere refused). The store's own
/// answer is not stated: the result is what comes of some answer.
pub fn set_remote_stt_api_key(windows: bool, key: &str) -> (r: Result<(), String>)
    ensures
        !windows ==> unit_result_view(r) == Err::<(), Seq<char>>(remote_unavailable_message()),
        windows ==> exists|opened: Result<(), StoreError>, outcome: Result<(), StoreError>|
            unit_result_view(r) == #[trigger] after_opening(
                opened,
                key_write_result(outcome, false, "Failed to store API key: "@),
            ) && write_access(remote_account(), key@, opened, outcome),
{
    if !windows {
        return Err(str_to_string("Remote STT is only available on Windows"));
    }
    crate::secure_keys::store_remote_key(key)
}

/// Reads the remote transcription API key from the credential
/// `remote_stt_api_key`; a missing one is an error (Windows only; elsewhere
/// refused). What the store holds is not stated.
pub fn get_remote_stt_api_key(windows: bool) -> (r: Result<String, String>)
    ensures
        !windows ==> result_view(r) == Err::<Seq<char>, Seq<char>>(remote_unavailable_message()),
        windows ==> exists|opened: Result<(), StoreError>, outcome: Result<Seq<char>, StoreError>|
            result_view(r) == #[trigger] after_opening(opened, strict_read_result(outcome)) && read_access(
                remote_account(),
                opened,
                outcome,
            ),
{
    if !windows {
        return Err(str_to_string("Remote STT is only available on Windows"));
    }
    crate::secure_keys::read_remote_key()
}

/// Deletes the credential `remote_stt_api_key`; a missing one is an error
/// (Windows only; elsewhere refused). The store's own answer is not stated.
pub fn clear_remote_stt_api_key(windows: bool) -> (r: Result<(), String>)
    ensures
        !windows ==> unit_result_view(r) == Err::<(), Seq<char>>(remote_unavailable_message()),
        windows ==> exists|opened: Result<(), StoreError>, outcome: Result<(), StoreError>|
            unit_result_view(r) == #[trigger] after_opening(
                opened,
                key_write_result(outcome, false, "Failed to delete API key: "@),
            ) && delete_access(remote_account(), opened, outcome),
{
    if !windows {
        return Err(str_to_string("Remote STT is only available on Windows"));
    }
    crate::secure_keys::delete_remote_key()
}

/// Whether a non-blank remote transcription API key is stored: what
/// `get_remote_stt_api_key` reads, judged by `key_present`; always false
/// without a store.
pub fn has_remote_stt_api_key(windows: bool) -> (r: bool)
    ensures
        !windows ==> !r,
        windows ==> exists|opened: Result<(), StoreError>, outcome: Result<Seq<char>, StoreError>|
            r == key_present(#[trigger] after_opening(opened, strict_read_result(outcome))) && read_access(
                remote_account(),
                opened,
                outcome,
            ),
{
    let read = get_remote_stt_api_key(windows);
    let r = key_is_present(&read);
    proof {
        if windows {
            let (opened, outcome) = choose|opened: Result<(), StoreError>, outcome: Result<Seq<char>, StoreError>|
                result_view(read) == #[trigger] after_opening(opened, strict_read_result(outcome)) && read_access(
                    remote_account(),
                    opened,
                    outcome,
                );
            assert(r == key_present(after_opening(opened, strict_read_result(outcome))));
        }
    }
    r
}

} // verus!
