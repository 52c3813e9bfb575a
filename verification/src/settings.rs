//! Settings types and the small rules attached to them: defaults, prompt
//! resolution, execution options and timeouts.
use vstd::prelude::*;
use crate::text::{
    chars_of, copy_opt_string, copy_string, is_blank, lowercase, push_str, str_eq, str_to_string,
    string_of, to_lowercase, trim,
};

verus! {

/// Id of the on-device provider.
pub open spec fn apple_intelligence_provider_id() -> Seq<char> {
    "apple_intelligence"@
}

/// Log verbosity.
#[derive(Debug, Clone, Copy, PartialEq, Eq, Structural)]
pub enum LogLevel {
    Trace,
    Debug,
    Info,
    Warn,
    Error,
}

/// The level named by a lowercase name.
pub open spec fn log_level_named(s: Seq<char>) -> Option<LogLevel> {
    if s == "trace"@ {
        Some(LogLevel::Trace)
    } else if s == "debug"@ {
        Some(LogLevel::Debug)
    } else if s == "info"@ {
        Some(LogLevel::Info)
    } else if s == "warn"@ {
        Some(LogLevel::Warn)
    } else if s == "error"@ {
        Some(LogLevel::Error)
    } else {
        None
    }
}

/// The level named by `lowered`, a lowercase name.
pub fn log_level_from_lowercase_name(lowered: &str) -> (r: Option<LogLevel>)
    ensures
        r == log_level_named(lowered@),
{
    if str_eq(lowered, "trace") {
        Some(LogLevel::Trace)
    } else if str_eq(lowered, "debug") {
        Some(LogLevel::Debug)
    } else if str_eq(lowered, "info") {
        Some(LogLevel::Info)
    } else if str_eq(lowered, "warn") {
        Some(LogLevel::Warn)
    } else if str_eq(lowered, "error") {
        Some(LogLevel::Error)
    } else {
        None
    }
}

/// The level a stored name stands for, compared case-insensitively.
pub fn log_level_from_name(value: &str) -> (r: Option<LogLevel>)
    ensures
        r == log_level_named(lowercase(value@)),
{
    let lowered = to_lowercase(value);
    log_level_from_lowercase_name(lowered.as_str())
}

/// The level a stored number stands for (the older format, 1 to 5).
pub fn log_level_from_number(value: u64) -> (r: Option<LogLevel>)
    ensures
        r == match value {
            1 => Some(LogLevel::Trace),
            2 => Some(LogLevel::Debug),
            3 => Some(LogLevel::Info),
            4 => Some(LogLevel::Warn),
            5 => Some(LogLevel::Error),
            _ => None,
        },
{
    match value {
        1 => Some(LogLevel::Trace),
        2 => Some(LogLevel::Debug),
        3 => Some(LogLevel::Info),
        4 => Some(LogLevel::Warn),
        5 => Some(LogLevel::Error),
        _ => None,
    }
}

/// A keyboard shortcut binding.
#[derive(Debug)]
pub struct ShortcutBinding {
    pub id: String,
    pub name: String,
    pub description: String,
    pub default_binding: String,
    pub current_binding: String,
}

/// A post-processing prompt.
#[derive(Debug)]
pub struct LLMPrompt {
    pub id: String,
    pub name: String,
    pub prompt: String,
}

/// Per-profile LLM post-processing settings.
#[derive(Debug)]
pub struct ProfileLlmSettings {
    pub enabled: bool,
    pub prompt_override: Option<String>,
    pub model_override: Option<String>,
}

/// A transcription profile with its own language and translation settings.
#[derive(Debug)]
pub struct TranscriptionProfile {
    pub id: String,
    pub name: String,
    pub language: String,
    pub translate_to_english: bool,
    pub description: String,
    pub system_prompt: String,
    pub stt_prompt_override_enabled: bool,
    pub include_in_cycle: bool,
    pub push_to_talk: bool,
    pub llm_post_process_enabled: bool,
    pub llm_prompt_override: Option<String>,
    pub llm_model_override: Option<String>,
}

/// The profile's own speech-to-text prompt: with the override on, its
/// system prompt unless that is blank.
pub open spec fn profile_prompt(override_enabled: bool, system_prompt: Seq<char>) -> Option<Seq<char>> {
    if override_enabled && trim(system_prompt).len() > 0 {
        Some(system_prompt)
    } else {
        None
    }
}

/// Model of an optional string.
pub open spec fn opt_chars(o: Option<String>) -> Option<Seq<char>> {
    match o {
        Some(s) => Some(s@),
        None => None,
    }
}

impl TranscriptionProfile {
    /// The profile's speech-to-text prompt (`None`: use the global one).
    pub fn resolve_prompt(&self) -> (r: Option<String>)
        ensures
            opt_chars(r) == profile_prompt(self.stt_prompt_override_enabled, self.system_prompt@),
    {
        if self.stt_prompt_override_enabled {
            proof {
                crate::text::lemma_trim_empty_iff(self.system_prompt@);
            }
            if is_blank(self.system_prompt.as_str()) {
                None
            } else {
                Some(copy_string(&self.system_prompt))
            }
        } else {
            None
        }
    }
}

/// The value under `key` in an association list (its first entry).
pub open spec fn assoc_get(m: Seq<(Seq<char>, Seq<char>)>, key: Seq<char>) -> Option<Seq<char>>
    decreases m.len(),
{
    if m.len() == 0 {
        None
    } else if m[0].0 == key {
        Some(m[0].1)
    } else {
        assoc_get(m.drop_first(), key)
    }
}

/// Model of a string-to-string table.
pub open spec fn table_view(m: Seq<(String, String)>) -> Seq<(Seq<char>, Seq<char>)> {
    m.map_values(|p: (String, String)| (p.0@, p.1@))
}

/// The value under `key` in a string table.
pub fn table_get(m: &Vec<(String, String)>, key: &str) -> (r: Option<String>)
    ensures
        opt_chars(r) == assoc_get(table_view(m@), key@),
{
    let ghost t = table_view(m@);
    let mut i: usize = 0;
    assert(t.skip(0) =~= t);
    while i < m.len()
        invariant
            0 <= i <= m.len(),
            t == table_view(m@),
            assoc_get(t, key@) == assoc_get(t.skip(i as int), key@),
        decreases m.len() - i,
    {
        assert(t.skip(i as int)[0] == t[i as int]);
        assert(t.skip(i as int).drop_first() =~= t.skip(i + 1));
        if str_eq(m[i].0.as_str(), key) {
            return Some(copy_string(&m[i].1));
        }
        i = i + 1;
    }
    None
}

/// The table with `value` stored under `key`: the first entry for `key`
/// replaced, or a new last entry.
pub open spec fn assoc_put(t: Seq<(Seq<char>, Seq<char>)>, key: Seq<char>, value: Seq<char>) -> Seq<
    (Seq<char>, Seq<char>),
>
    decreases t.len(),
{
    if t.len() == 0 {
        seq![(key, value)]
    } else if t[0].0 == key {
        t.update(0, (key, value))
    } else {
        seq![t[0]] + assoc_put(t.drop_first(), key, value)
    }
}

/// Reading a table after a store gives the stored value under its key and
/// the old value under any other.
pub proof fn lemma_assoc_put_get(t: Seq<(Seq<char>, Seq<char>)>, key: Seq<char>, v: Seq<char>, k: Seq<char>)
    ensures
        assoc_get(assoc_put(t, key, v), k) == if k == key {
            Some(v)
        } else {
            assoc_get(t, k)
        },
    decreases t.len(),
{
    let u = assoc_put(t, key, v);
    if t.len() == 0 {
        assert(u.len() == 1);
        assert(u[0] == (key, v));
        assert(u.drop_first() =~= Seq::<(Seq<char>, Seq<char>)>::empty());
        assert(assoc_get(u.drop_first(), k) is None);
    } else if t[0].0 == key {
        assert(u.len() == t.len());
        assert(u[0] == (key, v));
        assert(u.drop_first() =~= t.drop_first());
    } else {
        let d = t.drop_first();
        assert(u.len() > 0);
        assert(u[0] == t[0]);
        assert(u.drop_first() =~= assoc_put(d, key, v));
        lemma_assoc_put_get(d, key, v, k);
    }
}

/// No key occurs twice in a table.
pub open spec fn distinct_keys(t: Seq<(Seq<char>, Seq<char>)>) -> bool {
    forall|i: int, j: int| 0 <= i < j < t.len() ==> #[trigger] t[i].0 != #[trigger] t[j].0
}

/// Storing in a table keeps its keys distinct: a table used as a map stays
/// one, each key once.
pub proof fn lemma_assoc_put_keeps_keys_distinct(t: Seq<(Seq<char>, Seq<char>)>, key: Seq<char>, v: Seq<char>)
    ensures
        forall|i: int|
            0 <= i < assoc_put(t, key, v).len() ==> (#[trigger] assoc_put(t, key, v)[i]).0 == key || exists|j: int|
                0 <= j < t.len() && #[trigger] t[j].0 == assoc_put(t, key, v)[i].0,
        distinct_keys(t) ==> distinct_keys(assoc_put(t, key, v)),
    decreases t.len(),
{
    let u = assoc_put(t, key, v);
    if t.len() == 0 {
    } else if t[0].0 == key {
        assert forall|i: int| 0 <= i < u.len() implies (#[trigger] u[i]).0 == key || exists|j: int|
            0 <= j < t.len() && #[trigger] t[j].0 == u[i].0 by {
            if i > 0 {
                assert(t[i].0 == u[i].0);
            }
        }
        if distinct_keys(t) {
            assert forall|a: int, b: int| 0 <= a < b < u.len() implies #[trigger] u[a].0 != #[trigger] u[b].0 by {
                assert(t[a].0 != t[b].0);
            }
        }
    } else {
        let d = t.drop_first();
        lemma_assoc_put_keeps_keys_distinct(d, key, v);
        let w = assoc_put(d, key, v);
        assert(u =~= seq![t[0]] + w);
        assert forall|i: int| 0 <= i < u.len() implies (#[trigger] u[i]).0 == key || exists|j: int|
            0 <= j < t.len() && #[trigger] t[j].0 == u[i].0 by {
            if i == 0 {
                assert(t[0].0 == u[0].0);
            } else {
                assert(u[i] == w[i - 1]);
                if w[i - 1].0 != key {
                    let j = choose|j: int| 0 <= j < d.len() && #[trigger] d[j].0 == w[i - 1].0;
                    assert(t[j + 1].0 == u[i].0);
                }
            }
        }
        if distinct_keys(t) {
            assert(distinct_keys(d)) by {
                assert forall|a: int, b: int| 0 <= a < b < d.len() implies #[trigger] d[a].0 != #[trigger] d[b].0 by {
                    assert(t[a + 1].0 != t[b + 1].0);
                }
            }
            assert forall|a: int, b: int| 0 <= a < b < u.len() implies #[trigger] u[a].0 != #[trigger] u[b].0 by {
                if a == 0 {
                    assert(u[b] == w[b - 1]);
                    if w[b - 1].0 != key {
                        let j = choose|j: int| 0 <= j < d.len() && #[trigger] d[j].0 == w[b - 1].0;
                        assert(t[0].0 != t[j + 1].0);
                    }
                } else {
                    assert(u[a] == w[a - 1] && u[b] == w[b - 1]);
                }
            }
        }
    }
}

proof fn lemma_assoc_put_get_all(t: Seq<(Seq<char>, Seq<char>)>, key: Seq<char>, v: Seq<char>)
    ensures
        forall|k: Seq<char>|
            #[trigger] assoc_get(assoc_put(t, key, v), k) == if k == key {
                Some(v)
            } else {
                assoc_get(t, k)
            },
{
    assert forall|k: Seq<char>| #[trigger] assoc_get(assoc_put(t, key, v), k) == if k == key {
        Some(v)
    } else {
        assoc_get(t, k)
    } by {
        lemma_assoc_put_get(t, key, v, k);
    }
}

proof fn lemma_assoc_put_update(t: Seq<(Seq<char>, Seq<char>)>, i: int, key: Seq<char>, v: Seq<char>)
    requires
        0 <= i < t.len(),
        t[i].0 == key,
        forall|j: int| 0 <= j < i ==> (#[trigger] t[j]).0 != key,
    ensures
        t.update(i, (key, v)) == assoc_put(t, key, v),
    decreases i,
{
    if i > 0 {
        let d = t.drop_first();
        assert forall|j: int| 0 <= j < i - 1 implies (#[trigger] d[j]).0 != key by {
            assert(d[j] == t[j + 1]);
        }
        lemma_assoc_put_update(d, i - 1, key, v);
        assert(t.update(i, (key, v)) =~= seq![t[0]] + d.update(i - 1, (key, v)));
    }
}

proof fn lemma_assoc_put_push(t: Seq<(Seq<char>, Seq<char>)>, key: Seq<char>, v: Seq<char>)
    requires
        forall|j: int| 0 <= j < t.len() ==> (#[trigger] t[j]).0 != key,
    ensures
        t.push((key, v)) == assoc_put(t, key, v),
    decreases t.len(),
{
    if t.len() > 0 {
        let d = t.drop_first();
        assert forall|j: int| 0 <= j < d.len() implies (#[trigger] d[j]).0 != key by {
            assert(d[j] == t[j + 1]);
        }
        lemma_assoc_put_push(d, key, v);
        assert(t.push((key, v)) =~= seq![t[0]] + d.push((key, v)));
    } else {
        assert(t.push((key, v)) =~= seq![(key, v)]);
    }
}

/// Stores `value` under `key` in a string table: the entry for `key`
/// changes, the others stay.
pub fn table_put(m: &mut Vec<(String, String)>, key: String, value: String)
    ensures
        table_view(final(m)@) == assoc_put(table_view(old(m)@), key@, value@),
        distinct_keys(table_view(old(m)@)) ==> distinct_keys(table_view(final(m)@)),
        forall|k: Seq<char>|
            #[trigger] assoc_get(table_view(final(m)@), k) == if k == key@ {
                Some(value@)
            } else {
                assoc_get(table_view(old(m)@), k)
            },
{
    let ghost t = table_view(m@);
    let ghost kv = key@;
    let ghost vv = value@;
    proof {
        lemma_assoc_put_keeps_keys_distinct(t, kv, vv);
    }
    let mut i: usize = 0;
    while i < m.len()
        invariant
            0 <= i <= m.len(),
            t == table_view(m@),
            m@ == old(m)@,
            kv == key@,
            vv == value@,
            forall|j: int| 0 <= j < i ==> (#[trigger] t[j]).0 != kv,
        decreases m.len() - i,
    {
        assert(t[i as int].0 == m@[i as int].0@);
        if str_eq(m[i].0.as_str(), key.as_str()) {
            m.set(i, (key, value));
            assert(table_view(m@) =~= t.update(i as int, (kv, vv)));
            proof {
                lemma_assoc_put_update(t, i as int, kv, vv);
                lemma_assoc_put_get_all(t, kv, vv);
            }
            return;
        }
        i = i + 1;
    }
    m.push((key, value));
    assert(table_view(m@) =~= t.push((kv, vv)));
    proof {
        lemma_assoc_put_push(t, kv, vv);
        lemma_assoc_put_get_all(t, kv, vv);
    }
}

/// The speech-to-text prompt for a transcription: a profile with the
/// override on decides (its prompt, or none); otherwise the global prompt of
/// the model, unless blank.
pub open spec fn stt_prompt(
    profile: Option<(bool, Seq<char>)>,
    prompts: Seq<(Seq<char>, Seq<char>)>,
    model_id: Seq<char>,
) -> Option<Seq<char>> {
    if profile is Some && (profile->0).0 {
        profile_prompt(true, (profile->0).1)
    } else {
        match assoc_get(prompts, model_id) {
            Some(p) => if trim(p).len() > 0 {
                Some(p)
            } else {
                None
            },
            None => None,
        }
    }
}

/// The speech-to-text prompt for `model_id` (`transcription_prompts` maps
/// model ids to prompts).
pub fn resolve_stt_prompt(
    profile: Option<&TranscriptionProfile>,
    transcription_prompts: &Vec<(String, String)>,
    model_id: &str,
) -> (r: Option<String>)
    ensures
        opt_chars(r) == stt_prompt(
            match profile {
                Some(p) => Some((p.stt_prompt_override_enabled, p.system_prompt@)),
                None => None,
            },
            table_view(transcription_prompts@),
            model_id@,
        ),
{
    match profile {
        Some(p) => {
            if p.stt_prompt_override_enabled {
                return p.resolve_prompt();
            }
        },
        None => {},
    }
    match table_get(transcription_prompts, model_id) {
        Some(p) => {
            proof {
                crate::text::lemma_trim_empty_iff(p@);
            }
            if is_blank(p.as_str()) {
                None
            } else {
                Some(p)
            }
        },
        None => None,
    }
}

/// PowerShell execution policy for voice commands.
#[derive(Debug, Clone, Copy, PartialEq, Eq, Structural)]
pub enum ExecutionPolicy {
    /// System default (no `-ExecutionPolicy` flag).
    Default,
    /// Bypass all restrictions.
    Bypass,
    /// No restrictions on local scripts.
    Unrestricted,
    /// Remote scripts require a signature.
    RemoteSigned,
}

impl Default for ExecutionPolicy {
    fn default() -> (r: Self)
        ensures
            r == ExecutionPolicy::Bypass,
    {
        ExecutionPolicy::Bypass
    }
}

/// Global defaults for voice command execution.
#[derive(Debug, Clone, Copy, PartialEq, Eq, Structural)]
pub struct VoiceCommandDefaults {
    pub silent: bool,
    pub no_profile: bool,
    pub use_pwsh: bool,
    pub execution_policy: ExecutionPolicy,
}

impl Default for VoiceCommandDefaults {
    fn default() -> (r: Self)
        ensures
            r == (VoiceCommandDefaults {
                silent: true,
                no_profile: false,
                use_pwsh: false,
                execution_policy: ExecutionPolicy::Bypass,
            }),
    {
        VoiceCommandDefaults {
            silent: true,
            no_profile: false,
            use_pwsh: false,
            execution_policy: ExecutionPolicy::default(),
        }
    }
}

/// The execution options of one voice command.
#[derive(Debug)]
pub struct VoiceCommandOptions {
    pub silent: bool,
    pub no_profile: bool,
    pub use_pwsh: bool,
    /// `None`: inherit from the defaults.
    pub execution_policy: Option<ExecutionPolicy>,
    pub working_directory: Option<String>,
}

/// Resolved execution options for a voice command.
#[derive(Debug)]
pub struct ResolvedExecutionOptions {
    pub silent: bool,
    pub no_profile: bool,
    pub use_pwsh: bool,
    pub execution_policy: ExecutionPolicy,
    pub working_directory: Option<String>,
}

impl VoiceCommandOptions {
    /// The command's options, its execution policy inherited from `defaults`
    /// when it sets none.
    pub fn resolve_execution_options(&self, defaults: &VoiceCommandDefaults) -> (r:
        ResolvedExecutionOptions)
        ensures
            r.silent == self.silent,
            r.no_profile == self.no_profile,
            r.use_pwsh == self.use_pwsh,
            r.execution_policy == match self.execution_policy {
                Some(p) => p,
                None => defaults.execution_policy,
            },
            r.working_directory == self.working_directory,
    {
        ResolvedExecutionOptions {
            silent: self.silent,
            no_profile: self.no_profile,
            use_pwsh: self.use_pwsh,
            execution_policy: match self.execution_policy {
                Some(p) => p,
                None => defaults.execution_policy,
            },
            working_directory: copy_opt_string(&self.working_directory),
        }
    }
}

impl VoiceCommandDefaults {
    /// The defaults as execution options (for commands the LLM proposes).
    pub fn to_resolved_options(&self) -> (r: ResolvedExecutionOptions)
        ensures
            r.silent == self.silent,
            r.no_profile == self.no_profile,
            r.use_pwsh == self.use_pwsh,
            r.execution_policy == self.execution_policy,
            r.working_directory is None,
    {
        ResolvedExecutionOptions {
            silent: self.silent,
            no_profile: self.no_profile,
            use_pwsh: self.use_pwsh,
            execution_policy: self.execution_policy,
            working_directory: None,
        }
    }
}

/// An LLM provider.
#[derive(Debug)]
pub struct PostProcessProvider {
    pub id: String,
    pub label: String,
    pub base_url: String,
    pub allow_base_url_edit: bool,
    pub models_endpoint: Option<String>,
}

/// Which feature asks for an LLM.
#[derive(Debug, Clone, Copy, PartialEq, Eq, Structural)]
pub enum LlmFeature {
    PostProcessing,
    AiReplace,
    VoiceCommand,
}

/// A resolved LLM configuration.
#[derive(Debug)]
pub struct LlmConfig {
    pub provider_id: String,
    pub api_key: String,
    pub model: String,
    pub base_url: String,
}

/// Where transcription runs.
#[derive(Debug, Clone, Copy, PartialEq, Eq, Structural)]
pub enum TranscriptionProvider {
    Local,
    RemoteOpenAiCompatible,
}

/// The mechanism that listens for global hotkeys.
#[derive(Debug, Clone, Copy, PartialEq, Eq, Structural)]
pub enum ShortcutEngine {
    Tauri,
    Rdev,
}

impl Default for ShortcutEngine {
    fn default() -> (r: Self)
        ensures
            r == ShortcutEngine::Tauri,
    {
        ShortcutEngine::Tauri
    }
}

/// How much the remote transcription debug log records.
#[derive(Debug, Clone, Copy, PartialEq, Eq, Structural)]
pub enum RemoteSttDebugMode {
    Normal,
    Verbose,
}

/// Remote transcription settings.
#[derive(Debug)]
pub struct RemoteSttSettings {
    pub base_url: String,
    pub model_id: String,
    pub debug_capture: bool,
    pub debug_mode: RemoteSttDebugMode,
}

/// Where the recording overlay shows.
#[derive(Debug, Clone, Copy, PartialEq, Eq, Structural)]
pub enum OverlayPosition {
    /// No overlay.
    Hidden,
    Top,
    Bottom,
}

/// How screenshots are taken.
#[derive(Debug, Clone, Copy, PartialEq, Eq, Structural)]
pub enum ScreenshotCaptureMethod {
    ExternalProgram,
    Native,
}

/// How the native region picker shows.
#[derive(Debug, Clone, Copy, PartialEq, Eq, Structural)]
pub enum NativeRegionCaptureMode {
    LiveDesktop,
    ScreenshotBackground,
}

/// When the speech model is unloaded after use.
#[derive(Debug, Clone, Copy, PartialEq, Eq, Structural)]
pub enum ModelUnloadTimeout {
    Never,
    Immediately,
    Min2,
    Min5,
    Min10,
    Min15,
    Hour1,
    Sec5,
}

impl Default for ModelUnloadTimeout {
    fn default() -> (r: Self)
        ensures
            r == ModelUnloadTimeout::Never,
    {
        ModelUnloadTimeout::Never
    }
}

/// The timeout in minutes (`Immediately` and the debug-only `Sec5` count as 0).
pub open spec fn unload_minutes(t: ModelUnloadTimeout) -> Option<u64> {
    match t {
        ModelUnloadTimeout::Never => None,
        ModelUnloadTimeout::Immediately => Some(0),
        ModelUnloadTimeout::Min2 => Some(2),
        ModelUnloadTimeout::Min5 => Some(5),
        ModelUnloadTimeout::Min10 => Some(10),
        ModelUnloadTimeout::Min15 => Some(15),
        ModelUnloadTimeout::Hour1 => Some(60),
        ModelUnloadTimeout::Sec5 => Some(0),
    }
}

impl ModelUnloadTimeout {
    /// The timeout in minutes.
    pub fn to_minutes(self) -> (r: Option<u64>)
        ensures
            r == unload_minutes(self),
    {
        match self {
            ModelUnloadTimeout::Never => None,
            ModelUnloadTimeout::Immediately => Some(0),
            ModelUnloadTimeout::Min2 => Some(2),
            ModelUnloadTimeout::Min5 => Some(5),
            ModelUnloadTimeout::Min10 => Some(10),
            ModelUnloadTimeout::Min15 => Some(15),
            ModelUnloadTimeout::Hour1 => Some(60),
            ModelUnloadTimeout::Sec5 => Some(0),
        }
    }

    /// The timeout in seconds: `Sec5` is 5, the others their minutes times 60.
    pub fn to_seconds(self) -> (r: Option<u64>)
        ensures
            r == match self {
                ModelUnloadTimeout::Sec5 => Some(5u64),
                _ => match unload_minutes(self) {
                    Some(m) => Some((m * 60) as u64),
                    None => None,
                },
            },
    {
        match self {
            ModelUnloadTimeout::Never => None,
            ModelUnloadTimeout::Immediately => Some(0),
            ModelUnloadTimeout::Sec5 => Some(5),
            _ => match self.to_minutes() {
                Some(m) => Some(m * 60),
                None => None,
            },
        }
    }
}

/// How the transcription is pasted.
#[derive(Debug, Clone, Copy, PartialEq, Eq, Structural)]
pub enum PasteMethod {
    CtrlV,
    Direct,
    /// No paste.
    NoPaste,
    ShiftInsert,
    CtrlShiftV,
}

/// The default paste method: direct typing on Linux, Ctrl+V elsewhere.
pub fn default_paste_method(linux: bool) -> (r: PasteMethod)
    ensures
        r == if linux {
            PasteMethod::Direct
        } else {
            PasteMethod::CtrlV
        },
{
    if linux {
        PasteMethod::Direct
    } else {
        PasteMethod::CtrlV
    }
}

/// What happens to the clipboard around a paste.
#[derive(Debug, Clone, Copy, PartialEq, Eq, Structural)]
pub enum ClipboardHandling {
    DontModify,
    CopyToClipboard,
    RestoreAdvanced,
}

impl Default for ClipboardHandling {
    fn default() -> (r: Self)
        ensures
            r == ClipboardHandling::DontModify,
    {
        ClipboardHandling::DontModify
    }
}

/// How long recordings are kept.
#[derive(Debug, Clone, Copy, PartialEq, Eq, Structural)]
pub enum RecordingRetentionPeriod {
    Never,
    PreserveLimit,
    Days3,
    Weeks2,
    Months3,
}

/// The sounds played at start and stop.
#[derive(Debug, Clone, Copy, PartialEq, Eq, Structural)]
pub enum SoundTheme {
    Marimba,
    Pop,
    Custom,
}

/// The file stem of a sound theme.
pub open spec fn theme_name(t: SoundTheme) -> Seq<char> {
    match t {
        SoundTheme::Marimba => "marimba"@,
        SoundTheme::Pop => "pop"@,
        SoundTheme::Custom => "custom"@,
    }
}

impl SoundTheme {
    fn as_str(&self) -> (r: &'static str)
        ensures
            r@ == theme_name(*self),
    {
        match self {
            SoundTheme::Marimba => "marimba",
            SoundTheme::Pop => "pop",
            SoundTheme::Custom => "custom",
        }
    }

    /// `resources/<theme>_start.wav`.
    pub fn to_start_path(&self) -> (r: String)
        ensures
            r@ == "resources/"@ + theme_name(*self) + "_start.wav"@,
    {
        let mut v = chars_of("resources/");
        push_str(&mut v, self.as_str());
        push_str(&mut v, "_start.wav");
        string_of(v.as_slice())
    }

    /// `resources/<theme>_stop.wav`.
    pub fn to_stop_path(&self) -> (r: String)
        ensures
            r@ == "resources/"@ + theme_name(*self) + "_stop.wav"@,
    {
        let mut v = chars_of("resources/");
        push_str(&mut v, self.as_str());
        push_str(&mut v, "_stop.wav");
        string_of(v.as_slice())
    }
}

/// The password both sides start from, used for the first handshake.
pub open spec fn default_password_chars() -> Seq<char> {
    "fklejqwhfiu342lhk3"@
}

/// Default connector password, used for the initial mutual authentication.
pub fn default_connector_password() -> (r: String)
    ensures
        r@ == default_password_chars(),
{
    str_to_string("fklejqwhfiu342lhk3")
}


/// The sound theme a name selects (`marimba` for an unknown one).
pub open spec fn sound_theme_named(name: Seq<char>) -> SoundTheme {
    if name == "pop"@ {
        SoundTheme::Pop
    } else if name == "custom"@ {
        SoundTheme::Custom
    } else {
        SoundTheme::Marimba
    }
}

/// The sound theme a name selects.
pub fn parse_sound_theme(name: &str) -> (r: SoundTheme)
    ensures
        r == sound_theme_named(name@),
{
    if str_eq(name, "pop") {
        SoundTheme::Pop
    } else if str_eq(name, "custom") {
        SoundTheme::Custom
    } else {
        SoundTheme::Marimba
    }
}

/// The transcription provider a name selects: an unknown name is the local
/// engine; the remote service is refused off Windows.
pub fn parse_transcription_provider(name: &str, windows: bool) -> (r: Result<TranscriptionProvider, String>)
    ensures
        name@ == "remote_openai_compatible"@ && windows ==> r == Ok::<TranscriptionProvider, String>(
            TranscriptionProvider::RemoteOpenAiCompatible,
        ),
        name@ == "remote_openai_compatible"@ && !windows ==> r is Err && r->Err_0@
            == "Remote STT is only available on Windows"@,
        name@ != "remote_openai_compatible"@ ==> r == Ok::<TranscriptionProvider, String>(
            TranscriptionProvider::Local,
        ),
{
    if str_eq(name, "remote_openai_compatible") {
        if windows {
            Ok(TranscriptionProvider::RemoteOpenAiCompatible)
        } else {
            Err(str_to_string("Remote STT is only available on Windows"))
        }
    } else {
        Ok(TranscriptionProvider::Local)
    }
}

/// The overlay position the settings start with: none on Linux, at the
/// bottom elsewhere.
pub fn default_overlay_position(linux: bool) -> (r: OverlayPosition)
    ensures
        r == if linux {
            OverlayPosition::Hidden
        } else {
            OverlayPosition::Bottom
        },
{
    if linux {
        OverlayPosition::Hidden
    } else {
        OverlayPosition::Bottom
    }
}

/// The port the connector setting starts with.
pub fn default_connector_port() -> (r: u16)
    ensures
        r == 38243,
{
    38243
}

/// The text of the prompt the settings start with.
pub open spec fn improve_prompt_text() -> Seq<char> {
    "Clean this transcript:\n1. Fix spelling, capitalization, and punctuation errors\n2. Convert number words to digits (twenty-five \u{2192} 25, ten percent \u{2192} 10%, five dollars \u{2192} $5)\n3. Replace spoken punctuation with symbols (period \u{2192} ., comma \u{2192} ,, question mark \u{2192} ?)\n4. Remove filler words (um, uh, like as filler)\n5. Keep the language in the original version (if it was french, keep it in french for example)\n\nPreserve exact meaning and word order. Do not paraphrase or reorder content.\n\nReturn only the cleaned transcript.\n\nTranscript:\n${output}"@
}

/// The post-processing prompts the settings start with: one that cleans up
/// a transcript.
pub fn default_post_process_prompts() -> (r: Vec<LLMPrompt>)
    ensures
        r@.len() == 1,
        r@[0].id@ == "default_improve_transcriptions"@,
        r@[0].name@ == "Improve Transcriptions"@,
        r@[0].prompt@ == improve_prompt_text(),
{
    let mut v: Vec<LLMPrompt> = Vec::new();
    v.push(
        LLMPrompt {
            id: str_to_string("default_improve_transcriptions"),
            name: str_to_string("Improve Transcriptions"),
            prompt: str_to_string(
                "Clean this transcript:\n1. Fix spelling, capitalization, and punctuation errors\n2. Convert number words to digits (twenty-five \u{2192} 25, ten percent \u{2192} 10%, five dollars \u{2192} $5)\n3. Replace spoken punctuation with symbols (period \u{2192} ., comma \u{2192} ,, question mark \u{2192} ?)\n4. Remove filler words (um, uh, like as filler)\n5. Keep the language in the original version (if it was french, keep it in french for example)\n\nPreserve exact meaning and word order. Do not paraphrase or reorder content.\n\nReturn only the cleaned transcript.\n\nTranscript:\n${output}",
            ),
        },
    );
    v
}

/// The overlay position a name selects (`bottom` for an unknown one).
pub open spec fn overlay_position_named(name: Seq<char>) -> OverlayPosition {
    if name == "none"@ {
        OverlayPosition::Hidden
    } else if name == "top"@ {
        OverlayPosition::Top
    } else {
        OverlayPosition::Bottom
    }
}

/// The overlay position a name selects.
pub fn parse_overlay_position(name: &str) -> (r: OverlayPosition)
    ensures
        r == overlay_position_named(name@),
{
    if str_eq(name, "none") {
        OverlayPosition::Hidden
    } else if str_eq(name, "top") {
        OverlayPosition::Top
    } else {
        OverlayPosition::Bottom
    }
}

/// The paste method a name selects (`ctrl_v` for an unknown one).
pub open spec fn paste_method_named(name: Seq<char>) -> PasteMethod {
    if name == "direct"@ {
        PasteMethod::Direct
    } else if name == "none"@ {
        PasteMethod::NoPaste
    } else if name == "shift_insert"@ {
        PasteMethod::ShiftInsert
    } else if name == "ctrl_shift_v"@ {
        PasteMethod::CtrlShiftV
    } else {
        PasteMethod::CtrlV
    }
}

/// The paste method a name selects.
pub fn parse_paste_method(name: &str) -> (r: PasteMethod)
    ensures
        r == paste_method_named(name@),
{
    if str_eq(name, "direct") {
        PasteMethod::Direct
    } else if str_eq(name, "none") {
        PasteMethod::NoPaste
    } else if str_eq(name, "shift_insert") {
        PasteMethod::ShiftInsert
    } else if str_eq(name, "ctrl_shift_v") {
        PasteMethod::CtrlShiftV
    } else {
        PasteMethod::CtrlV
    }
}

/// The clipboard handling a name selects (`dont_modify` for an unknown
/// one).
pub open spec fn clipboard_handling_named(name: Seq<char>) -> ClipboardHandling {
    if name == "copy_to_clipboard"@ {
        ClipboardHandling::CopyToClipboard
    } else if name == "restore_advanced"@ {
        ClipboardHandling::RestoreAdvanced
    } else {
        ClipboardHandling::DontModify
    }
}

/// The clipboard handling a name selects.
pub fn parse_clipboard_handling(name: &str) -> (r: ClipboardHandling)
    ensures
        r == clipboard_handling_named(name@),
{
    if str_eq(name, "copy_to_clipboard") {
        ClipboardHandling::CopyToClipboard
    } else if str_eq(name, "restore_advanced") {
        ClipboardHandling::RestoreAdvanced
    } else {
        ClipboardHandling::DontModify
    }
}

/// The remote debug mode a name selects (`normal` for an unknown one).
pub fn parse_remote_stt_debug_mode(name: &str) -> (r: RemoteSttDebugMode)
    ensures
        r == if name@ == "verbose"@ {
            RemoteSttDebugMode::Verbose
        } else {
            RemoteSttDebugMode::Normal
        },
{
    if str_eq(name, "verbose") {
        RemoteSttDebugMode::Verbose
    } else {
        RemoteSttDebugMode::Normal
    }
}

/// The remote transcription settings of a fresh installation.
pub fn default_remote_stt_settings() -> (r: RemoteSttSettings)
    ensures
        r.base_url@ == "https://api.groq.com/openai/v1"@,
        r.model_id@ == "whisper-large-v3-turbo"@,
        !r.debug_capture,
        r.debug_mode == RemoteSttDebugMode::Normal,
{
    RemoteSttSettings {
        base_url: str_to_string("https://api.groq.com/openai/v1"),
        model_id: str_to_string("whisper-large-v3-turbo"),
        debug_capture: false,
        debug_mode: RemoteSttDebugMode::Normal,
    }
}

/// The table without the entries under `key`.
pub open spec fn assoc_without(t: Seq<(Seq<char>, Seq<char>)>, key: Seq<char>) -> Seq<(Seq<char>, Seq<char>)>
    decreases t.len(),
{
    if t.len() == 0 {
        t
    } else if t[0].0 == key {
        assoc_without(t.drop_first(), key)
    } else {
        seq![t[0]] + assoc_without(t.drop_first(), key)
    }
}

proof fn lemma_assoc_without_get(t: Seq<(Seq<char>, Seq<char>)>, key: Seq<char>, k: Seq<char>)
    ensures
        assoc_get(assoc_without(t, key), k) == if k == key {
            None
        } else {
            assoc_get(t, k)
        },
    decreases t.len(),
{
    if t.len() > 0 {
        let d = t.drop_first();
        lemma_assoc_without_get(d, key, k);
        if t[0].0 != key {
            let u = seq![t[0]] + assoc_without(d, key);
            assert(u[0] == t[0]);
            assert(u.drop_first() =~= assoc_without(d, key));
        }
    }
}

proof fn lemma_assoc_without_push(a: Seq<(Seq<char>, Seq<char>)>, x: (Seq<char>, Seq<char>), key: Seq<char>)
    ensures
        assoc_without(a.push(x), key) == if x.0 == key {
            assoc_without(a, key)
        } else {
            assoc_without(a, key).push(x)
        },
    decreases a.len(),
{
    if a.len() == 0 {
        assert(a.push(x).drop_first() =~= a);
        assert(a.push(x)[0] == x);
        if x.0 != key {
            assert(seq![x] + assoc_without(a, key) =~= assoc_without(a, key).push(x));
        }
    } else {
        let d = a.drop_first();
        lemma_assoc_without_push(d, x, key);
        assert(a.push(x).drop_first() =~= d.push(x));
        assert(a.push(x)[0] == a[0]);
        if a[0].0 != key && x.0 != key {
            assert(seq![a[0]] + assoc_without(d, key).push(x) =~= (seq![a[0]] + assoc_without(d, key)).push(x));
        }
    }
}

/// Removing a key from a table keeps the other keys distinct: what stays
/// was in the table.
pub proof fn lemma_assoc_without_keeps_keys_distinct(t: Seq<(Seq<char>, Seq<char>)>, key: Seq<char>)
    ensures
        forall|i: int|
            0 <= i < assoc_without(t, key).len() ==> (#[trigger] assoc_without(t, key)[i]).0 != key && exists|j: int|
                0 <= j < t.len() && #[trigger] t[j].0 == assoc_without(t, key)[i].0,
        distinct_keys(t) ==> distinct_keys(assoc_without(t, key)),
    decreases t.len(),
{
    if t.len() > 0 {
        let d = t.drop_first();
        lemma_assoc_without_keeps_keys_distinct(d, key);
        let w = assoc_without(d, key);
        let u = assoc_without(t, key);
        if distinct_keys(t) {
            assert(distinct_keys(d)) by {
                assert forall|a: int, b: int| 0 <= a < b < d.len() implies #[trigger] d[a].0 != #[trigger] d[b].0 by {
                    assert(t[a + 1].0 != t[b + 1].0);
                }
            }
        }
        if t[0].0 == key {
            assert(u == w);
            assert forall|i: int| 0 <= i < u.len() implies (#[trigger] u[i]).0 != key && exists|j: int|
                0 <= j < t.len() && #[trigger] t[j].0 == u[i].0 by {
                let j = choose|j: int| 0 <= j < d.len() && #[trigger] d[j].0 == w[i].0;
                assert(t[j + 1].0 == u[i].0);
            }
        } else {
            assert(u =~= seq![t[0]] + w);
            assert forall|i: int| 0 <= i < u.len() implies (#[trigger] u[i]).0 != key && exists|j: int|
                0 <= j < t.len() && #[trigger] t[j].0 == u[i].0 by {
                if i == 0 {
                    assert(t[0].0 == u[0].0);
                } else {
                    assert(u[i] == w[i - 1]);
                    let j = choose|j: int| 0 <= j < d.len() && #[trigger] d[j].0 == w[i - 1].0;
                    assert(t[j + 1].0 == u[i].0);
                }
            }
            if distinct_keys(t) {
                assert forall|a: int, b: int| 0 <= a < b < u.len() implies #[trigger] u[a].0 != #[trigger] u[b].0 by {
                    if a == 0 {
                        assert(u[b] == w[b - 1]);
                        let j = choose|j: int| 0 <= j < d.len() && #[trigger] d[j].0 == w[b - 1].0;
                        assert(t[0].0 != t[j + 1].0);
                    } else {
                        assert(u[a] == w[a - 1] && u[b] == w[b - 1]);
                    }
                }
            }
        }
    }
}

/// Removes the entries under `key` from a string table.
pub fn table_remove(m: &mut Vec<(String, String)>, key: &str)
    ensures
        table_view(final(m)@) == assoc_without(table_view(old(m)@), key@),
        distinct_keys(table_view(old(m)@)) ==> distinct_keys(table_view(final(m)@)),
        forall|k: Seq<char>|
            #[trigger] assoc_get(table_view(final(m)@), k) == if k == key@ {
                None
            } else {
                assoc_get(table_view(old(m)@), k)
            },
{
    let ghost t = table_view(m@);
    let mut kept: Vec<(String, String)> = Vec::new();
    let mut i: usize = 0;
    assert(t.take(0) =~= Seq::<(Seq<char>, Seq<char>)>::empty());
    while i < m.len()
        invariant
            0 <= i <= m.len(),
            t == table_view(m@),
            table_view(kept@) == assoc_without(t.take(i as int), key@),
        decreases m.len() - i,
    {
        proof {
            assert(t.take(i + 1) =~= t.take(i as int).push(t[i as int]));
            lemma_assoc_without_push(t.take(i as int), t[i as int], key@);
        }
        if !str_eq(m[i].0.as_str(), key) {
            let ghost before = table_view(kept@);
            kept.push((copy_string(&m[i].0), copy_string(&m[i].1)));
            assert(table_view(kept@) =~= before.push(t[i as int]));
        }
        i = i + 1;
    }
    assert(t.take(m.len() as int) =~= t);
    *m = kept;
    proof {
        lemma_assoc_without_keeps_keys_distinct(t, key@);
        assert forall|k: Seq<char>| #[trigger] assoc_get(table_view(m@), k) == if k == key@ {
            None
        } else {
            assoc_get(t, k)
        } by {
            lemma_assoc_without_get(t, key@, k);
        }
    }
}

/// Sets the speech-to-text prompt of a model; a blank prompt removes it.
pub fn change_transcription_prompt(prompts: &mut Vec<(String, String)>, model_id: String, prompt: String)
    ensures
        forall|k: Seq<char>|
            #[trigger] assoc_get(table_view(final(prompts)@), k) == if k == model_id@ {
                if trim(prompt@).len() == 0 {
                    None
                } else {
                    Some(prompt@)
                }
            } else {
                assoc_get(table_view(old(prompts)@), k)
            },
        distinct_keys(table_view(old(prompts)@)) ==> distinct_keys(table_view(final(prompts)@)),
{
    if is_blank(prompt.as_str()) {
        table_remove(prompts, model_id.as_str());
    } else {
        table_put(prompts, model_id, prompt);
    }
}


/// Switches of optional features.
#[derive(Debug, Clone, Copy, PartialEq, Eq, Structural)]
pub struct FeatureFlags {
    /// The voice-command feature, once a beta behind the debug menu.
    pub beta_voice_commands_enabled: bool,
    pub text_replacements_enabled: bool,
    /// Text replacement runs before post-processing rather than after.
    pub text_replacements_before_llm: bool,
    pub filler_word_filter_enabled: bool,
}

impl Default for FeatureFlags {
    /// Every optional feature starts switched off.
    fn default() -> (r: Self)
        ensures
            !r.beta_voice_commands_enabled,
            !r.text_replacements_enabled,
            !r.text_replacements_before_llm,
            !r.filler_word_filter_enabled,
    {
        FeatureFlags {
            beta_voice_commands_enabled: false,
            text_replacements_enabled: false,
            text_replacements_before_llm: false,
            filler_word_filter_enabled: false,
        }
    }
}

impl FeatureFlags {
    /// Loaded settings always have the voice-command feature on; the result
    /// says whether it was off, so that the settings are stored again.
    pub fn enable_beta_on_load(&mut self) -> (changed: bool)
        ensures
            changed == !old(self).beta_voice_commands_enabled,
            *final(self) == (FeatureFlags { beta_voice_commands_enabled: true, ..*old(self) }),
    {
        if !self.beta_voice_commands_enabled {
            self.beta_voice_commands_enabled = true;
            true
        } else {
            false
        }
    }
}

} // verus!
