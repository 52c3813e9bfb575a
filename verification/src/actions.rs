//! The decisions of the shortcut actions: whether and how a transcription is
//! post-processed, the Chinese script conversion, the AI Replace request and
//! the message sent to the extension with a selection.
use vstd::prelude::*;
use crate::llm_settings::{
    find_provider, get_or_empty, LlmSettings, ProviderView,
};
use crate::llm_settings::stored_ai_replace_key;
use crate::secure_keys::{credential_name_of, read_of, KeyType};
use crate::settings::{opt_chars, table_get, LLMPrompt, PostProcessProvider};
use crate::numfmt::{dec_digits, dec_u128};
use crate::text::{
    all_ws, chars_of, copy_string, is_blank, push_all, push_str, replace_all, replace_str, str_eq, str_to_string,
    string_of, trim, trim_str,
};

verus! {

/// Result of a transcription.
#[derive(Debug)]
pub enum TranscriptionOutcome {
    /// The transcribed text.
    Success(String),
    /// The operation was cancelled (remote transcription only).
    Cancelled,
    /// The transcription failed.
    Error {
        message: String,
        /// The error is already shown in the overlay.
        shown_in_overlay: bool,
    },
}

/// The outcome of a remote transcription: a cancel during the request
/// wins; an error is shown in the overlay.
pub fn remote_transcription_outcome(result: Result<String, String>, cancelled: bool) -> (r: TranscriptionOutcome)
    ensures
        cancelled ==> r is Cancelled,
        !cancelled ==> match result {
            Ok(t) => r matches TranscriptionOutcome::Success(x) && x@ == t@,
            Err(e) => r matches TranscriptionOutcome::Error { message, shown_in_overlay } && message@ == e@
                && shown_in_overlay,
        },
{
    if cancelled {
        return TranscriptionOutcome::Cancelled;
    }
    match result {
        Ok(t) => TranscriptionOutcome::Success(t),
        Err(e) => TranscriptionOutcome::Error { message: e, shown_in_overlay: true },
    }
}

/// The outcome of a local transcription; its errors are not shown in the
/// overlay.
pub fn local_transcription_outcome(result: Result<String, String>) -> (r: TranscriptionOutcome)
    ensures
        match result {
            Ok(t) => r matches TranscriptionOutcome::Success(x) && x@ == t@,
            Err(e) => r matches TranscriptionOutcome::Error { message, shown_in_overlay } && message@ == e@
                && !shown_in_overlay,
        },
{
    match result {
        Ok(t) => TranscriptionOutcome::Success(t),
        Err(e) => TranscriptionOutcome::Error { message: e, shown_in_overlay: false },
    }
}

/// What an action gets from a transcription: the text, or nothing; the
/// second part says whether the overlay and tray must be reset (an error
/// not already shown).
pub fn transcription_or_cleanup(outcome: TranscriptionOutcome) -> (r: (Option<String>, bool))
    ensures
        match outcome {
            TranscriptionOutcome::Success(t) => r.0 matches Some(x) && x@ == t@ && !r.1,
            TranscriptionOutcome::Cancelled => r.0 is None && !r.1,
            TranscriptionOutcome::Error { shown_in_overlay, .. } => r.0 is None && r.1 == !shown_in_overlay,
        },
{
    match outcome {
        TranscriptionOutcome::Success(t) => (Some(t), false),
        TranscriptionOutcome::Cancelled => (None, false),
        TranscriptionOutcome::Error { shown_in_overlay, .. } => (None, !shown_in_overlay),
    }
}

/// Payload of the command confirmation overlay.
#[derive(Debug)]
pub struct CommandConfirmPayload {
    /// The suggested command.
    pub command: String,
    /// What the user said.
    pub spoken_text: String,
    /// The command came from the LLM (not from a predefined match).
    pub from_llm: bool,
}

/// The prompts of the "send to extension with selection" action.
pub struct ExtensionMessageSettings {
    pub send_to_extension_with_selection_allow_no_voice: bool,
    pub send_to_extension_with_selection_no_voice_system_prompt: String,
    pub send_to_extension_with_selection_user_prompt: String,
    pub send_to_extension_with_selection_system_prompt: String,
}

/// `SYSTEM:\n<system>\n\n<body>`.
pub open spec fn with_system(system: Seq<char>, body: Seq<char>) -> Seq<char> {
    "SYSTEM:\n"@ + system + "\n\n"@ + body
}

/// The message sent to the extension for a spoken `instruction` about the
/// selected text: with no instruction, the selection alone (if allowed,
/// under the no-voice system prompt); with no selection, the instruction
/// alone; otherwise the user template (or a default layout) filled in, under
/// the system prompt when there is one.
pub open spec fn extension_message(
    allow_no_voice: bool,
    no_voice_system: Seq<char>,
    user_template: Seq<char>,
    system: Seq<char>,
    instruction: Seq<char>,
    selection: Seq<char>,
) -> Seq<char> {
    if trim(instruction).len() == 0 {
        if allow_no_voice {
            if trim(no_voice_system).len() == 0 {
                trim(selection)
            } else {
                with_system(trim(no_voice_system), trim(selection))
            }
        } else {
            Seq::empty()
        }
    } else if trim(selection).len() == 0 {
        trim(instruction)
    } else {
        let user = if trim(user_template).len() == 0 {
            "INSTRUCTION:\n"@ + trim(instruction) + "\n\nTEXT:\n"@ + selection
        } else {
            replace_all(
                replace_all(trim(user_template), "${instruction}"@, trim(instruction)),
                "${output}"@,
                selection,
            )
        };
        if trim(system).len() == 0 {
            user
        } else {
            with_system(trim(system), user)
        }
    }
}

fn system_message(system: &str, body: &str) -> (r: String)
    ensures
        r@ == with_system(system@, body@),
{
    let mut v = chars_of("SYSTEM:\n");
    push_str(&mut v, system);
    push_str(&mut v, "\n\n");
    push_str(&mut v, body);
    string_of(v.as_slice())
}

/// Builds the message sent to the extension.
pub fn build_extension_message(settings: &ExtensionMessageSettings, instruction: &str, selection: &str) -> (r:
    String)
    ensures
        r@ == extension_message(
            settings.send_to_extension_with_selection_allow_no_voice,
            settings.send_to_extension_with_selection_no_voice_system_prompt@,
            settings.send_to_extension_with_selection_user_prompt@,
            settings.send_to_extension_with_selection_system_prompt@,
            instruction@,
            selection@,
        ),
{
    let instruction_trimmed = trim_str(instruction);
    let selection_trimmed = trim_str(selection);
    if chars_of(instruction_trimmed.as_str()).len() == 0 {
        if settings.send_to_extension_with_selection_allow_no_voice {
            let system = trim_str(settings.send_to_extension_with_selection_no_voice_system_prompt.as_str());
            if chars_of(system.as_str()).len() == 0 {
                return selection_trimmed;
            } else {
                return system_message(system.as_str(), selection_trimmed.as_str());
            }
        } else {
            return String::new();
        }
    }
    if chars_of(selection_trimmed.as_str()).len() == 0 {
        return instruction_trimmed;
    }
    let user_template = trim_str(settings.send_to_extension_with_selection_user_prompt.as_str());
    let user_message = if chars_of(user_template.as_str()).len() == 0 {
        let mut v = chars_of("INSTRUCTION:\n");
        push_str(&mut v, instruction_trimmed.as_str());
        push_str(&mut v, "\n\nTEXT:\n");
        push_str(&mut v, selection);
        string_of(v.as_slice())
    } else {
        proof {
            reveal_strlit("${instruction}");
            reveal_strlit("${output}");
        }
        let t = chars_of(user_template.as_str());
        let step = replace_str(t.as_slice(), "${instruction}", instruction_trimmed.as_str());
        let done = replace_str(step.as_slice(), "${output}", selection);
        string_of(done.as_slice())
    };
    let system = trim_str(settings.send_to_extension_with_selection_system_prompt.as_str());
    if chars_of(system.as_str()).len() == 0 {
        user_message
    } else {
        system_message(system.as_str(), user_message.as_str())
    }
}

/// What post-processing of a transcription will do.
#[derive(Debug)]
pub enum PostProcessPlan {
    /// No post-processing.
    Skip,
    /// Post-processing on the device's own model.
    AppleIntelligence { prompt: String, prompt_template: String, model: String },
    /// Post-processing through a provider's API.
    Remote {
        provider: PostProcessProvider,
        model: String,
        api_key: String,
        prompt: String,
        prompt_template: String,
    },
}

/// Model of a prompt list: (id, prompt) pairs.
pub open spec fn prompts_view(v: Seq<LLMPrompt>) -> Seq<(Seq<char>, Seq<char>)> {
    v.map_values(|p: LLMPrompt| (p.id@, p.prompt@))
}

/// The planned post-processing, as far as it can be described: `None` for
/// skipping, else the provider, the model, the prompt sent and its template.
pub open spec fn post_process_plan(
    enabled: bool,
    providers: Seq<ProviderView>,
    post_id: Seq<char>,
    models: Seq<(Seq<char>, Seq<char>)>,
    selected_prompt: Option<Seq<char>>,
    prompts: Seq<(Seq<char>, Seq<char>)>,
    transcription: Seq<char>,
) -> Option<(ProviderView, Seq<char>, Seq<char>, Seq<char>)> {
    if !enabled {
        None
    } else {
        match find_provider(providers, post_id) {
            None => None,
            Some(p) => {
                let model = get_or_empty(models, p.id);
                if trim(model).len() == 0 {
                    None
                } else {
                    match selected_prompt {
                        None => None,
                        Some(pid) => match crate::settings::assoc_get(prompts, pid) {
                            None => None,
                            Some(template) => if trim(template).len() == 0 {
                                None
                            } else {
                                Some((p, model, replace_all(template, "${output}"@, transcription), template))
                            },
                        },
                    }
                }
            },
        }
    }
}

fn find_prompt(prompts: &Vec<LLMPrompt>, id: &str) -> (r: Option<String>)
    ensures
        opt_chars(r) == crate::settings::assoc_get(prompts_view(prompts@), id@),
{
    let ghost t = prompts_view(prompts@);
    let mut i: usize = 0;
    assert(t.skip(0) =~= t);
    while i < prompts.len()
        invariant
            0 <= i <= prompts.len(),
            t == prompts_view(prompts@),
            crate::settings::assoc_get(t, id@) == crate::settings::assoc_get(t.skip(i as int), id@),
        decreases prompts.len() - i,
    {
        assert(t.skip(i as int)[0] == t[i as int]);
        assert(t.skip(i as int).drop_first() =~= t.skip(i + 1));
        if str_eq(prompts[i].id.as_str(), id) {
            return Some(copy_string(&prompts[i].prompt));
        }
        i = i + 1;
    }
    None
}

/// Decides how a transcription is post-processed: skipped when disabled, or
/// when the provider, its model, the selected prompt or its text is
/// missing; otherwise the template's `${output}` is filled with the
/// transcription, and the device's own model or the provider's API (with
/// its key: from the credential store on Windows, from the settings
/// elsewhere) is used. The device's own model is used only where it is
/// available (`apple_intelligence_available`: an Apple-silicon Mac that
/// reports it ready); elsewhere choosing it skips post-processing.
pub fn plan_post_process(
    llm: &LlmSettings,
    windows: bool,
    apple_intelligence_available: bool,
    transcription: &str,
) -> (r: PostProcessPlan)
    ensures
        match post_process_plan(
            llm.post_process_enabled,
            llm@.providers,
            llm@.post_id,
            llm@.post_models,
            opt_chars(llm.post_process_selected_prompt_id),
            prompts_view(llm.post_process_prompts@),
            transcription@,
        ) {
            None => r is Skip,
            Some((p, model, prompt, template)) => if p.id == crate::settings::apple_intelligence_provider_id() {
                if apple_intelligence_available {
                    r matches PostProcessPlan::AppleIntelligence { prompt: pr, prompt_template: t, model: m }
                        && pr@ == prompt && t@ == template && m@ == model
                } else {
                    r is Skip
                }
            } else {
                r matches PostProcessPlan::Remote { provider: pv, model: m, api_key: k, prompt: pr, prompt_template: t }
                    && pv@ == p && m@ == model && (!windows ==> k@ == get_or_empty(llm@.post_keys, p.id)) && (windows
                    ==> read_of(k@, credential_name_of(KeyType::PostProcess, Some(p.id)))) && pr@ == prompt
                    && t@ == template
            },
        },
{
    if !llm.post_process_enabled {
        return PostProcessPlan::Skip;
    }
    let provider = match llm.active_post_process_provider() {
        Some(p) => p,
        None => return PostProcessPlan::Skip,
    };
    let model = match table_get(&llm.post_process_models, provider.id.as_str()) {
        Some(m) => m,
        None => String::new(),
    };
    proof {
        crate::text::lemma_trim_empty_iff(model@);
    }
    if is_blank(model.as_str()) {
        return PostProcessPlan::Skip;
    }
    let selected = match &llm.post_process_selected_prompt_id {
        Some(id) => id,
        None => return PostProcessPlan::Skip,
    };
    let template = match find_prompt(&llm.post_process_prompts, selected.as_str()) {
        Some(t) => t,
        None => return PostProcessPlan::Skip,
    };
    proof {
        crate::text::lemma_trim_empty_iff(template@);
    }
    if is_blank(template.as_str()) {
        return PostProcessPlan::Skip;
    }
    proof {
        reveal_strlit("${output}");
    }
    let t = chars_of(template.as_str());
    let filled = replace_str(t.as_slice(), "${output}", transcription);
    let prompt = string_of(filled.as_slice());
    if str_eq(provider.id.as_str(), "apple_intelligence") {
        if !apple_intelligence_available {
            return PostProcessPlan::Skip;
        }
        return PostProcessPlan::AppleIntelligence { prompt, prompt_template: template, model };
    }
    let api_key = llm.post_process_key(windows, provider.id.as_str());
    PostProcessPlan::Remote {
        provider: PostProcessProvider {
            id: copy_string(&provider.id),
            label: copy_string(&provider.label),
            base_url: copy_string(&provider.base_url),
            allow_base_url_edit: provider.allow_base_url_edit,
            models_endpoint: crate::text::copy_opt_string(&provider.models_endpoint),
        },
        model,
        api_key,
        prompt,
        prompt_template: template,
    }
}

/// The outcome of post-processing.
#[derive(Debug)]
pub enum PostProcessOutcome {
    /// Nothing was done; the transcription stands.
    Skipped,
    /// The operation was cancelled; the result is dropped.
    Cancelled,
    /// The processed text and the template used.
    Processed { text: String, prompt_template: String },
}

/// The outcome of a provider's reply: a cancel during the request wins;
/// then content is the processed text, and no content or an error skips.
pub fn remote_post_process_outcome(
    reply: Result<Option<String>, String>,
    cancelled: bool,
    prompt_template: String,
) -> (r: PostProcessOutcome)
    ensures
        cancelled ==> r is Cancelled,
        !cancelled ==> match reply {
            Ok(Some(c)) => r matches PostProcessOutcome::Processed { text, prompt_template: t } && text@
                == c@ && t@ == prompt_template@,
            _ => r is Skipped,
        },
{
    if cancelled {
        return PostProcessOutcome::Cancelled;
    }
    match reply {
        Ok(Some(content)) => PostProcessOutcome::Processed { text: content, prompt_template },
        _ => PostProcessOutcome::Skipped,
    }
}

/// The outcome of the device model's reply: a cancel wins; then a non-blank
/// result is the processed text, and a blank one or an error skips.
pub fn local_post_process_outcome(reply: Result<String, String>, cancelled: bool, prompt_template: String) -> (r:
    PostProcessOutcome)
    ensures
        cancelled ==> r is Cancelled,
        !cancelled ==> match reply {
            Ok(c) => if all_ws(c@) {
                r is Skipped
            } else {
                r matches PostProcessOutcome::Processed { text, prompt_template: t } && text@ == c@ && t@
                    == prompt_template@
            },
            Err(_) => r is Skipped,
        },
{
    if cancelled {
        return PostProcessOutcome::Cancelled;
    }
    match reply {
        Ok(result) => {
            if is_blank(result.as_str()) {
                PostProcessOutcome::Skipped
            } else {
                PostProcessOutcome::Processed { text: result, prompt_template }
            }
        },
        Err(_) => PostProcessOutcome::Skipped,
    }
}

/// The text kept after the transcription step, and what the history records
/// with it (processed text and template); `None` when a cancel dropped it.
/// A Chinese script conversion, when one applied, takes the place of
/// post-processing.
pub fn final_transcription(
    transcription: String,
    converted: Option<String>,
    outcome: PostProcessOutcome,
) -> (r: Option<(String, Option<String>, Option<String>)>)
    ensures
        converted is Some ==> r is Some && (r->0).0@ == converted->0@ && opt_chars((r->0).1) == Some(
            converted->0@,
        ) && (r->0).2 is None,
        converted is None ==> match outcome {
            PostProcessOutcome::Skipped => r is Some && (r->0).0@ == transcription@ && (r->0).1 is None
                && (r->0).2 is None,
            PostProcessOutcome::Cancelled => r is None,
            PostProcessOutcome::Processed { text, prompt_template } => r is Some && (r->0).0@ == text@
                && opt_chars((r->0).1) == Some(text@) && opt_chars((r->0).2) == Some(prompt_template@),
        },
{
    match converted {
        Some(c) => {
            let copy = copy_string(&c);
            Some((c, Some(copy), None))
        },
        None => match outcome {
            PostProcessOutcome::Skipped => Some((transcription, None, None)),
            PostProcessOutcome::Cancelled => None,
            PostProcessOutcome::Processed { text, prompt_template } => {
                let copy = copy_string(&text);
                Some((text, Some(copy), Some(prompt_template)))
            },
        },
    }
}

/// The AI Replace prompts.
pub struct AiReplacePrompts {
    pub ai_replace_system_prompt: String,
    pub ai_replace_user_prompt: String,
    pub ai_replace_allow_no_selection: bool,
    pub ai_replace_no_selection_system_prompt: String,
    pub ai_replace_allow_quick_tap: bool,
    pub ai_replace_quick_tap_system_prompt: String,
}

/// The longest selection an AI Replace takes by default, in characters.
pub const DEFAULT_AI_REPLACE_MAX_CHARS: usize = 20000;

/// The default quick-tap threshold of AI Replace, in milliseconds: a
/// recording shorter than this skips transcription.
pub const DEFAULT_AI_REPLACE_QUICK_TAP_THRESHOLD_MS: u32 = 800;

/// The default quick-tap threshold of a send with selection and of a
/// screenshot send, in milliseconds.
pub const DEFAULT_QUICK_TAP_THRESHOLD_MS: u32 = 500;

/// The default AI Replace system prompt.
pub open spec fn default_ai_system_prompt() -> Seq<char> {
    "You are a text transformation engine.\nReturn ONLY the final transformed text that is ready to be pasted directly into another application.\nDo not include explanations, commentary, labels, headings, lists, markdown, code fences, or any surrounding quotes.\nPreserve the original language and keep the original formatting (line breaks, punctuation, and spacing) unless the instruction explicitly asks to change it.\nMake the smallest change that satisfies the instruction.\nIf the instruction conflicts with the text or is unclear, prefer minimal edits and do not invent new facts."@
}

/// The default user prompt template of AI Replace and of a send with
/// selection.
pub open spec fn default_ai_user_prompt() -> Seq<char> {
    "INSTRUCTION:\n${instruction}\n\nTEXT:\n${output}"@
}

/// The default system prompt without a selection.
pub open spec fn default_no_selection_prompt() -> Seq<char> {
    "You are a helpful assistant.\nAnswer the user's instruction directly and concisely.\nDo not include any preamble (like 'Here is the answer') or postscript.\nJust provide the content requested."@
}

/// The default system prompt of a quick tap.
pub open spec fn default_quick_tap_prompt() -> Seq<char> {
    "You are a text improvement engine.\nImprove the provided text while preserving its original meaning and intent.\nFix any grammar, spelling, or punctuation errors.\nEnhance clarity and readability where possible.\nReturn ONLY the improved text without any explanations or commentary.\nPreserve the original language and formatting unless fixing errors requires changes."@
}

impl Default for AiReplacePrompts {
    /// The prompts the settings start with; working without a selection
    /// and quick taps are allowed.
    fn default() -> (r: Self)
        ensures
            r.ai_replace_system_prompt@ == default_ai_system_prompt(),
            r.ai_replace_user_prompt@ == default_ai_user_prompt(),
            r.ai_replace_allow_no_selection,
            r.ai_replace_no_selection_system_prompt@ == default_no_selection_prompt(),
            r.ai_replace_allow_quick_tap,
            r.ai_replace_quick_tap_system_prompt@ == default_quick_tap_prompt(),
    {
        AiReplacePrompts {
            ai_replace_system_prompt: str_to_string("You are a text transformation engine.\nReturn ONLY the final transformed text that is ready to be pasted directly into another application.\nDo not include explanations, commentary, labels, headings, lists, markdown, code fences, or any surrounding quotes.\nPreserve the original language and keep the original formatting (line breaks, punctuation, and spacing) unless the instruction explicitly asks to change it.\nMake the smallest change that satisfies the instruction.\nIf the instruction conflicts with the text or is unclear, prefer minimal edits and do not invent new facts."),
            ai_replace_user_prompt: str_to_string("INSTRUCTION:\n${instruction}\n\nTEXT:\n${output}"),
            ai_replace_allow_no_selection: true,
            ai_replace_no_selection_system_prompt: str_to_string("You are a helpful assistant.\nAnswer the user's instruction directly and concisely.\nDo not include any preamble (like 'Here is the answer') or postscript.\nJust provide the content requested."),
            ai_replace_allow_quick_tap: true,
            ai_replace_quick_tap_system_prompt: str_to_string("You are a text improvement engine.\nImprove the provided text while preserving its original meaning and intent.\nFix any grammar, spelling, or punctuation errors.\nEnhance clarity and readability where possible.\nReturn ONLY the improved text without any explanations or commentary.\nPreserve the original language and formatting unless fixing errors requires changes."),
        }
    }
}

impl Default for ExtensionMessageSettings {
    /// The settings of a send with selection at start: sending without
    /// voice allowed, no system prompts, the AI Replace user template.
    fn default() -> (r: Self)
        ensures
            r.send_to_extension_with_selection_allow_no_voice,
            r.send_to_extension_with_selection_no_voice_system_prompt@ == Seq::<char>::empty(),
            r.send_to_extension_with_selection_user_prompt@ == default_ai_user_prompt(),
            r.send_to_extension_with_selection_system_prompt@ == Seq::<char>::empty(),
    {
        ExtensionMessageSettings {
            send_to_extension_with_selection_allow_no_voice: true,
            send_to_extension_with_selection_no_voice_system_prompt: String::new(),
            send_to_extension_with_selection_user_prompt: str_to_string("INSTRUCTION:\n${instruction}\n\nTEXT:\n${output}"),
            send_to_extension_with_selection_system_prompt: String::new(),
        }
    }
}

/// An AI Replace request.
#[derive(Debug)]
pub struct AiReplaceRequest {
    pub provider: PostProcessProvider,
    pub model: String,
    pub api_key: String,
    pub system_prompt: String,
    pub user_prompt: String,
}

/// The system prompt of an AI Replace request: the quick-tap prompt with no
/// instruction (when allowed), the no-selection prompt with no selection
/// (when allowed), the regular one otherwise.
pub open spec fn ai_system_prompt(p: &AiReplacePrompts, selected: Seq<char>, instruction: Seq<char>) -> Seq<char> {
    if all_ws(instruction) && p.ai_replace_allow_quick_tap {
        p.ai_replace_quick_tap_system_prompt@
    } else if all_ws(selected) && p.ai_replace_allow_no_selection {
        p.ai_replace_no_selection_system_prompt@
    } else {
        p.ai_replace_system_prompt@
    }
}

/// The user prompt: the template with `${output}` and then `${instruction}`
/// filled in.
pub open spec fn ai_user_prompt(template: Seq<char>, selected: Seq<char>, instruction: Seq<char>) -> Seq<char> {
    replace_all(replace_all(template, "${output}"@, selected), "${instruction}"@, instruction)
}

/// The refusal for a provider without a model.
pub open spec fn no_model_message(label: Seq<char>) -> Seq<char> {
    "No model configured for provider '"@ + label + "'"@
}

/// Plans an AI Replace request: the provider, its model (required), its key
/// (from the credential store on Windows, from the settings elsewhere), the
/// system prompt for the situation and the filled user template (required).
pub fn plan_ai_replace(
    llm: &LlmSettings,
    windows: bool,
    prompts: &AiReplacePrompts,
    selected_text: &str,
    instruction: &str,
) -> (r: Result<AiReplaceRequest, String>)
    ensures
        match crate::llm_settings::feature_provider(llm@.providers, llm@.ai_id, llm@.post_id) {
            None => r is Err && r->Err_0@ == "No LLM provider configured"@,
            Some(p) => {
                let model = crate::llm_settings::ai_replace_value(llm@.ai_id, llm@.ai_models, llm@.post_models, p.id);
                if all_ws(model) {
                    r is Err && r->Err_0@ == no_model_message(p.label)
                } else if all_ws(prompts.ai_replace_user_prompt@) {
                    r is Err && r->Err_0@ == "AI replace prompt template is empty"@
                } else {
                    r is Ok && r->Ok_0.provider@ == p && r->Ok_0.model@ == model && (!windows ==> r->Ok_0.api_key@
                        == crate::llm_settings::ai_replace_value(llm@.ai_id, llm@.ai_keys, llm@.post_keys, p.id))
                        && (windows ==> stored_ai_replace_key(r->Ok_0.api_key@, llm@.ai_id, p.id))
                        && r->Ok_0.system_prompt@ == ai_system_prompt(prompts, selected_text@, instruction@)
                        && r->Ok_0.user_prompt@ == ai_user_prompt(
                        prompts.ai_replace_user_prompt@,
                        selected_text@,
                        instruction@,
                    )
                }
            },
        },
{
    let provider = match llm.active_ai_replace_provider() {
        Some(p) => p,
        None => return Err(str_to_string("No LLM provider configured")),
    };
    let model = llm.ai_replace_model(provider.id.as_str());
    if is_blank(model.as_str()) {
        let mut v = chars_of("No model configured for provider '");
        push_str(&mut v, provider.label.as_str());
        push_str(&mut v, "'");
        return Err(string_of(v.as_slice()));
    }
    let system_prompt = if is_blank(instruction) && prompts.ai_replace_allow_quick_tap {
        copy_string(&prompts.ai_replace_quick_tap_system_prompt)
    } else if is_blank(selected_text) && prompts.ai_replace_allow_no_selection {
        copy_string(&prompts.ai_replace_no_selection_system_prompt)
    } else {
        copy_string(&prompts.ai_replace_system_prompt)
    };
    if is_blank(prompts.ai_replace_user_prompt.as_str()) {
        return Err(str_to_string("AI replace prompt template is empty"));
    }
    proof {
        reveal_strlit("${output}");
        reveal_strlit("${instruction}");
    }
    let t = chars_of(prompts.ai_replace_user_prompt.as_str());
    let step = replace_str(t.as_slice(), "${output}", selected_text);
    let done = replace_str(step.as_slice(), "${instruction}", instruction);
    let api_key = llm.ai_replace_key(windows, provider.id.as_str());
    Ok(
        AiReplaceRequest {
            provider: PostProcessProvider {
                id: copy_string(&provider.id),
                label: copy_string(&provider.label),
                base_url: copy_string(&provider.base_url),
                allow_base_url_edit: provider.allow_base_url_edit,
                models_endpoint: crate::text::copy_opt_string(&provider.models_endpoint),
            },
            model,
            api_key,
            system_prompt,
            user_prompt: string_of(done.as_slice()),
        },
    )
}

/// The result of an AI Replace reply.
pub fn ai_replace_reply(reply: Result<Option<String>, String>) -> (r: Result<String, String>)
    ensures
        match reply {
            Ok(Some(c)) => r is Ok && r->Ok_0@ == c@,
            Ok(None) => r is Err && r->Err_0@ == "LLM API response has no content"@,
            Err(e) => r is Err && r->Err_0@ == "LLM request failed: "@ + e@,
        },
{
    match reply {
        Ok(Some(c)) => Ok(c),
        Ok(None) => Err(str_to_string("LLM API response has no content")),
        Err(e) => {
            let mut v = chars_of("LLM request failed: ");
            push_str(&mut v, e.as_str());
            Err(string_of(v.as_slice()))
        },
    }
}

#[verifier::external_type_specification]
#[verifier::external_body]
pub struct ExOpenCC(ferrous_opencc::OpenCC);

/// Whether the built-in OpenCC configuration loads: Taiwan-traditional to
/// simplified (with phrases) when `to_simplified`, simplified to
/// Taiwan-traditional (with phrases) otherwise.
pub uninterp spec fn opencc_loads(to_simplified: bool) -> bool;

/// What that configuration converts `text` to.
pub uninterp spec fn opencc_converted(to_simplified: bool, text: Seq<char>) -> Seq<char>;

/// Calls `OpenCC::from_config` with `Tw2sp` or `S2twp`; whether it loads is
/// named `opencc_loads`.
#[verifier::external_body]
fn load_opencc(to_simplified: bool) -> (r: Option<ferrous_opencc::OpenCC>)
    ensures
        r is Some == opencc_loads(to_simplified),
{
    let config = if to_simplified {
        ferrous_opencc::config::BuiltinConfig::Tw2sp
    } else {
        ferrous_opencc::config::BuiltinConfig::S2twp
    };
    ferrous_opencc::OpenCC::from_config(config).ok()
}

/// A loaded Chinese script converter and its direction.
pub struct ChineseConverter {
    inner: ferrous_opencc::OpenCC,
    to_simplified: bool,
}

impl ChineseConverter {
    /// Whether it converts to simplified script.
    pub closed spec fn simplifies(&self) -> bool {
        self.to_simplified
    }

    /// Loads the converter for a direction.
    pub fn new(to_simplified: bool) -> (r: Option<Self>)
        ensures
            r is Some == opencc_loads(to_simplified),
            r matches Some(c) ==> c.simplifies() == to_simplified,
    {
        match load_opencc(to_simplified) {
            Some(inner) => Some(ChineseConverter { inner, to_simplified }),
            None => None,
        }
    }
}

/// Calls `OpenCC::convert`; the result is named `opencc_converted`.
#[verifier::external_body]
fn opencc_convert(c: &ChineseConverter, text: &str) -> (r: String)
    ensures
        r@ == opencc_converted(c.simplifies(), text@),
{
    c.inner.convert(text)
}

/// The Chinese script conversion for the selected language: to simplified
/// for `zh-Hans`, to traditional for `zh-Hant`, none otherwise; `None` also
/// when the converter does not load.
pub open spec fn chinese_conversion(language: Seq<char>, text: Seq<char>) -> Option<Seq<char>> {
    if language == "zh-Hans"@ || language == "zh-Hant"@ {
        let simplified = language == "zh-Hans"@;
        if opencc_loads(simplified) {
            Some(opencc_converted(simplified, text))
        } else {
            None
        }
    } else {
        None
    }
}

/// Converts a transcription to the script of the selected Chinese variant.
pub fn maybe_convert_chinese_variant(selected_language: &str, transcription: &str) -> (r: Option<String>)
    ensures
        opt_chars(r) == chinese_conversion(selected_language@, transcription@),
{
    let is_simplified = str_eq(selected_language, "zh-Hans");
    let is_traditional = str_eq(selected_language, "zh-Hant");
    if !is_simplified && !is_traditional {
        return None;
    }
    match ChineseConverter::new(is_simplified) {
        Some(c) => Some(opencc_convert(&c, transcription)),
        None => None,
    }
}

/// The latest history entry, as far as a repaste reads it.
#[derive(Debug)]
pub struct RepasteEntry {
    /// The action that made the entry (`ai_replace`, `transcribe`, ...).
    pub action_type: String,
    /// The AI Replace answer, if one came.
    pub ai_response: Option<String>,
    /// The post-processed text, if any.
    pub post_processed_text: Option<String>,
    /// The raw transcription.
    pub transcription_text: String,
}

/// What a repaste pastes from the history's answer: for an AI Replace
/// entry its answer, for another its post-processed text or else its
/// transcription; a blank text, a missing entry or a failed read are
/// reported instead.
pub open spec fn repaste_result(latest: Result<Option<RepasteEntry>, String>) -> Result<Seq<char>, Seq<char>> {
    match latest {
        Err(_) => Err("Failed to retrieve history."@),
        Ok(None) => Err("No history entries available."@),
        Ok(Some(e)) => {
            let text = if e.action_type@ == "ai_replace"@ {
                match e.ai_response {
                    Some(r) => Ok(r@),
                    None => Err("AI response was never received for this entry."@),
                }
            } else {
                match e.post_processed_text {
                    Some(p) => Ok(p@),
                    None => Ok(e.transcription_text@),
                }
            };
            match text {
                Err(m) => Err(m),
                Ok(t) => if trim(t).len() == 0 {
                    Err("No text available to repaste."@)
                } else {
                    Ok(t)
                },
            }
        },
    }
}

/// Picks the text to paste again from the history's answer.
pub fn repaste_text(latest: Result<Option<RepasteEntry>, String>) -> (r: Result<String, String>)
    ensures
        match repaste_result(latest) {
            Ok(t) => r is Ok && r->Ok_0@ == t,
            Err(m) => r is Err && r->Err_0@ == m,
        },
{
    let entry = match latest {
        Err(_) => return Err(str_to_string("Failed to retrieve history.")),
        Ok(None) => return Err(str_to_string("No history entries available.")),
        Ok(Some(e)) => e,
    };
    let text = if str_eq(entry.action_type.as_str(), "ai_replace") {
        match entry.ai_response {
            Some(r) => r,
            None => return Err(str_to_string("AI response was never received for this entry.")),
        }
    } else {
        match entry.post_processed_text {
            Some(p) => p,
            None => entry.transcription_text,
        }
    };
    if is_blank(text.as_str()) {
        return Err(str_to_string("No text available to repaste."));
    }
    Ok(text)
}

/// The selected text an AI Replace works on, or why it stops: a blank
/// instruction needs quick taps allowed; a selection that could not be
/// captured counts as empty when working without a selection is allowed,
/// and stops the action otherwise (as does a selection whose text is the
/// capture-failure marker itself); a selection longer than `max_chars`
/// characters is refused.
pub open spec fn ai_replace_input(
    instruction: Seq<char>,
    captured: Result<Seq<char>, Seq<char>>,
    allow_quick_tap: bool,
    allow_no_selection: bool,
    max_chars: nat,
) -> Result<Seq<char>, Seq<char>> {
    if all_ws(instruction) && !allow_quick_tap {
        Err("No instruction captured."@)
    } else {
        let selected = match captured {
            Ok(s) => s,
            Err(_) => if allow_no_selection {
                Seq::empty()
            } else {
                "ERROR_NO_SELECTION"@
            },
        };
        if selected == "ERROR_NO_SELECTION"@ {
            Err("Could not capture selection."@)
        } else if selected.len() > max_chars {
            Err(selection_too_long_message(selected.len(), max_chars))
        } else {
            Ok(selected)
        }
    }
}

/// The refusal of a selection over the character limit.
pub open spec fn selection_too_long_message(len: nat, max_chars: nat) -> Seq<char> {
    "Selected text is too long ("@ + dec_digits(len) + " characters). The limit is "@ + dec_digits(max_chars)
        + " characters."@
}

/// Model of a captured selection.
pub open spec fn captured_view(c: Result<String, String>) -> Result<Seq<char>, Seq<char>> {
    match c {
        Ok(s) => Ok(s@),
        Err(e) => Err(e@),
    }
}

/// The check on the instruction alone, made before the selection is
/// captured: a blank instruction needs quick taps allowed.
pub fn ai_replace_instruction_check(instruction: &str, allow_quick_tap: bool) -> (r: Result<(), String>)
    ensures
        all_ws(instruction@) && !allow_quick_tap ==> r is Err && r->Err_0@ == "No instruction captured."@,
        !(all_ws(instruction@) && !allow_quick_tap) ==> r is Ok,
{
    if is_blank(instruction) && !allow_quick_tap {
        Err(str_to_string("No instruction captured."))
    } else {
        Ok(())
    }
}

/// Decides what an AI Replace works on once the instruction is transcribed
/// and the selection captured, with the selection limit `max_chars`
/// (`DEFAULT_AI_REPLACE_MAX_CHARS` unless set).
pub fn ai_replace_selection(
    instruction: &str,
    captured: Result<String, String>,
    allow_quick_tap: bool,
    allow_no_selection: bool,
    max_chars: usize,
) -> (r: Result<String, String>)
    ensures
        match ai_replace_input(
            instruction@,
            captured_view(captured),
            allow_quick_tap,
            allow_no_selection,
            max_chars as nat,
        ) {
            Ok(s) => r is Ok && r->Ok_0@ == s,
            Err(m) => r is Err && r->Err_0@ == m,
        },
{
    if is_blank(instruction) && !allow_quick_tap {
        return Err(str_to_string("No instruction captured."));
    }
    let selected = match captured {
        Ok(s) => s,
        Err(_) => if allow_no_selection {
            String::new()
        } else {
            str_to_string("ERROR_NO_SELECTION")
        },
    };
    if str_eq(selected.as_str(), "ERROR_NO_SELECTION") {
        return Err(str_to_string("Could not capture selection."));
    }
    let n = chars_of(selected.as_str()).len();
    if n > max_chars {
        let mut m = chars_of("Selected text is too long (");
        push_all(&mut m, dec_u128(n as u128).as_slice());
        push_str(&mut m, " characters). The limit is ");
        push_all(&mut m, dec_u128(max_chars as u128).as_slice());
        push_str(&mut m, " characters.");
        return Err(string_of(m.as_slice()));
    }
    Ok(selected)
}

/// How an AI Replace ends.
#[derive(Debug)]
pub enum AiReplaceEnd {
    /// Cancelled meanwhile: nothing more happens.
    Discard,
    /// Paste the answer; the history records it.
    Paste(String),
    /// Report the failure; the history records that no answer came.
    Fail(String),
}

/// The end of an AI Replace once the LLM answered: a cancelled operation
/// is dropped, an answer pasted, a failure reported as such.
pub fn ai_replace_end(answer: Result<String, String>, cancelled: bool) -> (r: AiReplaceEnd)
    ensures
        cancelled ==> r is Discard,
        !cancelled ==> match answer {
            Ok(t) => r matches AiReplaceEnd::Paste(p) && p@ == t@,
            Err(_) => r matches AiReplaceEnd::Fail(m) && m@ == "AI replace failed."@,
        },
{
    if cancelled {
        return AiReplaceEnd::Discard;
    }
    match answer {
        Ok(t) => AiReplaceEnd::Paste(t),
        Err(_) => AiReplaceEnd::Fail(str_to_string("AI replace failed.")),
    }
}

/// What a send with selection does with the transcribed voice.
#[derive(Debug, Clone, Copy, PartialEq, Eq, Structural)]
pub enum VoiceStep {
    /// Stop: nothing was said and sending without voice is not allowed.
    Abort,
    /// Go on with an empty instruction, without post-processing.
    NoVoice,
    /// Post-process the instruction first.
    PostProcess,
}

/// The step after transcribing a send with selection.
pub fn selection_voice_step(transcription: &str, allow_no_voice: bool) -> (r: VoiceStep)
    ensures
        r == if all_ws(transcription@) {
            if allow_no_voice {
                VoiceStep::NoVoice
            } else {
                VoiceStep::Abort
            }
        } else {
            VoiceStep::PostProcess
        },
{
    if is_blank(transcription) {
        if allow_no_voice {
            VoiceStep::NoVoice
        } else {
            VoiceStep::Abort
        }
    } else {
        VoiceStep::PostProcess
    }
}

/// What a voice command does next.
#[derive(Debug)]
pub enum VoiceCommandStep {
    /// Report this error.
    Error(String),
    /// Ask the user to confirm this command.
    Confirm(CommandConfirmPayload),
    /// Ask the LLM for a command.
    AskLlm,
}

/// Model of a step: the error, the confirmation (command, spoken text, from
/// the LLM), or the LLM question.
pub open spec fn voice_step_view(s: VoiceCommandStep) -> (Option<Seq<char>>, Option<(Seq<char>, Seq<char>, bool)>) {
    match s {
        VoiceCommandStep::Error(m) => (Some(m@), None),
        VoiceCommandStep::Confirm(p) => (None, Some((p.command@, p.spoken_text@, p.from_llm))),
        VoiceCommandStep::AskLlm => (None, None),
    }
}

/// The step of a voice command once it is transcribed and matched against
/// the predefined commands (`matched_script` is the best match's script): a
/// blank transcription is no command; a match is confirmed; without one the
/// LLM is asked when its fallback is on, and nothing matched otherwise.
pub fn voice_command_step(transcription: &str, matched_script: Option<String>, llm_fallback: bool) -> (r:
    VoiceCommandStep)
    ensures
        voice_step_view(r) == if all_ws(transcription@) {
            (Some("No command detected"@), None)
        } else {
            match matched_script {
                Some(script) => (None, Some((script@, transcription@, false))),
                None => if llm_fallback {
                    (None, None)
                } else {
                    (Some("No matching command found for: '"@ + transcription@ + "'"@), None)
                },
            }
        },
{
    if is_blank(transcription) {
        return VoiceCommandStep::Error(str_to_string("No command detected"));
    }
    match matched_script {
        Some(script) => VoiceCommandStep::Confirm(
            CommandConfirmPayload { command: script, spoken_text: str_to_string(transcription), from_llm: false },
        ),
        None => if llm_fallback {
            VoiceCommandStep::AskLlm
        } else {
            let mut v = chars_of("No matching command found for: '");
            push_str(&mut v, transcription);
            push_str(&mut v, "'");
            VoiceCommandStep::Error(string_of(v.as_slice()))
        },
    }
}

/// The step after the LLM answered: its command is confirmed like a match
/// (marked as coming from the LLM), a failure is reported.
pub fn voice_command_llm_step(transcription: &str, generated: Result<String, String>) -> (r: VoiceCommandStep)
    ensures
        voice_step_view(r) == match generated {
            Ok(c) => (None, Some((c@, transcription@, true))),
            Err(e) => (Some("Failed to generate command: "@ + e@), None),
        },
{
    match generated {
        Ok(c) => VoiceCommandStep::Confirm(
            CommandConfirmPayload { command: c, spoken_text: str_to_string(transcription), from_llm: true },
        ),
        Err(e) => {
            let mut v = chars_of("Failed to generate command: ");
            push_str(&mut v, e.as_str());
            VoiceCommandStep::Error(string_of(v.as_slice()))
        },
    }
}

} // verus!
