//! Which LLM provider, key and model each feature uses, with the fallbacks
//! to the post-processing configuration, and the provider defaults.
//! Keys here are the ones kept in the settings (the platforms without a
//! credential store).
use vstd::prelude::*;
use crate::settings::{
    assoc_get, opt_chars, table_get, table_view, LLMPrompt, LlmConfig, LlmFeature, PostProcessProvider,
};
use crate::profiles::{provider_not_found, validate_provider_exists};
use crate::secure_keys::{credential_name_of, get_ai_replace_api_key, get_post_process_api_key, read_of, KeyType};
use crate::settings::{assoc_put, lemma_assoc_put_get, table_put};
use crate::text::{chars_of, copy_opt_string, copy_string, is_empty_str, push_str, str_eq, str_to_string, string_of};

verus! {

/// Model of a provider.
pub struct ProviderView {
    pub id: Seq<char>,
    pub label: Seq<char>,
    pub base_url: Seq<char>,
    pub allow_base_url_edit: bool,
    pub models_endpoint: Option<Seq<char>>,
}

impl View for PostProcessProvider {
    type V = ProviderView;

    open spec fn view(&self) -> ProviderView {
        ProviderView {
            id: self.id@,
            label: self.label@,
            base_url: self.base_url@,
            allow_base_url_edit: self.allow_base_url_edit,
            models_endpoint: opt_chars(self.models_endpoint),
        }
    }
}

/// Model of a provider list.
pub open spec fn providers_view(v: Seq<PostProcessProvider>) -> Seq<ProviderView> {
    v.map_values(|p: PostProcessProvider| p@)
}

/// The first provider of `ps` with id `id`.
pub open spec fn find_provider(ps: Seq<ProviderView>, id: Seq<char>) -> Option<ProviderView>
    decreases ps.len(),
{
    if ps.len() == 0 {
        None
    } else if ps[0].id == id {
        Some(ps[0])
    } else {
        find_provider(ps.drop_first(), id)
    }
}

/// The LLM-related settings.
pub struct LlmSettings {
    pub post_process_enabled: bool,
    pub post_process_provider_id: String,
    pub post_process_providers: Vec<PostProcessProvider>,
    /// Provider id to API key.
    pub post_process_api_keys: Vec<(String, String)>,
    /// Provider id to model.
    pub post_process_models: Vec<(String, String)>,
    pub post_process_prompts: Vec<LLMPrompt>,
    pub post_process_selected_prompt_id: Option<String>,
    pub ai_replace_provider_id: Option<String>,
    pub ai_replace_api_keys: Vec<(String, String)>,
    pub ai_replace_models: Vec<(String, String)>,
    pub voice_command_provider_id: Option<String>,
    pub voice_command_api_keys: Vec<(String, String)>,
    pub voice_command_models: Vec<(String, String)>,
}

/// `k` is the AI Replace key of a provider as read from the credential
/// store: the post-processing credential's unless the provider is the AI
/// Replace provider; for that one its own credential's key when non-empty,
/// else the post-processing credential's.
pub open spec fn stored_ai_replace_key(k: Seq<char>, ai_provider_id: Option<Seq<char>>, provider_id: Seq<char>) -> bool {
    if ai_provider_id != Some(provider_id) {
        read_of(k, credential_name_of(KeyType::PostProcess, Some(provider_id)))
    } else {
        exists|own: Seq<char>|
            #[trigger] read_of(own, credential_name_of(KeyType::AiReplace, Some(provider_id))) && (own.len() > 0 ==> k
                == own) && (own.len() == 0 ==> read_of(k, credential_name_of(KeyType::PostProcess, Some(provider_id))))
    }
}

/// The value under `key`, or the empty string.
pub open spec fn get_or_empty(t: Seq<(Seq<char>, Seq<char>)>, key: Seq<char>) -> Seq<char> {
    match assoc_get(t, key) {
        Some(v) => v,
        None => Seq::empty(),
    }
}

/// The value under `key` if set and non-empty, else the fallback table's
/// value, else the empty string.
pub open spec fn get_with_fallback(
    t: Seq<(Seq<char>, Seq<char>)>,
    fallback: Seq<(Seq<char>, Seq<char>)>,
    key: Seq<char>,
) -> Seq<char> {
    match assoc_get(t, key) {
        Some(v) => if v.len() > 0 {
            v
        } else {
            get_or_empty(fallback, key)
        },
        None => get_or_empty(fallback, key),
    }
}

/// The feature's provider id decides when set; otherwise the
/// post-processing provider.
pub open spec fn feature_provider(
    ps: Seq<ProviderView>,
    feature_id: Option<Seq<char>>,
    post_id: Seq<char>,
) -> Option<ProviderView> {
    match feature_id {
        Some(id) => find_provider(ps, id),
        None => find_provider(ps, post_id),
    }
}

/// The value of a string table entry, or the empty string.
fn table_get_or_empty(t: &Vec<(String, String)>, key: &str) -> (r: String)
    ensures
        r@ == get_or_empty(table_view(t@), key@),
{
    match table_get(t, key) {
        Some(v) => v,
        None => String::new(),
    }
}

fn table_get_with_fallback(t: &Vec<(String, String)>, fallback: &Vec<(String, String)>, key: &str) -> (r:
    String)
    ensures
        r@ == get_with_fallback(table_view(t@), table_view(fallback@), key@),
{
    match table_get(t, key) {
        Some(v) => {
            let c = chars_of(v.as_str());
            if c.len() > 0 {
                v
            } else {
                table_get_or_empty(fallback, key)
            }
        },
        None => table_get_or_empty(fallback, key),
    }
}

/// The model and key a feature uses with the AI Replace fallbacks: the
/// feature's own value applies only when its provider is the one
/// configured for it, and only when non-empty.
pub open spec fn ai_replace_value(
    ai_provider_id: Option<Seq<char>>,
    own: Seq<(Seq<char>, Seq<char>)>,
    post: Seq<(Seq<char>, Seq<char>)>,
    provider_id: Seq<char>,
) -> Seq<char> {
    if ai_provider_id != Some(provider_id) {
        get_or_empty(post, provider_id)
    } else {
        get_with_fallback(own, post, provider_id)
    }
}

/// Model of a resolved configuration.
pub struct LlmConfigView {
    pub provider_id: Seq<char>,
    pub api_key: Seq<char>,
    pub model: Seq<char>,
    pub base_url: Seq<char>,
}

impl View for LlmConfig {
    type V = LlmConfigView;

    open spec fn view(&self) -> LlmConfigView {
        LlmConfigView {
            provider_id: self.provider_id@,
            api_key: self.api_key@,
            model: self.model@,
            base_url: self.base_url@,
        }
    }
}

/// Model of the LLM settings.
pub struct LlmSettingsView {
    pub providers: Seq<ProviderView>,
    pub post_id: Seq<char>,
    pub post_keys: Seq<(Seq<char>, Seq<char>)>,
    pub post_models: Seq<(Seq<char>, Seq<char>)>,
    pub ai_id: Option<Seq<char>>,
    pub ai_keys: Seq<(Seq<char>, Seq<char>)>,
    pub ai_models: Seq<(Seq<char>, Seq<char>)>,
    pub voice_id: Option<Seq<char>>,
    pub voice_keys: Seq<(Seq<char>, Seq<char>)>,
    pub voice_models: Seq<(Seq<char>, Seq<char>)>,
}

impl View for LlmSettings {
    type V = LlmSettingsView;

    open spec fn view(&self) -> LlmSettingsView {
        LlmSettingsView {
            providers: providers_view(self.post_process_providers@),
            post_id: self.post_process_provider_id@,
            post_keys: table_view(self.post_process_api_keys@),
            post_models: table_view(self.post_process_models@),
            ai_id: opt_chars(self.ai_replace_provider_id),
            ai_keys: table_view(self.ai_replace_api_keys@),
            ai_models: table_view(self.ai_replace_models@),
            voice_id: opt_chars(self.voice_command_provider_id),
            voice_keys: table_view(self.voice_command_api_keys@),
            voice_models: table_view(self.voice_command_models@),
        }
    }
}

/// A configuration for a provider.
pub open spec fn config_of(p: ProviderView, api_key: Seq<char>, model: Seq<char>) -> LlmConfigView {
    LlmConfigView { provider_id: p.id, api_key, model, base_url: p.base_url }
}

/// The configuration a feature resolves to, if its provider exists.
pub open spec fn spec_llm_config(s: LlmSettingsView, feature: LlmFeature) -> Option<LlmConfigView> {
    match feature {
        LlmFeature::PostProcessing => match find_provider(s.providers, s.post_id) {
            Some(p) => Some(config_of(p, get_or_empty(s.post_keys, p.id), get_or_empty(s.post_models, p.id))),
            None => None,
        },
        LlmFeature::AiReplace => match feature_provider(s.providers, s.ai_id, s.post_id) {
            Some(p) => Some(
                config_of(
                    p,
                    ai_replace_value(s.ai_id, s.ai_keys, s.post_keys, p.id),
                    ai_replace_value(s.ai_id, s.ai_models, s.post_models, p.id),
                ),
            ),
            None => None,
        },
        LlmFeature::VoiceCommand => match feature_provider(s.providers, s.voice_id, s.post_id) {
            Some(p) => Some(
                config_of(
                    p,
                    get_with_fallback(s.voice_keys, s.post_keys, p.id),
                    get_with_fallback(s.voice_models, s.post_models, p.id),
                ),
            ),
            None => None,
        },
    }
}

fn copy_provider(p: &PostProcessProvider) -> (r: PostProcessProvider)
    ensures
        r@ == p@,
{
    PostProcessProvider {
        id: copy_string(&p.id),
        label: copy_string(&p.label),
        base_url: copy_string(&p.base_url),
        allow_base_url_edit: p.allow_base_url_edit,
        models_endpoint: copy_opt_string(&p.models_endpoint),
    }
}

/// Whether `o` holds exactly `s`.
fn opt_is(o: &Option<String>, s: &str) -> (r: bool)
    ensures
        r == (opt_chars(*o) == Some(s@)),
{
    match o {
        Some(x) => str_eq(x.as_str(), s),
        None => false,
    }
}

impl LlmSettings {
    /// The provider with id `provider_id`.
    pub fn post_process_provider(&self, provider_id: &str) -> (r: Option<&PostProcessProvider>)
        ensures
            match r {
                Some(p) => find_provider(self@.providers, provider_id@) == Some(p@),
                None => find_provider(self@.providers, provider_id@) is None,
            },
    {
        let ghost ps = self@.providers;
        let mut i: usize = 0;
        assert(ps.skip(0) =~= ps);
        while i < self.post_process_providers.len()
            invariant
                0 <= i <= self.post_process_providers.len(),
                ps == providers_view(self.post_process_providers@),
                find_provider(ps, provider_id@) == find_provider(ps.skip(i as int), provider_id@),
            decreases self.post_process_providers.len() - i,
        {
            assert(ps.skip(i as int)[0] == ps[i as int]);
            assert(ps.skip(i as int).drop_first() =~= ps.skip(i + 1));
            if str_eq(self.post_process_providers[i].id.as_str(), provider_id) {
                return Some(&self.post_process_providers[i]);
            }
            i = i + 1;
        }
        None
    }

    /// The selected post-processing provider.
    pub fn active_post_process_provider(&self) -> (r: Option<&PostProcessProvider>)
        ensures
            match r {
                Some(p) => find_provider(self@.providers, self@.post_id) == Some(p@),
                None => find_provider(self@.providers, self@.post_id) is None,
            },
    {
        self.post_process_provider(self.post_process_provider_id.as_str())
    }

    /// The Voice Command provider: its own when set, else the
    /// post-processing one.
    pub fn active_voice_command_provider(&self) -> (r: Option<&PostProcessProvider>)
        ensures
            match r {
                Some(p) => feature_provider(self@.providers, self@.voice_id, self@.post_id) == Some(p@),
                None => feature_provider(self@.providers, self@.voice_id, self@.post_id) is None,
            },
    {
        match &self.voice_command_provider_id {
            Some(id) => self.post_process_provider(id.as_str()),
            None => self.active_post_process_provider(),
        }
    }

    /// The AI Replace provider: its own when set, else the post-processing
    /// one.
    pub fn active_ai_replace_provider(&self) -> (r: Option<&PostProcessProvider>)
        ensures
            match r {
                Some(p) => feature_provider(self@.providers, self@.ai_id, self@.post_id) == Some(p@),
                None => feature_provider(self@.providers, self@.ai_id, self@.post_id) is None,
            },
    {
        match &self.ai_replace_provider_id {
            Some(id) => self.post_process_provider(id.as_str()),
            None => self.active_post_process_provider(),
        }
    }

    /// The AI Replace API key for a provider: its own key when it is the AI
    /// Replace provider and the key is set, else the post-processing key.
    pub fn ai_replace_api_key(&self, provider_id: &str) -> (r: String)
        ensures
            r@ == ai_replace_value(self@.ai_id, self@.ai_keys, self@.post_keys, provider_id@),
    {
        if !opt_is(&self.ai_replace_provider_id, provider_id) {
            return table_get_or_empty(&self.post_process_api_keys, provider_id);
        }
        table_get_with_fallback(&self.ai_replace_api_keys, &self.post_process_api_keys, provider_id)
    }

    /// The post-processing API key of a provider: on Windows what the
    /// credential store reads (empty where the read fails), elsewhere the key
    /// kept in the settings.
    pub fn post_process_key(&self, windows: bool, provider_id: &str) -> (r: String)
        ensures
            !windows ==> r@ == get_or_empty(self@.post_keys, provider_id@),
            windows ==> read_of(r@, credential_name_of(KeyType::PostProcess, Some(provider_id@))),
    {
        if windows {
            get_post_process_api_key(true, provider_id)
        } else {
            table_get_or_empty(&self.post_process_api_keys, provider_id)
        }
    }

    /// The AI Replace API key of a provider. On Windows it is read from the
    /// credential store: the post-processing key unless the provider is the
    /// AI Replace provider, in which case its own key when non-empty, else
    /// the post-processing key. Elsewhere the same choice is made among the
    /// keys kept in the settings.
    pub fn ai_replace_key(&self, windows: bool, provider_id: &str) -> (r: String)
        ensures
            !windows ==> r@ == ai_replace_value(self@.ai_id, self@.ai_keys, self@.post_keys, provider_id@),
            windows ==> stored_ai_replace_key(r@, self@.ai_id, provider_id@),
    {
        if !windows {
            return self.ai_replace_api_key(provider_id);
        }
        if !opt_is(&self.ai_replace_provider_id, provider_id) {
            return get_post_process_api_key(true, provider_id);
        }
        let own = get_ai_replace_api_key(true, provider_id);
        if !is_empty_str(own.as_str()) {
            return own;
        }
        get_post_process_api_key(true, provider_id)
    }

    /// The AI Replace model for a provider, with the same fallbacks.
    pub fn ai_replace_model(&self, provider_id: &str) -> (r: String)
        ensures
            r@ == ai_replace_value(self@.ai_id, self@.ai_models, self@.post_models, provider_id@),
    {
        if !opt_is(&self.ai_replace_provider_id, provider_id) {
            return table_get_or_empty(&self.post_process_models, provider_id);
        }
        table_get_with_fallback(&self.ai_replace_models, &self.post_process_models, provider_id)
    }

    /// The full configuration a feature uses: provider, key, model and base
    /// address; `None` when its provider does not exist.
    pub fn llm_config_for(&self, feature: LlmFeature) -> (r: Option<LlmConfig>)
        ensures
            match r {
                Some(c) => spec_llm_config(self@, feature) == Some(c@),
                None => spec_llm_config(self@, feature) is None,
            },
    {
        match feature {
            LlmFeature::PostProcessing => {
                let provider = match self.active_post_process_provider() {
                    Some(p) => p,
                    None => return None,
                };
                let api_key = table_get_or_empty(&self.post_process_api_keys, provider.id.as_str());
                let model = table_get_or_empty(&self.post_process_models, provider.id.as_str());
                Some(
                    LlmConfig {
                        provider_id: copy_string(&provider.id),
                        api_key,
                        model,
                        base_url: copy_string(&provider.base_url),
                    },
                )
            },
            LlmFeature::AiReplace => {
                let provider = match self.active_ai_replace_provider() {
                    Some(p) => p,
                    None => return None,
                };
                let api_key = self.ai_replace_api_key(provider.id.as_str());
                let model = self.ai_replace_model(provider.id.as_str());
                Some(
                    LlmConfig {
                        provider_id: copy_string(&provider.id),
                        api_key,
                        model,
                        base_url: copy_string(&provider.base_url),
                    },
                )
            },
            LlmFeature::VoiceCommand => {
                let provider = match self.active_voice_command_provider() {
                    Some(p) => p,
                    None => return None,
                };
                let api_key = table_get_with_fallback(
                    &self.voice_command_api_keys,
                    &self.post_process_api_keys,
                    provider.id.as_str(),
                );
                let model = table_get_with_fallback(
                    &self.voice_command_models,
                    &self.post_process_models,
                    provider.id.as_str(),
                );
                Some(
                    LlmConfig {
                        provider_id: copy_string(&provider.id),
                        api_key,
                        model,
                        base_url: copy_string(&provider.base_url),
                    },
                )
            },
        }
    }
}


/// A provider with id `id` exists.
pub open spec fn provider_known(ps: Seq<ProviderView>, id: Seq<char>) -> bool {
    exists|i: int| 0 <= i < ps.len() && (#[trigger] ps[i]).id == id
}

/// `after` is `before` with `value` stored under `key`.
pub open spec fn stores(
    before: Seq<(Seq<char>, Seq<char>)>,
    after: Seq<(Seq<char>, Seq<char>)>,
    key: Seq<char>,
    value: Seq<char>,
) -> bool {
    forall|k: Seq<char>|
        #[trigger] assoc_get(after, k) == if k == key {
            Some(value)
        } else {
            assoc_get(before, k)
        }
}

/// The position of the first provider with id `id`, or -1.
pub open spec fn provider_index(ps: Seq<ProviderView>, id: Seq<char>) -> int
    decreases ps.len(),
{
    if ps.len() == 0 {
        -1
    } else if ps[0].id == id {
        0
    } else {
        let k = provider_index(ps.drop_first(), id);
        if k < 0 {
            -1
        } else {
            k + 1
        }
    }
}

proof fn lemma_provider_index(ps: Seq<ProviderView>, id: Seq<char>, i: int)
    requires
        0 <= i <= ps.len(),
        forall|j: int| 0 <= j < i ==> (#[trigger] ps[j]).id != id,
        i < ps.len() ==> ps[i].id == id,
    ensures
        provider_index(ps, id) == if i < ps.len() {
            i
        } else {
            -1
        },
        i < ps.len() ==> find_provider(ps, id) == Some(ps[i]),
        i == ps.len() ==> find_provider(ps, id) is None,
    decreases ps.len(),
{
    if ps.len() > 0 && i > 0 {
        let t = ps.drop_first();
        assert forall|j: int| 0 <= j < i - 1 implies (#[trigger] t[j]).id != id by {
            assert(t[j] == ps[j + 1]);
        }
        if i < ps.len() {
            assert(t[i - 1] == ps[i]);
        }
        lemma_provider_index(t, id, i - 1);
    }
}

fn known_provider(providers: &Vec<PostProcessProvider>, provider_id: &str) -> (r: Result<(), String>)
    ensures
        provider_known(providers_view(providers@), provider_id@) ==> r is Ok,
        !provider_known(providers_view(providers@), provider_id@) ==> r is Err && r->Err_0@
            == provider_not_found(provider_id@),
{
    let ghost ps = providers_view(providers@);
    let r = validate_provider_exists(providers, provider_id);
    proof {
        if provider_known(ps, provider_id@) {
            let i = choose|i: int| 0 <= i < ps.len() && (#[trigger] ps[i]).id == provider_id@;
            assert(providers@[i].id@ == provider_id@);
        }
        if exists|i: int| 0 <= i < providers@.len() && #[trigger] providers@[i].id@ == provider_id@ {
            let i = choose|i: int| 0 <= i < providers@.len() && #[trigger] providers@[i].id@ == provider_id@;
            assert(ps[i].id == provider_id@);
        }
    }
    r
}

fn put_for_known_provider(
    providers: &Vec<PostProcessProvider>,
    table: &mut Vec<(String, String)>,
    provider_id: String,
    value: String,
) -> (r: Result<(), String>)
    ensures
        provider_known(providers_view(providers@), provider_id@) ==> r is Ok && stores(
            table_view(old(table)@),
            table_view(final(table)@),
            provider_id@,
            value@,
        ),
        !provider_known(providers_view(providers@), provider_id@) ==> r is Err && r->Err_0@
            == provider_not_found(provider_id@) && table_view(final(table)@) == table_view(old(table)@),
{
    match known_provider(providers, provider_id.as_str()) {
        Ok(()) => {
            table_put(table, provider_id, value);
            Ok(())
        },
        Err(e) => Err(e),
    }
}

impl LlmSettings {
    /// Stores the post-processing API key of a known provider.
    pub fn change_post_process_api_key_setting(&mut self, provider_id: String, api_key: String) -> (r: Result<(), String>)
        ensures
            provider_known(old(self)@.providers, provider_id@) ==> r is Ok && stores(
                old(self)@.post_keys,
                final(self)@.post_keys,
                provider_id@,
                api_key@,
            ) && final(self)@ == (LlmSettingsView { post_keys: final(self)@.post_keys, ..old(self)@ }),
            !provider_known(old(self)@.providers, provider_id@) ==> r is Err && r->Err_0@ == provider_not_found(
                provider_id@,
            ) && final(self)@ == old(self)@,
    {
        put_for_known_provider(&self.post_process_providers, &mut self.post_process_api_keys, provider_id, api_key)
    }

    /// Stores the post-processing model of a known provider.
    pub fn change_post_process_model_setting(&mut self, provider_id: String, model: String) -> (r: Result<(), String>)
        ensures
            provider_known(old(self)@.providers, provider_id@) ==> r is Ok && stores(
                old(self)@.post_models,
                final(self)@.post_models,
                provider_id@,
                model@,
            ) && final(self)@ == (LlmSettingsView { post_models: final(self)@.post_models, ..old(self)@ }),
            !provider_known(old(self)@.providers, provider_id@) ==> r is Err && r->Err_0@ == provider_not_found(
                provider_id@,
            ) && final(self)@ == old(self)@,
    {
        put_for_known_provider(&self.post_process_providers, &mut self.post_process_models, provider_id, model)
    }

    /// Stores the AI-replace API key of a known provider.
    pub fn change_ai_replace_api_key_setting(&mut self, provider_id: String, api_key: String) -> (r: Result<(), String>)
        ensures
            provider_known(old(self)@.providers, provider_id@) ==> r is Ok && stores(
                old(self)@.ai_keys,
                final(self)@.ai_keys,
                provider_id@,
                api_key@,
            ) && final(self)@ == (LlmSettingsView { ai_keys: final(self)@.ai_keys, ..old(self)@ }),
            !provider_known(old(self)@.providers, provider_id@) ==> r is Err && r->Err_0@ == provider_not_found(
                provider_id@,
            ) && final(self)@ == old(self)@,
    {
        put_for_known_provider(&self.post_process_providers, &mut self.ai_replace_api_keys, provider_id, api_key)
    }

    /// Stores the AI-replace model of a known provider.
    pub fn change_ai_replace_model_setting(&mut self, provider_id: String, model: String) -> (r: Result<(), String>)
        ensures
            provider_known(old(self)@.providers, provider_id@) ==> r is Ok && stores(
                old(self)@.ai_models,
                final(self)@.ai_models,
                provider_id@,
                model@,
            ) && final(self)@ == (LlmSettingsView { ai_models: final(self)@.ai_models, ..old(self)@ }),
            !provider_known(old(self)@.providers, provider_id@) ==> r is Err && r->Err_0@ == provider_not_found(
                provider_id@,
            ) && final(self)@ == old(self)@,
    {
        put_for_known_provider(&self.post_process_providers, &mut self.ai_replace_models, provider_id, model)
    }

    /// Stores the voice-command API key of a known provider.
    pub fn change_voice_command_api_key_setting(&mut self, provider_id: String, api_key: String) -> (r: Result<(), String>)
        ensures
            provider_known(old(self)@.providers, provider_id@) ==> r is Ok && stores(
                old(self)@.voice_keys,
                final(self)@.voice_keys,
                provider_id@,
                api_key@,
            ) && final(self)@ == (LlmSettingsView { voice_keys: final(self)@.voice_keys, ..old(self)@ }),
            !provider_known(old(self)@.providers, provider_id@) ==> r is Err && r->Err_0@ == provider_not_found(
                provider_id@,
            ) && final(self)@ == old(self)@,
    {
        put_for_known_provider(&self.post_process_providers, &mut self.voice_command_api_keys, provider_id, api_key)
    }

    /// Stores the voice-command model of a known provider.
    pub fn change_voice_command_model_setting(&mut self, provider_id: String, model: String) -> (r: Result<(), String>)
        ensures
            provider_known(old(self)@.providers, provider_id@) ==> r is Ok && stores(
                old(self)@.voice_models,
                final(self)@.voice_models,
                provider_id@,
                model@,
            ) && final(self)@ == (LlmSettingsView { voice_models: final(self)@.voice_models, ..old(self)@ }),
            !provider_known(old(self)@.providers, provider_id@) ==> r is Err && r->Err_0@ == provider_not_found(
                provider_id@,
            ) && final(self)@ == old(self)@,
    {
        put_for_known_provider(&self.post_process_providers, &mut self.voice_command_models, provider_id, model)
    }

    /// Selects the post-processing provider; an unknown one is refused.
    pub fn set_post_process_provider(&mut self, provider_id: String) -> (r: Result<(), String>)
        ensures
            provider_known(old(self)@.providers, provider_id@) ==> r is Ok && final(self)@ == (LlmSettingsView {
                post_id: provider_id@,
                ..old(self)@
            }),
            !provider_known(old(self)@.providers, provider_id@) ==> r is Err && r->Err_0@ == provider_not_found(
                provider_id@,
            ) && final(self)@ == old(self)@,
    {
        match known_provider(&self.post_process_providers, provider_id.as_str()) {
            Ok(()) => {
                self.post_process_provider_id = provider_id;
                Ok(())
            },
            Err(e) => Err(e),
        }
    }

    /// Selects the AI-replace provider (`None` falls back to the
    /// post-processing one); an unknown one is refused.
    pub fn set_ai_replace_provider(&mut self, provider_id: Option<String>) -> (r: Result<(), String>)
        ensures
            match opt_chars(provider_id) {
                Some(id) => provider_known(old(self)@.providers, id),
                None => true,
            } ==> r is Ok && final(self)@ == (LlmSettingsView { ai_id: opt_chars(provider_id), ..old(self)@ }),
            !match opt_chars(provider_id) {
                Some(id) => provider_known(old(self)@.providers, id),
                None => true,
            } ==> r is Err && r->Err_0@ == provider_not_found(opt_chars(provider_id)->Some_0) && final(self)@
                == old(self)@,
    {
        if let Some(pid) = &provider_id {
            match known_provider(&self.post_process_providers, pid.as_str()) {
                Ok(()) => {},
                Err(e) => {
                    return Err(e);
                },
            }
        }
        self.ai_replace_provider_id = provider_id;
        Ok(())
    }

    /// Selects the voice-command provider (`None` falls back to the
    /// post-processing one); an unknown one is refused.
    pub fn set_voice_command_provider(&mut self, provider_id: Option<String>) -> (r: Result<(), String>)
        ensures
            match opt_chars(provider_id) {
                Some(id) => provider_known(old(self)@.providers, id),
                None => true,
            } ==> r is Ok && final(self)@ == (LlmSettingsView { voice_id: opt_chars(provider_id), ..old(self)@ }),
            !match opt_chars(provider_id) {
                Some(id) => provider_known(old(self)@.providers, id),
                None => true,
            } ==> r is Err && r->Err_0@ == provider_not_found(opt_chars(provider_id)->Some_0) && final(self)@
                == old(self)@,
    {
        if let Some(pid) = &provider_id {
            match known_provider(&self.post_process_providers, pid.as_str()) {
                Ok(()) => {},
                Err(e) => {
                    return Err(e);
                },
            }
        }
        self.voice_command_provider_id = provider_id;
        Ok(())
    }

    /// Sets the base URL of a provider: only the `custom` provider allows
    /// it; an unknown provider is refused.
    pub fn change_post_process_base_url_setting(&mut self, provider_id: &str, base_url: String) -> (r: Result<
        (),
        String,
    >)
        ensures
            find_provider(old(self)@.providers, provider_id@) is None ==> r is Err && r->Err_0@
                == provider_not_found(provider_id@) && final(self)@ == old(self)@,
            find_provider(old(self)@.providers, provider_id@) matches Some(p) ==> if provider_id@ == "custom"@ {
                r is Ok && final(self)@ == (LlmSettingsView {
                    providers: old(self)@.providers.update(
                        provider_index(old(self)@.providers, provider_id@),
                        ProviderView { base_url: base_url@, ..p },
                    ),
                    ..old(self)@
                })
            } else {
                r is Err && r->Err_0@ == "Provider '"@ + p.label + "' does not allow editing the base URL"@
                    && final(self)@ == old(self)@
            },
    {
        let ghost ps = self@.providers;
        let mut i: usize = 0;
        while i < self.post_process_providers.len()
            invariant
                0 <= i <= self.post_process_providers.len(),
                ps == providers_view(self.post_process_providers@),
                self@ == old(self)@,
                ps == old(self)@.providers,
                forall|j: int| 0 <= j < i ==> (#[trigger] ps[j]).id != provider_id@,
            decreases self.post_process_providers.len() - i,
        {
            if str_eq(self.post_process_providers[i].id.as_str(), provider_id) {
                proof {
                    lemma_provider_index(ps, provider_id@, i as int);
                }
                if !str_eq(provider_id, "custom") {
                    let mut v = chars_of("Provider '");
                    push_str(&mut v, self.post_process_providers[i].label.as_str());
                    push_str(&mut v, "' does not allow editing the base URL");
                    return Err(string_of(v.as_slice()));
                }
                let p = &self.post_process_providers[i];
                let updated = PostProcessProvider {
                    id: copy_string(&p.id),
                    label: copy_string(&p.label),
                    base_url,
                    allow_base_url_edit: p.allow_base_url_edit,
                    models_endpoint: copy_opt_string(&p.models_endpoint),
                };
                let ghost uv = updated@;
                self.post_process_providers.set(i, updated);
                assert(providers_view(self.post_process_providers@) =~= ps.update(i as int, uv));
                return Ok(());
            }
            i = i + 1;
        }
        proof {
            lemma_provider_index(ps, provider_id@, i as int);
        }
        let mut v = chars_of("Provider '");
        push_str(&mut v, provider_id);
        push_str(&mut v, "' not found");
        Err(string_of(v.as_slice()))
    }
}


/// The model a provider starts with: Apple's own for Apple Intelligence,
/// none for the others.
pub open spec fn default_model(provider_id: Seq<char>) -> Seq<char> {
    if provider_id == "apple_intelligence"@ {
        "Apple Intelligence"@
    } else {
        Seq::empty()
    }
}

/// The model a provider starts with.
pub fn default_model_for_provider(provider_id: &str) -> (r: String)
    ensures
        r@ == default_model(provider_id@),
{
    if str_eq(provider_id, "apple_intelligence") {
        str_to_string("Apple Intelligence")
    } else {
        String::new()
    }
}

/// A provider with a fixed base URL and a `/models` endpoint.
pub open spec fn hosted_provider(id: Seq<char>, label: Seq<char>, base_url: Seq<char>) -> ProviderView {
    ProviderView { id, label, base_url, allow_base_url_edit: false, models_endpoint: Some("/models"@) }
}

/// The providers every installation offers: the hosted ones, Apple
/// Intelligence where the platform has it, and `custom` last.
pub open spec fn default_providers_view(include_apple: bool) -> Seq<ProviderView> {
    let hosted = seq![
        hosted_provider("openai"@, "OpenAI"@, "https://api.openai.com/v1"@),
        hosted_provider("openrouter"@, "OpenRouter"@, "https://openrouter.ai/api/v1"@),
        hosted_provider("anthropic"@, "Anthropic"@, "https://api.anthropic.com/v1"@),
        hosted_provider("groq"@, "Groq"@, "https://api.groq.com/openai/v1"@),
        hosted_provider("cerebras"@, "Cerebras"@, "https://api.cerebras.ai/v1"@),
    ];
    let apple = ProviderView {
        id: "apple_intelligence"@,
        label: "Apple Intelligence"@,
        base_url: "apple-intelligence://local"@,
        allow_base_url_edit: false,
        models_endpoint: None,
    };
    let custom = ProviderView {
        id: "custom"@,
        label: "Custom"@,
        base_url: "http://localhost:11434/v1"@,
        allow_base_url_edit: true,
        models_endpoint: Some("/models"@),
    };
    if include_apple {
        hosted.push(apple).push(custom)
    } else {
        hosted.push(custom)
    }
}

fn hosted(id: &str, label: &str, base_url: &str) -> (r: PostProcessProvider)
    ensures
        r@ == hosted_provider(id@, label@, base_url@),
{
    PostProcessProvider {
        id: str_to_string(id),
        label: str_to_string(label),
        base_url: str_to_string(base_url),
        allow_base_url_edit: false,
        models_endpoint: Some(str_to_string("/models")),
    }
}

/// The default providers (`include_apple` on Apple-silicon Macs).
pub fn default_post_process_providers(include_apple: bool) -> (r: Vec<PostProcessProvider>)
    ensures
        providers_view(r@) == default_providers_view(include_apple),
{
    let mut v: Vec<PostProcessProvider> = Vec::new();
    v.push(hosted("openai", "OpenAI", "https://api.openai.com/v1"));
    v.push(hosted("openrouter", "OpenRouter", "https://openrouter.ai/api/v1"));
    v.push(hosted("anthropic", "Anthropic", "https://api.anthropic.com/v1"));
    v.push(hosted("groq", "Groq", "https://api.groq.com/openai/v1"));
    v.push(hosted("cerebras", "Cerebras", "https://api.cerebras.ai/v1"));
    if include_apple {
        v.push(
            PostProcessProvider {
                id: str_to_string("apple_intelligence"),
                label: str_to_string("Apple Intelligence"),
                base_url: str_to_string("apple-intelligence://local"),
                allow_base_url_edit: false,
                models_endpoint: None,
            },
        );
    }
    v.push(
        PostProcessProvider {
            id: str_to_string("custom"),
            label: str_to_string("Custom"),
            base_url: str_to_string("http://localhost:11434/v1"),
            allow_base_url_edit: true,
            models_endpoint: Some(str_to_string("/models")),
        },
    );
    assert(providers_view(v@) =~= default_providers_view(include_apple));
    v
}

/// One entry per default provider: its id and, when `with_model`, its
/// default model, else the empty string.
pub open spec fn per_default_provider(include_apple: bool, with_model: bool) -> Seq<(Seq<char>, Seq<char>)> {
    default_providers_view(include_apple).map_values(
        |p: ProviderView|
            (
                p.id,
                if with_model {
                    default_model(p.id)
                } else {
                    Seq::<char>::empty()
                },
            ),
    )
}

/// A table with an entry per default provider: its default model when
/// `with_model`, the empty string otherwise.
fn default_provider_table(include_apple: bool, with_model: bool) -> (r: Vec<(String, String)>)
    ensures
        table_view(r@) == per_default_provider(include_apple, with_model),
{
    let providers = default_post_process_providers(include_apple);
    let ghost pv = providers_view(providers@);
    let mut out: Vec<(String, String)> = Vec::new();
    let mut i: usize = 0;
    while i < providers.len()
        invariant
            0 <= i <= providers@.len(),
            pv == providers_view(providers@),
            pv == default_providers_view(include_apple),
            table_view(out@) =~= per_default_provider(include_apple, with_model).take(i as int),
        decreases providers@.len() - i,
    {
        let id = copy_string(&providers[i].id);
        let value = if with_model {
            default_model_for_provider(providers[i].id.as_str())
        } else {
            String::new()
        };
        let ghost before = table_view(out@);
        let ghost per = per_default_provider(include_apple, with_model);
        proof {
            assert(pv[i as int] == providers@[i as int]@);
            assert(per[i as int] == (id@, value@));
            assert(per.take(i + 1) =~= per.take(i as int).push(per[i as int]));
        }
        out.push((id, value));
        assert(table_view(out@) =~= before.push((id@, value@)));
        i = i + 1;
    }
    assert(per_default_provider(include_apple, with_model).take(providers@.len() as int) =~= per_default_provider(
        include_apple,
        with_model,
    ));
    out
}

/// The API keys the settings start with: an empty key per default provider.
pub fn default_post_process_api_keys(include_apple: bool) -> (r: Vec<(String, String)>)
    ensures
        table_view(r@) == per_default_provider(include_apple, false),
{
    default_provider_table(include_apple, false)
}

/// The models the settings start with: each default provider's default
/// model.
pub fn default_post_process_models(include_apple: bool) -> (r: Vec<(String, String)>)
    ensures
        table_view(r@) == per_default_provider(include_apple, true),
{
    default_provider_table(include_apple, true)
}

/// The providers, keys and models while the defaults are merged in, and
/// whether anything changed.
pub struct DefaultsMerge {
    pub providers: Seq<ProviderView>,
    pub keys: Seq<(Seq<char>, Seq<char>)>,
    pub models: Seq<(Seq<char>, Seq<char>)>,
    pub changed: bool,
}

/// The model entry of a default provider must be (re)written: it is
/// missing, or empty while the provider has a default model.
pub open spec fn model_needs_default(models: Seq<(Seq<char>, Seq<char>)>, id: Seq<char>) -> bool {
    match assoc_get(models, id) {
        Some(m) => m.len() == 0 && default_model(id).len() > 0,
        None => true,
    }
}

/// Merging one default provider: added when its id is unknown, an empty
/// key when it has none, its default model when its model entry needs it.
pub open spec fn merge_step(m: DefaultsMerge, p: ProviderView) -> DefaultsMerge {
    let known = provider_known(m.providers, p.id);
    let has_key = assoc_get(m.keys, p.id) is Some;
    let fix_model = model_needs_default(m.models, p.id);
    DefaultsMerge {
        providers: if known {
            m.providers
        } else {
            m.providers.push(p)
        },
        keys: if has_key {
            m.keys
        } else {
            assoc_put(m.keys, p.id, Seq::empty())
        },
        models: if fix_model {
            assoc_put(m.models, p.id, default_model(p.id))
        } else {
            m.models
        },
        changed: m.changed || !known || !has_key || fix_model,
    }
}

/// Merging the default providers in order.
pub open spec fn merge_defaults(m: DefaultsMerge, ds: Seq<ProviderView>) -> DefaultsMerge
    decreases ds.len(),
{
    if ds.len() == 0 {
        m
    } else {
        merge_step(merge_defaults(m, ds.drop_last()), ds.last())
    }
}

/// The merge as it starts from settings.
pub open spec fn merge_start(s: LlmSettingsView) -> DefaultsMerge {
    DefaultsMerge { providers: s.providers, keys: s.post_keys, models: s.post_models, changed: false }
}

fn has_provider(providers: &Vec<PostProcessProvider>, id: &str) -> (r: bool)
    ensures
        r == provider_known(providers_view(providers@), id@),
{
    match known_provider(providers, id) {
        Ok(()) => true,
        Err(_) => false,
    }
}

impl LlmSettings {
    /// Merges `defaults` into the providers, keys and models; true when
    /// anything changed.
    pub fn merge_provider_defaults(&mut self, defaults: &Vec<PostProcessProvider>) -> (r: bool)
        ensures
            ({
                let m = merge_defaults(merge_start(old(self)@), providers_view(defaults@));
                &&& final(self)@ == (LlmSettingsView {
                    providers: m.providers,
                    post_keys: m.keys,
                    post_models: m.models,
                    ..old(self)@
                })
                &&& r == m.changed
            }),
    {
        let ghost ds = providers_view(defaults@);
        let ghost start = merge_start(self@);
        let mut changed = false;
        let mut i: usize = 0;
        assert(ds.take(0) =~= Seq::<ProviderView>::empty());
        while i < defaults.len()
            invariant
                0 <= i <= defaults.len(),
                ds == providers_view(defaults@),
                start == merge_start(old(self)@),
                merge_defaults(start, ds.take(i as int)) == (DefaultsMerge {
                    providers: self@.providers,
                    keys: self@.post_keys,
                    models: self@.post_models,
                    changed,
                }),
                self@ == (LlmSettingsView {
                    providers: self@.providers,
                    post_keys: self@.post_keys,
                    post_models: self@.post_models,
                    ..old(self)@
                }),
            decreases defaults.len() - i,
        {
            assert(ds.take(i + 1).drop_last() =~= ds.take(i as int));
            assert(ds.take(i + 1).last() == ds[i as int]);
            let p = &defaults[i];
            let ghost pv = p@;
            assert(pv == ds[i as int]);
            let ghost before = self@;
            let ghost changed_before = changed;
            if !has_provider(&self.post_process_providers, p.id.as_str()) {
                let ghost pvs = self@.providers;
                self.post_process_providers.push(copy_provider(p));
                assert(self@.providers =~= pvs.push(pv));
                changed = true;
            }
            if table_get(&self.post_process_api_keys, p.id.as_str()).is_none() {
                table_put(&mut self.post_process_api_keys, copy_string(&p.id), String::new());
                changed = true;
            }
            let dm = default_model_for_provider(p.id.as_str());
            match table_get(&self.post_process_models, p.id.as_str()) {
                Some(existing) => {
                    if is_empty_str(existing.as_str()) && !is_empty_str(dm.as_str()) {
                        table_put(&mut self.post_process_models, copy_string(&p.id), dm);
                        changed = true;
                    }
                },
                None => {
                    table_put(&mut self.post_process_models, copy_string(&p.id), dm);
                    changed = true;
                },
            }
            assert(merge_step(
                DefaultsMerge {
                    providers: before.providers,
                    keys: before.post_keys,
                    models: before.post_models,
                    changed: changed_before,
                },
                pv,
            ) == (DefaultsMerge {
                providers: self@.providers,
                keys: self@.post_keys,
                models: self@.post_models,
                changed,
            }));
            i = i + 1;
        }
        assert(ds.take(defaults.len() as int) =~= ds);
        changed
    }

    /// Adds the default providers that are missing, with empty keys and
    /// their default models; true when
    /// anything changed.
    pub fn ensure_post_process_defaults(&mut self, include_apple: bool) -> (r: bool)
        ensures
            ({
                let m = merge_defaults(merge_start(old(self)@), default_providers_view(include_apple));
                &&& final(self)@ == (LlmSettingsView {
                    providers: m.providers,
                    post_keys: m.keys,
                    post_models: m.models,
                    ..old(self)@
                })
                &&& r == m.changed
            }),
    {
        let defaults = default_post_process_providers(include_apple);
        self.merge_provider_defaults(&defaults)
    }
}


/// After a merge, `p` needs nothing more: its id is known, it has a key
/// entry and a model entry that needs no default.
pub open spec fn covered(m: DefaultsMerge, p: ProviderView) -> bool {
    &&& provider_known(m.providers, p.id)
    &&& assoc_get(m.keys, p.id) is Some
    &&& !model_needs_default(m.models, p.id)
}

proof fn lemma_step_covers(m: DefaultsMerge, p: ProviderView, q: ProviderView)
    requires
        covered(m, q) || q == p,
    ensures
        covered(merge_step(m, p), q),
{
    let n = merge_step(m, p);
    lemma_assoc_put_get(m.keys, p.id, Seq::empty(), q.id);
    lemma_assoc_put_get(m.models, p.id, default_model(p.id), q.id);
    if provider_known(m.providers, q.id) {
        let i = choose|i: int| 0 <= i < m.providers.len() && (#[trigger] m.providers[i]).id == q.id;
        assert(n.providers[i] == m.providers[i]);
    } else {
        assert(q == p);
        assert(n.providers[m.providers.len() as int] == p);
    }
}

proof fn lemma_merge_covers(m: DefaultsMerge, ds: Seq<ProviderView>)
    ensures
        forall|j: int| 0 <= j < ds.len() ==> covered(merge_defaults(m, ds), #[trigger] ds[j]),
    decreases ds.len(),
{
    if ds.len() > 0 {
        let d = ds.drop_last();
        lemma_merge_covers(m, d);
        let prev = merge_defaults(m, d);
        assert forall|j: int| 0 <= j < ds.len() implies covered(merge_defaults(m, ds), #[trigger] ds[j]) by {
            if j < d.len() {
                assert(d[j] == ds[j]);
                lemma_step_covers(prev, ds.last(), ds[j]);
            } else {
                lemma_step_covers(prev, ds.last(), ds[j]);
            }
        }
    }
}

proof fn lemma_merge_covered_is_identity(m: DefaultsMerge, ds: Seq<ProviderView>)
    requires
        forall|j: int| 0 <= j < ds.len() ==> covered(m, #[trigger] ds[j]),
    ensures
        merge_defaults(m, ds) == m,
    decreases ds.len(),
{
    if ds.len() > 0 {
        let d = ds.drop_last();
        assert forall|j: int| 0 <= j < d.len() implies covered(m, #[trigger] d[j]) by {
            assert(d[j] == ds[j]);
        }
        lemma_merge_covered_is_identity(m, d);
        assert(covered(m, ds[ds.len() - 1]));
    }
}

/// Merging the defaults into settings where they were merged already
/// changes nothing and reports no change.
pub proof fn lemma_defaults_idempotent(s: LlmSettingsView, ds: Seq<ProviderView>)
    ensures
        ({
            let once = merge_defaults(merge_start(s), ds);
            let again = merge_defaults(
                DefaultsMerge { providers: once.providers, keys: once.keys, models: once.models, changed: false },
                ds,
            );
            &&& again.providers == once.providers
            &&& again.keys == once.keys
            &&& again.models == once.models
            &&& !again.changed
        }),
{
    let once = merge_defaults(merge_start(s), ds);
    let st = DefaultsMerge { providers: once.providers, keys: once.keys, models: once.models, changed: false };
    lemma_merge_covers(merge_start(s), ds);
    assert forall|j: int| 0 <= j < ds.len() implies covered(st, #[trigger] ds[j]) by {
        assert(covered(once, ds[j]));
    }
    lemma_merge_covered_is_identity(st, ds);
}

} // verus!
