//! Transcription profiles, post-processing prompts and shortcut bindings as
//! the settings commands change them.
use vstd::prelude::*;
use crate::key_listener::{split_chars, split_on, strings_view};
use crate::numfmt::{dec_digits, dec_u128};
use crate::settings::{
    opt_chars, LLMPrompt, ProfileLlmSettings, ShortcutBinding, TranscriptionProfile,
};
use crate::text::{
    chars_of, copy_opt_string, copy_string, lowercase, push_all, push_str, starts_with, str_eq,
    str_to_string, string_of, to_lowercase, trim, trim_str,
};

verus! {

/// Names of modifier keys in a binding.
pub open spec fn is_modifier_name(s: Seq<char>) -> bool {
    s == "ctrl"@ || s == "control"@ || s == "shift"@ || s == "alt"@ || s == "option"@ || s == "meta"@
        || s == "command"@ || s == "cmd"@ || s == "super"@ || s == "win"@ || s == "windows"@
}

fn is_modifier_name_exec(s: &str) -> (r: bool)
    ensures
        r == is_modifier_name(s@),
{
    str_eq(s, "ctrl") || str_eq(s, "control") || str_eq(s, "shift") || str_eq(s, "alt") || str_eq(
        s,
        "option",
    ) || str_eq(s, "meta") || str_eq(s, "command") || str_eq(s, "cmd") || str_eq(s, "super")
        || str_eq(s, "win") || str_eq(s, "windows")
}

/// A binding is accepted when one of its `+`-separated parts (trimmed,
/// case-insensitively) is not a modifier.
pub open spec fn has_non_modifier(raw: Seq<char>) -> bool {
    exists|i: int|
        0 <= i < split_on(raw, '+').len() && !is_modifier_name(
            lowercase(trim(#[trigger] split_on(raw, '+')[i])),
        )
}

/// Whether a binding may be registered: it needs a key besides modifiers,
/// the shortcut parser must accept it (`parsed`, with the parser's message),
/// and no shortcut may already hold it (`already_registered`), which would
/// shadow it silently.
pub open spec fn registration_result(
    binding: Seq<char>,
    parsed: Result<(), Seq<char>>,
    already_registered: bool,
) -> Result<(), Seq<char>> {
    if !has_non_modifier(binding) {
        Err("Shortcut must contain at least one non-modifier key"@)
    } else {
        match parsed {
            Err(e) => Err("Failed to parse shortcut '"@ + binding + "': "@ + e),
            Ok(()) => if already_registered {
                Err("Shortcut '"@ + binding + "' is already in use"@)
            } else {
                Ok(())
            },
        }
    }
}

/// The checks before registering a binding's shortcut, given the parser's
/// answer and whether the shortcut is already registered.
pub fn check_registration(binding: &str, parsed: Result<(), String>, already_registered: bool) -> (r: Result<
    (),
    String,
>)
    ensures
        ({
            let expected = registration_result(
                binding@,
                match parsed {
                    Ok(()) => Ok(()),
                    Err(e) => Err(e@),
                },
                already_registered,
            );
            match expected {
                Ok(()) => r is Ok,
                Err(m) => r is Err && r->Err_0@ == m,
            }
        }),
{
    match validate_shortcut_string(binding) {
        Err(e) => return Err(e),
        Ok(()) => {},
    }
    match parsed {
        Err(e) => {
            let mut m = chars_of("Failed to parse shortcut '");
            push_str(&mut m, binding);
            push_str(&mut m, "': ");
            push_str(&mut m, e.as_str());
            Err(string_of(m.as_slice()))
        },
        Ok(()) => if already_registered {
            let mut m = chars_of("Shortcut '");
            push_str(&mut m, binding);
            push_str(&mut m, "' is already in use");
            Err(string_of(m.as_slice()))
        } else {
            Ok(())
        },
    }
}

/// Checks that a shortcut has a key besides modifiers.
pub fn validate_shortcut_string(raw: &str) -> (r: Result<(), String>)
    ensures
        has_non_modifier(raw@) ==> r is Ok,
        !has_non_modifier(raw@) ==> r is Err && r->Err_0@
            == "Shortcut must contain at least one non-modifier key"@,
{
    let v = chars_of(raw);
    let parts = split_chars(v.as_slice(), '+');
    let mut i: usize = 0;
    while i < parts.len()
        invariant
            0 <= i <= parts.len(),
            strings_view(parts@) == split_on(raw@, '+'),
            forall|j: int| 0 <= j < i ==> is_modifier_name(lowercase(trim(#[trigger] split_on(raw@, '+')[j]))),
        decreases parts.len() - i,
    {
        assert(split_on(raw@, '+')[i as int] == parts@[i as int]@);
        let t = trim_str(parts[i].as_str());
        let l = to_lowercase(t.as_str());
        if !is_modifier_name_exec(l.as_str()) {
            return Ok(());
        }
        i = i + 1;
    }
    Err(str_to_string("Shortcut must contain at least one non-modifier key"))
}

/// Model of a profile: the fields the commands read and write.
pub struct ProfileView {
    pub id: Seq<char>,
    pub name: Seq<char>,
    pub language: Seq<char>,
    pub translate_to_english: bool,
    pub description: Seq<char>,
    pub system_prompt: Seq<char>,
    pub stt_prompt_override_enabled: bool,
    pub include_in_cycle: bool,
    pub push_to_talk: bool,
    pub llm_post_process_enabled: bool,
    pub llm_prompt_override: Option<Seq<char>>,
    pub llm_model_override: Option<Seq<char>>,
}

impl View for TranscriptionProfile {
    type V = ProfileView;

    open spec fn view(&self) -> ProfileView {
        ProfileView {
            id: self.id@,
            name: self.name@,
            language: self.language@,
            translate_to_english: self.translate_to_english,
            description: self.description@,
            system_prompt: self.system_prompt@,
            stt_prompt_override_enabled: self.stt_prompt_override_enabled,
            include_in_cycle: self.include_in_cycle,
            push_to_talk: self.push_to_talk,
            llm_post_process_enabled: self.llm_post_process_enabled,
            llm_prompt_override: opt_chars(self.llm_prompt_override),
            llm_model_override: opt_chars(self.llm_model_override),
        }
    }
}

/// Model of a profile list.
pub open spec fn profiles_view(v: Seq<TranscriptionProfile>) -> Seq<ProfileView> {
    v.map_values(|p: TranscriptionProfile| p@)
}

/// The first profile with id `id`.
pub open spec fn find_profile(ps: Seq<ProfileView>, id: Seq<char>) -> Option<ProfileView>
    decreases ps.len(),
{
    if ps.len() == 0 {
        None
    } else if ps[0].id == id {
        Some(ps[0])
    } else {
        find_profile(ps.drop_first(), id)
    }
}

/// The profile with id `id`.
pub fn transcription_profile<'a>(profiles: &'a Vec<TranscriptionProfile>, profile_id: &str) -> (r: Option<
    &'a TranscriptionProfile,
>)
    ensures
        match r {
            Some(p) => find_profile(profiles_view(profiles@), profile_id@) == Some(p@),
            None => find_profile(profiles_view(profiles@), profile_id@) is None,
        },
{
    let ghost ps = profiles_view(profiles@);
    let mut i: usize = 0;
    assert(ps.skip(0) =~= ps);
    while i < profiles.len()
        invariant
            0 <= i <= profiles.len(),
            ps == profiles_view(profiles@),
            find_profile(ps, profile_id@) == find_profile(ps.skip(i as int), profile_id@),
        decreases profiles.len() - i,
    {
        assert(ps.skip(i as int)[0] == ps[i as int]);
        assert(ps.skip(i as int).drop_first() =~= ps.skip(i + 1));
        if str_eq(profiles[i].id.as_str(), profile_id) {
            return Some(&profiles[i]);
        }
        i = i + 1;
    }
    None
}

/// The profile a binding id (`transcribe_<profile id>`) belongs to.
pub fn transcription_profile_by_binding<'a>(profiles: &'a Vec<TranscriptionProfile>, binding_id: &str) -> (r:
    Option<&'a TranscriptionProfile>)
    ensures
        starts_with(binding_id@, "transcribe_"@) ==> match r {
            Some(p) => find_profile(profiles_view(profiles@), binding_id@.skip(11)) == Some(p@),
            None => find_profile(profiles_view(profiles@), binding_id@.skip(11)) is None,
        },
        !starts_with(binding_id@, "transcribe_"@) ==> r is None,
{
    let v = chars_of(binding_id);
    let prefix = chars_of("transcribe_");
    proof {
        reveal_strlit("transcribe_");
    }
    if !crate::text::starts_with_chars(v.as_slice(), prefix.as_slice()) {
        return None;
    }
    let rest = crate::text::slice_range(v.as_slice(), 11, v.len());
    let id = string_of(rest.as_slice());
    assert(id@ =~= binding_id@.skip(11));
    transcription_profile(profiles, id.as_str())
}

/// The description of a profile: its name, with ` → English` when it
/// translates.
pub open spec fn profile_description(name: Seq<char>, translate: bool) -> Seq<char> {
    if translate {
        name + " → English"@
    } else {
        name
    }
}

fn description_of(name: &str, translate: bool) -> (r: String)
    ensures
        r@ == profile_description(name@, translate),
{
    if translate {
        let mut v = chars_of(name);
        push_str(&mut v, " → English");
        string_of(v.as_slice())
    } else {
        str_to_string(name)
    }
}

/// Model of a binding.
pub struct BindingView {
    pub id: Seq<char>,
    pub name: Seq<char>,
    pub description: Seq<char>,
    pub default_binding: Seq<char>,
    pub current_binding: Seq<char>,
}

impl View for ShortcutBinding {
    type V = BindingView;

    open spec fn view(&self) -> BindingView {
        BindingView {
            id: self.id@,
            name: self.name@,
            description: self.description@,
            default_binding: self.default_binding@,
            current_binding: self.current_binding@,
        }
    }
}

/// The id of the binding of a profile.
pub open spec fn profile_binding_id(profile_id: Seq<char>) -> Seq<char> {
    "transcribe_"@ + profile_id
}

/// The profiles, the active one and the shortcut bindings.
pub struct ProfileSettings {
    pub transcription_profiles: Vec<TranscriptionProfile>,
    pub active_profile_id: String,
    /// The bindings, each id once.
    pub bindings: Vec<ShortcutBinding>,
}

/// Model of a binding list.
pub open spec fn bindings_view(v: Seq<ShortcutBinding>) -> Seq<BindingView> {
    v.map_values(|b: ShortcutBinding| b@)
}

fn copy_profile(p: &TranscriptionProfile) -> (r: TranscriptionProfile)
    ensures
        r@ == p@,
{
    TranscriptionProfile {
        id: copy_string(&p.id),
        name: copy_string(&p.name),
        language: copy_string(&p.language),
        translate_to_english: p.translate_to_english,
        description: copy_string(&p.description),
        system_prompt: copy_string(&p.system_prompt),
        stt_prompt_override_enabled: p.stt_prompt_override_enabled,
        include_in_cycle: p.include_in_cycle,
        push_to_talk: p.push_to_talk,
        llm_post_process_enabled: p.llm_post_process_enabled,
        llm_prompt_override: copy_opt_string(&p.llm_prompt_override),
        llm_model_override: copy_opt_string(&p.llm_model_override),
    }
}

/// The profile id made from a creation time.
pub open spec fn profile_id_of(ts_ms: u64) -> Seq<char> {
    "profile_"@ + dec_digits(ts_ms as nat)
}

/// The profile the add command creates.
pub open spec fn new_profile_view(
    id: Seq<char>,
    name: Seq<char>,
    language: Seq<char>,
    translate: bool,
    system_prompt: Seq<char>,
    push_to_talk: bool,
    llm: Option<(bool, Option<Seq<char>>, Option<Seq<char>>)>,
    global_post_process: bool,
) -> ProfileView {
    ProfileView {
        id,
        name,
        language,
        translate_to_english: translate,
        description: profile_description(name, translate),
        system_prompt,
        stt_prompt_override_enabled: false,
        include_in_cycle: true,
        push_to_talk,
        llm_post_process_enabled: match llm {
            Some(l) => l.0,
            None => global_post_process,
        },
        llm_prompt_override: match llm {
            Some(l) => l.1,
            None => None,
        },
        llm_model_override: match llm {
            Some(l) => l.2,
            None => None,
        },
    }
}

/// The bindings with `b` stored under its id: replacing the one with the
/// same id, or last.
pub open spec fn put_binding(bs: Seq<BindingView>, b: BindingView) -> Seq<BindingView> {
    if exists|i: int| 0 <= i < bs.len() && #[trigger] bs[i].id == b.id {
        bs.update(choose|i: int| 0 <= i < bs.len() && #[trigger] bs[i].id == b.id, b)
    } else {
        bs.push(b)
    }
}

fn binding_index(bindings: &Vec<ShortcutBinding>, id: &str) -> (r: Option<usize>)
    ensures
        match r {
            Some(i) => i < bindings@.len() && bindings@[i as int].id@ == id@ && forall|j: int|
                0 <= j < i ==> #[trigger] bindings@[j].id@ != id@,
            None => forall|j: int| 0 <= j < bindings@.len() ==> #[trigger] bindings@[j].id@ != id@,
        },
{
    let mut i: usize = 0;
    while i < bindings.len()
        invariant
            0 <= i <= bindings.len(),
            forall|j: int| 0 <= j < i ==> #[trigger] bindings@[j].id@ != id@,
        decreases bindings.len() - i,
    {
        if str_eq(bindings[i].id.as_str(), id) {
            return Some(i);
        }
        i = i + 1;
    }
    None
}

impl ProfileSettings {
    /// Bindings are stored under distinct ids.
    pub open spec fn wf(&self) -> bool {
        forall|i: int, j: int|
            0 <= i < j < self.bindings@.len() ==> #[trigger] self.bindings@[i].id@
                != #[trigger] self.bindings@[j].id@
    }

    /// Adds a profile created at `ts_ms` (its id is `profile_<ts_ms>`) and
    /// its binding `transcribe_<id>` without a key; the LLM settings are the
    /// given ones, or the global post-processing switch with no overrides.
    pub fn add_transcription_profile(
        &mut self,
        ts_ms: u64,
        name: String,
        language: String,
        translate_to_english: bool,
        system_prompt: String,
        push_to_talk: bool,
        llm_settings: Option<ProfileLlmSettings>,
        global_post_process_enabled: bool,
    ) -> (r: TranscriptionProfile)
        requires
            old(self).wf(),
        ensures
            final(self).wf(),
            r@ == new_profile_view(
                profile_id_of(ts_ms),
                name@,
                language@,
                translate_to_english,
                system_prompt@,
                push_to_talk,
                match llm_settings {
                    Some(l) => Some((l.enabled, opt_chars(l.prompt_override), opt_chars(l.model_override))),
                    None => None,
                },
                global_post_process_enabled,
            ),
            profiles_view(final(self).transcription_profiles@) == profiles_view(
                old(self).transcription_profiles@,
            ).push(r@),
            final(self).active_profile_id@ == old(self).active_profile_id@,
            bindings_view(final(self).bindings@) == put_binding(
                bindings_view(old(self).bindings@),
                BindingView {
                    id: profile_binding_id(r@.id),
                    name: name@,
                    description: profile_description(name@, translate_to_english),
                    default_binding: Seq::empty(),
                    current_binding: Seq::empty(),
                },
            ),
    {
        let mut idv = chars_of("profile_");
        push_all(&mut idv, dec_u128(ts_ms as u128).as_slice());
        let profile_id = string_of(idv.as_slice());
        let mut bid = chars_of("transcribe_");
        push_str(&mut bid, profile_id.as_str());
        let binding_id = string_of(bid.as_slice());
        let description = description_of(name.as_str(), translate_to_english);
        let (enabled, prompt_override, model_override) = match llm_settings {
            Some(l) => (l.enabled, l.prompt_override, l.model_override),
            None => (global_post_process_enabled, None, None),
        };
        let profile = TranscriptionProfile {
            id: profile_id,
            name: copy_string(&name),
            language,
            translate_to_english,
            description: copy_string(&description),
            system_prompt,
            stt_prompt_override_enabled: false,
            include_in_cycle: true,
            push_to_talk,
            llm_post_process_enabled: enabled,
            llm_prompt_override: prompt_override,
            llm_model_override: model_override,
        };
        let binding = ShortcutBinding {
            id: binding_id,
            name,
            description,
            default_binding: String::new(),
            current_binding: String::new(),
        };
        let result = copy_profile(&profile);
        let ghost pv = profiles_view(self.transcription_profiles@);
        self.transcription_profiles.push(profile);
        assert(profiles_view(self.transcription_profiles@) =~= pv.push(result@));
        self.put_binding(binding);
        result
    }

    /// Stores a binding under its id.
    pub fn put_binding(&mut self, binding: ShortcutBinding)
        requires
            old(self).wf(),
        ensures
            final(self).wf(),
            bindings_view(final(self).bindings@) == put_binding(bindings_view(old(self).bindings@), binding@),
            profiles_view(final(self).transcription_profiles@) == profiles_view(
                old(self).transcription_profiles@,
            ),
            final(self).active_profile_id@ == old(self).active_profile_id@,
    {
        let ghost bs = bindings_view(self.bindings@);
        let ghost bv = binding@;
        match binding_index(&self.bindings, binding.id.as_str()) {
            Some(i) => {
                proof {
                    assert(bs[i as int].id == bv.id);
                    let k = choose|k: int| 0 <= k < bs.len() && #[trigger] bs[k].id == bv.id;
                    if k < i {
                        assert(bs[k].id == self.bindings@[k].id@);
                    }
                    if k > i {
                        assert(self.bindings@[i as int].id@ != self.bindings@[k].id@);
                    }
                    assert(k == i);
                }
                self.bindings.set(i, binding);
                assert(bindings_view(self.bindings@) =~= bs.update(i as int, bv));
                proof {
                    assert forall|a: int, b: int| 0 <= a < b < self.bindings@.len() implies #[trigger] self.bindings@[a].id@
                        != #[trigger] self.bindings@[b].id@ by {
                        assert(bindings_view(self.bindings@)[a].id == bs.update(i as int, bv)[a].id);
                        assert(bindings_view(self.bindings@)[b].id == bs.update(i as int, bv)[b].id);
                        if a != i && b != i {
                            assert(old(self).bindings@[a].id@ != old(self).bindings@[b].id@);
                        } else if a == i {
                            assert(old(self).bindings@[a].id@ != old(self).bindings@[b].id@);
                        } else {
                            assert(old(self).bindings@[a].id@ != old(self).bindings@[b].id@);
                        }
                    }
                }
            },
            None => {
                proof {
                    assert forall|k: int| 0 <= k < bs.len() implies #[trigger] bs[k].id != bv.id by {
                        assert(bs[k].id == self.bindings@[k].id@);
                    }
                }
                self.bindings.push(binding);
                assert(bindings_view(self.bindings@) =~= bs.push(bv));
                proof {
                    assert forall|a: int, b: int| 0 <= a < b < self.bindings@.len() implies #[trigger] self.bindings@[a].id@
                        != #[trigger] self.bindings@[b].id@ by {
                        if b < bs.len() {
                            assert(old(self).bindings@[a].id@ != old(self).bindings@[b].id@);
                        } else {
                            assert(bs[a].id != bv.id);
                        }
                    }
                }
            },
        }
    }
}

/// The position of the first profile with id `id`, or -1.
pub open spec fn profile_index(ps: Seq<ProfileView>, id: Seq<char>) -> int
    decreases ps.len(),
{
    if ps.len() == 0 {
        -1
    } else if ps[0].id == id {
        0
    } else {
        let k = profile_index(ps.drop_first(), id);
        if k < 0 {
            -1
        } else {
            k + 1
        }
    }
}

proof fn lemma_profile_index(ps: Seq<ProfileView>, id: Seq<char>, i: int)
    requires
        0 <= i <= ps.len(),
        forall|j: int| 0 <= j < i ==> (#[trigger] ps[j]).id != id,
        i < ps.len() ==> ps[i].id == id,
    ensures
        profile_index(ps, id) == if i < ps.len() {
            i
        } else {
            -1
        },
    decreases ps.len(),
{
    if ps.len() > 0 && i > 0 {
        let t = ps.drop_first();
        assert forall|j: int| 0 <= j < i - 1 implies (#[trigger] t[j]).id != id by {
            assert(t[j] == ps[j + 1]);
        }
        if i < ps.len() {
            assert(t[i - 1] == ps[i]);
        }
        lemma_profile_index(t, id, i - 1);
    }
}

/// A profile as the update command leaves it: same id and prompt-override
/// switch, the rest from the command.
pub open spec fn updated_profile_view(
    p: ProfileView,
    name: Seq<char>,
    language: Seq<char>,
    translate: bool,
    system_prompt: Seq<char>,
    include_in_cycle: bool,
    push_to_talk: bool,
    llm_enabled: bool,
    llm_prompt_override: Option<Seq<char>>,
    llm_model_override: Option<Seq<char>>,
) -> ProfileView {
    ProfileView {
        id: p.id,
        name,
        language,
        translate_to_english: translate,
        description: profile_description(name, translate),
        system_prompt,
        stt_prompt_override_enabled: p.stt_prompt_override_enabled,
        include_in_cycle,
        push_to_talk,
        llm_post_process_enabled: llm_enabled,
        llm_prompt_override,
        llm_model_override,
    }
}

/// The bindings with the one with id `bid` given a new name and
/// description.
pub open spec fn rename_binding(
    bs: Seq<BindingView>,
    bid: Seq<char>,
    name: Seq<char>,
    description: Seq<char>,
) -> Seq<BindingView> {
    bs.map_values(
        |b: BindingView|
            if b.id == bid {
                BindingView {
                    id: b.id,
                    name,
                    description,
                    default_binding: b.default_binding,
                    current_binding: b.current_binding,
                }
            } else {
                b
            },
    )
}

/// The profiles without those with id `id`, in order.
pub open spec fn profiles_without(ps: Seq<ProfileView>, id: Seq<char>) -> Seq<ProfileView>
    decreases ps.len(),
{
    if ps.len() == 0 {
        ps
    } else {
        let r = profiles_without(ps.drop_last(), id);
        if ps.last().id != id {
            r.push(ps.last())
        } else {
            r
        }
    }
}

/// The bindings without those with id `id`, in order.
pub open spec fn bindings_without(bs: Seq<BindingView>, id: Seq<char>) -> Seq<BindingView>
    decreases bs.len(),
{
    if bs.len() == 0 {
        bs
    } else {
        let r = bindings_without(bs.drop_last(), id);
        if bs.last().id != id {
            r.push(bs.last())
        } else {
            r
        }
    }
}

/// The first binding with id `id`.
pub open spec fn find_binding(bs: Seq<BindingView>, id: Seq<char>) -> Option<BindingView>
    decreases bs.len(),
{
    if bs.len() == 0 {
        None
    } else if bs[0].id == id {
        Some(bs[0])
    } else {
        find_binding(bs.drop_first(), id)
    }
}

proof fn lemma_find_binding(bs: Seq<BindingView>, id: Seq<char>, i: int)
    requires
        0 <= i <= bs.len(),
        forall|j: int| 0 <= j < i ==> (#[trigger] bs[j]).id != id,
        i < bs.len() ==> bs[i].id == id,
    ensures
        find_binding(bs, id) == if i < bs.len() {
            Some(bs[i])
        } else {
            None
        },
    decreases bs.len(),
{
    if bs.len() > 0 && i > 0 {
        let t = bs.drop_first();
        assert forall|j: int| 0 <= j < i - 1 implies (#[trigger] t[j]).id != id by {
            assert(t[j] == bs[j + 1]);
        }
        if i < bs.len() {
            assert(t[i - 1] == bs[i]);
        }
        lemma_find_binding(t, id, i - 1);
    }
}

/// A binding with its key combination replaced.
pub open spec fn with_current(b: BindingView, current: Seq<char>) -> BindingView {
    BindingView {
        id: b.id,
        name: b.name,
        description: b.description,
        default_binding: b.default_binding,
        current_binding: current,
    }
}

/// What a binding change leaves to the caller.
pub enum BindingChange {
    /// The cancel binding, already stored: it is registered only while a
    /// recording runs.
    Stored(ShortcutBinding),
    /// Unregister `previous` and register `updated`; on success store
    /// `updated` with `put_binding`, on failure register `previous` again.
    Register { previous: ShortcutBinding, updated: ShortcutBinding },
}

fn profile_position(profiles: &Vec<TranscriptionProfile>, id: &str) -> (r: Option<usize>)
    ensures
        match r {
            Some(i) => i < profiles@.len() && profile_index(profiles_view(profiles@), id@) == i,
            None => profile_index(profiles_view(profiles@), id@) == -1,
        },
{
    let ghost ps = profiles_view(profiles@);
    let mut i: usize = 0;
    while i < profiles.len()
        invariant
            0 <= i <= profiles.len(),
            ps == profiles_view(profiles@),
            forall|j: int| 0 <= j < i ==> (#[trigger] ps[j]).id != id@,
        decreases profiles.len() - i,
    {
        if str_eq(profiles[i].id.as_str(), id) {
            proof {
                lemma_profile_index(ps, id@, i as int);
            }
            return Some(i);
        }
        i = i + 1;
    }
    proof {
        lemma_profile_index(ps, id@, i as int);
    }
    None
}

fn binding_id_of(profile_id: &str) -> (r: String)
    ensures
        r@ == profile_binding_id(profile_id@),
{
    let mut bid = chars_of("transcribe_");
    push_str(&mut bid, profile_id);
    string_of(bid.as_slice())
}

fn copy_binding(b: &ShortcutBinding) -> (r: ShortcutBinding)
    ensures
        r@ == b@,
{
    ShortcutBinding {
        id: copy_string(&b.id),
        name: copy_string(&b.name),
        description: copy_string(&b.description),
        default_binding: copy_string(&b.default_binding),
        current_binding: copy_string(&b.current_binding),
    }
}

fn not_found(prefix: &str, id: &str) -> (r: String)
    ensures
        r@ == prefix@ + id@ + "' not found"@,
{
    let mut v = chars_of(prefix);
    push_str(&mut v, id);
    push_str(&mut v, "' not found");
    string_of(v.as_slice())
}

impl ProfileSettings {
    /// Updates the first profile with id `id` and renames its binding; an
    /// unknown id is refused.
    pub fn update_transcription_profile(
        &mut self,
        id: &str,
        name: String,
        language: String,
        translate_to_english: bool,
        system_prompt: String,
        include_in_cycle: bool,
        push_to_talk: bool,
        llm_settings: ProfileLlmSettings,
    ) -> (r: Result<(), String>)
        requires
            old(self).wf(),
        ensures
            final(self).wf(),
            final(self).active_profile_id@ == old(self).active_profile_id@,
            profile_index(profiles_view(old(self).transcription_profiles@), id@) < 0 ==> r is Err
                && r->Err_0@ == "Profile with id '"@ + id@ + "' not found"@ && profiles_view(
                final(self).transcription_profiles@,
            ) == profiles_view(old(self).transcription_profiles@) && bindings_view(final(self).bindings@)
                == bindings_view(old(self).bindings@),
            profile_index(profiles_view(old(self).transcription_profiles@), id@) >= 0 ==> r is Ok
                && profiles_view(final(self).transcription_profiles@) == profiles_view(
                old(self).transcription_profiles@,
            ).update(
                profile_index(profiles_view(old(self).transcription_profiles@), id@),
                updated_profile_view(
                    profiles_view(old(self).transcription_profiles@)[profile_index(
                        profiles_view(old(self).transcription_profiles@),
                        id@,
                    )],
                    name@,
                    language@,
                    translate_to_english,
                    system_prompt@,
                    include_in_cycle,
                    push_to_talk,
                    llm_settings.enabled,
                    opt_chars(llm_settings.prompt_override),
                    opt_chars(llm_settings.model_override),
                ),
            ) && bindings_view(final(self).bindings@) == rename_binding(
                bindings_view(old(self).bindings@),
                profile_binding_id(id@),
                name@,
                profile_description(name@, translate_to_english),
            ),
    {
        let ghost ps = profiles_view(self.transcription_profiles@);
        let ghost bs = bindings_view(self.bindings@);
        let i = match profile_position(&self.transcription_profiles, id) {
            Some(i) => i,
            None => {
                return Err(not_found("Profile with id '", id));
            },
        };
        let description = description_of(name.as_str(), translate_to_english);
        let updated = TranscriptionProfile {
            id: copy_string(&self.transcription_profiles[i].id),
            name: copy_string(&name),
            language,
            translate_to_english,
            description: copy_string(&description),
            system_prompt,
            stt_prompt_override_enabled: self.transcription_profiles[i].stt_prompt_override_enabled,
            include_in_cycle,
            push_to_talk,
            llm_post_process_enabled: llm_settings.enabled,
            llm_prompt_override: llm_settings.prompt_override,
            llm_model_override: llm_settings.model_override,
        };
        let ghost uv = updated@;
        self.transcription_profiles.set(i, updated);
        assert(profiles_view(self.transcription_profiles@) =~= ps.update(i as int, uv));
        let bid = binding_id_of(id);
        match binding_index(&self.bindings, bid.as_str()) {
            Some(k) => {
                let b = &self.bindings[k];
                let renamed = ShortcutBinding {
                    id: copy_string(&b.id),
                    name,
                    description,
                    default_binding: copy_string(&b.default_binding),
                    current_binding: copy_string(&b.current_binding),
                };
                self.bindings.set(k, renamed);
                proof {
                    let rb = rename_binding(bs, bid@, name@, profile_description(name@, translate_to_english));
                    assert forall|j: int| 0 <= j < bs.len() implies bindings_view(self.bindings@)[j]
                        == #[trigger] rb[j] by {
                        if j != k {
                            assert(old(self).bindings@[j].id@ != old(self).bindings@[k as int].id@);
                            assert(bs[j].id != bid@);
                        }
                    }
                    assert(bindings_view(self.bindings@) =~= rb);
                    assert forall|a: int, c: int| 0 <= a < c < self.bindings@.len() implies #[trigger] self.bindings@[a].id@
                        != #[trigger] self.bindings@[c].id@ by {
                        assert(old(self).bindings@[a].id@ != old(self).bindings@[c].id@);
                        assert(bindings_view(self.bindings@)[a].id == bs[a].id);
                        assert(bindings_view(self.bindings@)[c].id == bs[c].id);
                    }
                }
            },
            None => {
                proof {
                    let rb = rename_binding(bs, bid@, name@, profile_description(name@, translate_to_english));
                    assert forall|j: int| 0 <= j < bs.len() implies bs[j] == #[trigger] rb[j] by {
                        assert(bs[j].id == self.bindings@[j].id@);
                    }
                    assert(bs =~= rb);
                }
            },
        }
        Ok(())
    }

    /// Deletes the profiles with id `id` and the binding `transcribe_<id>`;
    /// an active deleted profile gives way to `default`; an unknown id is
    /// refused. On success, the removed binding comes back when it had a
    /// key combination, for the caller to unregister.
    pub fn delete_transcription_profile(&mut self, id: &str) -> (r: Result<Option<ShortcutBinding>, String>)
        requires
            old(self).wf(),
        ensures
            final(self).wf(),
            profiles_without(profiles_view(old(self).transcription_profiles@), id@).len()
                == old(self).transcription_profiles@.len() ==> r is Err && r->Err_0@ == "Profile with id '"@
                + id@ + "' not found"@ && profiles_view(final(self).transcription_profiles@) == profiles_view(
                old(self).transcription_profiles@,
            ) && bindings_view(final(self).bindings@) == bindings_view(old(self).bindings@)
                && final(self).active_profile_id@ == old(self).active_profile_id@,
            profiles_without(profiles_view(old(self).transcription_profiles@), id@).len()
                < old(self).transcription_profiles@.len() ==> r is Ok && profiles_view(
                final(self).transcription_profiles@,
            ) == profiles_without(profiles_view(old(self).transcription_profiles@), id@) && bindings_view(
                final(self).bindings@,
            ) == bindings_without(bindings_view(old(self).bindings@), profile_binding_id(id@))
                && final(self).active_profile_id@ == (if old(self).active_profile_id@ == id@ {
                "default"@
            } else {
                old(self).active_profile_id@
            }) && match r->Ok_0 {
                Some(b) => find_binding(bindings_view(old(self).bindings@), profile_binding_id(id@))
                    == Some(b@) && b@.current_binding.len() > 0,
                None => match find_binding(bindings_view(old(self).bindings@), profile_binding_id(id@)) {
                    Some(b) => b.current_binding.len() == 0,
                    None => true,
                },
            },
    {
        let ghost ps = profiles_view(self.transcription_profiles@);
        let mut kept: Vec<TranscriptionProfile> = Vec::new();
        let n = self.transcription_profiles.len();
        let mut i: usize = 0;
        assert(ps.take(0) =~= Seq::<ProfileView>::empty());
        while i < n
            invariant
                0 <= i <= n,
                n == self.transcription_profiles.len(),
                ps == profiles_view(self.transcription_profiles@),
                profiles_view(kept@) == profiles_without(ps.take(i as int), id@),
            decreases n - i,
        {
            assert(ps.take(i + 1).drop_last() =~= ps.take(i as int));
            assert(ps.take(i + 1).last() == ps[i as int]);
            if !str_eq(self.transcription_profiles[i].id.as_str(), id) {
                let ghost before = profiles_view(kept@);
                kept.push(copy_profile(&self.transcription_profiles[i]));
                assert(profiles_view(kept@) =~= before.push(ps[i as int]));
            }
            i = i + 1;
        }
        assert(ps.take(n as int) =~= ps);
        if kept.len() == n {
            return Err(not_found("Profile with id '", id));
        }
        self.transcription_profiles = kept;
        if str_eq(self.active_profile_id.as_str(), id) {
            self.active_profile_id = str_to_string("default");
        }
        let bid = binding_id_of(id);
        let ghost bs = bindings_view(self.bindings@);
        let removed = match binding_index(&self.bindings, bid.as_str()) {
            Some(k) => {
                proof {
                    assert forall|j: int| 0 <= j < k implies (#[trigger] bs[j]).id != bid@ by {
                        assert(bs[j].id == self.bindings@[j].id@);
                    }
                    lemma_find_binding(bs, bid@, k as int);
                }
                if self.bindings[k].current_binding.as_str().as_bytes().len() > 0 {
                    Some(copy_binding(&self.bindings[k]))
                } else {
                    None
                }
            },
            None => {
                proof {
                    assert forall|j: int| 0 <= j < bs.len() implies (#[trigger] bs[j]).id != bid@ by {
                        assert(bs[j].id == self.bindings@[j].id@);
                    }
                    lemma_find_binding(bs, bid@, bs.len() as int);
                }
                None
            },
        };
        let mut kb: Vec<ShortcutBinding> = Vec::new();
        let m = self.bindings.len();
        let mut j: usize = 0;
        assert(bs.take(0) =~= Seq::<BindingView>::empty());
        while j < m
            invariant
                0 <= j <= m,
                m == self.bindings.len(),
                bs == bindings_view(self.bindings@),
                self.bindings@ == old(self).bindings@,
                old(self).wf(),
                bindings_view(kb@) == bindings_without(bs.take(j as int), bid@),
                forall|a: int| 0 <= a < kb@.len() ==> exists|c: int| 0 <= c < j && #[trigger] kb@[a].id@ == (#[trigger] self.bindings@[c]).id@,
                forall|a: int, c: int| 0 <= a < c < kb@.len() ==> (#[trigger] kb@[a]).id@ != (#[trigger] kb@[c]).id@,
            decreases m - j,
        {
            assert(bs.take(j + 1).drop_last() =~= bs.take(j as int));
            assert(bs.take(j + 1).last() == bs[j as int]);
            if !str_eq(self.bindings[j].id.as_str(), bid.as_str()) {
                let ghost before = bindings_view(kb@);
                let ghost kb_old = kb@;
                kb.push(copy_binding(&self.bindings[j]));
                assert(bindings_view(kb@) =~= before.push(bs[j as int]));
                proof {
                    assert forall|a: int| 0 <= a < kb@.len() implies exists|c: int| 0 <= c < j + 1 && #[trigger] kb@[a].id@ == (#[trigger] self.bindings@[c]).id@ by {
                        if a < kb_old.len() {
                            assert(kb@[a] == kb_old[a]);
                        } else {
                            assert(kb@[a].id@ == self.bindings@[j as int].id@);
                        }
                    }
                    assert forall|a: int, c: int| 0 <= a < c < kb@.len() implies (#[trigger] kb@[a]).id@ != (#[trigger] kb@[c]).id@ by {
                        if c == kb@.len() - 1 {
                            assert(kb@[a] == kb_old[a]);
                            let e = choose|e: int| 0 <= e < j && #[trigger] kb_old[a].id@ == (#[trigger] self.bindings@[e]).id@;
                            assert(self.bindings@[e].id@ != self.bindings@[j as int].id@);
                        } else {
                            assert(kb@[a] == kb_old[a]);
                            assert(kb@[c] == kb_old[c]);
                        }
                    }
                }
            }
            j = j + 1;
        }
        assert(bs.take(m as int) =~= bs);
        self.bindings = kb;
        Ok(removed)
    }

    /// Changes the key combination of the binding `id`: the cancel binding
    /// is stored at once; any other is validated and handed back for
    /// registration. An unknown id or a combination of modifiers only is
    /// refused.
    pub fn change_binding(&mut self, id: &str, binding: String) -> (r: Result<BindingChange, String>)
        requires
            old(self).wf(),
        ensures
            final(self).wf(),
            profiles_view(final(self).transcription_profiles@) == profiles_view(
                old(self).transcription_profiles@,
            ),
            final(self).active_profile_id@ == old(self).active_profile_id@,
            find_binding(bindings_view(old(self).bindings@), id@) is None ==> r is Err && r->Err_0@
                == "Binding with id '"@ + id@ + "' not found"@ && bindings_view(final(self).bindings@)
                == bindings_view(old(self).bindings@),
            find_binding(bindings_view(old(self).bindings@), id@) matches Some(b) ==> {
                let nb = with_current(b, binding@);
                if id@ == "cancel"@ {
                    &&& r is Ok
                    &&& r->Ok_0 is Stored
                    &&& r->Ok_0->Stored_0@ == nb
                    &&& bindings_view(final(self).bindings@) == put_binding(bindings_view(old(self).bindings@), nb)
                } else if has_non_modifier(binding@) {
                    &&& r is Ok
                    &&& r->Ok_0 is Register
                    &&& r->Ok_0->previous@ == b
                    &&& r->Ok_0->updated@ == nb
                    &&& bindings_view(final(self).bindings@) == bindings_view(old(self).bindings@)
                } else {
                    &&& r is Err
                    &&& r->Err_0@ == "Shortcut must contain at least one non-modifier key"@
                    &&& bindings_view(final(self).bindings@) == bindings_view(old(self).bindings@)
                }
            },
    {
        let ghost bs = bindings_view(self.bindings@);
        let k = match binding_index(&self.bindings, id) {
            Some(k) => {
                proof {
                    assert forall|j: int| 0 <= j < k implies (#[trigger] bs[j]).id != id@ by {
                        assert(bs[j].id == self.bindings@[j].id@);
                    }
                    lemma_find_binding(bs, id@, k as int);
                }
                k
            },
            None => {
                proof {
                    assert forall|j: int| 0 <= j < bs.len() implies (#[trigger] bs[j]).id != id@ by {
                        assert(bs[j].id == self.bindings@[j].id@);
                    }
                    lemma_find_binding(bs, id@, bs.len() as int);
                }
                return Err(not_found("Binding with id '", id));
            },
        };
        let previous = copy_binding(&self.bindings[k]);
        let updated = ShortcutBinding {
            id: copy_string(&previous.id),
            name: copy_string(&previous.name),
            description: copy_string(&previous.description),
            default_binding: copy_string(&previous.default_binding),
            current_binding: binding,
        };
        if str_eq(id, "cancel") {
            let stored = copy_binding(&updated);
            self.put_binding(updated);
            return Ok(BindingChange::Stored(stored));
        }
        match validate_shortcut_string(updated.current_binding.as_str()) {
            Ok(()) => Ok(BindingChange::Register { previous, updated }),
            Err(e) => Err(e),
        }
    }

    /// Resets the binding `id` to its default combination, as
    /// `change_binding` does.
    pub fn reset_binding(&mut self, id: &str) -> (r: Result<BindingChange, String>)
        requires
            old(self).wf(),
            find_binding(bindings_view(old(self).bindings@), id@) is Some,
        ensures
            final(self).wf(),
            profiles_view(final(self).transcription_profiles@) == profiles_view(
                old(self).transcription_profiles@,
            ),
            final(self).active_profile_id@ == old(self).active_profile_id@,
            ({
                let b = find_binding(bindings_view(old(self).bindings@), id@)->Some_0;
                let nb = with_current(b, b.default_binding);
                if id@ == "cancel"@ {
                    &&& r is Ok
                    &&& r->Ok_0 is Stored
                    &&& r->Ok_0->Stored_0@ == nb
                    &&& bindings_view(final(self).bindings@) == put_binding(bindings_view(old(self).bindings@), nb)
                } else if has_non_modifier(b.default_binding) {
                    &&& r is Ok
                    &&& r->Ok_0 is Register
                    &&& r->Ok_0->previous@ == b
                    &&& r->Ok_0->updated@ == nb
                    &&& bindings_view(final(self).bindings@) == bindings_view(old(self).bindings@)
                } else {
                    &&& r is Err
                    &&& r->Err_0@ == "Shortcut must contain at least one non-modifier key"@
                    &&& bindings_view(final(self).bindings@) == bindings_view(old(self).bindings@)
                }
            }),
    {
        let ghost bs = bindings_view(self.bindings@);
        let default_binding = match binding_index(&self.bindings, id) {
            Some(k) => {
                proof {
                    assert forall|j: int| 0 <= j < k implies (#[trigger] bs[j]).id != id@ by {
                        assert(bs[j].id == self.bindings@[j].id@);
                    }
                    lemma_find_binding(bs, id@, k as int);
                }
                copy_string(&self.bindings[k].default_binding)
            },
            None => {
                proof {
                    assert forall|j: int| 0 <= j < bs.len() implies (#[trigger] bs[j]).id != id@ by {
                        assert(bs[j].id == self.bindings@[j].id@);
                    }
                    lemma_find_binding(bs, id@, bs.len() as int);
                }
                String::new()
            },
        };
        self.change_binding(id, default_binding)
    }
}

/// The error when the new combination could not be registered.
pub fn register_failure_message(error: &str) -> (r: String)
    ensures
        r@ == "Failed to register shortcut: "@ + error@,
{
    let mut v = chars_of("Failed to register shortcut: ");
    push_str(&mut v, error);
    string_of(v.as_slice())
}


/// The platform the application runs on, for its default shortcuts.
#[derive(Clone, Copy, Debug, PartialEq, Eq, Structural)]
pub enum Platform {
    Windows,
    MacOs,
    Linux,
    Other,
}

/// A binding whose default is also its current combination.
pub open spec fn binding_view(id: Seq<char>, name: Seq<char>, description: Seq<char>, key: Seq<char>) -> BindingView {
    BindingView { id, name, description, default_binding: key, current_binding: key }
}

/// The default transcription shortcut.
pub open spec fn transcribe_key(os: Platform) -> Seq<char> {
    match os {
        Platform::MacOs => "option+space"@,
        Platform::Other => "alt+space"@,
        _ => "ctrl+space"@,
    }
}

/// The default send-to-extension shortcut.
pub open spec fn send_key(os: Platform) -> Seq<char> {
    match os {
        Platform::MacOs => "option+command+space"@,
        Platform::Other => "alt+space"@,
        _ => "ctrl+alt+space"@,
    }
}

/// The default send-with-selection shortcut.
pub open spec fn send_selection_key(os: Platform) -> Seq<char> {
    match os {
        Platform::MacOs => "option+command+shift+space"@,
        Platform::Other => "alt+shift+space"@,
        _ => "ctrl+alt+shift+space"@,
    }
}

/// The bindings of a fresh installation, in order; the Windows-only
/// actions appear on Windows alone.
pub open spec fn default_bindings_view(os: Platform) -> Seq<BindingView> {
    let first = seq![
        binding_view("transcribe"@, "Transcribe"@, "Converts your speech into text."@, transcribe_key(os)),
        binding_view(
            "send_to_extension"@,
            "Send to Extension"@,
            "Send transcription to AivoRelay Connector."@,
            send_key(os),
        ),
        binding_view(
            "send_to_extension_with_selection"@,
            "Send + Selection to Extension"@,
            "Send transcription plus copied selection to AivoRelay Connector."@,
            send_selection_key(os),
        ),
    ];
    let windows_first = seq![
        binding_view(
            "ai_replace_selection"@,
            "AI Replace Selection"@,
            "Cut selected text, speak an instruction, replace selection with AI output"@,
            "ctrl+shift+space"@,
        ),
        binding_view(
            "send_screenshot_to_extension"@,
            "Send Screenshot to Extension"@,
            "Capture screenshot with voice instruction and send to AivoRelay Connector."@,
            ""@,
        ),
    ];
    let middle = seq![
        binding_view("cancel"@, "Cancel"@, "Cancels the current recording."@, "escape"@),
        binding_view(
            "repaste_last"@,
            "Repaste Last"@,
            "Paste the most recent transcription or AI response again."@,
            "ctrl+shift+z"@,
        ),
    ];
    let windows_last = seq![
        binding_view(
            "voice_command"@,
            "Voice Command"@,
            "Speak to run predefined scripts or get AI-suggested PowerShell commands."@,
            ""@,
        ),
    ];
    let last = seq![
        binding_view(
            "transcribe_default"@,
            "Transcribe (Default Profile)"@,
            "Transcribe using global language settings, regardless of active profile."@,
            ""@,
        ),
        binding_view(
            "cycle_profile"@,
            "Cycle Transcription Profile"@,
            "Switch to the next transcription profile in the rotation."@,
            ""@,
        ),
    ];
    if os == Platform::Windows {
        first + windows_first + middle + windows_last + last
    } else {
        first + middle + last
    }
}

fn make_binding(id: &str, name: &str, description: &str, key: &str) -> (r: ShortcutBinding)
    ensures
        r@ == binding_view(id@, name@, description@, key@),
{
    ShortcutBinding {
        id: str_to_string(id),
        name: str_to_string(name),
        description: str_to_string(description),
        default_binding: str_to_string(key),
        current_binding: str_to_string(key),
    }
}

/// The bindings of a fresh installation.
pub fn default_bindings(os: Platform) -> (r: Vec<ShortcutBinding>)
    ensures
        bindings_view(r@) == default_bindings_view(os),
{
    let (k1, k2, k3) = match os {
        Platform::MacOs => ("option+space", "option+command+space", "option+command+shift+space"),
        Platform::Other => ("alt+space", "alt+space", "alt+shift+space"),
        _ => ("ctrl+space", "ctrl+alt+space", "ctrl+alt+shift+space"),
    };
    let mut v: Vec<ShortcutBinding> = Vec::new();
    v.push(make_binding("transcribe", "Transcribe", "Converts your speech into text.", k1));
    v.push(make_binding("send_to_extension", "Send to Extension", "Send transcription to AivoRelay Connector.", k2));
    v.push(
        make_binding(
            "send_to_extension_with_selection",
            "Send + Selection to Extension",
            "Send transcription plus copied selection to AivoRelay Connector.",
            k3,
        ),
    );
    let windows = match os {
        Platform::Windows => true,
        _ => false,
    };
    if windows {
        v.push(
            make_binding(
                "ai_replace_selection",
                "AI Replace Selection",
                "Cut selected text, speak an instruction, replace selection with AI output",
                "ctrl+shift+space",
            ),
        );
        v.push(
            make_binding(
                "send_screenshot_to_extension",
                "Send Screenshot to Extension",
                "Capture screenshot with voice instruction and send to AivoRelay Connector.",
                "",
            ),
        );
    }
    v.push(make_binding("cancel", "Cancel", "Cancels the current recording.", "escape"));
    v.push(
        make_binding(
            "repaste_last",
            "Repaste Last",
            "Paste the most recent transcription or AI response again.",
            "ctrl+shift+z",
        ),
    );
    if windows {
        v.push(
            make_binding(
                "voice_command",
                "Voice Command",
                "Speak to run predefined scripts or get AI-suggested PowerShell commands.",
                "",
            ),
        );
    }
    v.push(
        make_binding(
            "transcribe_default",
            "Transcribe (Default Profile)",
            "Transcribe using global language settings, regardless of active profile.",
            "",
        ),
    );
    v.push(
        make_binding(
            "cycle_profile",
            "Cycle Transcription Profile",
            "Switch to the next transcription profile in the rotation.",
            "",
        ),
    );
    assert(bindings_view(v@) =~= default_bindings_view(os));
    v
}

/// The bindings with each default whose id is missing added, in order.
pub open spec fn merge_bindings(bs: Seq<BindingView>, ds: Seq<BindingView>) -> Seq<BindingView>
    decreases ds.len(),
{
    if ds.len() == 0 {
        bs
    } else {
        let m = merge_bindings(bs, ds.drop_last());
        if find_binding(m, ds.last().id) is Some {
            m
        } else {
            m.push(ds.last())
        }
    }
}

proof fn lemma_merge_bindings_grows(bs: Seq<BindingView>, ds: Seq<BindingView>)
    ensures
        merge_bindings(bs, ds).len() >= bs.len(),
        merge_bindings(bs, ds).subrange(0, bs.len() as int) == bs,
    decreases ds.len(),
{
    if ds.len() > 0 {
        lemma_merge_bindings_grows(bs, ds.drop_last());
        let m = merge_bindings(bs, ds.drop_last());
        assert(m.push(ds.last()).subrange(0, bs.len() as int) =~= m.subrange(0, bs.len() as int));
    }
}


proof fn lemma_find_binding_iff(bs: Seq<BindingView>, id: Seq<char>)
    ensures
        find_binding(bs, id) is Some <==> exists|i: int| 0 <= i < bs.len() && (#[trigger] bs[i]).id == id,
    decreases bs.len(),
{
    if bs.len() > 0 {
        let t = bs.drop_first();
        lemma_find_binding_iff(t, id);
        if exists|i: int| 0 <= i < t.len() && (#[trigger] t[i]).id == id {
            let i = choose|i: int| 0 <= i < t.len() && (#[trigger] t[i]).id == id;
            assert(bs[i + 1].id == id);
        }
        if exists|i: int| 0 <= i < bs.len() && (#[trigger] bs[i]).id == id {
            let i = choose|i: int| 0 <= i < bs.len() && (#[trigger] bs[i]).id == id;
            if i > 0 && bs[0].id != id {
                assert(t[i - 1].id == id);
            }
        }
    }
}

proof fn lemma_merge_bindings_covers(bs: Seq<BindingView>, ds: Seq<BindingView>)
    ensures
        forall|j: int| 0 <= j < ds.len() ==> find_binding(merge_bindings(bs, ds), (#[trigger] ds[j]).id) is Some,
    decreases ds.len(),
{
    if ds.len() > 0 {
        let d = ds.drop_last();
        lemma_merge_bindings_covers(bs, d);
        let m = merge_bindings(bs, d);
        let r = merge_bindings(bs, ds);
        assert forall|j: int| 0 <= j < ds.len() implies find_binding(r, (#[trigger] ds[j]).id) is Some by {
            lemma_find_binding_iff(m, ds[j].id);
            lemma_find_binding_iff(r, ds[j].id);
            if j < d.len() {
                assert(d[j] == ds[j]);
                let i = choose|i: int| 0 <= i < m.len() && (#[trigger] m[i]).id == ds[j].id;
                assert(r[i] == m[i]);
            } else if find_binding(m, ds.last().id) is None {
                assert(r[m.len() as int] == ds.last());
            }
        }
    }
}

proof fn lemma_merge_bindings_identity(bs: Seq<BindingView>, ds: Seq<BindingView>)
    requires
        forall|j: int| 0 <= j < ds.len() ==> find_binding(bs, (#[trigger] ds[j]).id) is Some,
    ensures
        merge_bindings(bs, ds) == bs,
    decreases ds.len(),
{
    if ds.len() > 0 {
        let d = ds.drop_last();
        assert forall|j: int| 0 <= j < d.len() implies find_binding(bs, (#[trigger] d[j]).id) is Some by {
            assert(d[j] == ds[j]);
        }
        lemma_merge_bindings_identity(bs, d);
        assert(find_binding(bs, ds[ds.len() - 1].id) is Some);
    }
}

proof fn lemma_profiles_without_absent(ps: Seq<ProfileView>, id: Seq<char>)
    requires
        forall|j: int| 0 <= j < ps.len() ==> (#[trigger] ps[j]).id != id,
    ensures
        profiles_without(ps, id) == ps,
    decreases ps.len(),
{
    if ps.len() > 0 {
        lemma_profiles_without_absent(ps.drop_last(), id);
        assert(ps.drop_last().push(ps.last()) =~= ps);
    }
}

proof fn lemma_bindings_without_absent(bs: Seq<BindingView>, id: Seq<char>)
    requires
        forall|j: int| 0 <= j < bs.len() ==> (#[trigger] bs[j]).id != id,
    ensures
        bindings_without(bs, id) == bs,
    decreases bs.len(),
{
    if bs.len() > 0 {
        lemma_bindings_without_absent(bs.drop_last(), id);
        assert(bs.drop_last().push(bs.last()) =~= bs);
    }
}

/// Deleting a profile just added undoes the addition: with no profile of
/// its id and no binding of its binding id before, the deletion finds it,
/// and the profiles and the bindings are as they were.
pub proof fn lemma_add_then_delete_restores(
    ps: Seq<ProfileView>,
    bs: Seq<BindingView>,
    p: ProfileView,
    b: BindingView,
)
    requires
        forall|j: int| 0 <= j < ps.len() ==> (#[trigger] ps[j]).id != p.id,
        forall|j: int| 0 <= j < bs.len() ==> (#[trigger] bs[j]).id != b.id,
        b.id == profile_binding_id(p.id),
    ensures
        profiles_without(ps.push(p), p.id).len() < ps.push(p).len(),
        profiles_without(ps.push(p), p.id) == ps,
        bindings_without(put_binding(bs, b), profile_binding_id(p.id)) == bs,
{
    lemma_profiles_without_absent(ps, p.id);
    assert(ps.push(p).drop_last() =~= ps);
    assert(put_binding(bs, b) == bs.push(b));
    lemma_bindings_without_absent(bs, b.id);
    assert(bs.push(b).drop_last() =~= bs);
}

/// Merging the default bindings a second time adds nothing: after one
/// merge every default id is present.
pub proof fn lemma_merge_bindings_idempotent(bs: Seq<BindingView>, ds: Seq<BindingView>)
    ensures
        merge_bindings(merge_bindings(bs, ds), ds) == merge_bindings(bs, ds),
        forall|j: int| 0 <= j < ds.len() ==> find_binding(merge_bindings(bs, ds), (#[trigger] ds[j]).id) is Some,
{
    lemma_merge_bindings_covers(bs, ds);
    lemma_merge_bindings_identity(merge_bindings(bs, ds), ds);
}

impl ProfileSettings {
    /// Adds the default bindings whose ids are missing (as loading the
    /// settings does); true when any was added.
    pub fn merge_default_bindings(&mut self, defaults: &Vec<ShortcutBinding>) -> (r: bool)
        requires
            old(self).wf(),
        ensures
            final(self).wf(),
            bindings_view(final(self).bindings@) == merge_bindings(
                bindings_view(old(self).bindings@),
                bindings_view(defaults@),
            ),
            r == (final(self).bindings@.len() > old(self).bindings@.len()),
            profiles_view(final(self).transcription_profiles@) == profiles_view(
                old(self).transcription_profiles@,
            ),
            final(self).active_profile_id@ == old(self).active_profile_id@,
    {
        let ghost ds = bindings_view(defaults@);
        let ghost bs0 = bindings_view(self.bindings@);
        let n0 = self.bindings.len();
        let mut i: usize = 0;
        assert(ds.take(0) =~= Seq::<BindingView>::empty());
        while i < defaults.len()
            invariant
                0 <= i <= defaults.len(),
                ds == bindings_view(defaults@),
                bs0 == bindings_view(old(self).bindings@),
                n0 == old(self).bindings@.len(),
                self.wf(),
                bindings_view(self.bindings@) == merge_bindings(bs0, ds.take(i as int)),
                profiles_view(self.transcription_profiles@) == profiles_view(old(self).transcription_profiles@),
                self.active_profile_id@ == old(self).active_profile_id@,
            decreases defaults.len() - i,
        {
            assert(ds.take(i + 1).drop_last() =~= ds.take(i as int));
            assert(ds.take(i + 1).last() == ds[i as int]);
            let ghost bs = bindings_view(self.bindings@);
            let d = &defaults[i];
            match binding_index(&self.bindings, d.id.as_str()) {
                Some(k) => {
                    proof {
                        assert forall|j: int| 0 <= j < k implies (#[trigger] bs[j]).id != d.id@ by {
                            assert(bs[j].id == self.bindings@[j].id@);
                        }
                        lemma_find_binding(bs, d.id@, k as int);
                    }
                },
                None => {
                    proof {
                        assert forall|j: int| 0 <= j < bs.len() implies (#[trigger] bs[j]).id != d.id@ by {
                            assert(bs[j].id == self.bindings@[j].id@);
                        }
                        lemma_find_binding(bs, d.id@, bs.len() as int);
                    }
                    let ghost old_bindings = self.bindings@;
                    self.bindings.push(copy_binding(d));
                    assert(bindings_view(self.bindings@) =~= bs.push(ds[i as int]));
                    proof {
                        assert forall|a: int, b: int| 0 <= a < b < self.bindings@.len() implies #[trigger] self.bindings@[a].id@
                            != #[trigger] self.bindings@[b].id@ by {
                            if b < old_bindings.len() {
                                assert(old_bindings[a].id@ != old_bindings[b].id@);
                            } else {
                                assert(bs[a].id != d.id@);
                            }
                        }
                    }
                },
            }
            i = i + 1;
        }
        assert(ds.take(defaults.len() as int) =~= ds);
        proof {
            lemma_merge_bindings_grows(bs0, ds);
        }
        self.bindings.len() > n0
    }

    /// Falls back to `default` when the active profile does not exist;
    /// true when it did.
    pub fn normalize_active_profile(&mut self) -> (r: bool)
        ensures
            r == !active_id_valid(profiles_view(old(self).transcription_profiles@), old(self).active_profile_id@),
            final(self).active_profile_id@ == if r {
                "default"@
            } else {
                old(self).active_profile_id@
            },
            profiles_view(final(self).transcription_profiles@) == profiles_view(
                old(self).transcription_profiles@,
            ),
            bindings_view(final(self).bindings@) == bindings_view(old(self).bindings@),
            final(self).bindings@ == old(self).bindings@,
    {
        let ghost ps = profiles_view(self.transcription_profiles@);
        let known = match transcription_profile(&self.transcription_profiles, self.active_profile_id.as_str()) {
            Some(_) => true,
            None => false,
        };
        proof {
            lemma_find_profile_iff(ps, self.active_profile_id@);
        }
        if !str_eq(self.active_profile_id.as_str(), "default") && !known {
            self.active_profile_id = str_to_string("default");
            return true;
        }
        false
    }
}

/// Moves the old "keep the window open" switch into the voice-command
/// defaults (on: not silent) and clears it; true when it was on.
pub fn migrate_keep_window_open(defaults: &mut crate::settings::VoiceCommandDefaults, keep_window_open: &mut bool) -> (r:
    bool)
    ensures
        r == *old(keep_window_open),
        !*final(keep_window_open),
        final(defaults).silent == if r {
            false
        } else {
            old(defaults).silent
        },
        final(defaults).no_profile == old(defaults).no_profile,
        final(defaults).use_pwsh == old(defaults).use_pwsh,
        final(defaults).execution_policy == old(defaults).execution_policy,
{
    if *keep_window_open {
        defaults.silent = false;
        *keep_window_open = false;
        return true;
    }
    false
}

/// The default bindings registered at startup, in order: each one except
/// `cancel` (registered while recording), as the user stored it or else as
/// it comes, when it has a key combination.
pub open spec fn startup_defaults(bs: Seq<BindingView>, ds: Seq<BindingView>) -> Seq<BindingView>
    decreases ds.len(),
{
    if ds.len() == 0 {
        Seq::empty()
    } else {
        let prev = startup_defaults(bs, ds.drop_last());
        let d = ds.last();
        let b = match find_binding(bs, d.id) {
            Some(b) => b,
            None => d,
        };
        if d.id != "cancel"@ && b.current_binding.len() > 0 {
            prev.push(b)
        } else {
            prev
        }
    }
}

/// The profile bindings registered at startup, in profile order: the stored
/// binding of each profile that has one with a key combination.
pub open spec fn startup_profiles(bs: Seq<BindingView>, ps: Seq<ProfileView>) -> Seq<BindingView>
    decreases ps.len(),
{
    if ps.len() == 0 {
        Seq::empty()
    } else {
        let prev = startup_profiles(bs, ps.drop_last());
        match find_binding(bs, profile_binding_id(ps.last().id)) {
            Some(b) => if b.current_binding.len() > 0 {
                prev.push(b)
            } else {
                prev
            },
            None => prev,
        }
    }
}

impl ProfileSettings {
    /// The stored binding with id `id`.
    pub fn binding(&self, id: &str) -> (r: Option<&ShortcutBinding>)
        ensures
            match r {
                Some(b) => find_binding(bindings_view(self.bindings@), id@) == Some(b@),
                None => find_binding(bindings_view(self.bindings@), id@) is None,
            },
    {
        let ghost bs = bindings_view(self.bindings@);
        match binding_index(&self.bindings, id) {
            Some(k) => {
                proof {
                    assert forall|j: int| 0 <= j < k implies (#[trigger] bs[j]).id != id@ by {
                        assert(bs[j].id == self.bindings@[j].id@);
                    }
                    lemma_find_binding(bs, id@, k as int);
                }
                Some(&self.bindings[k])
            },
            None => {
                proof {
                    assert forall|j: int| 0 <= j < bs.len() implies (#[trigger] bs[j]).id != id@ by {
                        assert(bs[j].id == self.bindings@[j].id@);
                    }
                    lemma_find_binding(bs, id@, bs.len() as int);
                }
                None
            },
        }
    }

    /// The shortcuts to register at startup: the default
    /// bindings as stored, then the profile bindings, leaving out the
    /// cancel binding and those without a key combination.
    pub fn startup_bindings(&self, defaults: &Vec<ShortcutBinding>) -> (r: Vec<ShortcutBinding>)
        ensures
            bindings_view(r@) == startup_defaults(bindings_view(self.bindings@), bindings_view(defaults@))
                + startup_profiles(bindings_view(self.bindings@), profiles_view(self.transcription_profiles@)),
    {
        let ghost bs = bindings_view(self.bindings@);
        let ghost ds = bindings_view(defaults@);
        let ghost ps = profiles_view(self.transcription_profiles@);
        let mut out: Vec<ShortcutBinding> = Vec::new();
        let mut i: usize = 0;
        assert(ds.take(0) =~= Seq::<BindingView>::empty());
        while i < defaults.len()
            invariant
                0 <= i <= defaults.len(),
                bs == bindings_view(self.bindings@),
                ds == bindings_view(defaults@),
                bindings_view(out@) == startup_defaults(bs, ds.take(i as int)),
            decreases defaults.len() - i,
        {
            assert(ds.take(i + 1).drop_last() =~= ds.take(i as int));
            assert(ds.take(i + 1).last() == ds[i as int]);
            let d = &defaults[i];
            let b = match self.binding(d.id.as_str()) {
                Some(b) => b,
                None => d,
            };
            if !str_eq(d.id.as_str(), "cancel") && !crate::text::is_empty_str(b.current_binding.as_str()) {
                let ghost before = bindings_view(out@);
                out.push(copy_binding(b));
                assert(bindings_view(out@) =~= before.push(b@));
            }
            i = i + 1;
        }
        assert(ds.take(defaults.len() as int) =~= ds);
        let ghost first = bindings_view(out@);
        let mut j: usize = 0;
        assert(ps.take(0) =~= Seq::<ProfileView>::empty());
        assert(first + startup_profiles(bs, ps.take(0)) =~= first);
        while j < self.transcription_profiles.len()
            invariant
                0 <= j <= self.transcription_profiles.len(),
                bs == bindings_view(self.bindings@),
                ps == profiles_view(self.transcription_profiles@),
                first == startup_defaults(bs, ds),
                bindings_view(out@) == first + startup_profiles(bs, ps.take(j as int)),
            decreases self.transcription_profiles.len() - j,
        {
            assert(ps.take(j + 1).drop_last() =~= ps.take(j as int));
            assert(ps.take(j + 1).last() == ps[j as int]);
            let bid = binding_id_of(self.transcription_profiles[j].id.as_str());
            match self.binding(bid.as_str()) {
                Some(b) => {
                    if !crate::text::is_empty_str(b.current_binding.as_str()) {
                        let ghost before = bindings_view(out@);
                        out.push(copy_binding(b));
                        assert(bindings_view(out@) =~= before.push(b@));
                        assert(first + startup_profiles(bs, ps.take(j + 1)) =~= (first + startup_profiles(
                            bs,
                            ps.take(j as int),
                        )).push(b@));
                    }
                },
                None => {},
            }
            j = j + 1;
        }
        assert(ps.take(self.transcription_profiles.len() as int) =~= ps);
        out
    }
}

/// The ids a cycle goes through: `default`, then the profiles included in
/// the cycle, in order.
pub open spec fn cycle_ids(ps: Seq<ProfileView>) -> Seq<Seq<char>>
    decreases ps.len(),
{
    if ps.len() == 0 {
        seq!["default"@]
    } else if ps.last().include_in_cycle {
        cycle_ids(ps.drop_last()).push(ps.last().id)
    } else {
        cycle_ids(ps.drop_last())
    }
}

/// The first position of `id` in `s`, or 0.
pub open spec fn position_or_zero(s: Seq<Seq<char>>, id: Seq<char>) -> int {
    match crate::text::find(s, seq![id]) {
        Some(i) => i,
        None => 0,
    }
}

/// The profile a cycle moves to: `default` when nothing else is in the
/// cycle; otherwise the one after the active profile (after `default` when
/// the active one is not in the cycle), wrapping around.
pub open spec fn next_in_cycle(ps: Seq<ProfileView>, active: Seq<char>) -> Seq<char> {
    let c = cycle_ids(ps);
    if c.len() <= 1 {
        "default"@
    } else {
        c[(position_or_zero(c, active) + 1) % (c.len() as int)]
    }
}

proof fn lemma_cycle_nonempty(ps: Seq<ProfileView>)
    ensures
        cycle_ids(ps).len() >= 1,
        cycle_ids(ps)[0] == "default"@,
        cycle_ids(ps).len() <= ps.len() + 1,
    decreases ps.len(),
{
    if ps.len() > 0 {
        lemma_cycle_nonempty(ps.drop_last());
    }
}

/// The profile the cycle shortcut switches to;
/// the caller then makes it active.
pub fn cycle_to_next_profile(profiles: &Vec<TranscriptionProfile>, active_profile_id: &str) -> (r: String)
    ensures
        r@ == next_in_cycle(profiles_view(profiles@), active_profile_id@),
{
    let ghost ps = profiles_view(profiles@);
    let mut ids: Vec<String> = Vec::new();
    ids.push(str_to_string("default"));
    let mut i: usize = 0;
    assert(ps.take(0) =~= Seq::<ProfileView>::empty());
    assert(strings_view(ids@) =~= seq!["default"@]);
    while i < profiles.len()
        invariant
            0 <= i <= profiles.len(),
            ps == profiles_view(profiles@),
            strings_view(ids@) == cycle_ids(ps.take(i as int)),
            ids@.len() <= i + 1,
        decreases profiles.len() - i,
    {
        assert(ps.take(i + 1).drop_last() =~= ps.take(i as int));
        assert(ps.take(i + 1).last() == ps[i as int]);
        if profiles[i].include_in_cycle {
            let ghost before = strings_view(ids@);
            ids.push(copy_string(&profiles[i].id));
            assert(strings_view(ids@) =~= before.push(ps[i as int].id));
        }
        i = i + 1;
    }
    assert(ps.take(profiles.len() as int) =~= ps);
    let ghost c = strings_view(ids@);
    if ids.len() <= 1 {
        return str_to_string("default");
    }
    let mut k: usize = 0;
    let ghost target = seq![active_profile_id@];
    while k < ids.len()
        invariant
            0 <= k <= ids.len(),
            ids@.len() > 1,
            c == strings_view(ids@),
            target == seq![active_profile_id@],
            ps == profiles_view(profiles@),
            c == cycle_ids(ps),
            crate::text::find(c, target) == crate::text::find_from(c, target, k as int),
        decreases ids.len() - k,
    {
        assert(c[k as int] == ids@[k as int]@);
        assert(c.subrange(k as int, k + 1) =~= seq![c[k as int]]);
        if str_eq(ids[k].as_str(), active_profile_id) {
            assert(c.subrange(k as int, k + 1) =~= target);
            assert(crate::text::matches_at(c, target, k as int));
            assert(position_or_zero(c, active_profile_id@) == k);
            let next = (k + 1) % ids.len();
            assert(c[next as int] == ids@[next as int]@);
            return copy_string(&ids[next]);
        }
        assert(c.subrange(k as int, k + 1)[0] == c[k as int]);
        assert(target[0] == active_profile_id@);
        assert(c.subrange(k as int, k + 1) != target);
        assert(!crate::text::matches_at(c, target, k as int));
        k = k + 1;
    }
    assert(crate::text::find_from(c, target, ids.len() as int) is None);
    assert(position_or_zero(c, active_profile_id@) == 0);
    let next = 1 % ids.len();
    assert(c[next as int] == ids@[next as int]@);
    copy_string(&ids[next])
}

/// `x` is the id of a profile included in the cycle.
pub open spec fn is_included_id(ps: Seq<ProfileView>, x: Seq<char>) -> bool {
    exists|i: int| 0 <= i < ps.len() && (#[trigger] ps[i]).id == x && ps[i].include_in_cycle
}

/// The cycle always lands on `default` or on a profile included in it.
pub proof fn lemma_cycle_lands_in_cycle(ps: Seq<ProfileView>, active: Seq<char>)
    ensures
        next_in_cycle(ps, active) == "default"@ || is_included_id(ps, next_in_cycle(ps, active)),
{
    lemma_cycle_nonempty(ps);
    lemma_cycle_members(ps);
    let c = cycle_ids(ps);
    if c.len() > 1 {
        let j = (position_or_zero(c, active) + 1) % (c.len() as int);
        if j > 0 {
            assert(is_included_id(ps, c[j]));
        }
    }
}

proof fn lemma_cycle_members(ps: Seq<ProfileView>)
    ensures
        forall|j: int| 0 < j < cycle_ids(ps).len() ==> is_included_id(ps, #[trigger] cycle_ids(ps)[j]),
    decreases ps.len(),
{
    if ps.len() > 0 {
        let d = ps.drop_last();
        lemma_cycle_members(d);
        lemma_cycle_nonempty(d);
        let c = cycle_ids(ps);
        let cd = cycle_ids(d);
        assert forall|j: int| 0 < j < c.len() implies is_included_id(ps, #[trigger] c[j]) by {
            if j < cd.len() {
                assert(c[j] == cd[j]);
                assert(is_included_id(d, cd[j]));
                let i = choose|i: int| 0 <= i < d.len() && (#[trigger] d[i]).id == cd[j] && d[i].include_in_cycle;
                assert(ps[i] == d[i]);
            } else {
                assert(ps.last().include_in_cycle);
                assert(c[j] == ps.last().id);
                assert(ps[ps.len() - 1] == ps.last());
            }
        }
    }
}

/// The error for an unknown provider.
pub open spec fn provider_not_found(id: Seq<char>) -> Seq<char> {
    "Provider '"@ + id + "' not found"@
}

/// Checks that a provider exists.
pub fn validate_provider_exists(providers: &Vec<crate::settings::PostProcessProvider>, provider_id: &str) -> (r:
    Result<(), String>)
    ensures
        (exists|i: int| 0 <= i < providers@.len() && #[trigger] providers@[i].id@ == provider_id@) ==> r is Ok,
        !(exists|i: int| 0 <= i < providers@.len() && #[trigger] providers@[i].id@ == provider_id@) ==> r is Err
            && r->Err_0@ == provider_not_found(provider_id@),
{
    let mut i: usize = 0;
    while i < providers.len()
        invariant
            0 <= i <= providers.len(),
            forall|j: int| 0 <= j < i ==> #[trigger] providers@[j].id@ != provider_id@,
        decreases providers.len() - i,
    {
        if str_eq(providers[i].id.as_str(), provider_id) {
            return Ok(());
        }
        i = i + 1;
    }
    let mut v = chars_of("Provider '");
    push_str(&mut v, provider_id);
    push_str(&mut v, "' not found");
    Err(string_of(v.as_slice()))
}

/// A profile id is accepted as active: `default` or an existing profile.
pub open spec fn active_id_valid(ps: Seq<ProfileView>, id: Seq<char>) -> bool {
    id == "default"@ || exists|i: int| 0 <= i < ps.len() && #[trigger] ps[i].id == id
}

/// Makes `id` the active profile; an unknown id is
/// refused.
pub fn set_active_profile(settings: &mut ProfileSettings, id: &str) -> (r: Result<(), String>)
    ensures
        active_id_valid(profiles_view(old(settings).transcription_profiles@), id@) ==> r is Ok
            && final(settings).active_profile_id@ == id@,
        !active_id_valid(profiles_view(old(settings).transcription_profiles@), id@) ==> r is Err
            && r->Err_0@ == "Profile '"@ + id@ + "' not found"@ && final(settings).active_profile_id@
            == old(settings).active_profile_id@,
        profiles_view(final(settings).transcription_profiles@) == profiles_view(
            old(settings).transcription_profiles@,
        ),
        bindings_view(final(settings).bindings@) == bindings_view(old(settings).bindings@),
{
    let ghost ps = profiles_view(settings.transcription_profiles@);
    let known = match transcription_profile(&settings.transcription_profiles, id) {
        Some(_) => true,
        None => false,
    };
    proof {
        lemma_find_profile_iff(ps, id@);
    }
    if !str_eq(id, "default") && !known {
        let mut v = chars_of("Profile '");
        push_str(&mut v, id);
        push_str(&mut v, "' not found");
        return Err(string_of(v.as_slice()));
    }
    settings.active_profile_id = str_to_string(id);
    Ok(())
}

proof fn lemma_find_profile_iff(ps: Seq<ProfileView>, id: Seq<char>)
    ensures
        find_profile(ps, id) is Some <==> exists|i: int| 0 <= i < ps.len() && #[trigger] ps[i].id == id,
        find_profile(ps, id) matches Some(p) ==> p.id == id,
    decreases ps.len(),
{
    if ps.len() > 0 {
        let t = ps.drop_first();
        lemma_find_profile_iff(t, id);
        if exists|i: int| 0 <= i < t.len() && #[trigger] t[i].id == id {
            let i = choose|i: int| 0 <= i < t.len() && #[trigger] t[i].id == id;
            assert(ps[i + 1].id == id);
        }
        if exists|i: int| 0 <= i < ps.len() && #[trigger] ps[i].id == id {
            let i = choose|i: int| 0 <= i < ps.len() && #[trigger] ps[i].id == id;
            if i > 0 && ps[0].id != id {
                assert(t[i - 1].id == id);
            }
        }
    }
}

/// The name shown when switching to a profile: `Default`, the profile's
/// name, or the id itself.
pub fn profile_display_name(profiles: &Vec<TranscriptionProfile>, id: &str) -> (r: String)
    ensures
        id@ == "default"@ ==> r@ == "Default"@,
        id@ != "default"@ ==> r@ == match find_profile(profiles_view(profiles@), id@) {
            Some(p) => p.name,
            None => id@,
        },
{
    if str_eq(id, "default") {
        return str_to_string("Default");
    }
    match transcription_profile(profiles, id) {
        Some(p) => copy_string(&p.name),
        None => str_to_string(id),
    }
}

/// A prompt: id, name and text.
pub struct PromptView {
    pub id: Seq<char>,
    pub name: Seq<char>,
    pub prompt: Seq<char>,
}

impl View for LLMPrompt {
    type V = PromptView;

    open spec fn view(&self) -> PromptView {
        PromptView { id: self.id@, name: self.name@, prompt: self.prompt@ }
    }
}

/// Model of a prompt list.
pub open spec fn prompt_list_view(v: Seq<LLMPrompt>) -> Seq<PromptView> {
    v.map_values(|p: LLMPrompt| p@)
}

/// The prompts without those with id `id`, in order.
pub open spec fn prompts_without(ps: Seq<PromptView>, id: Seq<char>) -> Seq<PromptView>
    decreases ps.len(),
{
    if ps.len() == 0 {
        ps
    } else {
        let r = prompts_without(ps.drop_last(), id);
        if ps.last().id != id {
            r.push(ps.last())
        } else {
            r
        }
    }
}

/// The post-processing prompts and the selected one.
pub struct PromptSettings {
    pub post_process_prompts: Vec<LLMPrompt>,
    pub post_process_selected_prompt_id: Option<String>,
}

fn copy_prompt(p: &LLMPrompt) -> (r: LLMPrompt)
    ensures
        r@ == p@,
{
    LLMPrompt { id: copy_string(&p.id), name: copy_string(&p.name), prompt: copy_string(&p.prompt) }
}

/// The prompt id made from a creation time.
pub open spec fn prompt_id_of(ts_ms: u64) -> Seq<char> {
    "prompt_"@ + dec_digits(ts_ms as nat)
}

impl PromptSettings {
    /// Adds a prompt created at `ts_ms` (its id is `prompt_<ts_ms>`).
    pub fn add_post_process_prompt(&mut self, ts_ms: u64, name: String, prompt: String) -> (r: LLMPrompt)
        ensures
            r@ == (PromptView { id: prompt_id_of(ts_ms), name: name@, prompt: prompt@ }),
            prompt_list_view(final(self).post_process_prompts@) == prompt_list_view(
                old(self).post_process_prompts@,
            ).push(r@),
            opt_chars(final(self).post_process_selected_prompt_id) == opt_chars(
                old(self).post_process_selected_prompt_id,
            ),
    {
        let mut idv = chars_of("prompt_");
        push_all(&mut idv, dec_u128(ts_ms as u128).as_slice());
        let p = LLMPrompt { id: string_of(idv.as_slice()), name, prompt };
        let r = copy_prompt(&p);
        let ghost before = prompt_list_view(self.post_process_prompts@);
        self.post_process_prompts.push(p);
        assert(prompt_list_view(self.post_process_prompts@) =~= before.push(r@));
        r
    }

    /// Renames and rewrites the first prompt with id `id`; an unknown id is
    /// refused.
    pub fn update_post_process_prompt(&mut self, id: &str, name: String, prompt: String) -> (r: Result<
        (),
        String,
    >)
        ensures
            (exists|i: int| 0 <= i < old(self).post_process_prompts@.len() && #[trigger] old(self).post_process_prompts@[i].id@ == id@) ==> r is Ok,
            !(exists|i: int| 0 <= i < old(self).post_process_prompts@.len() && #[trigger] old(self).post_process_prompts@[i].id@ == id@) ==> r is Err
                && r->Err_0@ == "Prompt with id '"@ + id@ + "' not found"@ && prompt_list_view(final(self).post_process_prompts@)
                == prompt_list_view(old(self).post_process_prompts@),
            r is Ok ==> exists|i: int|
                0 <= i < old(self).post_process_prompts@.len() && (forall|j: int| 0 <= j < i ==> #[trigger] old(self).post_process_prompts@[j].id@ != id@)
                    && prompt_list_view(final(self).post_process_prompts@) == prompt_list_view(
                    old(self).post_process_prompts@,
                ).update(i, PromptView { id: id@, name: name@, prompt: prompt@ }),
            opt_chars(final(self).post_process_selected_prompt_id) == opt_chars(
                old(self).post_process_selected_prompt_id,
            ),
    {
        let mut i: usize = 0;
        while i < self.post_process_prompts.len()
            invariant
                0 <= i <= self.post_process_prompts.len(),
                self.post_process_prompts@ == old(self).post_process_prompts@,
                self.post_process_selected_prompt_id == old(self).post_process_selected_prompt_id,
                forall|j: int| 0 <= j < i ==> #[trigger] self.post_process_prompts@[j].id@ != id@,
            decreases self.post_process_prompts.len() - i,
        {
            if str_eq(self.post_process_prompts[i].id.as_str(), id) {
                let ghost before = prompt_list_view(self.post_process_prompts@);
                let old_id = copy_string(&self.post_process_prompts[i].id);
                self.post_process_prompts.set(i, LLMPrompt { id: old_id, name, prompt });
                assert(prompt_list_view(self.post_process_prompts@) =~= before.update(
                    i as int,
                    PromptView { id: id@, name: name@, prompt: prompt@ },
                ));
                return Ok(());
            }
            i = i + 1;
        }
        let mut v = chars_of("Prompt with id '");
        push_str(&mut v, id);
        push_str(&mut v, "' not found");
        Err(string_of(v.as_slice()))
    }

    /// Selects the prompt `id`; an unknown id is refused.
    pub fn set_post_process_selected_prompt(&mut self, id: String) -> (r: Result<(), String>)
        ensures
            (exists|i: int| 0 <= i < old(self).post_process_prompts@.len() && #[trigger] old(self).post_process_prompts@[i].id@ == id@) ==> r is Ok
                && opt_chars(final(self).post_process_selected_prompt_id) == Some(id@),
            !(exists|i: int| 0 <= i < old(self).post_process_prompts@.len() && #[trigger] old(self).post_process_prompts@[i].id@ == id@) ==> r is Err
                && r->Err_0@ == "Prompt with id '"@ + id@ + "' not found"@ && opt_chars(final(self).post_process_selected_prompt_id)
                == opt_chars(old(self).post_process_selected_prompt_id),
            prompt_list_view(final(self).post_process_prompts@) == prompt_list_view(old(self).post_process_prompts@),
    {
        let mut i: usize = 0;
        while i < self.post_process_prompts.len()
            invariant
                0 <= i <= self.post_process_prompts.len(),
                self.post_process_prompts@ == old(self).post_process_prompts@,
                self.post_process_selected_prompt_id == old(self).post_process_selected_prompt_id,
                forall|j: int| 0 <= j < i ==> #[trigger] self.post_process_prompts@[j].id@ != id@,
            decreases self.post_process_prompts.len() - i,
        {
            if str_eq(self.post_process_prompts[i].id.as_str(), id.as_str()) {
                self.post_process_selected_prompt_id = Some(id);
                return Ok(());
            }
            i = i + 1;
        }
        Err(not_found("Prompt with id '", id.as_str()))
    }

    /// Deletes the prompts with id `id`: the
    /// last prompt cannot be deleted and an unknown id is refused; a deleted
    /// selected prompt gives way to the first remaining one.
    pub fn delete_post_process_prompt(&mut self, id: &str) -> (r: Result<(), String>)
        ensures
            old(self).post_process_prompts@.len() <= 1 ==> r is Err && r->Err_0@ == "Cannot delete the last prompt"@
                && prompt_list_view(final(self).post_process_prompts@) == prompt_list_view(old(self).post_process_prompts@)
                && opt_chars(final(self).post_process_selected_prompt_id) == opt_chars(old(self).post_process_selected_prompt_id),
            old(self).post_process_prompts@.len() > 1 && prompts_without(
                prompt_list_view(old(self).post_process_prompts@),
                id@,
            ).len() == old(self).post_process_prompts@.len() ==> r is Err && r->Err_0@
                == "Prompt with id '"@ + id@ + "' not found"@
                && opt_chars(final(self).post_process_selected_prompt_id) == opt_chars(old(self).post_process_selected_prompt_id),
            old(self).post_process_prompts@.len() > 1 && prompts_without(
                prompt_list_view(old(self).post_process_prompts@),
                id@,
            ).len() < old(self).post_process_prompts@.len() ==> r is Ok && prompt_list_view(
                final(self).post_process_prompts@,
            ) == prompts_without(prompt_list_view(old(self).post_process_prompts@), id@) && opt_chars(
                final(self).post_process_selected_prompt_id,
            ) == if opt_chars(old(self).post_process_selected_prompt_id) == Some(id@) {
                if prompts_without(prompt_list_view(old(self).post_process_prompts@), id@).len() > 0 {
                    Some(prompts_without(prompt_list_view(old(self).post_process_prompts@), id@)[0].id)
                } else {
                    None
                }
            } else {
                opt_chars(old(self).post_process_selected_prompt_id)
            },
    {
        if self.post_process_prompts.len() <= 1 {
            return Err(str_to_string("Cannot delete the last prompt"));
        }
        let ghost all = prompt_list_view(self.post_process_prompts@);
        let mut kept: Vec<LLMPrompt> = Vec::new();
        let mut i: usize = 0;
        let n = self.post_process_prompts.len();
        assert(all.take(0) =~= Seq::<PromptView>::empty());
        while i < n
            invariant
                0 <= i <= n,
                n == self.post_process_prompts.len(),
                all == prompt_list_view(self.post_process_prompts@),
                prompt_list_view(kept@) == prompts_without(all.take(i as int), id@),
            decreases n - i,
        {
            assert(all.take(i + 1).drop_last() =~= all.take(i as int));
            assert(all.take(i + 1).last() == all[i as int]);
            if !str_eq(self.post_process_prompts[i].id.as_str(), id) {
                let ghost before = prompt_list_view(kept@);
                kept.push(copy_prompt(&self.post_process_prompts[i]));
                assert(prompt_list_view(kept@) =~= before.push(all[i as int]));
            }
            i = i + 1;
        }
        assert(all.take(n as int) =~= all);
        if kept.len() == n {
            let mut v = chars_of("Prompt with id '");
            push_str(&mut v, id);
            push_str(&mut v, "' not found");
            return Err(string_of(v.as_slice()));
        }
        self.post_process_prompts = kept;
        let was_selected = match &self.post_process_selected_prompt_id {
            Some(s) => str_eq(s.as_str(), id),
            None => false,
        };
        if was_selected {
            if self.post_process_prompts.len() > 0 {
                self.post_process_selected_prompt_id = Some(copy_string(&self.post_process_prompts[0].id));
            } else {
                self.post_process_selected_prompt_id = None;
            }
        }
        Ok(())
    }
}

/// The answer to a binding change.
#[derive(Debug)]
pub struct BindingResponse {
    pub success: bool,
    pub binding: Option<ShortcutBinding>,
    pub error: Option<String>,
}

impl BindingResponse {
    /// The answer for a stored binding.
    pub fn stored(binding: ShortcutBinding) -> (r: BindingResponse)
        ensures
            r.success,
            r.binding == Some(binding),
            r.error is None,
    {
        BindingResponse { success: true, binding: Some(binding), error: None }
    }
}

} // verus!
