//! What a global shortcut does when it fires: which action it runs, whether
//! that action is enabled, and whether the press starts or stops it (push
//! to talk, or toggling on each press).
use vstd::prelude::*;
use crate::key_listener::strings_view;
use crate::profiles::{find_profile, profiles_view, transcription_profile, transcription_profile_by_binding};
use crate::settings::TranscriptionProfile;
use crate::text::{chars_of, starts_with, str_eq, str_to_string};

verus! {

/// The ids that have an action of their own (`voice_command` on Windows
/// only).
pub open spec fn has_own_action(id: Seq<char>, windows: bool) -> bool {
    id == "transcribe"@ || id == "send_to_extension"@ || id == "send_to_extension_with_selection"@ || id
        == "ai_replace_selection"@ || id == "send_screenshot_to_extension"@ || id == "cancel"@ || id
        == "repaste_last"@ || id == "test"@ || (windows && id == "voice_command"@)
}

/// The action a binding runs: its own, or for a profile binding
/// (`transcribe_…`) the transcribe action.
pub open spec fn action_of(id: Seq<char>, windows: bool) -> Option<Seq<char>> {
    if has_own_action(id, windows) {
        Some(id)
    } else if starts_with(id, "transcribe_"@) {
        Some("transcribe"@)
    } else {
        None
    }
}

/// The action a binding runs, if any.
pub fn action_for_binding(binding_id: &str, windows: bool) -> (r: Option<String>)
    ensures
        match r {
            Some(a) => action_of(binding_id@, windows) == Some(a@),
            None => action_of(binding_id@, windows) is None,
        },
{
    let own = str_eq(binding_id, "transcribe") || str_eq(binding_id, "send_to_extension") || str_eq(
        binding_id,
        "send_to_extension_with_selection",
    ) || str_eq(binding_id, "ai_replace_selection") || str_eq(binding_id, "send_screenshot_to_extension")
        || str_eq(binding_id, "cancel") || str_eq(binding_id, "repaste_last") || str_eq(binding_id, "test") || (
    windows && str_eq(binding_id, "voice_command"));
    if own {
        return Some(str_to_string(binding_id));
    }
    let v = chars_of(binding_id);
    let p = chars_of("transcribe_");
    if crate::text::starts_with_chars(v.as_slice(), p.as_slice()) {
        Some(str_to_string("transcribe"))
    } else {
        None
    }
}

/// The actions that hand their result to the browser extension.
pub open spec fn sends_to_extension(action: Seq<char>) -> bool {
    action == "send_to_extension"@ || action == "send_to_extension_with_selection"@ || action
        == "send_screenshot_to_extension"@
}

/// What an action does first, given whether the extension is online.
#[derive(Debug, Clone, Copy, PartialEq, Eq, Structural)]
pub enum ExtensionGate {
    /// Go on with the action.
    Proceed,
    /// Starting while the extension is offline: show that it is offline.
    ShowOffline,
    /// Stopping while the extension is offline: drop the recording session
    /// (its release does the cleanup).
    DropSession,
}

/// Whether an action may go on when its shortcut is pressed (`starting`)
/// or released: one that sends to the extension waits for it to be online.
pub fn extension_gate(action: &str, starting: bool, online: bool) -> (r: ExtensionGate)
    ensures
        r == if sends_to_extension(action@) && !online {
            if starting {
                ExtensionGate::ShowOffline
            } else {
                ExtensionGate::DropSession
            }
        } else {
            ExtensionGate::Proceed
        },
{
    let sends = str_eq(action, "send_to_extension") || str_eq(action, "send_to_extension_with_selection")
        || str_eq(action, "send_screenshot_to_extension");
    if sends && !online {
        if starting {
            ExtensionGate::ShowOffline
        } else {
            ExtensionGate::DropSession
        }
    } else {
        ExtensionGate::Proceed
    }
}

/// The settings a firing shortcut reads.
pub struct ShortcutSettings {
    pub push_to_talk: bool,
    pub send_to_extension_enabled: bool,
    pub send_to_extension_push_to_talk: bool,
    pub send_to_extension_with_selection_enabled: bool,
    pub send_to_extension_with_selection_push_to_talk: bool,
    pub ai_replace_selection_push_to_talk: bool,
    pub send_screenshot_to_extension_enabled: bool,
    pub send_screenshot_to_extension_push_to_talk: bool,
}

impl Default for ShortcutSettings {
    /// The settings at start: push to talk everywhere, and the extension
    /// actions switched off until the user turns them on.
    fn default() -> (r: Self)
        ensures
            r.push_to_talk,
            !r.send_to_extension_enabled,
            r.send_to_extension_push_to_talk,
            !r.send_to_extension_with_selection_enabled,
            r.send_to_extension_with_selection_push_to_talk,
            r.ai_replace_selection_push_to_talk,
            !r.send_screenshot_to_extension_enabled,
            r.send_screenshot_to_extension_push_to_talk,
    {
        ShortcutSettings {
            push_to_talk: true,
            send_to_extension_enabled: false,
            send_to_extension_push_to_talk: true,
            send_to_extension_with_selection_enabled: false,
            send_to_extension_with_selection_push_to_talk: true,
            ai_replace_selection_push_to_talk: true,
            send_screenshot_to_extension_enabled: false,
            send_screenshot_to_extension_push_to_talk: true,
        }
    }
}

/// The extension actions can be switched off; the others are always on.
pub open spec fn enabled_spec(id: Seq<char>, s: ShortcutSettings) -> bool {
    if id == "send_to_extension"@ {
        s.send_to_extension_enabled
    } else if id == "send_to_extension_with_selection"@ {
        s.send_to_extension_with_selection_enabled
    } else if id == "send_screenshot_to_extension"@ {
        s.send_screenshot_to_extension_enabled
    } else {
        true
    }
}

/// Whether the action of a binding is enabled.
pub fn action_enabled(binding_id: &str, s: &ShortcutSettings) -> (r: bool)
    ensures
        r == enabled_spec(binding_id@, *s),
{
    if str_eq(binding_id, "send_to_extension") {
        s.send_to_extension_enabled
    } else if str_eq(binding_id, "send_to_extension_with_selection") {
        s.send_to_extension_with_selection_enabled
    } else if str_eq(binding_id, "send_screenshot_to_extension") {
        s.send_screenshot_to_extension_enabled
    } else {
        true
    }
}

/// Whether a binding works push-to-talk: the extension and AI-replace
/// bindings have their own switch; `transcribe` follows the active profile
/// (the global switch for `default` or an unknown profile); a profile's own
/// binding follows that profile; the rest follow the global switch.
pub open spec fn push_to_talk_spec(
    id: Seq<char>,
    s: ShortcutSettings,
    profiles: Seq<crate::profiles::ProfileView>,
    active: Seq<char>,
) -> bool {
    if id == "send_to_extension"@ {
        s.send_to_extension_push_to_talk
    } else if id == "send_to_extension_with_selection"@ {
        s.send_to_extension_with_selection_push_to_talk
    } else if id == "ai_replace_selection"@ {
        s.ai_replace_selection_push_to_talk
    } else if id == "send_screenshot_to_extension"@ {
        s.send_screenshot_to_extension_push_to_talk
    } else if id == "transcribe"@ {
        if active == "default"@ {
            s.push_to_talk
        } else {
            match find_profile(profiles, active) {
                Some(p) => p.push_to_talk,
                None => s.push_to_talk,
            }
        }
    } else if starts_with(id, "transcribe_"@) {
        match find_profile(profiles, id.skip(11)) {
            Some(p) => p.push_to_talk,
            None => s.push_to_talk,
        }
    } else {
        s.push_to_talk
    }
}

/// Whether a binding works push-to-talk.
pub fn uses_push_to_talk(
    binding_id: &str,
    s: &ShortcutSettings,
    profiles: &Vec<TranscriptionProfile>,
    active_profile_id: &str,
) -> (r: bool)
    ensures
        r == push_to_talk_spec(binding_id@, *s, profiles_view(profiles@), active_profile_id@),
{
    if str_eq(binding_id, "send_to_extension") {
        s.send_to_extension_push_to_talk
    } else if str_eq(binding_id, "send_to_extension_with_selection") {
        s.send_to_extension_with_selection_push_to_talk
    } else if str_eq(binding_id, "ai_replace_selection") {
        s.ai_replace_selection_push_to_talk
    } else if str_eq(binding_id, "send_screenshot_to_extension") {
        s.send_screenshot_to_extension_push_to_talk
    } else if str_eq(binding_id, "transcribe") {
        if str_eq(active_profile_id, "default") {
            s.push_to_talk
        } else {
            match transcription_profile(profiles, active_profile_id) {
                Some(p) => p.push_to_talk,
                None => s.push_to_talk,
            }
        }
    } else {
        match transcription_profile_by_binding(profiles, binding_id) {
            Some(p) => p.push_to_talk,
            None => s.push_to_talk,
        }
    }
}

/// The bindings toggled on (in toggle mode), each id once.
pub struct ToggleStates {
    pub active: Vec<String>,
}

impl ToggleStates {
    /// Model: the ids toggled on.
    pub open spec fn on(&self) -> Seq<Seq<char>> {
        strings_view(self.active@)
    }

    /// Each id is listed once.
    pub open spec fn wf(&self) -> bool {
        self.on().no_duplicates()
    }

    /// No binding toggled on.
    pub fn new() -> (r: ToggleStates)
        ensures
            r.wf(),
            r.on().len() == 0,
    {
        ToggleStates { active: Vec::new() }
    }

    fn position(&self, id: &str) -> (r: Option<usize>)
        ensures
            match r {
                Some(i) => i < self.on().len() && self.on()[i as int] == id@,
                None => !self.on().contains(id@),
            },
    {
        let mut i: usize = 0;
        while i < self.active.len()
            invariant
                0 <= i <= self.active.len(),
                forall|j: int| 0 <= j < i ==> #[trigger] self.on()[j] != id@,
            decreases self.active.len() - i,
        {
            if str_eq(self.active[i].as_str(), id) {
                return Some(i);
            }
            i = i + 1;
        }
        None
    }

    /// Whether `id` is toggled on.
    pub fn is_on(&self, id: &str) -> (r: bool)
        ensures
            r == self.on().contains(id@),
    {
        self.position(id).is_some()
    }

    /// A press in toggle mode: starts when the binding was off, stops when
    /// it was on, and flips it.
    pub fn toggle(&mut self, id: &str) -> (should_start: bool)
        requires
            old(self).wf(),
        ensures
            final(self).wf(),
            should_start == !old(self).on().contains(id@),
            forall|k: Seq<char>|
                #[trigger] final(self).on().contains(k) == if k == id@ {
                    should_start
                } else {
                    old(self).on().contains(k)
                },
    {
        match self.position(id) {
            Some(i) => {
                let ghost before = self.on();
                self.active.remove(i);
                proof {
                    assert(self.on() =~= before.remove(i as int));
                    assert forall|k: Seq<char>| #[trigger] self.on().contains(k) == if k == id@ {
                        false
                    } else {
                        before.contains(k)
                    } by {
                        if before.contains(k) && k != id@ {
                            let j = choose|j: int| 0 <= j < before.len() && before[j] == k;
                            if j < i {
                                assert(self.on()[j] == k);
                            } else {
                                assert(self.on()[j - 1] == k);
                            }
                        }
                        if self.on().contains(k) {
                            let j = choose|j: int| 0 <= j < self.on().len() && self.on()[j] == k;
                            if j < i {
                                assert(before[j] == k);
                                assert(before[i as int] == id@);
                            } else {
                                assert(before[j + 1] == k);
                            }
                        }
                    }
                }
                false
            },
            None => {
                let ghost before = self.on();
                self.active.push(str_to_string(id));
                proof {
                    assert(self.on() =~= before.push(id@));
                    assert forall|k: Seq<char>| #[trigger] self.on().contains(k) == if k == id@ {
                        true
                    } else {
                        before.contains(k)
                    } by {
                        if k == id@ {
                            assert(self.on()[before.len() as int] == k);
                        }
                        if before.contains(k) {
                            let j = choose|j: int| 0 <= j < before.len() && before[j] == k;
                            assert(self.on()[j] == k);
                        }
                        if self.on().contains(k) && k != id@ {
                            let j = choose|j: int| 0 <= j < self.on().len() && self.on()[j] == k;
                            assert(before[j] == k);
                        }
                    }
                }
                true
            },
        }
    }

    /// Turns `id` off (after an action refused to start).
    pub fn reset(&mut self, id: &str)
        requires
            old(self).wf(),
        ensures
            final(self).wf(),
            forall|k: Seq<char>|
                #[trigger] final(self).on().contains(k) == (k != id@ && old(self).on().contains(k)),
    {
        if self.is_on(id) {
            let _ = self.toggle(id);
        }
    }

    /// Turns every binding off (on cancellation).
    pub fn reset_all(&mut self)
        ensures
            final(self).wf(),
            final(self).on().len() == 0,
    {
        self.active = Vec::new();
    }
}

/// Two presses in toggle mode start and then stop a binding, and leave the
/// toggles as they were.
pub proof fn lemma_toggle_twice(on: Seq<Seq<char>>, id: Seq<char>, mid: Seq<Seq<char>>, last: Seq<Seq<char>>)
    requires
        forall|k: Seq<char>| #[trigger] mid.contains(k) == if k == id {
            !on.contains(id)
        } else {
            on.contains(k)
        },
        forall|k: Seq<char>| #[trigger] last.contains(k) == if k == id {
            !mid.contains(id)
        } else {
            mid.contains(k)
        },
    ensures
        mid.contains(id) != on.contains(id),
        forall|k: Seq<char>| #[trigger] last.contains(k) == on.contains(k),
{
    assert(mid.contains(id) == !on.contains(id));
    assert forall|k: Seq<char>| #[trigger] last.contains(k) == on.contains(k) by {
        if k == id {
            assert(mid.contains(id) == !on.contains(id));
        } else {
            assert(mid.contains(k) == on.contains(k));
        }
    }
}

/// How a shortcut event moves.
#[derive(Clone, Copy, Debug, PartialEq, Eq, Structural)]
pub enum KeyState {
    Pressed,
    Released,
}

/// What the firing shortcut does with its action.
#[derive(Clone, Copy, Debug, PartialEq, Eq, Structural)]
pub enum Dispatch {
    Start,
    Stop,
    Ignore,
}

/// What a press or release does, given the action's kind: the cancel
/// binding starts only on a press while recording; a disabled action is
/// ignored; an instant action starts on a press; push-to-talk starts on the
/// press and stops on the release; toggle mode alternates on presses.
pub open spec fn dispatch_spec(
    id: Seq<char>,
    state: KeyState,
    recording: bool,
    instant: bool,
    enabled: bool,
    ptt: bool,
    was_on: bool,
) -> Dispatch {
    if id == "cancel"@ {
        if recording && state == KeyState::Pressed {
            Dispatch::Start
        } else {
            Dispatch::Ignore
        }
    } else if !enabled {
        Dispatch::Ignore
    } else if instant {
        if state == KeyState::Pressed {
            Dispatch::Start
        } else {
            Dispatch::Ignore
        }
    } else if ptt {
        if state == KeyState::Pressed {
            Dispatch::Start
        } else {
            Dispatch::Stop
        }
    } else if state == KeyState::Pressed {
        if was_on {
            Dispatch::Stop
        } else {
            Dispatch::Start
        }
    } else {
        Dispatch::Ignore
    }
}

/// The decision for a shortcut event of a binding that has an action
/// (`instant` is the action's kind, `recording` whether audio is being
/// recorded); in toggle mode a press flips the binding's toggle.
pub fn dispatch_shortcut(
    binding_id: &str,
    state: KeyState,
    recording: bool,
    instant: bool,
    s: &ShortcutSettings,
    profiles: &Vec<TranscriptionProfile>,
    active_profile_id: &str,
    toggles: &mut ToggleStates,
) -> (r: Dispatch)
    requires
        old(toggles).wf(),
    ensures
        final(toggles).wf(),
        ({
            let enabled = enabled_spec(binding_id@, *s);
            let ptt = push_to_talk_spec(binding_id@, *s, profiles_view(profiles@), active_profile_id@);
            let was_on = old(toggles).on().contains(binding_id@);
            let flips = binding_id@ != "cancel"@ && enabled && !instant && !ptt && state == KeyState::Pressed;
            &&& r == dispatch_spec(binding_id@, state, recording, instant, enabled, ptt, was_on)
            &&& forall|k: Seq<char>|
                #[trigger] final(toggles).on().contains(k) == if flips && k == binding_id@ {
                    !was_on
                } else {
                    old(toggles).on().contains(k)
                }
        }),
{
    if str_eq(binding_id, "cancel") {
        return if recording && state == KeyState::Pressed {
            Dispatch::Start
        } else {
            Dispatch::Ignore
        };
    }
    if !action_enabled(binding_id, s) {
        return Dispatch::Ignore;
    }
    let ptt = uses_push_to_talk(binding_id, s, profiles, active_profile_id);
    if instant {
        return if state == KeyState::Pressed {
            Dispatch::Start
        } else {
            Dispatch::Ignore
        };
    }
    if ptt {
        return if state == KeyState::Pressed {
            Dispatch::Start
        } else {
            Dispatch::Stop
        };
    }
    if state == KeyState::Pressed {
        if toggles.toggle(binding_id) {
            Dispatch::Start
        } else {
            Dispatch::Stop
        }
    } else {
        Dispatch::Ignore
    }
}


/// Each extension action is switched on and off by its own setting alone,
/// whatever the other switches say; every other action is always enabled.
pub proof fn lemma_actions_follow_their_own_switch(s: ShortcutSettings, id: Seq<char>)
    ensures
        enabled_spec("send_to_extension"@, s) == s.send_to_extension_enabled,
        enabled_spec("send_to_extension_with_selection"@, s) == s.send_to_extension_with_selection_enabled,
        enabled_spec("send_screenshot_to_extension"@, s) == s.send_screenshot_to_extension_enabled,
        id != "send_to_extension"@ && id != "send_to_extension_with_selection"@ && id
            != "send_screenshot_to_extension"@ ==> enabled_spec(id, s),
{
    reveal_strlit("send_to_extension");
    reveal_strlit("send_to_extension_with_selection");
    reveal_strlit("send_screenshot_to_extension");
    assert("send_to_extension"@ != "send_to_extension_with_selection"@) by {
        assert("send_to_extension"@.len() != "send_to_extension_with_selection"@.len());
    }
    assert("send_to_extension"@ != "send_screenshot_to_extension"@) by {
        assert("send_to_extension"@.len() != "send_screenshot_to_extension"@.len());
    }
    assert("send_to_extension_with_selection"@ != "send_screenshot_to_extension"@) by {
        assert("send_to_extension_with_selection"@[5] != "send_screenshot_to_extension"@[5]);
    }
}

/// Each extension action and AI Replace works push-to-talk by its own
/// setting alone; `transcribe` with the default profile active follows the
/// global setting.
pub proof fn lemma_push_to_talk_follows_own_switch(
    s: ShortcutSettings,
    profiles: Seq<crate::profiles::ProfileView>,
    active: Seq<char>,
)
    ensures
        push_to_talk_spec("send_to_extension"@, s, profiles, active) == s.send_to_extension_push_to_talk,
        push_to_talk_spec("send_to_extension_with_selection"@, s, profiles, active)
            == s.send_to_extension_with_selection_push_to_talk,
        push_to_talk_spec("ai_replace_selection"@, s, profiles, active) == s.ai_replace_selection_push_to_talk,
        push_to_talk_spec("send_screenshot_to_extension"@, s, profiles, active)
            == s.send_screenshot_to_extension_push_to_talk,
        push_to_talk_spec("transcribe"@, s, profiles, "default"@) == s.push_to_talk,
{
    reveal_strlit("send_to_extension");
    reveal_strlit("send_to_extension_with_selection");
    reveal_strlit("send_screenshot_to_extension");
    reveal_strlit("ai_replace_selection");
    reveal_strlit("transcribe");
    assert("send_to_extension"@ != "send_to_extension_with_selection"@) by {
        assert("send_to_extension"@.len() != "send_to_extension_with_selection"@.len());
    }
    assert("send_to_extension"@ != "send_screenshot_to_extension"@) by {
        assert("send_to_extension"@.len() != "send_screenshot_to_extension"@.len());
    }
    assert("send_to_extension_with_selection"@ != "send_screenshot_to_extension"@) by {
        assert("send_to_extension_with_selection"@[5] != "send_screenshot_to_extension"@[5]);
    }
    assert("ai_replace_selection"@[0] != "send_to_extension"@[0]);
    assert("ai_replace_selection"@[0] != "send_to_extension_with_selection"@[0]);
    assert("ai_replace_selection"@[0] != "send_screenshot_to_extension"@[0]);
    assert("transcribe"@[0] != "send_to_extension"@[0]);
    assert("transcribe"@[0] != "send_to_extension_with_selection"@[0]);
    assert("transcribe"@[0] != "send_screenshot_to_extension"@[0]);
    assert("transcribe"@[0] != "ai_replace_selection"@[0]);
}

} // verus!
