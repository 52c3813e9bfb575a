//! The recording session: which resources a recording holds, their release
//! exactly once, and the Idle / Recording / Processing state.
use vstd::prelude::*;
use crate::text::{lowercase, str_eq, to_lowercase};

verus! {

/// The resources a recording session holds, and whether it was cleaned up.
#[derive(Debug)]
pub struct RecordingSession {
    cancel_shortcut_registered: bool,
    mute_applied: bool,
    cleaned_up: bool,
}

/// Model of a session.
pub struct SessionView {
    pub cancel_shortcut_registered: bool,
    pub mute_applied: bool,
    pub cleaned_up: bool,
}

impl View for RecordingSession {
    type V = SessionView;

    closed spec fn view(&self) -> SessionView {
        SessionView {
            cancel_shortcut_registered: self.cancel_shortcut_registered,
            mute_applied: self.mute_applied,
            cleaned_up: self.cleaned_up,
        }
    }
}

/// What a cleanup releases.
#[derive(Debug, Clone, Copy, PartialEq, Eq, Structural)]
pub struct Cleanup {
    /// Unregister the cancel shortcut.
    pub unregister_cancel_shortcut: bool,
    /// Remove the microphone mute.
    pub remove_mute: bool,
    /// Hide the overlay and reset the tray icon (a session dropped without
    /// being finished).
    pub reset_ui: bool,
}

/// The cleanup of a session in state `s`.
pub open spec fn cleanup_of(s: SessionView, reset_ui: bool) -> Cleanup {
    Cleanup { unregister_cancel_shortcut: s.cancel_shortcut_registered, remove_mute: s.mute_applied, reset_ui }
}

/// A session after its cleanup: nothing held, cleaned up.
pub open spec fn released() -> SessionView {
    SessionView { cancel_shortcut_registered: false, mute_applied: false, cleaned_up: true }
}

impl RecordingSession {
    /// A session that will mute the microphone when asked to; the cancel
    /// shortcut is recorded once it is registered.
    pub fn new_with_resources(will_register_cancel: bool, will_apply_mute: bool) -> (r: Self)
        ensures
            r@ == (SessionView { cancel_shortcut_registered: false, mute_applied: will_apply_mute, cleaned_up: false }),
    {
        RecordingSession { cancel_shortcut_registered: false, mute_applied: will_apply_mute, cleaned_up: false }
    }

    /// Records the cancel shortcut as registered; `true` when the caller must
    /// register it now (the first time only).
    pub fn register_cancel_shortcut(&mut self) -> (register_now: bool)
        ensures
            register_now == !old(self)@.cancel_shortcut_registered,
            final(self)@ == (SessionView { cancel_shortcut_registered: true, ..old(self)@ }),
    {
        if self.cancel_shortcut_registered {
            false
        } else {
            self.cancel_shortcut_registered = true;
            true
        }
    }

    fn do_cleanup(&mut self, reset_ui: bool) -> (r: Cleanup)
        ensures
            r == cleanup_of(old(self)@, reset_ui),
            final(self)@ == (SessionView {
                cancel_shortcut_registered: false,
                mute_applied: false,
                ..old(self)@
            }),
    {
        let unregister = self.cancel_shortcut_registered;
        self.cancel_shortcut_registered = false;
        let unmute = self.mute_applied;
        self.mute_applied = false;
        Cleanup { unregister_cancel_shortcut: unregister, remove_mute: unmute, reset_ui }
    }

    /// Ends the session when recording turns into processing: the first call
    /// releases what is held; later calls, and the drop, release nothing.
    pub fn finish(&mut self) -> (r: Option<Cleanup>)
        ensures
            old(self)@.cleaned_up ==> r is None && final(self)@ == old(self)@,
            !old(self)@.cleaned_up ==> r == Some(cleanup_of(old(self)@, false)) && final(self)@ == released(),
    {
        if self.cleaned_up {
            return None;
        }
        self.cleaned_up = true;
        let c = self.do_cleanup(false);
        Some(c)
    }

    /// The session is dropped: unless it was finished, what it holds is
    /// released and the interface reset.
    pub fn drop_session(&mut self) -> (r: Option<Cleanup>)
        ensures
            old(self)@.cleaned_up ==> r is None && final(self)@ == old(self)@,
            !old(self)@.cleaned_up ==> r == Some(cleanup_of(old(self)@, true)) && final(self)@
                == (SessionView { cancel_shortcut_registered: false, mute_applied: false, cleaned_up: false }),
    {
        if self.cleaned_up {
            return None;
        }
        let c = self.do_cleanup(true);
        Some(c)
    }
}

/// Each resource is released once: a finished session releases nothing
/// more when dropped, and what a finish releases is what was acquired.
pub proof fn lemma_release_once(s: SessionView)
    requires
        !s.cleaned_up,
    ensures
        cleanup_of(s, false).unregister_cancel_shortcut == s.cancel_shortcut_registered,
        cleanup_of(s, false).remove_mute == s.mute_applied,
        released().cleaned_up,
        !released().cancel_shortcut_registered && !released().mute_applied,
{
}

/// The recording state: idle, recording for a binding (with its session),
/// or processing what a binding recorded.
#[derive(Debug)]
pub enum SessionState<S> {
    Idle,
    Recording { session: S, binding_id: String },
    Processing { binding_id: String },
}

impl<S> SessionState<S> {
    /// The binding a state belongs to, if any.
    pub open spec fn binding(&self) -> Option<Seq<char>> {
        match self {
            SessionState::Idle => None,
            SessionState::Recording { binding_id, .. } => Some(binding_id@),
            SessionState::Processing { binding_id } => Some(binding_id@),
        }
    }
}

/// Takes the recording session, whatever its binding; the state becomes
/// idle (from processing too). `None` unless a recording was active.
pub fn take_session<S>(state: &mut SessionState<S>) -> (r: Option<(S, String)>)
    ensures
        *final(state) is Idle,
        match *old(state) {
            SessionState::Recording { session, binding_id } => r matches Some((s, b)) && s == session && b@
                == binding_id@,
            _ => r is None,
        },
{
    let mut prev: SessionState<S> = SessionState::Idle;
    std::mem::swap(state, &mut prev);
    match prev {
        SessionState::Recording { session, binding_id } => Some((session, binding_id)),
        _ => None,
    }
}

/// Takes the recording session only if it belongs to `expected_binding_id`;
/// otherwise nothing changes.
pub fn take_session_if_matches<S>(state: &mut SessionState<S>, expected_binding_id: &str) -> (r: Option<S>)
    ensures
        match *old(state) {
            SessionState::Recording { session, binding_id } => if binding_id@ == expected_binding_id@ {
                r == Some(session) && *final(state) is Idle
            } else {
                r is None && *final(state) == *old(state)
            },
            _ => r is None && *final(state) == *old(state),
        },
{
    let matches = match &*state {
        SessionState::Recording { binding_id, .. } => str_eq(binding_id.as_str(), expected_binding_id),
        _ => false,
    };
    if !matches {
        return None;
    }
    let mut prev: SessionState<S> = SessionState::Idle;
    std::mem::swap(state, &mut prev);
    match prev {
        SessionState::Recording { session, .. } => Some(session),
        _ => None,
    }
}

/// Starts recording for a binding when idle; otherwise the state stays and
/// the session comes back.
pub fn begin_recording<S>(state: &mut SessionState<S>, session: S, binding_id: String) -> (r: Result<(), S>)
    ensures
        *old(state) is Idle ==> r is Ok && *final(state) == (SessionState::Recording { session, binding_id }),
        !(*old(state) is Idle) ==> r == Err::<(), S>(session) && *final(state) == *old(state),
{
    let idle = match &*state {
        SessionState::Idle => true,
        _ => false,
    };
    if !idle {
        return Err(session);
    }
    *state = SessionState::Recording { session, binding_id };
    Ok(())
}

/// Stops the recording of `binding_id`: its session comes back and the
/// state becomes processing for that binding; a recording of another
/// binding, processing or idle are left as they are.
pub fn begin_processing<S>(state: &mut SessionState<S>, binding_id: &str) -> (r: Option<S>)
    ensures
        match *old(state) {
            SessionState::Recording { session, binding_id: b } => if b@ == binding_id@ {
                r == Some(session) && final(state).binding() == Some(binding_id@) && *final(state) is Processing
            } else {
                r is None && *final(state) == *old(state)
            },
            _ => r is None && *final(state) == *old(state),
        },
{
    match take_session_if_matches(state, binding_id) {
        Some(session) => {
            *state = SessionState::Processing { binding_id: crate::text::str_to_string(binding_id) };
            Some(session)
        },
        None => None,
    }
}

/// Leaves the processing state for idle; other states are left as they are.
pub fn exit_processing<S>(state: &mut SessionState<S>)
    ensures
        *old(state) is Processing ==> *final(state) is Idle,
        !(*old(state) is Processing) ==> *final(state) == *old(state),
{
    let processing = match &*state {
        SessionState::Processing { .. } => true,
        _ => false,
    };
    if processing {
        *state = SessionState::Idle;
    }
}

/// Cancelling always ends in the idle state: the session is taken if there
/// is one, and processing is left otherwise.
pub fn cancel_session<S>(state: &mut SessionState<S>) -> (r: Option<(S, String)>)
    ensures
        *final(state) is Idle,
        match *old(state) {
            SessionState::Recording { session, binding_id } => r matches Some((s, b)) && s == session && b@
                == binding_id@,
            _ => r is None,
        },
{
    match take_session(state) {
        Some(x) => Some(x),
        None => {
            exit_processing(state);
            None
        },
    }
}

/// Whether the desktop session is Wayland: `WAYLAND_DISPLAY` is set, or
/// `XDG_SESSION_TYPE` is `wayland` in any case.
pub fn is_wayland_session(wayland_display_set: bool, xdg_session_type: Option<&str>) -> (r: bool)
    ensures
        r == (wayland_display_set || match xdg_session_type {
            Some(t) => lowercase(t@) == "wayland"@,
            None => false,
        }),
{
    if wayland_display_set {
        return true;
    }
    match xdg_session_type {
        Some(t) => {
            let l = to_lowercase(t);
            str_eq(l.as_str(), "wayland")
        },
        None => false,
    }
}

} // verus!
