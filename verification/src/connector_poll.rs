//! The answers to the extension's requests: a poll delivers the pending
//! messages and may offer a new password; a POST may acknowledge it.
use vstd::prelude::*;
use crate::connector::{
    auto_open_tab_url, classify_post, messages_view, next_cursor, select_pending, spec_mark_delivered,
    ConnectorManager, ManagerView, MessageView, PostKind, QueuedMessage,
};
use crate::connector_auth::{
    opt_view_string, secure_password, spec_commit, spec_offer, ConnectorPasswordSettings,
};

verus! {

/// The answer to a poll.
#[derive(Debug)]
pub struct PollAnswer {
    /// Where the next poll starts: one past the last message sent, or the
    /// poll's own cursor.
    pub cursor: i64,
    /// The messages sent, oldest first.
    pub messages: Vec<QueuedMessage>,
    /// The tab the extension opens when none is bound.
    pub auto_open_tab_url: Option<String>,
    /// A new password for the extension to save and acknowledge.
    pub password_update: Option<String>,
}

/// Answers a poll from `cursor` once the wait is over:
/// the pending messages are sent and recorded as delivered, a password is
/// offered when the handshake calls for one (generated from the time, the
/// process id and the thread id), and the auto-open address comes along.
pub fn answer_poll(
    manager: &mut ConnectorManager,
    password: &mut ConnectorPasswordSettings,
    cursor: i64,
    auto_open_enabled: bool,
    auto_open_url: &str,
    ts_nanos: u128,
    pid: u32,
    thread_id: &str,
) -> (r: PollAnswer)
    requires
        old(manager).wf(),
        select_pending(old(manager)@.state.messages, cursor).len() > 0 ==> select_pending(
            old(manager)@.state.messages,
            cursor,
        ).last().ts < i64::MAX,
    ensures
        final(manager).wf(),
        ({
            let sent = select_pending(old(manager)@.state.messages, cursor);
            let offer = spec_offer(old(password)@, secure_password(ts_nanos, pid, thread_id@));
            &&& messages_view(r.messages@) == sent
            &&& r.cursor == if sent.len() > 0 {
                sent.last().ts + 1
            } else {
                cursor as int
            }
            &&& final(manager)@ == (ManagerView {
                state: spec_mark_delivered(old(manager)@.state, sent.map_values(|m: MessageView| m.id)),
                ..old(manager)@
            })
            &&& final(password)@ == offer.0
            &&& opt_view_string(r.password_update) == offer.1
            &&& match r.auto_open_tab_url {
                Some(u) => auto_open_enabled && auto_open_url@.len() > 0 && u@ == auto_open_url@,
                None => !auto_open_enabled || auto_open_url@.len() == 0,
            }
        }),
{
    let (messages, ids) = manager.pending_messages(cursor);
    manager.mark_delivered(ids.as_slice());
    let password_update = password.maybe_generate_new_password(ts_nanos, pid, thread_id);
    let auto_open = auto_open_tab_url(auto_open_enabled, auto_open_url);
    let next = next_cursor(messages.as_slice(), cursor);
    PollAnswer { cursor: next, messages, auto_open_tab_url: auto_open, password_update }
}

/// The POST acknowledges a password (`type` is `password_ack`).
pub open spec fn is_password_ack(msg_type: Option<&str>) -> bool {
    match msg_type {
        Some(t) => t@ == "password_ack"@,
        None => false,
    }
}

/// Takes a POST from the extension at `now`: a
/// password acknowledgement commits the pending password; any POST counts
/// as a sign of life. Returns whether a password was committed.
pub fn answer_post(
    manager: &mut ConnectorManager,
    password: &mut ConnectorPasswordSettings,
    msg_type: Option<&str>,
    now: i64,
) -> (committed: bool)
    requires
        old(manager).wf(),
    ensures
        final(manager).wf(),
        final(manager)@ == (ManagerView { last_poll_at: now, ..old(manager)@ }),
        is_password_ack(msg_type) ==> committed == old(password)@.pending is Some && final(password)@
            == spec_commit(old(password)@),
        !is_password_ack(msg_type) ==> !committed && final(password)@ == old(password)@,
{
    proof {
        reveal_strlit("password_ack");
        reveal_strlit("keepalive_ack");
        assert("password_ack"@.len() != "keepalive_ack"@.len());
    }
    let committed = match classify_post(msg_type) {
        PostKind::PasswordAck => password.commit_pending_password(),
        _ => false,
    };
    manager.record_post(now);
    committed
}

} // verus!
