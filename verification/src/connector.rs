//! The extension connector: the message queue the browser extension polls,
//! its attachment blobs, delivery tracking, connection status and the
//! two-phase connector password handshake.
//!
//! The HTTP server, the clock and the settings store stay outside; every
//! decision they act on is made here.
use vstd::prelude::*;
use crate::numfmt::{dec_digits, dec_u128};
use crate::screenshot::{file_extension, file_extension_of};
use crate::text::{
    all_ws, chars_of, copy_opt_string, copy_string, is_blank, lowercase, push_all, push_str, str_eq,
    str_to_string, string_of, to_lowercase, trim, trim_str,
};

verus! {

/// Default server port.
pub const DEFAULT_PORT: u16 = 63155;

/// Without a poll for this many milliseconds the extension counts as offline.
pub const POLL_TIMEOUT_MS: i64 = 35_000;

/// Interval between keepalive messages, in milliseconds.
pub const KEEPALIVE_INTERVAL_MS: i64 = 15_000;

/// Most messages kept in the queue.
pub const MAX_MESSAGES: usize = 100;

/// How long a blob stays available for download, in milliseconds.
pub const BLOB_EXPIRY_MS: i64 = 300_000;

/// Longest long-poll wait, in seconds.
pub const MAX_WAIT_SECONDS: u32 = 30;

/// Long-poll wait when the extension asks for none, in seconds.
pub const DEFAULT_WAIT_SECONDS: u32 = 0;

/// Extension connection status.
#[derive(Debug, Clone, Copy, PartialEq, Eq, Structural)]
pub enum ExtensionStatus {
    /// Extension is actively polling.
    Online,
    /// Extension has not polled recently.
    Offline,
    /// Server is starting up, status unknown.
    Unknown,
}

/// Status info returned to the frontend.
#[derive(Debug, Clone, Copy, PartialEq, Eq, Structural)]
pub struct ConnectorStatus {
    pub status: ExtensionStatus,
    /// Last time the extension polled (Unix milliseconds), 0 if never.
    pub last_poll_at: i64,
    /// Server is running.
    pub server_running: bool,
    /// Port the server listens on.
    pub port: u16,
}

/// Fetch info for an attachment.
#[derive(Debug)]
pub struct BundleFetch {
    pub url: String,
    pub method: Option<String>,
    pub headers: Option<Vec<(String, String)>>,
    pub expires_at: Option<i64>,
}

/// Attachment info for bundle messages.
#[derive(Debug)]
pub struct BundleAttachment {
    pub att_id: String,
    pub kind: String,
    pub filename: Option<String>,
    pub mime: Option<String>,
    pub size: Option<u64>,
    pub fetch: BundleFetch,
}

/// A message in the queue, to be picked up by the extension.
#[derive(Debug)]
pub struct QueuedMessage {
    pub id: String,
    pub msg_type: String,
    pub text: String,
    pub ts: i64,
    pub attachments: Option<Vec<BundleAttachment>>,
}

/// A blob kept for the extension to download.
#[derive(Debug)]
pub struct PendingBlob {
    pub data: Vec<u8>,
    pub mime_type: String,
    pub expires_at: i64,
}

/// Event payload for a queued message.
#[derive(Debug)]
pub struct MessageQueuedEvent {
    pub id: String,
    pub text: String,
    pub timestamp: i64,
}

/// Event payload for a delivered message.
#[derive(Debug)]
pub struct MessageDeliveredEvent {
    pub id: String,
}

/// Event payload for a cancelled message.
#[derive(Debug)]
pub struct MessageCancelledEvent {
    pub id: String,
}

/// Model of a `BundleFetch`.
pub struct FetchView {
    pub url: Seq<char>,
    pub method: Option<Seq<char>>,
    pub headers: Option<Seq<(Seq<char>, Seq<char>)>>,
    pub expires_at: Option<i64>,
}

/// Model of a `BundleAttachment`.
pub struct AttachmentView {
    pub att_id: Seq<char>,
    pub kind: Seq<char>,
    pub filename: Option<Seq<char>>,
    pub mime: Option<Seq<char>>,
    pub size: Option<u64>,
    pub fetch: FetchView,
}

/// Model of a `QueuedMessage`.
pub struct MessageView {
    pub id: Seq<char>,
    pub msg_type: Seq<char>,
    pub text: Seq<char>,
    pub ts: i64,
    pub attachments: Option<Seq<AttachmentView>>,
}

/// Model of a `PendingBlob`.
pub struct BlobView {
    pub data: Seq<u8>,
    pub mime_type: Seq<char>,
    pub expires_at: i64,
}

/// Model of an optional string.
pub open spec fn opt_view(o: Option<String>) -> Option<Seq<char>> {
    match o {
        Some(s) => Some(s@),
        None => None,
    }
}

impl View for BundleFetch {
    type V = FetchView;

    open spec fn view(&self) -> FetchView {
        FetchView {
            url: self.url@,
            method: opt_view(self.method),
            headers: match self.headers {
                Some(h) => Some(h@.map_values(|p: (String, String)| (p.0@, p.1@))),
                None => None,
            },
            expires_at: self.expires_at,
        }
    }
}

impl View for BundleAttachment {
    type V = AttachmentView;

    open spec fn view(&self) -> AttachmentView {
        AttachmentView {
            att_id: self.att_id@,
            kind: self.kind@,
            filename: opt_view(self.filename),
            mime: opt_view(self.mime),
            size: self.size,
            fetch: self.fetch@,
        }
    }
}

impl View for QueuedMessage {
    type V = MessageView;

    open spec fn view(&self) -> MessageView {
        MessageView {
            id: self.id@,
            msg_type: self.msg_type@,
            text: self.text@,
            ts: self.ts,
            attachments: match self.attachments {
                Some(a) => Some(a@.map_values(|x: BundleAttachment| x@)),
                None => None,
            },
        }
    }
}

impl View for PendingBlob {
    type V = BlobView;

    open spec fn view(&self) -> BlobView {
        BlobView { data: self.data@, mime_type: self.mime_type@, expires_at: self.expires_at }
    }
}

fn copy_headers(h: &Option<Vec<(String, String)>>) -> (r: Option<Vec<(String, String)>>)
    ensures
        match (r, *h) {
            (Some(a), Some(b)) => a@.map_values(|p: (String, String)| (p.0@, p.1@)) == b@.map_values(
                |p: (String, String)| (p.0@, p.1@),
            ),
            (None, None) => true,
            _ => false,
        },
{
    match h {
        None => None,
        Some(v) => {
            let mut out: Vec<(String, String)> = Vec::new();
            let mut i: usize = 0;
            while i < v.len()
                invariant
                    0 <= i <= v.len(),
                    out@ == v@.subrange(0, i as int),
                decreases v.len() - i,
            {
                let a = copy_string(&v[i].0);
                let b = copy_string(&v[i].1);
                out.push((a, b));
                i = i + 1;
                assert(out@ =~= v@.subrange(0, i as int));
            }
            assert(out@.map_values(|p: (String, String)| (p.0@, p.1@)) =~= v@.map_values(
                |p: (String, String)| (p.0@, p.1@),
            ));
            assert(v@.subrange(0, v.len() as int) =~= v@);
            Some(out)
        },
    }
}

impl BundleFetch {
    /// A copy with the same contents.
    pub fn duplicate(&self) -> (r: Self)
        ensures
            r@ == self@,
    {
        BundleFetch {
            url: copy_string(&self.url),
            method: copy_opt_string(&self.method),
            headers: copy_headers(&self.headers),
            expires_at: self.expires_at,
        }
    }
}

impl BundleAttachment {
    /// A copy with the same contents.
    pub fn duplicate(&self) -> (r: Self)
        ensures
            r@ == self@,
    {
        BundleAttachment {
            att_id: copy_string(&self.att_id),
            kind: copy_string(&self.kind),
            filename: copy_opt_string(&self.filename),
            mime: copy_opt_string(&self.mime),
            size: self.size,
            fetch: self.fetch.duplicate(),
        }
    }
}

fn copy_attachments(v: &Vec<BundleAttachment>) -> (r: Vec<BundleAttachment>)
    ensures
        r@.map_values(|x: BundleAttachment| x@) == v@.map_values(|x: BundleAttachment| x@),
{
    let mut out: Vec<BundleAttachment> = Vec::new();
    let mut i: usize = 0;
    while i < v.len()
        invariant
            0 <= i <= v.len(),
            out@.len() == i,
            forall|j: int| 0 <= j < i ==> (#[trigger] out@[j])@ == v@[j]@,
        decreases v.len() - i,
    {
        let a = v[i].duplicate();
        out.push(a);
        i = i + 1;
    }
    assert(out@.map_values(|x: BundleAttachment| x@) =~= v@.map_values(|x: BundleAttachment| x@));
    out
}

impl QueuedMessage {
    /// A copy with the same contents.
    pub fn duplicate(&self) -> (r: Self)
        ensures
            r@ == self@,
    {
        let attachments = match &self.attachments {
            Some(a) => Some(copy_attachments(a)),
            None => None,
        };
        QueuedMessage {
            id: copy_string(&self.id),
            msg_type: copy_string(&self.msg_type),
            text: copy_string(&self.text),
            ts: self.ts,
            attachments,
        }
    }
}

impl PendingBlob {
    /// A copy with the same contents.
    pub fn duplicate(&self) -> (r: Self)
        ensures
            r@ == self@,
    {
        PendingBlob {
            data: self.data.clone(),
            mime_type: copy_string(&self.mime_type),
            expires_at: self.expires_at,
        }
    }
}

// ============================================================================
// The queue
// ============================================================================
/// The newest `MAX_MESSAGES` messages of `s`.
pub open spec fn keep_newest(s: Seq<MessageView>) -> Seq<MessageView> {
    if s.len() > MAX_MESSAGES {
        s.skip(s.len() - MAX_MESSAGES)
    } else {
        s
    }
}

/// The messages of `s` with a timestamp at or after `cursor`, in order.
pub open spec fn select_pending(s: Seq<MessageView>, cursor: i64) -> Seq<MessageView>
    decreases s.len(),
{
    if s.len() == 0 {
        s
    } else {
        let r = select_pending(s.drop_last(), cursor);
        if s.last().ts >= cursor {
            r.push(s.last())
        } else {
            r
        }
    }
}

/// The messages of `s` whose id is not `id`, in order.
pub open spec fn without_id(s: Seq<MessageView>, id: Seq<char>) -> Seq<MessageView>
    decreases s.len(),
{
    if s.len() == 0 {
        s
    } else {
        let r = without_id(s.drop_last(), id);
        if s.last().id != id {
            r.push(s.last())
        } else {
            r
        }
    }
}

/// The blobs of `s` that are still valid at `now`, in order.
pub open spec fn unexpired(s: Seq<(Seq<char>, BlobView)>, now: i64) -> Seq<(Seq<char>, BlobView)>
    decreases s.len(),
{
    if s.len() == 0 {
        s
    } else {
        let r = unexpired(s.drop_last(), now);
        if s.last().1.expires_at > now {
            r.push(s.last())
        } else {
            r
        }
    }
}

/// Some message of `s` has id `id`.
pub open spec fn has_message_id(s: Seq<MessageView>, id: Seq<char>) -> bool {
    exists|i: int| 0 <= i < s.len() && #[trigger] s[i].id == id
}

/// `s` with the blob under key `k` set to `b`: replaced where the key is
/// present, appended otherwise.
pub open spec fn insert_blob(s: Seq<(Seq<char>, BlobView)>, k: Seq<char>, b: BlobView) -> Seq<
    (Seq<char>, BlobView),
> {
    if exists|i: int| 0 <= i < s.len() && #[trigger] s[i].0 == k {
        let i = choose|i: int| 0 <= i < s.len() && #[trigger] s[i].0 == k;
        s.update(i, (k, b))
    } else {
        s.push((k, b))
    }
}

/// The first blob of `s` under key `k`.
pub open spec fn lookup_blob(s: Seq<(Seq<char>, BlobView)>, k: Seq<char>) -> Option<BlobView>
    decreases s.len(),
{
    if s.len() == 0 {
        None
    } else if s[0].0 == k {
        Some(s[0].1)
    } else {
        lookup_blob(s.drop_first(), k)
    }
}

/// Keys of `s` are pairwise distinct.
pub open spec fn unique_keys(s: Seq<(Seq<char>, BlobView)>) -> bool {
    forall|i: int, j: int| 0 <= i < j < s.len() ==> #[trigger] s[i].0 != #[trigger] s[j].0
}

/// Model of the connector state.
pub struct ConnectorView {
    pub messages: Seq<MessageView>,
    pub last_keepalive: i64,
    pub blobs: Seq<(Seq<char>, BlobView)>,
    pub delivered: Set<Seq<char>>,
}

/// The state shared by the connector's handlers: the message queue, the
/// blobs, and the ids of messages already delivered.
pub struct ConnectorState {
    messages: Vec<QueuedMessage>,
    last_keepalive: i64,
    blobs: Vec<(String, PendingBlob)>,
    delivered_ids: Vec<String>,
}

/// Model of a message-queue entry list.
pub open spec fn messages_view(v: Seq<QueuedMessage>) -> Seq<MessageView> {
    v.map_values(|m: QueuedMessage| m@)
}

/// Model of a list of ids.
pub open spec fn ids_view(v: Seq<String>) -> Seq<Seq<char>> {
    v.map_values(|s: String| s@)
}

/// Model of a blob list.
pub open spec fn blobs_view(v: Seq<(String, PendingBlob)>) -> Seq<(Seq<char>, BlobView)> {
    v.map_values(|p: (String, PendingBlob)| (p.0@, p.1@))
}

impl View for ConnectorState {
    type V = ConnectorView;

    closed spec fn view(&self) -> ConnectorView {
        ConnectorView {
            messages: messages_view(self.messages@),
            last_keepalive: self.last_keepalive,
            blobs: blobs_view(self.blobs@),
            delivered: ids_view(self.delivered_ids@).to_set(),
        }
    }
}

/// `v` with its blob list replaced by `b`.
pub open spec fn with_blobs(v: ConnectorView, b: Seq<(Seq<char>, BlobView)>) -> ConnectorView {
    ConnectorView { blobs: b, ..v }
}

/// `v` with its keepalive timestamp set to `t`.
pub open spec fn with_last_keepalive(v: ConnectorView, t: i64) -> ConnectorView {
    ConnectorView { last_keepalive: t, ..v }
}

/// A message without attachments.
pub open spec fn plain_message(id: Seq<char>, msg_type: Seq<char>, text: Seq<char>, ts: i64) -> MessageView {
    MessageView { id, msg_type, text, ts, attachments: None }
}

/// The state after `m` was queued: appended, the oldest dropped beyond the limit.
pub open spec fn spec_push(v: ConnectorView, m: MessageView) -> ConnectorView {
    ConnectorView { messages: keep_newest(v.messages.push(m)), ..v }
}

/// The state after cancelling `id`, and whether a message was removed.
pub open spec fn spec_cancel(v: ConnectorView, id: Seq<char>) -> (ConnectorView, bool) {
    if v.delivered.contains(id) {
        (v, false)
    } else {
        (ConnectorView { messages: without_id(v.messages, id), ..v }, has_message_id(v.messages, id))
    }
}

/// The state after the messages with ids `ids` were delivered: the delivered
/// set gains them and keeps only ids still in the queue.
pub open spec fn spec_mark_delivered(v: ConnectorView, ids: Seq<Seq<char>>) -> ConnectorView {
    ConnectorView {
        delivered: v.delivered.union(ids.to_set()).filter(|x: Seq<char>| has_message_id(v.messages, x)),
        ..v
    }
}

/// The queue well-formedness: bounded, and delivered ids recorded once each.
pub open spec fn queue_wf(v: ConnectorView) -> bool {
    v.messages.len() <= MAX_MESSAGES && unique_keys(v.blobs)
}

proof fn lemma_select_pending_step(s: Seq<MessageView>, i: int, cursor: i64)
    requires
        0 <= i < s.len(),
    ensures
        select_pending(s.take(i + 1), cursor) == if s[i].ts >= cursor {
            select_pending(s.take(i), cursor).push(s[i])
        } else {
            select_pending(s.take(i), cursor)
        },
{
    assert(s.take(i + 1).drop_last() =~= s.take(i));
    assert(s.take(i + 1).last() == s[i]);
}

proof fn lemma_without_id_step(s: Seq<MessageView>, i: int, id: Seq<char>)
    requires
        0 <= i < s.len(),
    ensures
        without_id(s.take(i + 1), id) == if s[i].id != id {
            without_id(s.take(i), id).push(s[i])
        } else {
            without_id(s.take(i), id)
        },
{
    assert(s.take(i + 1).drop_last() =~= s.take(i));
    assert(s.take(i + 1).last() == s[i]);
}

proof fn lemma_unexpired_step(s: Seq<(Seq<char>, BlobView)>, i: int, now: i64)
    requires
        0 <= i < s.len(),
    ensures
        unexpired(s.take(i + 1), now) == if s[i].1.expires_at > now {
            unexpired(s.take(i), now).push(s[i])
        } else {
            unexpired(s.take(i), now)
        },
{
    assert(s.take(i + 1).drop_last() =~= s.take(i));
    assert(s.take(i + 1).last() == s[i]);
}

proof fn lemma_without_id_len(s: Seq<MessageView>, id: Seq<char>)
    ensures
        without_id(s, id).len() <= s.len(),
        (without_id(s, id).len() < s.len()) == has_message_id(s, id),
    decreases s.len(),
{
    if s.len() > 0 {
        lemma_without_id_len(s.drop_last(), id);
        if has_message_id(s.drop_last(), id) {
            let k = choose|k: int| 0 <= k < s.drop_last().len() && #[trigger] s.drop_last()[k].id == id;
            assert(s[k].id == id);
        }
        if has_message_id(s, id) && s.last().id != id {
            let k = choose|k: int| 0 <= k < s.len() && #[trigger] s[k].id == id;
            assert(k < s.len() - 1);
            assert(s.drop_last()[k].id == id);
        }
        if s.last().id == id {
            assert(s[s.len() - 1].id == id);
        }
    }
}

proof fn lemma_unexpired_unique(s: Seq<(Seq<char>, BlobView)>, now: i64)
    requires
        unique_keys(s),
    ensures
        unique_keys(unexpired(s, now)),
        forall|i: int|
            0 <= i < unexpired(s, now).len() ==> exists|j: int|
                0 <= j < s.len() && #[trigger] s[j] == #[trigger] unexpired(s, now)[i],
    decreases s.len(),
{
    if s.len() > 0 {
        let d = s.drop_last();
        assert(unique_keys(d));
        lemma_unexpired_unique(d, now);
        let r = unexpired(d, now);
        assert forall|i: int| 0 <= i < r.len() implies exists|j: int|
            0 <= j < s.len() && #[trigger] s[j] == #[trigger] r[i] by {
            let j = choose|j: int| 0 <= j < d.len() && #[trigger] d[j] == #[trigger] r[i];
            assert(s[j] == d[j]);
        }
        if s.last().1.expires_at > now {
            let u = r.push(s.last());
            assert forall|i: int, j: int| 0 <= i < j < u.len() implies #[trigger] u[i].0
                != #[trigger] u[j].0 by {
                if j == u.len() - 1 {
                    let k = choose|k: int| 0 <= k < d.len() && #[trigger] d[k] == #[trigger] r[i];
                    assert(s[k] == d[k]);
                    assert(s[s.len() - 1] == s.last());
                } else {
                    assert(u[i] == r[i] && u[j] == r[j]);
                }
            }
            assert forall|i: int| 0 <= i < u.len() implies exists|j: int|
                0 <= j < s.len() && #[trigger] s[j] == #[trigger] u[i] by {
                if i == u.len() - 1 {
                    assert(s[s.len() - 1] == u[i]);
                } else {
                    assert(u[i] == r[i]);
                }
            }
        }
    }
}

impl ConnectorState {
    /// The state is well formed.
    pub closed spec fn wf(&self) -> bool {
        &&& queue_wf(self@)
        &&& ids_view(self.delivered_ids@).no_duplicates()
    }

    /// An empty state.
    pub fn new() -> (r: Self)
        ensures
            r.wf(),
            r@.messages.len() == 0,
            r@.blobs.len() == 0,
            r@.delivered.is_empty(),
            r@.last_keepalive == 0,
    {
        let r = ConnectorState {
            messages: Vec::new(),
            last_keepalive: 0,
            blobs: Vec::new(),
            delivered_ids: Vec::new(),
        };
        assert(ids_view(r.delivered_ids@).to_set() =~= Set::<Seq<char>>::empty());
        assert(messages_view(r.messages@) =~= Seq::<MessageView>::empty());
        assert(blobs_view(r.blobs@) =~= Seq::<(Seq<char>, BlobView)>::empty());
        r
    }

    /// The number of queued messages.
    pub fn message_count(&self) -> (r: usize)
        ensures
            r == self@.messages.len(),
    {
        self.messages.len()
    }

    /// Appends `m`, dropping the oldest messages beyond `MAX_MESSAGES`.
    pub fn push_message(&mut self, m: QueuedMessage)
        requires
            old(self).wf(),
        ensures
            final(self).wf(),
            final(self)@ == spec_push(old(self)@, m@),
    {
        let ghost mv = m@;
        let ghost pushed = messages_view(self.messages@).push(mv);
        self.messages.push(m);
        assert(messages_view(self.messages@) =~= pushed);
        assert(pushed.skip(0) =~= pushed);
        assert(messages_view(old(self).messages@).len() <= MAX_MESSAGES);
        let ghost mut k: int = 0;
        while self.messages.len() > MAX_MESSAGES
            invariant
                0 <= k <= 1,
                pushed.len() <= MAX_MESSAGES + 1,
                k == 1 ==> pushed.len() == MAX_MESSAGES + 1,
                messages_view(self.messages@) == pushed.skip(k),
                self.messages@.len() == pushed.len() - k,
                self.last_keepalive == old(self).last_keepalive,
                self.blobs@ == old(self).blobs@,
                self.delivered_ids@ == old(self).delivered_ids@,
            decreases self.messages.len(),
        {
            let ghost before = self.messages@;
            assert(k == 0);
            self.messages.remove(0);
            proof {
                assert forall|i: int| 0 <= i < self.messages@.len() implies #[trigger] messages_view(
                    self.messages@,
                )[i] == pushed.skip(1)[i] by {
                    assert(self.messages@[i] == before[i + 1]);
                    assert(messages_view(before)[i + 1] == pushed.skip(0)[i + 1]);
                }
                assert(messages_view(self.messages@) =~= pushed.skip(1));
                k = 1;
            }
        }
        assert(keep_newest(pushed) =~= pushed.skip(k));
    }

    /// Queues a text message (`ConnectorManager::queue_message`): the text is
    /// trimmed; a blank text is refused and leaves the state unchanged.
    pub fn queue_message(&mut self, text: &str, id: String, ts: i64) -> (r: Result<
        MessageQueuedEvent,
        String,
    >)
        requires
            old(self).wf(),
        ensures
            final(self).wf(),
            all_ws(text@) ==> r is Err && final(self)@ == old(self)@ && r->Err_0@
                == "Message is empty"@,
            !all_ws(text@) ==> r is Ok && r->Ok_0.id@ == id@ && r->Ok_0.text@ == trim(text@)
                && r->Ok_0.timestamp == ts && final(self)@ == spec_push(
                old(self)@,
                plain_message(id@, "text"@, trim(text@), ts),
            ),
    {
        if is_blank(text) {
            return Err(str_to_string("Message is empty"));
        }
        let trimmed = trim_str(text);
        let m = QueuedMessage {
            id: copy_string(&id),
            msg_type: str_to_string("text"),
            text: copy_string(&trimmed),
            ts,
            attachments: None,
        };
        self.push_message(m);
        Ok(MessageQueuedEvent { id, text: trimmed, timestamp: ts })
    }
}


impl ConnectorState {
    fn has_delivered(&self, id: &String) -> (r: bool)
        ensures
            r == ids_view(self.delivered_ids@).contains(id@),
    {
        let mut i: usize = 0;
        while i < self.delivered_ids.len()
            invariant
                0 <= i <= self.delivered_ids.len(),
                forall|j: int| 0 <= j < i ==> (#[trigger] self.delivered_ids@[j])@ != id@,
            decreases self.delivered_ids.len() - i,
        {
            if str_eq(self.delivered_ids[i].as_str(), id.as_str()) {
                assert(ids_view(self.delivered_ids@)[i as int] == id@);
                return true;
            }
            i = i + 1;
        }
        assert forall|j: int| 0 <= j < ids_view(self.delivered_ids@).len() implies #[trigger] ids_view(
            self.delivered_ids@,
        )[j] != id@ by {
            assert(self.delivered_ids@[j]@ != id@);
        }
        false
    }

    fn has_message(&self, id: &String) -> (r: bool)
        ensures
            r == has_message_id(messages_view(self.messages@), id@),
    {
        let mut i: usize = 0;
        while i < self.messages.len()
            invariant
                0 <= i <= self.messages.len(),
                forall|j: int| 0 <= j < i ==> (#[trigger] self.messages@[j]).id@ != id@,
            decreases self.messages.len() - i,
        {
            if str_eq(self.messages[i].id.as_str(), id.as_str()) {
                assert(messages_view(self.messages@)[i as int].id == id@);
                return true;
            }
            i = i + 1;
        }
        assert forall|j: int| 0 <= j < messages_view(self.messages@).len() implies #[trigger] messages_view(
            self.messages@,
        )[j].id != id@ by {
            assert(self.messages@[j].id@ != id@);
        }
        false
    }

    /// The queued messages with a timestamp at or after `cursor`, and their ids
    ///.
    pub fn pending_messages(&self, cursor: i64) -> (r: (Vec<QueuedMessage>, Vec<String>))
        ensures
            messages_view(r.0@) == select_pending(self@.messages, cursor),
            ids_view(r.1@) == messages_view(r.0@).map_values(|m: MessageView| m.id),
    {
        let mut out: Vec<QueuedMessage> = Vec::new();
        let mut ids: Vec<String> = Vec::new();
        let ghost all = messages_view(self.messages@);
        let mut i: usize = 0;
        assert(all.take(0) =~= Seq::<MessageView>::empty());
        assert(messages_view(out@) =~= Seq::<MessageView>::empty());
        while i < self.messages.len()
            invariant
                0 <= i <= self.messages.len(),
                all == messages_view(self.messages@),
                messages_view(out@) == select_pending(all.take(i as int), cursor),
                ids_view(ids@) == messages_view(out@).map_values(|m: MessageView| m.id),
            decreases self.messages.len() - i,
        {
            proof {
                lemma_select_pending_step(all, i as int, cursor);
            }
            if self.messages[i].ts >= cursor {
                let ghost before = messages_view(out@);
                let ghost before_ids = ids_view(ids@);
                let m = self.messages[i].duplicate();
                let id = copy_string(&m.id);
                out.push(m);
                ids.push(id);
                assert(messages_view(out@) =~= before.push(all[i as int]));
                assert(ids_view(ids@) =~= before_ids.push(all[i as int].id));
                assert(messages_view(out@).map_values(|m: MessageView| m.id) =~= before.map_values(
                    |m: MessageView| m.id,
                ).push(all[i as int].id));
            }
            i = i + 1;
        }
        assert(all.take(self.messages.len() as int) =~= all);
        (out, ids)
    }

    /// Records the messages with ids `ids` as delivered, then forgets delivered
    /// ids whose message has left the queue.
    pub fn mark_delivered(&mut self, ids: &[String])
        requires
            old(self).wf(),
        ensures
            final(self).wf(),
            final(self)@ == spec_mark_delivered(old(self)@, ids@.map_values(|s: String| s@)),
    {
        let ghost ids_v = ids@.map_values(|s: String| s@);
        let ghost d0 = ids_view(self.delivered_ids@);
        let mut i: usize = 0;
        while i < ids.len()
            invariant
                0 <= i <= ids.len(),
                ids_v == ids@.map_values(|s: String| s@),
                ids_view(self.delivered_ids@).no_duplicates(),
                forall|x: Seq<char>|
                    #![trigger ids_view(self.delivered_ids@).contains(x)]
                    #![trigger d0.contains(x)]
                    #![trigger ids_v.take(i as int).contains(x)]
                    ids_view(self.delivered_ids@).contains(x) <==> (d0.contains(x) || ids_v.take(
                        i as int,
                    ).contains(x)),
                self.messages@ == old(self).messages@,
                self.blobs@ == old(self).blobs@,
                self.last_keepalive == old(self).last_keepalive,
                d0 == ids_view(old(self).delivered_ids@),
            decreases ids.len() - i,
        {
            let ghost before = ids_view(self.delivered_ids@);
            let present = self.has_delivered(&ids[i]);
            if !present {
                let c = copy_string(&ids[i]);
                self.delivered_ids.push(c);
                assert(ids_view(self.delivered_ids@) =~= before.push(ids_v[i as int]));
            }
            proof {
                let now_d = ids_view(self.delivered_ids@);
                let t0 = ids_v.take(i as int);
                let t1 = ids_v.take(i + 1);
                assert(ids_v[i as int] == ids@[i as int]@);
                assert(t1 =~= t0.push(ids_v[i as int]));
                assert(present ==> now_d == before);
                assert(present ==> before.contains(ids_v[i as int]));
                assert forall|x: Seq<char>| now_d.contains(x) implies (d0.contains(x) || t1.contains(x)) by {
                    if before.contains(x) {
                        assert(d0.contains(x) || t0.contains(x));
                        if t0.contains(x) {
                            let k = choose|k: int| 0 <= k < t0.len() && #[trigger] t0[k] == x;
                            assert(t1[k] == x);
                        }
                    } else {
                        let k = choose|k: int| 0 <= k < now_d.len() && #[trigger] now_d[k] == x;
                        if k < before.len() {
                            assert(before[k] == x);
                        }
                        assert(k == before.len());
                        assert(x == ids_v[i as int]);
                        assert(t1[i as int] == x);
                    }
                }
                assert forall|x: Seq<char>| (d0.contains(x) || t1.contains(x)) implies now_d.contains(x) by {
                    if d0.contains(x) || t0.contains(x) {
                        assert(before.contains(x));
                        let k = choose|k: int| 0 <= k < before.len() && #[trigger] before[k] == x;
                        assert(now_d[k] == x);
                    } else {
                        let k = choose|k: int| 0 <= k < t1.len() && #[trigger] t1[k] == x;
                        if k < i {
                            assert(t0[k] == x);
                        }
                        assert(x == ids_v[i as int]);
                        if !present {
                            assert(now_d[now_d.len() - 1] == x);
                        }
                    }
                }
            }
            i = i + 1;
        }
        assert(ids_v.take(ids.len() as int) =~= ids_v);
        let ghost d1 = ids_view(self.delivered_ids@);
        let mut kept: Vec<String> = Vec::new();
        let mut j: usize = 0;
        while j < self.delivered_ids.len()
            invariant
                0 <= j <= self.delivered_ids.len(),
                d1 == ids_view(self.delivered_ids@),
                d1.no_duplicates(),
                ids_view(kept@).no_duplicates(),
                forall|x: Seq<char>|
                    ids_view(kept@).contains(x) <==> (d1.take(j as int).contains(x)
                        && has_message_id(messages_view(self.messages@), x)),
            decreases self.delivered_ids.len() - j,
        {
            let ghost before = ids_view(kept@);
            if self.has_message(&self.delivered_ids[j]) {
                let c = copy_string(&self.delivered_ids[j]);
                proof {
                    if before.contains(d1[j as int]) {
                        let k = choose|k: int| 0 <= k < j && #[trigger] d1.take(j as int)[k] == d1[j as int];
                        assert(d1[k] == d1[j as int]);
                    }
                }
                kept.push(c);
                assert(ids_view(kept@) =~= before.push(d1[j as int]));
            }
            proof {
                assert(d1.take(j + 1) =~= d1.take(j as int).push(d1[j as int]));
                assert forall|x: Seq<char>|
                    ids_view(kept@).contains(x) <==> (d1.take(j + 1).contains(x) && has_message_id(
                        messages_view(self.messages@),
                        x,
                    )) by {
                    if before.contains(x) {
                        let k = choose|k: int| 0 <= k < before.len() && #[trigger] before[k] == x;
                        assert(ids_view(kept@)[k] == x);
                    }
                    if ids_view(kept@).contains(x) && !before.contains(x) {
                        assert(x == d1[j as int]);
                        assert(d1.take(j + 1)[j as int] == x);
                    }
                    if d1.take(j + 1).contains(x) && !d1.take(j as int).contains(x) {
                        let k = choose|k: int| 0 <= k < j + 1 && #[trigger] d1.take(j + 1)[k] == x;
                        if k < j {
                            assert(d1.take(j as int)[k] == x);
                        }
                        if has_message_id(messages_view(self.messages@), x) {
                            assert(ids_view(kept@)[ids_view(kept@).len() - 1] == x);
                        }
                    }
                }
            }
            j = j + 1;
        }
        assert(d1.take(self.delivered_ids.len() as int) =~= d1);
        self.delivered_ids = kept;
        proof {
            let sv = spec_mark_delivered(old(self)@, ids_v);
            assert(ids_view(self.delivered_ids@).to_set() =~= sv.delivered) by {
                assert forall|x: Seq<char>| ids_view(self.delivered_ids@).to_set().contains(x)
                    <==> sv.delivered.contains(x) by {
                    if ids_v.contains(x) {
                        assert(ids_v.to_set().contains(x));
                    }
                    if d0.contains(x) {
                        assert(ids_view(old(self).delivered_ids@).to_set().contains(x));
                    }
                }
            }
        }
    }

    /// Cancels a queued message that was not delivered yet; returns whether one
    /// was removed (`ConnectorManager::cancel_queued_message`).
    pub fn cancel_queued_message(&mut self, message_id: &str) -> (r: bool)
        requires
            old(self).wf(),
        ensures
            final(self).wf(),
            (final(self)@, r) == spec_cancel(old(self)@, message_id@),
    {
        let id = str_to_string(message_id);
        if self.has_delivered(&id) {
            assert(old(self)@.delivered.contains(message_id@));
            return false;
        }
        assert(!old(self)@.delivered.contains(message_id@));
        let ghost all = messages_view(self.messages@);
        let mut kept: Vec<QueuedMessage> = Vec::new();
        let mut i: usize = 0;
        let n = self.messages.len();
        assert(all.take(0) =~= Seq::<MessageView>::empty());
        assert(messages_view(kept@) =~= Seq::<MessageView>::empty());
        while i < n
            invariant
                0 <= i <= n,
                n == self.messages.len(),
                all == messages_view(self.messages@),
                messages_view(kept@) == without_id(all.take(i as int), message_id@),
                kept@.len() <= i,
            decreases n - i,
        {
            proof {
                lemma_without_id_step(all, i as int, message_id@);
            }
            if !str_eq(self.messages[i].id.as_str(), message_id) {
                let ghost before = messages_view(kept@);
                let m = self.messages[i].duplicate();
                kept.push(m);
                assert(messages_view(kept@) =~= before.push(all[i as int]));
            }
            i = i + 1;
        }
        assert(all.take(n as int) =~= all);
        proof {
            lemma_without_id_len(all, message_id@);
        }
        let removed = kept.len() < n;
        self.messages = kept;
        removed
    }

    /// Queues a keepalive message when more than `KEEPALIVE_INTERVAL_MS` passed
    /// since the last one; returns whether it did.
    pub fn keepalive_tick(&mut self, now: i64, id: String) -> (r: bool)
        requires
            old(self).wf(),
        ensures
            final(self).wf(),
            r == (now - old(self)@.last_keepalive > KEEPALIVE_INTERVAL_MS),
            r ==> final(self)@ == spec_push(
                with_last_keepalive(old(self)@, now),
                plain_message(id@, "keepalive"@, "keepalive"@, now),
            ),
            !r ==> final(self)@ == old(self)@,
    {
        if (now as i128) - (self.last_keepalive as i128) > KEEPALIVE_INTERVAL_MS as i128 {
            self.last_keepalive = now;
            let m = QueuedMessage {
                id,
                msg_type: str_to_string("keepalive"),
                text: str_to_string("keepalive"),
                ts: now,
                attachments: None,
            };
            self.push_message(m);
            true
        } else {
            false
        }
    }

    /// Drops the blobs that expired at `now` (kept: `expires_at > now`).
    pub fn remove_expired_blobs(&mut self, now: i64)
        requires
            old(self).wf(),
        ensures
            final(self).wf(),
            final(self)@ == with_blobs(old(self)@, unexpired(old(self)@.blobs, now)),
    {
        let ghost all = blobs_view(self.blobs@);
        let mut kept: Vec<(String, PendingBlob)> = Vec::new();
        let mut i: usize = 0;
        let n = self.blobs.len();
        assert(all.take(0) =~= Seq::<(Seq<char>, BlobView)>::empty());
        assert(blobs_view(kept@) =~= Seq::<(Seq<char>, BlobView)>::empty());
        while i < n
            invariant
                0 <= i <= n,
                n == self.blobs.len(),
                all == blobs_view(self.blobs@),
                blobs_view(kept@) == unexpired(all.take(i as int), now),
            decreases n - i,
        {
            proof {
                lemma_unexpired_step(all, i as int, now);
            }
            if self.blobs[i].1.expires_at > now {
                let ghost before = blobs_view(kept@);
                let k = copy_string(&self.blobs[i].0);
                let b = self.blobs[i].1.duplicate();
                kept.push((k, b));
                assert(blobs_view(kept@) =~= before.push(all[i as int]));
            }
            i = i + 1;
        }
        assert(all.take(n as int) =~= all);
        proof {
            lemma_unexpired_unique(all, now);
        }
        self.blobs = kept;
    }

    /// Serves a blob: expired blobs are dropped first, then
    /// the blob under `att_id`, if any, is returned.
    pub fn take_blob(&mut self, att_id: &str, now: i64) -> (r: Option<PendingBlob>)
        requires
            old(self).wf(),
        ensures
            final(self).wf(),
            final(self)@ == with_blobs(old(self)@, unexpired(old(self)@.blobs, now)),
            match r {
                Some(b) => lookup_blob(final(self)@.blobs, att_id@) == Some(b@),
                None => lookup_blob(final(self)@.blobs, att_id@) == None::<BlobView>,
            },
    {
        self.remove_expired_blobs(now);
        let ghost bv = blobs_view(self.blobs@);
        let ghost after = self@;
        let mut i: usize = 0;
        assert(bv.skip(0) =~= bv);
        while i < self.blobs.len()
            invariant
                0 <= i <= self.blobs.len(),
                bv == blobs_view(self.blobs@),
                self@ == after,
                self.wf(),
                after == with_blobs(old(self)@, unexpired(old(self)@.blobs, now)),
                lookup_blob(bv, att_id@) == lookup_blob(bv.skip(i as int), att_id@),
            decreases self.blobs.len() - i,
        {
            assert(bv.skip(i as int)[0] == bv[i as int]);
            assert(bv.skip(i as int).drop_first() =~= bv.skip(i + 1));
            if str_eq(self.blobs[i].0.as_str(), att_id) {
                return Some(self.blobs[i].1.duplicate());
            }
            i = i + 1;
        }
        assert(bv.skip(i as int).len() == 0);
        None
    }

    /// Stores a blob under `att_id`, replacing one already stored there.
    pub fn insert_blob(&mut self, att_id: String, blob: PendingBlob)
        requires
            old(self).wf(),
        ensures
            final(self).wf(),
            final(self)@ == with_blobs(old(self)@, insert_blob(old(self)@.blobs, att_id@, blob@)),
    {
        let ghost bv = blobs_view(self.blobs@);
        let mut i: usize = 0;
        while i < self.blobs.len()
            invariant
                0 <= i <= self.blobs.len(),
                bv == blobs_view(self.blobs@),
                self.blobs@ == old(self).blobs@,
                self.messages@ == old(self).messages@,
                self.delivered_ids@ == old(self).delivered_ids@,
                self.last_keepalive == old(self).last_keepalive,
                old(self).wf(),
                unique_keys(bv),
                forall|j: int| 0 <= j < i ==> #[trigger] bv[j].0 != att_id@,
            decreases self.blobs.len() - i,
        {
            if str_eq(self.blobs[i].0.as_str(), att_id.as_str()) {
                proof {
                    assert(bv[i as int].0 == att_id@);
                    let c = choose|c: int| 0 <= c < bv.len() && #[trigger] bv[c].0 == att_id@;
                    if c < i {
                        assert(bv[c].0 != att_id@);
                    }
                    if c > i {
                        assert(bv[i as int].0 != bv[c].0);
                    }
                    assert(c == i);
                }
                let ghost bview = blob@;
                let ghost kview = att_id@;
                self.blobs.set(i, (att_id, blob));
                assert(blobs_view(self.blobs@) =~= bv.update(i as int, (kview, bview)));
                proof {
                    let nb = blobs_view(self.blobs@);
                    assert forall|a: int, b: int| 0 <= a < b < nb.len() implies #[trigger] nb[a].0
                        != #[trigger] nb[b].0 by {
                        assert(nb[a].0 == bv[a].0 && nb[b].0 == bv[b].0);
                    }
                }
                return;
            }
            i = i + 1;
        }
        let ghost bview = blob@;
        let ghost kview = att_id@;
        self.blobs.push((att_id, blob));
        assert(blobs_view(self.blobs@) =~= bv.push((kview, bview)));
        proof {
            let nb = blobs_view(self.blobs@);
            assert forall|a: int, b: int| 0 <= a < b < nb.len() implies #[trigger] nb[a].0
                != #[trigger] nb[b].0 by {
                if b == nb.len() - 1 {
                    assert(bv[a].0 != kview);
                } else {
                    assert(nb[a].0 == bv[a].0 && nb[b].0 == bv[b].0);
                }
            }
        }
    }
}

/// The download address of attachment `att_id` on the server at `port`.
pub open spec fn fetch_url(port: u16, att_id: Seq<char>) -> Seq<char> {
    "http://127.0.0.1:"@ + dec_digits(port as nat) + "/blob/"@ + att_id
}

/// The MIME type of an image with the lowercase file extension `ext`.
pub open spec fn image_mime_for(ext: Seq<char>) -> Seq<char> {
    if ext == "jpg"@ || ext == "jpeg"@ {
        "image/jpeg"@
    } else if ext == "gif"@ {
        "image/gif"@
    } else if ext == "webp"@ {
        "image/webp"@
    } else if ext == "bmp"@ {
        "image/bmp"@
    } else {
        "image/png"@
    }
}

/// The MIME type for a lowercase image file extension; unknown ones are PNG.
pub fn image_mime_for_lowercase_extension(ext: &str) -> (r: String)
    ensures
        r@ == image_mime_for(ext@),
{
    if str_eq(ext, "jpg") || str_eq(ext, "jpeg") {
        str_to_string("image/jpeg")
    } else if str_eq(ext, "gif") {
        str_to_string("image/gif")
    } else if str_eq(ext, "webp") {
        str_to_string("image/webp")
    } else if str_eq(ext, "bmp") {
        str_to_string("image/bmp")
    } else {
        str_to_string("image/png")
    }
}

/// The MIME type of an image file from its extension, if it has one
/// (compared case-insensitively; none counts as PNG).
pub fn image_mime_type(extension: Option<&str>) -> (r: String)
    ensures
        r@ == image_mime_for(
            lowercase(
                match extension {
                    Some(e) => e@,
                    None => "png"@,
                },
            ),
        ),
{
    let ext = match extension {
        Some(e) => e,
        None => "png",
    };
    let lower = to_lowercase(ext);
    image_mime_for_lowercase_extension(lower.as_str())
}

/// The bundle message with one image attachment, as queued.
pub open spec fn bundle_message(
    msg_id: Seq<char>,
    text: Seq<char>,
    now: i64,
    att: AttachmentView,
) -> MessageView {
    MessageView { id: msg_id, msg_type: "bundle"@, text: trim(text), ts: now, attachments: Some(seq![att]) }
}

/// The image attachment of a bundle message.
pub open spec fn image_attachment(
    att_id: Seq<char>,
    filename: Option<Seq<char>>,
    mime: Seq<char>,
    size: u64,
    url: Seq<char>,
    expires_at: i64,
) -> AttachmentView {
    AttachmentView {
        att_id,
        kind: "image"@,
        filename,
        mime: Some(mime),
        size: Some(size),
        fetch: FetchView { url, method: Some("GET"@), headers: None, expires_at: Some(expires_at) },
    }
}

/// The state after a bundle message was queued: the blob stored, the message
/// pushed, then the blobs expired at `cleanup_now` dropped.
pub open spec fn spec_queue_bundle(
    v: ConnectorView,
    msg: MessageView,
    att_id: Seq<char>,
    blob: BlobView,
    cleanup_now: i64,
) -> ConnectorView {
    let with_blob = with_blobs(v, insert_blob(v.blobs, att_id, blob));
    let pushed = spec_push(with_blob, msg);
    with_blobs(pushed, unexpired(pushed.blobs, cleanup_now))
}

impl ConnectorState {
    /// Queues a bundle message carrying one image: the
    /// image bytes `data` are stored as a blob under `att_id` until
    /// `now + BLOB_EXPIRY_MS`, the message points at the blob's address on
    /// `port`, and blobs expired at `cleanup_now` are dropped.
    pub fn queue_bundle_message(
        &mut self,
        text: &str,
        data: Vec<u8>,
        mime_type: &str,
        filename: Option<String>,
        att_id: String,
        msg_id: String,
        now: i64,
        port: u16,
        cleanup_now: i64,
    ) -> (r: MessageQueuedEvent)
        requires
            old(self).wf(),
            now + BLOB_EXPIRY_MS <= i64::MAX,
        ensures
            final(self).wf(),
            final(self)@ == spec_queue_bundle(
                old(self)@,
                bundle_message(
                    msg_id@,
                    text@,
                    now,
                    image_attachment(
                        att_id@,
                        opt_view(filename),
                        mime_type@,
                        data@.len() as u64,
                        fetch_url(port, att_id@),
                        (now + BLOB_EXPIRY_MS) as i64,
                    ),
                ),
                att_id@,
                BlobView { data: data@, mime_type: mime_type@, expires_at: (now + BLOB_EXPIRY_MS) as i64 },
                cleanup_now,
            ),
            r.id@ == msg_id@,
            r.text@ == trim(text@),
            r.timestamp == now,
    {
        let file_size = data.len() as u64;
        let expires_at = now + BLOB_EXPIRY_MS;
        let mut url = chars_of("http://127.0.0.1:");
        let port_digits = dec_u128(port as u128);
        push_all(&mut url, port_digits.as_slice());
        push_str(&mut url, "/blob/");
        push_str(&mut url, att_id.as_str());
        let fetch_url_s = string_of(url.as_slice());
        let attachment = BundleAttachment {
            att_id: copy_string(&att_id),
            kind: str_to_string("image"),
            filename,
            mime: Some(str_to_string(mime_type)),
            size: Some(file_size),
            fetch: BundleFetch {
                url: fetch_url_s,
                method: Some(str_to_string("GET")),
                headers: None,
                expires_at: Some(expires_at),
            },
        };
        let blob = PendingBlob { data, mime_type: str_to_string(mime_type), expires_at };
        let trimmed = trim_str(text);
        let mut attachments: Vec<BundleAttachment> = Vec::new();
        attachments.push(attachment);
        let msg = QueuedMessage {
            id: copy_string(&msg_id),
            msg_type: str_to_string("bundle"),
            text: copy_string(&trimmed),
            ts: now,
            attachments: Some(attachments),
        };
        let ghost mv = msg@;
        self.insert_blob(att_id, blob);
        self.push_message(msg);
        self.remove_expired_blobs(cleanup_now);
        proof {
            assert(mv.attachments->0 =~= seq![mv.attachments->0[0]]);
        }
        MessageQueuedEvent { id: msg_id, text: trimmed, timestamp: now }
    }
}

/// The extension's status as the frontend sees it.
pub open spec fn spec_extension_status(server_running: bool, last_poll_at: i64, now: i64) -> ExtensionStatus {
    if !server_running || last_poll_at == 0 {
        ExtensionStatus::Unknown
    } else if now - last_poll_at < POLL_TIMEOUT_MS {
        ExtensionStatus::Online
    } else {
        ExtensionStatus::Offline
    }
}

/// The extension polled within the timeout.
pub open spec fn spec_is_online(last_poll_at: i64, now: i64) -> bool {
    last_poll_at != 0 && now - last_poll_at < POLL_TIMEOUT_MS
}

/// `a - b < limit`, computed without overflow.
fn within(a: i64, b: i64, limit: i64) -> (r: bool)
    ensures
        r == (a - b < limit),
{
    (a as i128) - (b as i128) < (limit as i128)
}

/// The extension's status: unknown while the server is down or before the
/// first poll, online while polls are recent, offline otherwise.
pub fn extension_status(server_running: bool, last_poll_at: i64, now: i64) -> (r: ExtensionStatus)
    ensures
        r == spec_extension_status(server_running, last_poll_at, now),
{
    if !server_running || last_poll_at == 0 {
        ExtensionStatus::Unknown
    } else if within(now, last_poll_at, POLL_TIMEOUT_MS) {
        ExtensionStatus::Online
    } else {
        ExtensionStatus::Offline
    }
}

/// Whether the extension is online: it polled, within the timeout.
pub fn is_online(last_poll_at: i64, now: i64) -> (r: bool)
    ensures
        r == spec_is_online(last_poll_at, now),
{
    last_poll_at != 0 && within(now, last_poll_at, POLL_TIMEOUT_MS)
}

/// A poll that follows `previous_poll_at` at `now` brings the extension
/// (back) online: it is the first poll, or the previous one timed out.
pub open spec fn spec_came_online(previous_poll_at: i64, now: i64) -> bool {
    previous_poll_at == 0 || now - previous_poll_at >= POLL_TIMEOUT_MS
}

/// Whether a poll at `now` after one at `previous_poll_at` brings the
/// extension online.
pub fn came_online(previous_poll_at: i64, now: i64) -> (r: bool)
    ensures
        r == spec_came_online(previous_poll_at, now),
{
    previous_poll_at == 0 || !within(now, previous_poll_at, POLL_TIMEOUT_MS)
}

/// One step of the status watcher: with a poll on record, the online state at
/// `now` is reported when it differs from `was_online`.
pub open spec fn spec_status_change(was_online: bool, last_poll_at: i64, now: i64) -> Option<ExtensionStatus> {
    if last_poll_at > 0 && (now - last_poll_at < POLL_TIMEOUT_MS) != was_online {
        if now - last_poll_at < POLL_TIMEOUT_MS {
            Some(ExtensionStatus::Online)
        } else {
            Some(ExtensionStatus::Offline)
        }
    } else {
        None
    }
}

/// The status change the watcher reports, if any; the watcher then takes
/// `Online` as its new `was_online` state on `Some(Online)` and `false` on
/// `Some(Offline)`.
pub fn status_change(was_online: bool, last_poll_at: i64, now: i64) -> (r: Option<ExtensionStatus>)
    ensures
        r == spec_status_change(was_online, last_poll_at, now),
{
    if last_poll_at > 0 {
        let online = within(now, last_poll_at, POLL_TIMEOUT_MS);
        if online != was_online {
            if online {
                return Some(ExtensionStatus::Online);
            } else {
                return Some(ExtensionStatus::Offline);
            }
        }
    }
    None
}

/// The long-poll wait: the requested one (none: `DEFAULT_WAIT_SECONDS`),
/// capped at `MAX_WAIT_SECONDS`.
pub fn effective_wait_seconds(wait: Option<u32>) -> (r: u32)
    ensures
        r == match wait {
            Some(w) => if w < MAX_WAIT_SECONDS { w } else { MAX_WAIT_SECONDS },
            None => DEFAULT_WAIT_SECONDS,
        },
{
    let w = match wait {
        Some(w) => w,
        None => DEFAULT_WAIT_SECONDS,
    };
    if w < MAX_WAIT_SECONDS {
        w
    } else {
        MAX_WAIT_SECONDS
    }
}

/// The cursor handed back with a batch: one past the last message's
/// timestamp, so the next poll (which asks for `ts >= cursor`) skips it; the
/// request's cursor when the batch is empty.
pub fn next_cursor(messages: &[QueuedMessage], cursor: i64) -> (r: i64)
    requires
        messages@.len() > 0 ==> messages@.last().ts < i64::MAX,
    ensures
        r == if messages@.len() > 0 { messages@.last().ts + 1 } else { cursor as int },
{
    if messages.len() > 0 {
        messages[messages.len() - 1].ts + 1
    } else {
        cursor
    }
}

/// The tab the extension should open when none is bound: the configured
/// address, when the option is on and the address is set.
pub fn auto_open_tab_url(enabled: bool, url: &str) -> (r: Option<String>)
    ensures
        match r {
            Some(u) => enabled && url@.len() > 0 && u@ == url@,
            None => !enabled || url@.len() == 0,
        },
{
    let v = chars_of(url);
    if enabled && v.len() > 0 {
        Some(str_to_string(url))
    } else {
        None
    }
}

/// What a POST from the extension asks for.
#[derive(Debug, Clone, Copy, PartialEq, Eq, Structural)]
pub enum PostKind {
    /// Answer to a keepalive.
    KeepaliveAck,
    /// The extension saved the offered password: commit it.
    PasswordAck,
    /// Anything else.
    Other,
}

/// Classifies a POST body by its `type` field.
pub fn classify_post(msg_type: Option<&str>) -> (r: PostKind)
    ensures
        r == match msg_type {
            Some(t) => if t@ == "keepalive_ack"@ {
                PostKind::KeepaliveAck
            } else if t@ == "password_ack"@ {
                PostKind::PasswordAck
            } else {
                PostKind::Other
            },
            None => PostKind::Other,
        },
{
    match msg_type {
        Some(t) => if str_eq(t, "keepalive_ack") {
            PostKind::KeepaliveAck
        } else if str_eq(t, "password_ack") {
            PostKind::PasswordAck
        } else {
            PostKind::Other
        },
        None => PostKind::Other,
    }
}

/// The connector's own state: the queue, the poll clock, the server flags
/// and the port. The HTTP server, the clock and the event bus act on it from
/// outside.
pub struct ConnectorManager {
    last_poll_at: i64,
    server_running: bool,
    port: u16,
    stop_flag: bool,
    state: ConnectorState,
}

/// Model of the connector manager.
pub struct ManagerView {
    pub last_poll_at: i64,
    pub server_running: bool,
    pub port: u16,
    pub stop_flag: bool,
    pub state: ConnectorView,
}

impl View for ConnectorManager {
    type V = ManagerView;

    closed spec fn view(&self) -> ManagerView {
        ManagerView {
            last_poll_at: self.last_poll_at,
            server_running: self.server_running,
            port: self.port,
            stop_flag: self.stop_flag,
            state: self.state@,
        }
    }
}

/// The port the server uses for the configured `connector_port` (0: default).
pub open spec fn spec_port(connector_port: u16) -> u16 {
    if connector_port > 0 {
        connector_port
    } else {
        DEFAULT_PORT
    }
}

/// The refusal of a privileged port.
pub open spec fn port_refused_message(port: u16) -> Seq<char> {
    "Port "@ + dec_digits(port as nat) + " is not allowed. Please use a port number of 1024 or higher."@
}

impl ConnectorManager {
    /// The manager is well formed.
    pub closed spec fn wf(&self) -> bool {
        self.state.wf()
    }

    /// A stopped manager with an empty queue, for the configured port.
    pub fn new(connector_port: u16) -> (r: Self)
        ensures
            r.wf(),
            r@.port == spec_port(connector_port),
            r@.last_poll_at == 0,
            !r@.server_running,
            !r@.stop_flag,
            r@.state.messages.len() == 0,
            r@.state.blobs.len() == 0,
            r@.state.delivered.is_empty(),
    {
        let port = if connector_port > 0 {
            connector_port
        } else {
            DEFAULT_PORT
        };
        ConnectorManager {
            last_poll_at: 0,
            server_running: false,
            port,
            stop_flag: false,
            state: ConnectorState::new(),
        }
    }

    /// The port the server listens on, or will.
    pub fn port(&self) -> (r: u16)
        ensures
            r == self@.port,
    {
        self.port
    }

    /// Whether the server runs.
    pub fn server_running(&self) -> (r: bool)
        ensures
            r == self@.server_running,
    {
        self.server_running
    }

    /// Whether the server was asked to stop.
    pub fn stop_requested(&self) -> (r: bool)
        ensures
            r == self@.stop_flag,
    {
        self.stop_flag
    }

    /// Starts the server: `Ok(false)` when it already runs;
    /// a port below 1024 is refused; otherwise the server is marked running
    /// with the stop flag cleared and `Ok(true)` asks the caller to bind it.
    pub fn start_server(&mut self) -> (r: Result<bool, String>)
        requires
            old(self).wf(),
        ensures
            final(self).wf(),
            old(self)@.server_running ==> r == Ok::<bool, String>(false) && final(self)@ == old(self)@,
            !old(self)@.server_running && old(self)@.port < 1024 ==> r is Err && r->Err_0@
                == port_refused_message(old(self)@.port) && final(self)@ == old(self)@,
            !old(self)@.server_running && old(self)@.port >= 1024 ==> r == Ok::<bool, String>(true)
                && final(self)@ == (ManagerView {
                server_running: true,
                stop_flag: false,
                ..old(self)@
            }),
    {
        if self.server_running {
            return Ok(false);
        }
        if self.port < 1024 {
            let mut m = chars_of("Port ");
            let d = dec_u128(self.port as u128);
            push_all(&mut m, d.as_slice());
            push_str(&mut m, " is not allowed. Please use a port number of 1024 or higher.");
            return Err(string_of(m.as_slice()));
        }
        self.server_running = true;
        self.stop_flag = false;
        Ok(true)
    }

    /// The server stopped (or failed to bind).
    pub fn server_stopped(&mut self)
        requires
            old(self).wf(),
        ensures
            final(self).wf(),
            final(self)@ == (ManagerView { server_running: false, ..old(self)@ }),
    {
        self.server_running = false;
    }

    /// Asks the server to stop.
    pub fn stop_server(&mut self)
        requires
            old(self).wf(),
        ensures
            final(self).wf(),
            final(self)@ == (ManagerView { stop_flag: true, ..old(self)@ }),
    {
        self.stop_flag = true;
    }

    /// Moves the server to `new_port`: the port is
    /// updated; a running server is asked to stop and `true` returned, the
    /// caller then waits for it to stop and calls `restart_after_stop`.
    pub fn restart_on_port(&mut self, new_port: u16) -> (r: bool)
        requires
            old(self).wf(),
        ensures
            final(self).wf(),
            r == old(self)@.server_running,
            final(self)@ == (ManagerView {
                port: new_port,
                stop_flag: if r { true } else { old(self)@.stop_flag },
                ..old(self)@
            }),
    {
        self.port = new_port;
        if self.server_running {
            self.stop_flag = true;
            true
        } else {
            false
        }
    }

    /// After a restart stopped the server: the poll clock is reset (the
    /// status goes back to unknown) and the server started again.
    pub fn restart_after_stop(&mut self) -> (r: Result<bool, String>)
        requires
            old(self).wf(),
            !old(self)@.server_running,
        ensures
            final(self).wf(),
            final(self)@.last_poll_at == 0,
            final(self)@.state == old(self)@.state,
            final(self)@.port == old(self)@.port,
            old(self)@.port < 1024 ==> r is Err && r->Err_0@ == port_refused_message(old(self)@.port)
                && !final(self)@.server_running,
            old(self)@.port >= 1024 ==> r == Ok::<bool, String>(true) && final(self)@.server_running
                && !final(self)@.stop_flag,
    {
        self.last_poll_at = 0;
        self.start_server()
    }

    /// The status shown to the frontend at `now`.
    pub fn get_status(&self, now: i64) -> (r: ConnectorStatus)
        ensures
            r == (ConnectorStatus {
                status: spec_extension_status(self@.server_running, self@.last_poll_at, now),
                last_poll_at: self@.last_poll_at,
                server_running: self@.server_running,
                port: self@.port,
            }),
    {
        ConnectorStatus {
            status: extension_status(self.server_running, self.last_poll_at, now),
            last_poll_at: self.last_poll_at,
            server_running: self.server_running,
            port: self.port,
        }
    }

    /// Whether the extension is online at `now`.
    pub fn is_online(&self, now: i64) -> (r: bool)
        ensures
            r == spec_is_online(self@.last_poll_at, now),
    {
        is_online(self.last_poll_at, now)
    }

    /// Records a poll at `now`; returns whether it brought the extension online.
    pub fn record_poll(&mut self, now: i64) -> (r: bool)
        requires
            old(self).wf(),
        ensures
            final(self).wf(),
            r == spec_came_online(old(self)@.last_poll_at, now),
            final(self)@ == (ManagerView { last_poll_at: now, ..old(self)@ }),
    {
        let previous = self.last_poll_at;
        self.last_poll_at = now;
        came_online(previous, now)
    }

    /// Records a POST from the extension at `now`.
    pub fn record_post(&mut self, now: i64)
        requires
            old(self).wf(),
        ensures
            final(self).wf(),
            final(self)@ == (ManagerView { last_poll_at: now, ..old(self)@ }),
    {
        self.last_poll_at = now;
    }

    /// The message queue and blobs.
    pub fn state(&self) -> (r: &ConnectorState)
        requires
            self.wf(),
        ensures
            r.wf(),
            r@ == self@.state,
    {
        &self.state
    }

    /// Queues a text message.
    pub fn queue_message(&mut self, text: &str, id: String, ts: i64) -> (r: Result<MessageQueuedEvent, String>)
        requires
            old(self).wf(),
        ensures
            final(self).wf(),
            final(self)@.port == old(self)@.port,
            final(self)@.last_poll_at == old(self)@.last_poll_at,
            final(self)@.server_running == old(self)@.server_running,
            final(self)@.stop_flag == old(self)@.stop_flag,
            all_ws(text@) ==> r is Err && final(self)@.state == old(self)@.state && r->Err_0@
                == "Message is empty"@,
            !all_ws(text@) ==> r is Ok && r->Ok_0.id@ == id@ && r->Ok_0.text@ == trim(text@)
                && r->Ok_0.timestamp == ts && final(self)@.state == spec_push(
                old(self)@.state,
                plain_message(id@, "text"@, trim(text@), ts),
            ),
    {
        self.state.queue_message(text, id, ts)
    }

    /// Cancels a queued, undelivered message.
    pub fn cancel_queued_message(&mut self, message_id: &str) -> (r: bool)
        requires
            old(self).wf(),
        ensures
            final(self).wf(),
            (final(self)@.state, r) == spec_cancel(old(self)@.state, message_id@),
            final(self)@ == (ManagerView { state: final(self)@.state, ..old(self)@ }),
    {
        self.state.cancel_queued_message(message_id)
    }

    /// The messages for a poll with `cursor`.
    pub fn pending_messages(&self, cursor: i64) -> (r: (Vec<QueuedMessage>, Vec<String>))
        ensures
            messages_view(r.0@) == select_pending(self@.state.messages, cursor),
            ids_view(r.1@) == messages_view(r.0@).map_values(|m: MessageView| m.id),
    {
        self.state.pending_messages(cursor)
    }

    /// Records delivered messages.
    pub fn mark_delivered(&mut self, ids: &[String])
        requires
            old(self).wf(),
        ensures
            final(self).wf(),
            final(self)@ == (ManagerView {
                state: spec_mark_delivered(old(self)@.state, ids@.map_values(|s: String| s@)),
                ..old(self)@
            }),
    {
        self.state.mark_delivered(ids)
    }

    /// Queues a keepalive when one is due at `now`.
    pub fn keepalive_tick(&mut self, now: i64, id: String) -> (r: bool)
        requires
            old(self).wf(),
        ensures
            final(self).wf(),
            r == (now - old(self)@.state.last_keepalive > KEEPALIVE_INTERVAL_MS),
            r ==> final(self)@ == (ManagerView {
                state: spec_push(
                    with_last_keepalive(old(self)@.state, now),
                    plain_message(id@, "keepalive"@, "keepalive"@, now),
                ),
                ..old(self)@
            }),
            !r ==> final(self)@ == old(self)@,
    {
        self.state.keepalive_tick(now, id)
    }

    /// Serves a blob at `now`.
    pub fn take_blob(&mut self, att_id: &str, now: i64) -> (r: Option<PendingBlob>)
        requires
            old(self).wf(),
        ensures
            final(self).wf(),
            final(self)@ == (ManagerView {
                state: with_blobs(old(self)@.state, unexpired(old(self)@.state.blobs, now)),
                ..old(self)@
            }),
            match r {
                Some(b) => lookup_blob(final(self)@.state.blobs, att_id@) == Some(b@),
                None => lookup_blob(final(self)@.state.blobs, att_id@) == None::<BlobView>,
            },
    {
        self.state.take_blob(att_id, now)
    }

    /// Queues a bundle message with one image; the
    /// fetch address uses the manager's port.
    pub fn queue_bundle_message(
        &mut self,
        text: &str,
        data: Vec<u8>,
        mime_type: &str,
        filename: Option<String>,
        att_id: String,
        msg_id: String,
        now: i64,
        cleanup_now: i64,
    ) -> (r: MessageQueuedEvent)
        requires
            old(self).wf(),
            now + BLOB_EXPIRY_MS <= i64::MAX,
        ensures
            final(self).wf(),
            final(self)@ == (ManagerView {
                state: spec_queue_bundle(
                    old(self)@.state,
                    bundle_message(
                        msg_id@,
                        text@,
                        now,
                        image_attachment(
                            att_id@,
                            opt_view(filename),
                            mime_type@,
                            data@.len() as u64,
                            fetch_url(old(self)@.port, att_id@),
                            (now + BLOB_EXPIRY_MS) as i64,
                        ),
                    ),
                    att_id@,
                    BlobView { data: data@, mime_type: mime_type@, expires_at: (now + BLOB_EXPIRY_MS) as i64 },
                    cleanup_now,
                ),
                ..old(self)@
            }),
            r.id@ == msg_id@,
            r.text@ == trim(text@),
            r.timestamp == now,
    {
        let port = self.port;
        self.state.queue_bundle_message(text, data, mime_type, filename, att_id, msg_id, now, port, cleanup_now)
    }

    /// Queues a bundle message with an image file's bytes: the MIME type
    /// comes from the file name's extension, compared case-insensitively
    /// (none counts as PNG), and the file name goes with the attachment.
    pub fn queue_image_file(
        &mut self,
        text: &str,
        data: Vec<u8>,
        file_name: Option<String>,
        att_id: String,
        msg_id: String,
        now: i64,
        cleanup_now: i64,
    ) -> (r: MessageQueuedEvent)
        requires
            old(self).wf(),
            now + BLOB_EXPIRY_MS <= i64::MAX,
        ensures
            final(self).wf(),
            ({
                let mime = file_mime_type(opt_view(file_name));
                final(self)@ == (ManagerView {
                    state: spec_queue_bundle(
                        old(self)@.state,
                        bundle_message(
                            msg_id@,
                            text@,
                            now,
                            image_attachment(
                                att_id@,
                                opt_view(file_name),
                                mime,
                                data@.len() as u64,
                                fetch_url(old(self)@.port, att_id@),
                                (now + BLOB_EXPIRY_MS) as i64,
                            ),
                        ),
                        att_id@,
                        BlobView { data: data@, mime_type: mime, expires_at: (now + BLOB_EXPIRY_MS) as i64 },
                        cleanup_now,
                    ),
                    ..old(self)@
                })
            }),
            r.id@ == msg_id@,
            r.text@ == trim(text@),
            r.timestamp == now,
    {
        let ext = match &file_name {
            Some(n) => file_extension_of(n.as_str()),
            None => None,
        };
        let mime = match &ext {
            Some(e) => image_mime_type(Some(e.as_str())),
            None => image_mime_type(None),
        };
        self.queue_bundle_message(text, data, mime.as_str(), file_name, att_id, msg_id, now, cleanup_now)
    }
}

/// The MIME type of an image file by its name's extension, compared
/// case-insensitively; a name without one, or no name, counts as PNG.
pub open spec fn file_mime_type(file_name: Option<Seq<char>>) -> Seq<char> {
    image_mime_for(
        lowercase(
            match file_name {
                Some(n) => match file_extension(n) {
                    Some(e) => e,
                    None => "png"@,
                },
                None => "png"@,
            },
        ),
    )
}

proof fn lemma_lookup_first(s: Seq<(Seq<char>, BlobView)>, k: Seq<char>, i: int)
    requires
        0 <= i < s.len(),
        s[i].0 == k,
        forall|j: int| 0 <= j < i ==> #[trigger] s[j].0 != k,
    ensures
        lookup_blob(s, k) == Some(s[i].1),
    decreases i,
{
    if i > 0 {
        let t = s.drop_first();
        assert forall|j: int| 0 <= j < i - 1 implies #[trigger] t[j].0 != k by {
            assert(t[j] == s[j + 1]);
        }
        lemma_lookup_first(t, k, i - 1);
    }
}

proof fn lemma_lookup_absent(s: Seq<(Seq<char>, BlobView)>, k: Seq<char>)
    requires
        forall|j: int| 0 <= j < s.len() ==> #[trigger] s[j].0 != k,
    ensures
        lookup_blob(s, k) == None::<BlobView>,
    decreases s.len(),
{
    if s.len() > 0 {
        let t = s.drop_first();
        assert(s[0].0 != k);
        assert forall|j: int| 0 <= j < t.len() implies #[trigger] t[j].0 != k by {
            assert(t[j] == s[j + 1]);
        }
        lemma_lookup_absent(t, k);
    }
}

/// With distinct keys, the lookup finds the one entry under `k`.
proof fn lemma_lookup_unique(s: Seq<(Seq<char>, BlobView)>, k: Seq<char>, i: int)
    requires
        unique_keys(s),
        0 <= i < s.len(),
        s[i].0 == k,
    ensures
        lookup_blob(s, k) == Some(s[i].1),
{
    assert forall|j: int| 0 <= j < i implies #[trigger] s[j].0 != k by {
        assert(s[j].0 != s[i].0);
    }
    lemma_lookup_first(s, k, i);
}

proof fn lemma_unexpired_members(s: Seq<(Seq<char>, BlobView)>, now: i64)
    ensures
        forall|i: int|
            0 <= i < unexpired(s, now).len() ==> (#[trigger] unexpired(s, now)[i]).1.expires_at > now,
        forall|j: int|
            0 <= j < s.len() && (#[trigger] s[j]).1.expires_at > now ==> exists|i: int|
                0 <= i < unexpired(s, now).len() && #[trigger] unexpired(s, now)[i] == s[j],
    decreases s.len(),
{
    if s.len() > 0 {
        let d = s.drop_last();
        lemma_unexpired_members(d, now);
        let r = unexpired(d, now);
        let u = unexpired(s, now);
        assert forall|j: int| 0 <= j < s.len() && (#[trigger] s[j]).1.expires_at > now implies exists|i: int|
            0 <= i < u.len() && #[trigger] u[i] == s[j] by {
            if j < s.len() - 1 {
                assert(d[j] == s[j]);
                let i = choose|i: int| 0 <= i < r.len() && #[trigger] r[i] == d[j];
                assert(u[i] == r[i]);
            } else {
                assert(u[u.len() - 1] == s[j]);
            }
        }
        assert forall|i: int| 0 <= i < u.len() implies (#[trigger] u[i]).1.expires_at > now by {
            if i < r.len() {
                assert(u[i] == r[i]);
            }
        }
    }
}

proof fn lemma_insert_blob_props(blobs: Seq<(Seq<char>, BlobView)>, k: Seq<char>, b: BlobView) -> (idx: int)
    requires
        unique_keys(blobs),
    ensures
        0 <= idx < insert_blob(blobs, k, b).len(),
        insert_blob(blobs, k, b)[idx] == (k, b),
        unique_keys(insert_blob(blobs, k, b)),
{
    let s = insert_blob(blobs, k, b);
    if exists|i: int| 0 <= i < blobs.len() && #[trigger] blobs[i].0 == k {
        let idx = choose|i: int| 0 <= i < blobs.len() && #[trigger] blobs[i].0 == k;
        assert(s == blobs.update(idx, (k, b)));
        assert forall|x: int, y: int| 0 <= x < y < s.len() implies #[trigger] s[x].0 != #[trigger] s[y].0 by {
            assert(blobs[x].0 != blobs[y].0);
        }
        idx
    } else {
        let idx = blobs.len() as int;
        assert(s == blobs.push((k, b)));
        assert forall|x: int, y: int| 0 <= x < y < s.len() implies #[trigger] s[x].0 != #[trigger] s[y].0 by {
            if y < blobs.len() {
                assert(blobs[x].0 != blobs[y].0);
            } else {
                assert(s[x] == blobs[x]);
            }
        }
        idx
    }
}

proof fn lemma_lookup_unexpired(s: Seq<(Seq<char>, BlobView)>, now: i64, idx: int)
    requires
        unique_keys(s),
        0 <= idx < s.len(),
    ensures
        lookup_blob(unexpired(s, now), s[idx].0) == if s[idx].1.expires_at > now {
            Some(s[idx].1)
        } else {
            None::<BlobView>
        },
{
    let k = s[idx].0;
    lemma_unexpired_members(s, now);
    lemma_unexpired_unique(s, now);
    let u = unexpired(s, now);
    if s[idx].1.expires_at > now {
        let i = choose|i: int| 0 <= i < u.len() && #[trigger] u[i] == s[idx];
        lemma_lookup_unique(u, k, i);
    } else {
        assert forall|i: int| 0 <= i < u.len() implies #[trigger] u[i].0 != k by {
            let j = choose|j: int| 0 <= j < s.len() && #[trigger] s[j] == #[trigger] u[i];
            if u[i].0 == k {
                if j < idx {
                    assert(s[j].0 != s[idx].0);
                } else if j > idx {
                    assert(s[idx].0 != s[j].0);
                }
                assert(u[i].1.expires_at > now);
            }
        }
        lemma_lookup_absent(u, k);
    }
}

/// A stored blob is served back, unchanged, until it expires; then it is
/// gone.
pub proof fn lemma_blob_read_after_write(
    blobs: Seq<(Seq<char>, BlobView)>,
    att_id: Seq<char>,
    blob: BlobView,
    now: i64,
)
    requires
        unique_keys(blobs),
    ensures
        lookup_blob(unexpired(insert_blob(blobs, att_id, blob), now), att_id) == if blob.expires_at
            > now {
            Some(blob)
        } else {
            None::<BlobView>
        },
{
    let idx = lemma_insert_blob_props(blobs, att_id, blob);
    lemma_lookup_unexpired(insert_blob(blobs, att_id, blob), now, idx);
}

/// Once a message was delivered, cancelling it is refused and changes
/// nothing.
pub proof fn lemma_delivered_not_cancellable(v: ConnectorView, ids: Seq<Seq<char>>, id: Seq<char>)
    requires
        ids.contains(id),
        has_message_id(v.messages, id),
    ensures
        spec_cancel(spec_mark_delivered(v, ids), id) == (spec_mark_delivered(v, ids), false),
{
    let w = spec_mark_delivered(v, ids);
    assert(ids.to_set().contains(id));
    assert(w.delivered.contains(id));
}

/// A cancelled message is no longer in the queue, and every other message
/// stays.
pub proof fn lemma_cancel_removes_only_it(v: ConnectorView, id: Seq<char>)
    requires
        !v.delivered.contains(id),
    ensures
        !has_message_id(spec_cancel(v, id).0.messages, id),
        forall|i: int|
            0 <= i < v.messages.len() && (#[trigger] v.messages[i]).id != id ==> exists|j: int|
                0 <= j < spec_cancel(v, id).0.messages.len() && spec_cancel(v, id).0.messages[j]
                    == v.messages[i],
{
    lemma_without_id_props(v.messages, id);
    let w = spec_cancel(v, id).0.messages;
    assert(w == without_id(v.messages, id));
    assert forall|i: int| 0 <= i < v.messages.len() && (#[trigger] v.messages[i]).id != id implies exists|j: int|
        0 <= j < w.len() && w[j] == v.messages[i] by {
        let j = choose|j: int| 0 <= j < without_id(v.messages, id).len() && without_id(v.messages, id)[j] == v.messages[i];
        assert(w[j] == v.messages[i]);
    }
}

proof fn lemma_without_id_props(s: Seq<MessageView>, id: Seq<char>)
    ensures
        !has_message_id(without_id(s, id), id),
        forall|i: int|
            0 <= i < s.len() && (#[trigger] s[i]).id != id ==> exists|j: int|
                0 <= j < without_id(s, id).len() && without_id(s, id)[j] == s[i],
    decreases s.len(),
{
    if s.len() > 0 {
        let d = s.drop_last();
        lemma_without_id_props(d, id);
        let r = without_id(d, id);
        let w = without_id(s, id);
        if s.last().id != id {
            assert(w == r.push(s.last()));
            if has_message_id(w, id) {
                let k = choose|k: int| 0 <= k < w.len() && #[trigger] w[k].id == id;
                if k < r.len() {
                    assert(w[k] == r[k]);
                }
            }
        }
        assert forall|i: int| 0 <= i < s.len() && (#[trigger] s[i]).id != id implies exists|j: int|
            0 <= j < w.len() && w[j] == s[i] by {
            if i < s.len() - 1 {
                assert(d[i] == s[i]);
                let q = choose|q: int| 0 <= q < r.len() && r[q] == d[i];
                if s.last().id != id {
                    assert(w[q] == r[q]);
                } else {
                    assert(w == r);
                }
            } else {
                assert(w[w.len() - 1] == s[i]);
            }
        }
    }
}

/// Queueing keeps at most `MAX_MESSAGES` messages, the new one last.
pub proof fn lemma_push_bounded(v: ConnectorView, m: MessageView)
    requires
        v.messages.len() <= MAX_MESSAGES,
    ensures
        spec_push(v, m).messages.len() <= MAX_MESSAGES,
        spec_push(v, m).messages.last() == m,
        v.messages.len() < MAX_MESSAGES ==> spec_push(v, m).messages == v.messages.push(m),
{
}

/// Every message a poll returns is at or after its cursor, and the next
/// cursor is past all of them.
pub proof fn lemma_poll_cursor(s: Seq<MessageView>, cursor: i64)
    ensures
        forall|i: int|
            0 <= i < select_pending(s, cursor).len() ==> (#[trigger] select_pending(s, cursor)[i]).ts
                >= cursor,
    decreases s.len(),
{
    if s.len() > 0 {
        lemma_poll_cursor(s.drop_last(), cursor);
        let r = select_pending(s.drop_last(), cursor);
        assert forall|i: int|
            0 <= i < select_pending(s, cursor).len() implies (#[trigger] select_pending(s, cursor)[i]).ts
            >= cursor by {
            if i < r.len() {
                assert(select_pending(s, cursor)[i] == r[i]);
            }
        }
    }
}

/// The status is online exactly when the server runs and the extension is
/// online.
pub proof fn lemma_status_online(server_running: bool, last_poll_at: i64, now: i64)
    ensures
        (spec_extension_status(server_running, last_poll_at, now) == ExtensionStatus::Online) == (
        server_running && spec_is_online(last_poll_at, now)),
{
}

} // verus!
