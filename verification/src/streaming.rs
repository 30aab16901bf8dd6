//! The decisions of camera streaming: which part of a capture buffer is a
//! complete MJPEG frame, how the newest frame is handed to the preview, which
//! sessions stay alive and which one feeds the virtual camera, and which
//! capture mode is chosen.
use std::collections::HashMap;
use vstd::prelude::*;

use crate::settings::PreferredQuality;
use crate::text::{append_str, contains_seq, decimal, lowercase, push_decimal, string_from_chars, trimmed};

verus! {

/// The message for a buffer that does not hold a whole MJPEG image.
pub open spec fn incomplete_frame_message() -> Seq<char> {
    "The camera returned an incomplete MJPEG frame"@
}

/// The end of the last end-of-image marker (`FF D9`) that lies within the
/// first `n` bytes of `frame`, if there is one.
pub open spec fn last_eoi_end(frame: Seq<u8>, n: int) -> Option<int>
    decreases n,
{
    if n < 2 {
        None
    } else if frame[n - 2] == 0xff && frame[n - 1] == 0xd9 {
        Some(n)
    } else {
        last_eoi_end(frame, n - 1)
    }
}

/// How many bytes of `buffer` hold a complete MJPEG image when the driver
/// reports `bytes_used`: the used part must start with a start-of-image
/// marker (`FF D8`), hold at least four bytes, and the image ends after its
/// last end-of-image marker.
pub open spec fn mjpeg_frame_len(buffer: Seq<u8>, bytes_used: u32) -> Option<int> {
    let used = if bytes_used as int <= buffer.len() {
        bytes_used as int
    } else {
        buffer.len() as int
    };
    if used < 4 || buffer[0] != 0xff || buffer[1] != 0xd8 {
        None
    } else {
        last_eoi_end(buffer, used)
    }
}

/// The complete MJPEG image at the start of `buffer`, of which the driver
/// says `bytes_used` bytes are filled: everything up to and including the
/// last end-of-image marker.
pub fn complete_mjpeg_frame(buffer: &[u8], bytes_used: u32) -> (r: Result<&[u8], String>)
    ensures
        match mjpeg_frame_len(buffer@, bytes_used) {
            Some(n) => r matches Ok(frame) && frame@ == buffer@.subrange(0, n),
            None => r matches Err(e) && e@ == incomplete_frame_message(),
        },
{
    let length: usize = if (bytes_used as usize) <= buffer.len() {
        bytes_used as usize
    } else {
        buffer.len()
    };
    if length < 4 || buffer[0] != 0xff || buffer[1] != 0xd8 {
        return Err("The camera returned an incomplete MJPEG frame".to_owned());
    }
    let mut n: usize = length;
    while n >= 2 && !(buffer[n - 2] == 0xff && buffer[n - 1] == 0xd9)
        invariant
            n <= length <= buffer.len(),
            length >= 4,
            mjpeg_frame_len(buffer@, bytes_used) == last_eoi_end(buffer@, n as int),
        decreases n,
    {
        n = n - 1;
    }
    if n < 2 {
        return Err("The camera returned an incomplete MJPEG frame".to_owned());
    }
    let (frame, _) = buffer.split_at(n);
    Ok(frame)
}

/// What the search for the last end-of-image marker finds: a marker that
/// ends at the result, with no marker ending later within the first `n`
/// bytes.
proof fn lemma_last_eoi_end(frame: Seq<u8>, n: int)
    requires
        n <= frame.len(),
    ensures
        match last_eoi_end(frame, n) {
            Some(end) => {
                &&& 2 <= end <= n
                &&& frame[end - 2] == 0xff && frame[end - 1] == 0xd9
                &&& forall|m: int| end < m <= n ==> !(frame[m - 2] == 0xff && #[trigger] frame[m - 1] == 0xd9)
            },
            None => forall|m: int| 2 <= m <= n ==> !(frame[m - 2] == 0xff && #[trigger] frame[m - 1] == 0xd9),
        },
    decreases n,
{
    if n >= 2 && !(frame[n - 2] == 0xff && frame[n - 1] == 0xd9) {
        lemma_last_eoi_end(frame, n - 1);
    }
}

/// A complete frame starts with a start-of-image marker and ends with the
/// last end-of-image marker among the used bytes; it holds at least those
/// two markers.
pub proof fn complete_frame_is_delimited(buffer: Seq<u8>, bytes_used: u32)
    requires
        mjpeg_frame_len(buffer, bytes_used) is Some,
    ensures
        ({
            let n = mjpeg_frame_len(buffer, bytes_used).unwrap();
            let used = if bytes_used as int <= buffer.len() {
                bytes_used as int
            } else {
                buffer.len() as int
            };
            &&& 4 <= n <= used
            &&& buffer[0] == 0xff && buffer[1] == 0xd8
            &&& buffer[n - 2] == 0xff && buffer[n - 1] == 0xd9
            &&& forall|m: int| n < m <= used ==> !(buffer[m - 2] == 0xff && #[trigger] buffer[m - 1] == 0xd9)
        }),
{
    let used = if bytes_used as int <= buffer.len() {
        bytes_used as int
    } else {
        buffer.len() as int
    };
    lemma_last_eoi_end(buffer, used);
}

/// A frame is found whenever the bytes that the driver reports as used (at
/// most the buffer) are four or more, start with `FF D8` and hold an
/// end-of-image marker: it runs to the end of the last such marker, so to
/// the end of the used bytes when they end with one.
pub proof fn delimited_frame_is_found(buffer: Seq<u8>, bytes_used: u32, m: int)
    requires
        ({
            let used = if bytes_used as int <= buffer.len() {
                bytes_used as int
            } else {
                buffer.len() as int
            };
            &&& used >= 4
            &&& buffer[0] == 0xff && buffer[1] == 0xd8
            &&& 2 <= m <= used
            &&& buffer[m - 2] == 0xff && buffer[m - 1] == 0xd9
        }),
    ensures
        ({
            let used = if bytes_used as int <= buffer.len() {
                bytes_used as int
            } else {
                buffer.len() as int
            };
            &&& mjpeg_frame_len(buffer, bytes_used) matches Some(n) && {
                &&& m <= n <= used
                &&& buffer[n - 2] == 0xff && buffer[n - 1] == 0xd9
                &&& forall|k: int| n < k <= used ==> !(buffer[k - 2] == 0xff && #[trigger] buffer[k - 1] == 0xd9)
            }
            &&& m == used ==> mjpeg_frame_len(buffer, bytes_used) == Some(used)
        }),
{
    let used = if bytes_used as int <= buffer.len() {
        bytes_used as int
    } else {
        buffer.len() as int
    };
    lemma_last_eoi_end(buffer, used);
}

/// No frame is found when the used bytes are fewer than four, do not start
/// with `FF D8`, or hold no end-of-image marker.
pub proof fn undelimited_frame_is_refused(buffer: Seq<u8>, bytes_used: u32)
    requires
        ({
            let used = if bytes_used as int <= buffer.len() {
                bytes_used as int
            } else {
                buffer.len() as int
            };
            ||| used < 4
            ||| buffer[0] != 0xff
            ||| buffer[1] != 0xd8
            ||| forall|k: int| 2 <= k <= used ==> !(buffer[k - 2] == 0xff && #[trigger] buffer[k - 1] == 0xd9)
        }),
    ensures
        mjpeg_frame_len(buffer, bytes_used) is None,
{
    let used = if bytes_used as int <= buffer.len() {
        bytes_used as int
    } else {
        buffer.len() as int
    };
    lemma_last_eoi_end(buffer, used);
    if mjpeg_frame_len(buffer, bytes_used) is Some {
        let n = mjpeg_frame_len(buffer, bytes_used).unwrap();
        assert(buffer[n - 2] == 0xff && buffer[n - 1] == 0xd9);
    }
}

/// The bytes of `v`, copied.
fn copy_bytes(v: &[u8]) -> (r: Vec<u8>)
    ensures
        r@ == v@,
{
    let mut r: Vec<u8> = Vec::new();
    let mut i: usize = 0;
    while i < v.len()
        invariant
            i <= v.len(),
            r@ == v@.take(i as int),
        decreases v.len() - i,
    {
        r.push(v[i]);
        assert(v@.take(i + 1) == v@.take(i as int).push(v@[i as int]));
        i = i + 1;
    }
    assert(v@.take(v@.len() as int) == v@);
    r
}

/// The message for a preview that waited in vain for a new frame.
pub open spec fn frame_timeout_message() -> Seq<char> {
    "The camera did not produce another frame within 3 seconds"@
}

/// A single-frame mailbox between the capture worker and the preview: the
/// newest frame with its sequence number, a failure that ends the preview,
/// and the sequence number of the frame that the preview took last.
pub struct FrameMailbox {
    pub sequence: u64,
    pub bytes: Vec<u8>,
    pub error: Option<String>,
    pub delivered_sequence: u64,
}

/// A mailbox as plain values.
pub struct MailboxView {
    pub sequence: u64,
    pub frame: Seq<u8>,
    pub error: Option<Seq<char>>,
    pub delivered: u64,
}

impl View for FrameMailbox {
    type V = MailboxView;

    open spec fn view(&self) -> MailboxView {
        MailboxView {
            sequence: self.sequence,
            frame: self.bytes@,
            error: match self.error {
                Some(e) => Some(e@),
                None => None,
            },
            delivered: self.delivered_sequence,
        }
    }
}

/// The sequence number that follows `s`; numbering wraps round to 1, so that
/// 0 always means that no frame was published.
pub open spec fn next_sequence(s: u64) -> u64 {
    if s == u64::MAX {
        1
    } else {
        (s + 1) as u64
    }
}

/// The mailbox after `frame` is published.
pub open spec fn publish_spec(m: MailboxView, frame: Seq<u8>) -> MailboxView {
    MailboxView { sequence: next_sequence(m.sequence), frame: frame, ..m }
}

/// The mailbox after a failure is recorded.
pub open spec fn fail_spec(m: MailboxView, error: Seq<char>) -> MailboxView {
    MailboxView { error: Some(error), ..m }
}

/// The mailbox after a new reader attaches.
pub open spec fn reset_reader_spec(m: MailboxView) -> MailboxView {
    MailboxView { error: None, delivered: 0, ..m }
}

/// Whether a reader waiting on `m` has something to take: a frame it has not
/// seen, or a failure.
pub open spec fn has_news(m: MailboxView) -> bool {
    m.sequence > m.delivered || m.error is Some
}

/// What a reader takes from `m` once it stopped waiting, and the mailbox
/// afterwards: the failure if there is one, else the newest frame if the
/// reader has not taken it, else a timeout.
pub open spec fn next_spec(m: MailboxView) -> (MailboxView, Result<Seq<u8>, Seq<char>>) {
    match m.error {
        Some(e) => (m, Err(e)),
        None => if m.sequence <= m.delivered {
            (m, Err(frame_timeout_message()))
        } else {
            (MailboxView { delivered: m.sequence, ..m }, Ok(m.frame))
        },
    }
}

impl Default for FrameMailbox {
    fn default() -> (m: Self)
        ensures
            m@ == (MailboxView { sequence: 0, frame: Seq::empty(), error: None, delivered: 0 }),
    {
        FrameMailbox { sequence: 0, bytes: Vec::new(), error: None, delivered_sequence: 0 }
    }
}

impl FrameMailbox {
    /// Replaces the frame in the mailbox by `frame` under a new sequence
    /// number.
    pub fn publish(&mut self, frame: &[u8])
        ensures
            final(self)@ == publish_spec(old(self)@, frame@),
    {
        self.sequence = if self.sequence == u64::MAX {
            1
        } else {
            self.sequence + 1
        };
        self.bytes = copy_bytes(frame);
    }

    /// Records a failure, which every later read reports until a new reader
    /// attaches.
    pub fn fail(&mut self, error: String)
        ensures
            final(self)@ == fail_spec(old(self)@, error@),
    {
        self.error = Some(error);
    }

    /// Prepares the mailbox for a new reader: no frame counts as taken and
    /// no failure is pending.
    pub fn reset_reader(&mut self)
        ensures
            final(self)@ == reset_reader_spec(old(self)@),
    {
        self.delivered_sequence = 0;
        self.error = None;
    }

    /// Whether a waiting reader may stop waiting.
    pub fn has_news(&self) -> (r: bool)
        ensures
            r == has_news(self@),
    {
        self.sequence > self.delivered_sequence || self.error.is_some()
    }

    /// Takes what is in the mailbox for the reader, without waiting.
    pub fn next(&mut self) -> (r: Result<Vec<u8>, String>)
        ensures
            final(self)@ == next_spec(old(self)@).0,
            match next_spec(old(self)@).1 {
                Ok(frame) => r matches Ok(bytes) && bytes@ == frame,
                Err(message) => r matches Err(e) && e@ == message,
            },
    {
        match &self.error {
            Some(e) => {
                return Err(e.clone());
            },
            None => {},
        }
        if self.sequence <= self.delivered_sequence {
            return Err("The camera did not produce another frame within 3 seconds".to_owned());
        }
        self.delivered_sequence = self.sequence;
        Ok(copy_bytes(self.bytes.as_slice()))
    }
}

/// The mailbox keeps only the newest frame: when two frames are published
/// in a row, a reader that has taken at most the frames before them receives
/// the second. It fails only when sequence numbers wrap round.
pub proof fn mailbox_keeps_latest_frame(m: MailboxView, first: Seq<u8>, second: Seq<u8>)
    requires
        m.error is None,
        m.delivered <= m.sequence,
        m.sequence < u64::MAX - 1,
    ensures
        next_spec(publish_spec(publish_spec(m, first), second)).1 == Ok::<Seq<u8>, Seq<char>>(
            second,
        ),
{
}

/// A frame is handed out once: a second read without a new frame in
/// between reports a timeout, or the failure that ended the stream.
pub proof fn mailbox_delivers_each_frame_once(m: MailboxView)
    requires
        next_spec(m).1 is Ok,
    ensures
        next_spec(next_spec(m).0).1 is Err,
{
}

/// A recorded failure reaches the reader, and a reader that attaches
/// afterwards no longer sees it.
pub proof fn mailbox_reports_failure_until_reset(m: MailboxView, error: Seq<char>)
    ensures
        next_spec(fail_spec(m, error)).1 == Err::<Seq<u8>, Seq<char>>(error),
        reset_reader_spec(fail_spec(m, error)).error is None,
{
}

/// A reader that attaches after a frame was published receives that frame.
pub proof fn mailbox_new_reader_sees_current_frame(m: MailboxView)
    requires
        m.sequence > 0,
    ensures
        next_spec(reset_reader_spec(m)).1 == Ok::<Seq<u8>, Seq<char>>(m.frame),
{
}


/// What the registry knows of a capture session.
#[derive(Debug)]
pub struct SessionEntry {
    /// The camera the session captures from.
    pub device_id: String,
    /// Whether a preview reads the session's frames.
    pub preview_attached: bool,
    /// Whether the session feeds the virtual camera.
    pub routing: bool,
}

/// The registry of capture sessions: each session by its number, and the
/// session that was last routed to the virtual camera.
pub struct SessionRegistry {
    sessions: HashMap<u64, SessionEntry>,
    active_route: Option<u64>,
}

/// A registry as plain values.
pub struct RegistryView {
    pub sessions: Map<u64, SessionEntry>,
    pub active_route: Option<u64>,
}

impl View for SessionRegistry {
    type V = RegistryView;

    closed spec fn view(&self) -> RegistryView {
        RegistryView { sessions: self.sessions@, active_route: self.active_route }
    }
}

/// Only the session of the active route feeds the virtual camera, so at
/// most one does.
pub open spec fn routes_only_active(r: RegistryView) -> bool {
    forall|id: u64| #[trigger] r.sessions.contains_key(id) && r.sessions[id].routing ==> r.active_route == Some(id)
}

/// Every session is previewed or routed, since one that is neither has been
/// stopped. Every registry keeps this.
pub open spec fn sessions_in_use(r: RegistryView) -> bool {
    forall|id: u64| #[trigger] r.sessions.contains_key(id) ==> r.sessions[id].preview_attached || r.sessions[id].routing
}

/// The registry's invariant: only the active route feeds the virtual
/// camera, and every session is in use. Every registry keeps the second
/// half; the first holds of every registry whose routes were finished as
/// they were planned, one at a time.
pub open spec fn registry_invariant(r: RegistryView) -> bool {
    routes_only_active(r) && sessions_in_use(r)
}

impl SessionRegistry {
    /// Every session that the registry holds is in use.
    #[verifier::type_invariant]
    spec fn holds_sessions_in_use(self) -> bool {
        sessions_in_use(self@)
    }
}

/// The active route, if its session still exists.
pub open spec fn current_route(r: RegistryView) -> Option<u64> {
    match r.active_route {
        Some(id) => if r.sessions.contains_key(id) {
            Some(id)
        } else {
            None
        },
        None => None,
    }
}

/// The session that is routed to the virtual camera and captures from
/// `device_id`, if there is one.
pub open spec fn routed_session_spec(r: RegistryView, device_id: Seq<char>) -> Option<u64> {
    match current_route(r) {
        Some(id) => if r.sessions[id].device_id@ == device_id {
            Some(id)
        } else {
            None
        },
        None => None,
    }
}

/// `entry` with its preview flag set to `attached`.
pub open spec fn with_preview(entry: SessionEntry, attached: bool) -> SessionEntry {
    SessionEntry { preview_attached: attached, ..entry }
}

/// `entry` with its routing flag set to `routing`.
pub open spec fn with_routing(entry: SessionEntry, routing: bool) -> SessionEntry {
    SessionEntry { routing: routing, ..entry }
}

/// The registry after a preview attaches to session `id`, if it exists.
pub open spec fn attach_preview_spec(r: RegistryView, id: u64) -> RegistryView {
    if r.sessions.contains_key(id) {
        RegistryView { sessions: r.sessions.insert(id, with_preview(r.sessions[id], true)), ..r }
    } else {
        r
    }
}

/// Whether `entry` describes a new session that captures from `device_id`
/// for a preview and does not feed the virtual camera.
pub open spec fn is_new_preview_session(entry: SessionEntry, device_id: Seq<char>) -> bool {
    entry.device_id@ == device_id && entry.preview_attached && !entry.routing
}

/// What detaching a preview did to its session.
#[derive(Debug, Clone, Copy, PartialEq, Eq, Structural)]
pub enum DetachOutcome {
    /// No such session: nothing to do.
    Unknown,
    /// The session lives on, since it still feeds the virtual camera.
    Detached,
    /// The session was removed; its worker must be stopped.
    Removed,
}

/// The registry after the preview of session `id` detaches, and what that
/// did to the session.
pub open spec fn detach_preview_spec(r: RegistryView, id: u64) -> (RegistryView, DetachOutcome) {
    if !r.sessions.contains_key(id) {
        (r, DetachOutcome::Unknown)
    } else if r.sessions[id].routing {
        (
            RegistryView { sessions: r.sessions.insert(id, with_preview(r.sessions[id], false)), ..r },
            DetachOutcome::Detached,
        )
    } else {
        (RegistryView { sessions: r.sessions.remove(id), ..r }, DetachOutcome::Removed)
    }
}

/// The message for a session that no longer exists.
pub open spec fn preview_gone_message() -> Seq<char> {
    "The camera preview is no longer running"@
}

/// The message for a session whose preview has detached.
pub open spec fn preview_closed_message() -> Seq<char> {
    "The camera preview has been closed"@
}

/// The message for a session that vanished while it was being routed.
pub open spec fn stream_stopped_message() -> Seq<char> {
    "The camera stream stopped unexpectedly"@
}

/// What routing session `id` to the virtual camera involves.
#[derive(Debug, Clone, Copy, PartialEq, Eq, Structural)]
pub enum RoutePlan {
    /// The session already feeds the virtual camera.
    AlreadyRouted,
    /// The session must start its output, after the session of the current
    /// route, if any, has stopped its own.
    Start { previous: Option<u64> },
}

/// How routing session `id` starts.
pub open spec fn plan_route_spec(r: RegistryView, id: u64) -> Result<RoutePlan, Seq<char>> {
    if !r.sessions.contains_key(id) {
        Err(preview_gone_message())
    } else if r.sessions[id].routing {
        Ok(RoutePlan::AlreadyRouted)
    } else {
        Ok(RoutePlan::Start { previous: current_route(r) })
    }
}

/// The registry once the previous route has stopped its output: it no
/// longer routes, and goes if no preview reads it either. Also whether it
/// went.
pub open spec fn release_previous_spec(r: RegistryView, previous: Option<u64>) -> (RegistryView, bool) {
    match previous {
        Some(p) => if !r.sessions.contains_key(p) {
            (r, false)
        } else if r.sessions[p].preview_attached {
            (RegistryView { sessions: r.sessions.insert(p, with_routing(r.sessions[p], false)), ..r }, false)
        } else {
            (RegistryView { sessions: r.sessions.remove(p), ..r }, true)
        },
        None => (r, false),
    }
}

/// The registry once session `id` has started its output after the
/// previous route stopped: the previous route is released, and `id`
/// becomes the active route if it still exists. The result names the
/// previous session if it was removed, and says whether `id` still existed.
pub open spec fn finish_route_spec(r: RegistryView, id: u64, previous: Option<u64>) -> (RegistryView, Option<u64>, Result<(), Seq<char>>) {
    let (released, removed) = release_previous_spec(r, previous);
    let removed_id = if removed {
        previous
    } else {
        None
    };
    if !released.sessions.contains_key(id) {
        (released, removed_id, Err(stream_stopped_message()))
    } else {
        (
            RegistryView {
                sessions: released.sessions.insert(id, with_routing(released.sessions[id], true)),
                active_route: Some(id),
            },
            removed_id,
            Ok(()),
        )
    }
}

/// The registry once the output of session `id`, the active route, has
/// stopped: no route is active, and the session goes if no preview reads
/// it. Also whether it went.
pub open spec fn finish_stop_spec(r: RegistryView, id: u64) -> (RegistryView, bool) {
    let cleared = RegistryView { active_route: None, ..r };
    if !cleared.sessions.contains_key(id) {
        (cleared, false)
    } else if cleared.sessions[id].preview_attached {
        (
            RegistryView {
                sessions: cleared.sessions.insert(id, with_routing(cleared.sessions[id], false)),
                ..cleared
            },
            false,
        )
    } else {
        (RegistryView { sessions: cleared.sessions.remove(id), ..cleared }, true)
    }
}

impl SessionRegistry {
    /// An empty registry.
    pub fn new() -> (r: Self)
        ensures
            r@.sessions == Map::<u64, SessionEntry>::empty(),
            r@.active_route is None,
            registry_invariant(r@),
    {
        SessionRegistry { sessions: HashMap::new(), active_route: None }
    }

    /// Whether session `id` exists.
    pub fn contains(&self, id: u64) -> (r: bool)
        ensures
            r == self@.sessions.contains_key(id),
    {
        broadcast use vstd::std_specs::hash::group_hash_axioms;

        self.sessions.contains_key(&id)
    }

    /// The session routed to the virtual camera that captures from
    /// `device_id`, whose preview can be reattached instead of opening the
    /// camera again.
    pub fn routed_session(&self, device_id: &str) -> (r: Option<u64>)
        ensures
            r == routed_session_spec(self@, device_id@),
    {
        broadcast use vstd::std_specs::hash::group_hash_axioms;

        match self.active_route {
            Some(id) => match self.sessions.get(&id) {
                Some(entry) => {
                    let wanted = crate::text::chars_of(device_id);
                    let have = crate::text::chars_of(entry.device_id.as_str());
                    if crate::text::same_chars(&have, &wanted) {
                        Some(id)
                    } else {
                        None
                    }
                },
                None => None,
            },
            None => None,
        }
    }

    /// Takes the sessions out, leaving none, so that they can be changed
    /// and put back.
    fn take_sessions(&mut self) -> (sessions: HashMap<u64, SessionEntry>)
        ensures
            sessions@ == old(self)@.sessions,
            sessions_in_use(old(self)@),
            final(self)@.sessions == Map::<u64, SessionEntry>::empty(),
            final(self)@.active_route == old(self)@.active_route,
    {
        proof {
            use_type_invariant(&*self);
        }
        let mut sessions = HashMap::new();
        std::mem::swap(&mut sessions, &mut self.sessions);
        sessions
    }

    /// Records that a preview reads session `id` again.
    pub fn attach_preview(&mut self, id: u64)
        ensures
            final(self)@ == attach_preview_spec(old(self)@, id),
            sessions_in_use(final(self)@),
            routes_only_active(old(self)@) ==> routes_only_active(final(self)@),
    {
        broadcast use vstd::std_specs::hash::group_hash_axioms;

        let ghost before = self@;
        let mut sessions = self.take_sessions();
        proof {
            lemma_operations_keep_sessions_in_use(before, id, None);
            if routes_only_active(before) {
                registry_operations_keep_invariant(before, id, before.sessions[id]);
            }
        }
        match sessions.remove(&id) {
            Some(entry) => {
                let entry = SessionEntry { preview_attached: true, ..entry };
                sessions.insert(id, entry);
            },
            None => {},
        }
        proof {
            assert(sessions@ =~= attach_preview_spec(before, id).sessions);
        }
        self.sessions = sessions;
    }

    /// Records a new session `id`, capturing from `device_id` for a preview.
    pub fn insert_session(&mut self, id: u64, device_id: String)
        ensures
            final(self)@.active_route == old(self)@.active_route,
            final(self)@.sessions.contains_key(id),
            is_new_preview_session(final(self)@.sessions[id], device_id@),
            final(self)@.sessions == old(self)@.sessions.insert(id, final(self)@.sessions[id]),
            sessions_in_use(final(self)@),
            routes_only_active(old(self)@) ==> routes_only_active(final(self)@),
    {
        broadcast use vstd::std_specs::hash::group_hash_axioms;

        let ghost before = self@;
        let mut sessions = self.take_sessions();
        sessions.insert(id, SessionEntry { device_id, preview_attached: true, routing: false });
        proof {
            let after = RegistryView { sessions: sessions@, ..before };
            lemma_operations_keep_sessions_in_use(before, id, None);
            assert(sessions_in_use(after));
            if routes_only_active(before) {
                registry_operations_keep_invariant(before, id, sessions@[id]);
            }
        }
        self.sessions = sessions;
    }

    /// Records that the preview of session `id` has detached; the session
    /// is removed unless it feeds the virtual camera.
    pub fn detach_preview(&mut self, id: u64) -> (outcome: DetachOutcome)
        ensures
            (final(self)@, outcome) == detach_preview_spec(old(self)@, id),
            sessions_in_use(final(self)@),
            routes_only_active(old(self)@) ==> routes_only_active(final(self)@),
    {
        broadcast use vstd::std_specs::hash::group_hash_axioms;

        let ghost before = self@;
        let mut sessions = self.take_sessions();
        proof {
            lemma_operations_keep_sessions_in_use(before, id, None);
            if routes_only_active(before) {
                registry_operations_keep_invariant(before, id, before.sessions[id]);
            }
        }
        let outcome = match sessions.remove(&id) {
            Some(entry) => {
                if entry.routing {
                    sessions.insert(id, SessionEntry { preview_attached: false, ..entry });
                    DetachOutcome::Detached
                } else {
                    DetachOutcome::Removed
                }
            },
            None => DetachOutcome::Unknown,
        };
        proof {
            assert(sessions@ =~= detach_preview_spec(before, id).0.sessions);
        }
        self.sessions = sessions;
        outcome
    }
    /// Checks that session `id` exists and a preview reads it.
    pub fn preview_status(&self, id: u64) -> (r: Result<(), String>)
        ensures
            !self@.sessions.contains_key(id) ==> (r matches Err(e) && e@ == preview_gone_message()),
            self@.sessions.contains_key(id) && !self@.sessions[id].preview_attached ==> (r matches Err(
                e,
            ) && e@ == preview_closed_message()),
            self@.sessions.contains_key(id) && self@.sessions[id].preview_attached ==> r is Ok,
    {
        broadcast use vstd::std_specs::hash::group_hash_axioms;

        match self.sessions.get(&id) {
            Some(entry) => if entry.preview_attached {
                Ok(())
            } else {
                Err("The camera preview has been closed".to_owned())
            },
            None => Err("The camera preview is no longer running".to_owned()),
        }
    }

    /// The route that was active, if its session still exists.
    pub fn current_route(&self) -> (r: Option<u64>)
        ensures
            r == current_route(self@),
    {
        broadcast use vstd::std_specs::hash::group_hash_axioms;

        match self.active_route {
            Some(id) => if self.sessions.contains_key(&id) {
                Some(id)
            } else {
                None
            },
            None => None,
        }
    }

    /// How routing session `id` to the virtual camera starts.
    pub fn plan_route(&self, id: u64) -> (r: Result<RoutePlan, String>)
        ensures
            match plan_route_spec(self@, id) {
                Ok(plan) => r == Ok::<RoutePlan, String>(plan),
                Err(message) => r matches Err(e) && e@ == message,
            },
    {
        broadcast use vstd::std_specs::hash::group_hash_axioms;

        match self.sessions.get(&id) {
            Some(entry) => if entry.routing {
                Ok(RoutePlan::AlreadyRouted)
            } else {
                Ok(RoutePlan::Start { previous: self.current_route() })
            },
            None => Err("The camera preview is no longer running".to_owned()),
        }
    }

    /// Records that session `id` feeds the virtual camera now that the
    /// previous route's output has stopped. Returns the previous session if
    /// it was removed, which must then be stopped, and whether session `id`
    /// was still there.
    pub fn finish_route(&mut self, id: u64, previous: Option<u64>) -> (r: (Option<u64>, Result<(), String>))
        ensures
            final(self)@ == finish_route_spec(old(self)@, id, previous).0,
            r.0 == finish_route_spec(old(self)@, id, previous).1,
            match finish_route_spec(old(self)@, id, previous).2 {
                Ok(()) => r.1 is Ok,
                Err(message) => r.1 matches Err(e) && e@ == message,
            },
            sessions_in_use(final(self)@),
            routes_only_active(old(self)@) && previous == current_route(old(self)@)
                ==> routes_only_active(final(self)@),
            routes_only_active(old(self)@) && plan_route_spec(old(self)@, id) == Ok::<RoutePlan, Seq<char>>(
                RoutePlan::Start { previous },
            ) ==> {
                &&& r.1 is Ok
                &&& final(self)@.active_route == Some(id)
                &&& forall|k: u64| #[trigger] final(self)@.sessions.contains_key(k) && final(self)@.sessions[k].routing ==> k == id
            },
    {
        broadcast use vstd::std_specs::hash::group_hash_axioms;

        let ghost before = self@;
        let mut sessions = self.take_sessions();
        proof {
            lemma_operations_keep_sessions_in_use(before, id, previous);
            if routes_only_active(before) {
                registry_operations_keep_invariant(before, id, before.sessions[id]);
                if plan_route_spec(before, id) == Ok::<RoutePlan, Seq<char>>(RoutePlan::Start { previous }) {
                    routing_leaves_one_route(before, id, previous);
                }
            }
        }
        let mut removed: Option<u64> = None;
        match previous {
            Some(p) => match sessions.remove(&p) {
                Some(entry) => {
                    if entry.preview_attached {
                        sessions.insert(p, SessionEntry { routing: false, ..entry });
                    } else {
                        removed = Some(p);
                    }
                },
                None => {},
            },
            None => {},
        }
        proof {
            assert(sessions@ =~= release_previous_spec(before, previous).0.sessions);
        }
        match sessions.remove(&id) {
            Some(entry) => {
                sessions.insert(id, SessionEntry { routing: true, ..entry });
                proof {
                    assert(sessions@ =~= finish_route_spec(before, id, previous).0.sessions);
                }
                self.sessions = sessions;
                self.active_route = Some(id);
                (removed, Ok(()))
            },
            None => {
                proof {
                    assert(sessions@ =~= finish_route_spec(before, id, previous).0.sessions);
                }
                self.sessions = sessions;
                (removed, Err("The camera stream stopped unexpectedly".to_owned()))
            },
        }
    }

    /// Records that the output of session `id` has stopped and no route is
    /// active. Returns whether the session was removed, which must then be
    /// stopped.
    pub fn finish_stop(&mut self, id: u64) -> (removed: bool)
        ensures
            (final(self)@, removed) == finish_stop_spec(old(self)@, id),
            sessions_in_use(final(self)@),
            routes_only_active(old(self)@) && current_route(old(self)@) == Some(id) ==> {
                &&& routes_only_active(final(self)@)
                &&& final(self)@.active_route is None
                &&& forall|k: u64| #[trigger] final(self)@.sessions.contains_key(k) ==> !final(self)@.sessions[k].routing
            },
    {
        broadcast use vstd::std_specs::hash::group_hash_axioms;

        let ghost before = self@;
        let mut sessions = self.take_sessions();
        proof {
            lemma_operations_keep_sessions_in_use(before, id, None);
            if routes_only_active(before) && current_route(before) == Some(id) {
                stopping_leaves_no_route(before, id);
            }
        }
        let removed = match sessions.remove(&id) {
            Some(entry) => {
                if entry.preview_attached {
                    sessions.insert(id, SessionEntry { routing: false, ..entry });
                    false
                } else {
                    true
                }
            },
            None => false,
        };
        proof {
            assert(sessions@ =~= finish_stop_spec(before, id).0.sessions);
        }
        self.sessions = sessions;
        self.active_route = None;
        removed
    }

    /// Removes session `id` and returns what was known of it.
    pub fn remove(&mut self, id: u64) -> (r: Option<SessionEntry>)
        ensures
            final(self)@.sessions == old(self)@.sessions.remove(id),
            final(self)@.active_route == old(self)@.active_route,
            old(self)@.sessions.contains_key(id) ==> r == Some(old(self)@.sessions[id]),
            !old(self)@.sessions.contains_key(id) ==> r is None,
            sessions_in_use(final(self)@),
            routes_only_active(old(self)@) ==> routes_only_active(final(self)@),
    {
        broadcast use vstd::std_specs::hash::group_hash_axioms;

        let ghost before = self@;
        let mut sessions = self.take_sessions();
        let r = sessions.remove(&id);
        proof {
            assert(sessions@ =~= before.sessions.remove(id));
        }
        self.sessions = sessions;
        r
    }
}

/// Every operation keeps every session in use, whatever was planned.
pub proof fn lemma_operations_keep_sessions_in_use(r: RegistryView, id: u64, previous: Option<u64>)
    requires
        sessions_in_use(r),
    ensures
        sessions_in_use(attach_preview_spec(r, id)),
        sessions_in_use(detach_preview_spec(r, id).0),
        sessions_in_use(finish_route_spec(r, id, previous).0),
        sessions_in_use(finish_stop_spec(r, id).0),
        sessions_in_use(RegistryView { sessions: r.sessions.remove(id), ..r }),
        forall|entry: SessionEntry| entry.preview_attached ==> #[trigger] sessions_in_use(
            RegistryView { sessions: r.sessions.insert(id, entry), ..r },
        ),
{
}

/// Every operation on the registry keeps its invariant; routing and
/// stopping keep it when they act on the route that was current when they
/// were planned.
pub proof fn registry_operations_keep_invariant(r: RegistryView, id: u64, entry: SessionEntry)
    requires
        registry_invariant(r),
    ensures
        registry_invariant(attach_preview_spec(r, id)),
        entry.preview_attached && !entry.routing ==> registry_invariant(
            RegistryView { sessions: r.sessions.insert(id, entry), ..r },
        ),
        registry_invariant(detach_preview_spec(r, id).0),
        registry_invariant(finish_route_spec(r, id, current_route(r)).0),
        current_route(r) == Some(id) ==> registry_invariant(finish_stop_spec(r, id).0),
        registry_invariant(RegistryView { sessions: r.sessions.remove(id), ..r }),
{
    let (released, _) = release_previous_spec(r, current_route(r));
    assert(registry_invariant(released));
    assert forall|k: u64| #[trigger] released.sessions.contains_key(k) implies !released.sessions[k].routing by {
        if r.sessions.contains_key(k) && r.sessions[k].routing {
            assert(current_route(r) == Some(k));
        }
    }
}

/// At most one session feeds the virtual camera.
pub proof fn at_most_one_route(r: RegistryView, a: u64, b: u64)
    requires
        registry_invariant(r),
        r.sessions.contains_key(a),
        r.sessions.contains_key(b),
        r.sessions[a].routing,
        r.sessions[b].routing,
    ensures
        a == b,
{
}


/// Whether every session other than `a` and `b` is the same in `r` and `s`.
pub open spec fn others_unchanged(r: RegistryView, s: RegistryView, a: Option<u64>, b: Option<u64>) -> bool {
    forall|k: u64|
        #![trigger s.sessions.contains_key(k)]
        #![trigger r.sessions.contains_key(k)]
        Some(k) != a && Some(k) != b ==> (s.sessions.contains_key(k) == r.sessions.contains_key(k)
            && (r.sessions.contains_key(k) ==> s.sessions[k] == r.sessions[k]))
}

/// A session that already feeds the virtual camera is the current route, and
/// no other session feeds it.
pub proof fn already_routed_is_current_route(r: RegistryView, id: u64)
    requires
        registry_invariant(r),
        plan_route_spec(r, id) == Ok::<RoutePlan, Seq<char>>(RoutePlan::AlreadyRouted),
    ensures
        current_route(r) == Some(id),
        forall|k: u64| #[trigger] r.sessions.contains_key(k) && r.sessions[k].routing ==> k == id,
{
}

/// Routing session `id` to the virtual camera, as planned on a registry
/// that keeps its invariant, succeeds once the output has started: `id`
/// becomes the active route and the only session that feeds the virtual
/// camera; the previous route, if it is another session, no longer feeds it
/// and is removed exactly when no preview reads it; every other session
/// stays as it was.
pub proof fn routing_leaves_one_route(r: RegistryView, id: u64, previous: Option<u64>)
    requires
        registry_invariant(r),
        plan_route_spec(r, id) == Ok::<RoutePlan, Seq<char>>(RoutePlan::Start { previous }),
    ensures
        ({
            let (after, removed, result) = finish_route_spec(r, id, previous);
            &&& result is Ok
            &&& after.active_route == Some(id)
            &&& registry_invariant(after)
            &&& after.sessions.contains_key(id)
            &&& after.sessions[id] == with_routing(r.sessions[id], true)
            &&& forall|k: u64| #[trigger] after.sessions.contains_key(k) && after.sessions[k].routing ==> k == id
            &&& others_unchanged(r, after, Some(id), previous)
            &&& match previous {
                Some(p) => {
                    &&& r.sessions.contains_key(p)
                    &&& (removed == Some(p) <==> !r.sessions[p].preview_attached)
                    &&& (removed == Some(p) ==> !after.sessions.contains_key(p))
                    &&& (p != id && removed is None ==> after.sessions.contains_key(p)
                        && after.sessions[p] == with_routing(r.sessions[p], false))
                },
                None => removed is None,
            }
        }),
{
    registry_operations_keep_invariant(r, id, r.sessions[id]);
    let (after, removed, result) = finish_route_spec(r, id, previous);
    assert forall|k: u64| #[trigger] after.sessions.contains_key(k) && after.sessions[k].routing implies k == id by {
        if k != id {
            assert(r.sessions.contains_key(k) && r.sessions[k].routing);
            assert(previous == Some(k));
        }
    }
}

/// Stopping the output of the current route, on a registry that keeps its
/// invariant, leaves no active route and no session that feeds the virtual
/// camera; the stopped session is removed exactly when no preview reads it,
/// and otherwise keeps its preview; every other session stays as it was.
pub proof fn stopping_leaves_no_route(r: RegistryView, id: u64)
    requires
        registry_invariant(r),
        current_route(r) == Some(id),
    ensures
        ({
            let (after, removed) = finish_stop_spec(r, id);
            &&& after.active_route is None
            &&& registry_invariant(after)
            &&& forall|k: u64| #[trigger] after.sessions.contains_key(k) ==> !after.sessions[k].routing
            &&& (removed <==> !r.sessions[id].preview_attached)
            &&& (removed ==> !after.sessions.contains_key(id))
            &&& (!removed ==> after.sessions.contains_key(id) && after.sessions[id]
                == with_routing(r.sessions[id], false))
            &&& others_unchanged(r, after, Some(id), None)
        }),
{
    registry_operations_keep_invariant(r, id, r.sessions[id]);
    let (after, removed) = finish_stop_spec(r, id);
    assert forall|k: u64| #[trigger] after.sessions.contains_key(k) implies !after.sessions[k].routing by {
        if k != id {
            assert(r.sessions.contains_key(k));
            if r.sessions[k].routing {
                assert(r.active_route == Some(k));
            }
        }
    }
}

/// The frame size that each preferred quality asks for, if any.
pub open spec fn requested_dimensions_spec(quality: PreferredQuality) -> Option<(u32, u32)> {
    match quality {
        PreferredQuality::Automatic => None,
        PreferredQuality::Hd => Some((1280u32, 720u32)),
        PreferredQuality::FullHd => Some((1920u32, 1080u32)),
        PreferredQuality::UltraHd => Some((3840u32, 2160u32)),
    }
}

/// The frame size that `quality` asks for: none for automatic, else
/// 1280×720, 1920×1080 or 3840×2160.
pub fn requested_dimensions(quality: PreferredQuality) -> (r: Option<(u32, u32)>)
    ensures
        r == requested_dimensions_spec(quality),
{
    match quality {
        PreferredQuality::Automatic => None,
        PreferredQuality::Hd => Some((1280, 720)),
        PreferredQuality::FullHd => Some((1920, 1080)),
        PreferredQuality::UltraHd => Some((3840, 2160)),
    }
}

/// A frame size that a camera offers for a pixel format.
#[derive(Debug, Clone, Copy, PartialEq, Eq, Structural)]
pub enum FrameSizeOffer {
    /// Exactly this size.
    Discrete { width: u32, height: u32 },
    /// Any size within these bounds.
    Stepwise { min_width: u32, max_width: u32, min_height: u32, max_height: u32 },
}

/// The size to capture at from `offer` when `requested` is asked for: a
/// discrete size as it is, a requested size that a range admits, or the
/// largest size of a range when nothing is requested; none when the result
/// is not the requested size.
pub open spec fn candidate_dimensions_spec(offer: FrameSizeOffer, requested: Option<(u32, u32)>) -> Option<(u32, u32)> {
    let size = match offer {
        FrameSizeOffer::Discrete { width, height } => Some((width, height)),
        FrameSizeOffer::Stepwise { min_width, max_width, min_height, max_height } => match requested {
            Some((w, h)) => if min_width <= w && w <= max_width && min_height <= h && h <= max_height {
                Some((w, h))
            } else {
                None
            },
            None => Some((max_width, max_height)),
        },
    };
    match size {
        Some(dims) => match requested {
            Some(wanted) => if wanted == dims {
                Some(dims)
            } else {
                None
            },
            None => Some(dims),
        },
        None => None,
    }
}

/// The size to capture at from `offer` when `requested` is asked for.
pub fn candidate_dimensions(offer: FrameSizeOffer, requested: Option<(u32, u32)>) -> (r: Option<(u32, u32)>)
    ensures
        r == candidate_dimensions_spec(offer, requested),
{
    let size: Option<(u32, u32)> = match offer {
        FrameSizeOffer::Discrete { width, height } => Some((width, height)),
        FrameSizeOffer::Stepwise { min_width, max_width, min_height, max_height } => match requested {
            Some((w, h)) => if min_width <= w && w <= max_width && min_height <= h && h <= max_height {
                Some((w, h))
            } else {
                None
            },
            None => Some((max_width, max_height)),
        },
    };
    match size {
        Some((w, h)) => match requested {
            Some((rw, rh)) => if rw == w && rh == h {
                Some((w, h))
            } else {
                None
            },
            None => Some((w, h)),
        },
        None => None,
    }
}

/// The capture size taken from an offer: a discrete size is taken exactly
/// when nothing is requested or it is the requested size; a range yields
/// its largest size when nothing is requested, and the requested size
/// exactly when it lies within the range; a result is never a size other
/// than the requested one.
pub proof fn candidate_is_offered_and_requested(offer: FrameSizeOffer, requested: Option<(u32, u32)>)
    ensures
        requested matches Some(wanted) ==> (candidate_dimensions_spec(offer, requested) is None
            || candidate_dimensions_spec(offer, requested) == Some(wanted)),
        offer matches FrameSizeOffer::Discrete { width, height } ==> candidate_dimensions_spec(offer, requested) == if requested is None || requested == Some((width, height)) {
            Some((width, height))
        } else {
            None
        },
        offer matches FrameSizeOffer::Stepwise { min_width, max_width, min_height, max_height } ==> {
            &&& requested is None ==> candidate_dimensions_spec(offer, requested) == Some((max_width, max_height))
            &&& requested matches Some((w, h)) ==> (candidate_dimensions_spec(offer, requested) is Some
                <==> min_width <= w <= max_width && min_height <= h <= max_height)
        },
{
}

/// Whether a mode of size `dims` is the camera's current mode and should
/// be kept.
pub open spec fn keeps_current(dims: (u32, u32), current: Option<(u32, u32)>, preserve_current: bool) -> bool {
    preserve_current && current == Some(dims)
}

/// Whether mode `a` comes before mode `b`: when the current mode is to be
/// kept it comes first, and otherwise larger frames come first.
pub open spec fn mode_precedes(a: (u32, u32), b: (u32, u32), current: Option<(u32, u32)>, preserve_current: bool) -> bool {
    let ka = keeps_current(a, current, preserve_current);
    let kb = keeps_current(b, current, preserve_current);
    (ka && !kb) || (ka == kb && a.0 * a.1 > b.0 * b.1)
}

/// The index of the mode to capture with: the first of the modes that no
/// other mode precedes, which is the first of a stable sort by that order.
pub fn choose_mode(modes: &Vec<(u32, u32)>, current: Option<(u32, u32)>, preserve_current: bool) -> (r: Option<usize>)
    ensures
        modes.len() == 0 ==> r is None,
        modes.len() > 0 ==> (r matches Some(i) && {
            &&& i < modes.len()
            &&& forall|j: int| 0 <= j < modes.len() ==> !mode_precedes(#[trigger] modes@[j], modes@[i as int], current, preserve_current)
            &&& forall|j: int| 0 <= j < i ==> mode_precedes(modes@[i as int], #[trigger] modes@[j], current, preserve_current)
        }),
{
    if modes.len() == 0 {
        return None;
    }
    let mut best: usize = 0;
    let mut i: usize = 1;
    while i < modes.len()
        invariant
            modes.len() > 0,
            best < i <= modes.len(),
            forall|j: int| 0 <= j < i ==> !mode_precedes(#[trigger] modes@[j], modes@[best as int], current, preserve_current),
            forall|j: int| 0 <= j < best ==> mode_precedes(modes@[best as int], #[trigger] modes@[j], current, preserve_current),
        decreases modes.len() - i,
    {
        let (bw, bh) = modes[best];
        let (w, h) = modes[i];
        let best_current = preserve_current && match current {
            Some((cw, ch)) => cw == bw && ch == bh,
            None => false,
        };
        let this_current = preserve_current && match current {
            Some((cw, ch)) => cw == w && ch == h,
            None => false,
        };
        proof {
            lemma_area_fits(w, h);
            lemma_area_fits(bw, bh);
        }
        let better = (this_current && !best_current) || (this_current == best_current && (w as u64)
            * (h as u64) > (bw as u64) * (bh as u64));
        if better {
            proof {
                assert forall|j: int| 0 <= j < i implies mode_precedes(modes@[i as int], #[trigger] modes@[j], current, preserve_current) by {
                    assert(!mode_precedes(modes@[j], modes@[best as int], current, preserve_current));
                    lemma_precedes_transitive(modes@[i as int], modes@[best as int], modes@[j], current, preserve_current);
                }
            }
            best = i;
        }
        i = i + 1;
    }
    Some(best)
}

/// The area of a frame fits in 64 bits.
proof fn lemma_area_fits(w: u32, h: u32)
    ensures
        (w as u64) * (h as u64) <= u64::MAX,
        w as int * h as int == (w as u64) * (h as u64),
{
    assert((w as int) * (h as int) <= 0xffff_ffff * 0xffff_ffff) by (nonlinear_arith)
        requires
            w <= 0xffff_ffff,
            h <= 0xffff_ffff,
    ;
}

/// `a` precedes `c` when `a` precedes `b` and `c` does not precede `b`.
proof fn lemma_precedes_transitive(a: (u32, u32), b: (u32, u32), c: (u32, u32), current: Option<(u32, u32)>, preserve_current: bool)
    requires
        mode_precedes(a, b, current, preserve_current),
        !mode_precedes(c, b, current, preserve_current),
    ensures
        mode_precedes(a, c, current, preserve_current),
{
    let ka = keeps_current(a, current, preserve_current);
    let kb = keeps_current(b, current, preserve_current);
    let kc = keeps_current(c, current, preserve_current);
    if ka == kb && ka == kc {
        assert(a.0 * a.1 > b.0 * b.1);
        assert(c.0 * c.1 <= b.0 * b.1);
    }
}

/// Appends `w×h` to `out`.
fn push_dimensions(out: &mut Vec<char>, width: u32, height: u32)
    ensures
        final(out)@ == old(out)@ + decimal(width as nat) + seq!['\u{d7}'] + decimal(height as nat),
{
    push_decimal(out, width as u64);
    out.push('\u{d7}');
    push_decimal(out, height as u64);
}

/// The message for a camera without a suitable MJPEG mode, given the size
/// that was asked for and how the preferred frame rate reads (empty when
/// none was asked for).
pub fn no_mode_message(requested: Option<(u32, u32)>, rate_text: &str) -> (r: String)
    ensures
        r@ == "This camera does not expose a native MJPEG mode for "@ + match requested {
            Some((w, h)) => decimal(w as nat) + seq!['\u{d7}'] + decimal(h as nat),
            None => "an automatic resolution"@,
        } + rate_text@,
{
    let mut out: Vec<char> = Vec::new();
    append_str(&mut out, "This camera does not expose a native MJPEG mode for ");
    match requested {
        Some((w, h)) => push_dimensions(&mut out, w, h),
        None => append_str(&mut out, "an automatic resolution"),
    }
    append_str(&mut out, rate_text);
    string_from_chars(&out)
}

/// The four character code of MJPEG.
pub open spec fn mjpeg_fourcc() -> Seq<u8> {
    seq![0x4du8, 0x4au8, 0x50u8, 0x47u8]
}

/// Whether a negotiated format differs from the requested MJPEG size.
pub open spec fn format_differs(requested: (u32, u32), actual: (u32, u32), actual_fourcc: [u8; 4]) -> bool {
    actual != requested || actual_fourcc@ != mjpeg_fourcc()
}

/// Whether the device settled on another format than `requested` MJPEG.
pub fn negotiated_format_differs(requested: (u32, u32), actual: (u32, u32), actual_fourcc: [u8; 4]) -> (r: bool)
    ensures
        r == format_differs(requested, actual, actual_fourcc),
{
    let same_code = actual_fourcc[0] == 0x4d && actual_fourcc[1] == 0x4a && actual_fourcc[2] == 0x50
        && actual_fourcc[3] == 0x47;
    proof {
        if same_code {
            assert(actual_fourcc@ =~= mjpeg_fourcc());
        }
    }
    actual.0 != requested.0 || actual.1 != requested.1 || !same_code
}

/// The message for a camera that settled on another format than the
/// requested MJPEG size; `fourcc_text` is how the chosen pixel format reads.
pub fn capture_format_message(requested: (u32, u32), actual: (u32, u32), fourcc_text: &str) -> (r: String)
    ensures
        r@ == "The camera selected "@ + decimal(actual.0 as nat) + seq!['\u{d7}'] + decimal(actual.1 as nat)
            + seq![' '] + fourcc_text@ + ", not the requested "@ + decimal(requested.0 as nat) + seq!['\u{d7}']
            + decimal(requested.1 as nat) + " MJPEG"@,
{
    let mut out: Vec<char> = Vec::new();
    append_str(&mut out, "The camera selected ");
    push_dimensions(&mut out, actual.0, actual.1);
    out.push(' ');
    append_str(&mut out, fourcc_text);
    append_str(&mut out, ", not the requested ");
    push_dimensions(&mut out, requested.0, requested.1);
    append_str(&mut out, " MJPEG");
    string_from_chars(&out)
}

/// The message for a virtual camera that settled on another format than
/// the requested MJPEG size.
pub fn output_format_message(requested: (u32, u32), actual: (u32, u32), fourcc_text: &str) -> (r: String)
    ensures
        r@ == "The virtual camera selected "@ + decimal(actual.0 as nat) + seq!['\u{d7}'] + decimal(actual.1 as nat)
            + seq![' '] + fourcc_text@ + ", not "@ + decimal(requested.0 as nat) + seq!['\u{d7}']
            + decimal(requested.1 as nat) + " MJPEG"@,
{
    let mut out: Vec<char> = Vec::new();
    append_str(&mut out, "The virtual camera selected ");
    push_dimensions(&mut out, actual.0, actual.1);
    out.push(' ');
    append_str(&mut out, fourcc_text);
    append_str(&mut out, ", not ");
    push_dimensions(&mut out, requested.0, requested.1);
    append_str(&mut out, " MJPEG");
    string_from_chars(&out)
}

/// Checks that a frame of `frame_len` bytes fits an output buffer of
/// `buffer_len` bytes.
pub fn check_frame_fits(frame_len: usize, buffer_len: usize) -> (r: Result<(), String>)
    ensures
        frame_len <= buffer_len ==> r is Ok,
        frame_len > buffer_len ==> (r matches Err(e) && e@ == "A "@ + decimal(frame_len as nat)
            + " byte camera frame exceeds the virtual camera's "@ + decimal(buffer_len as nat) + " byte buffer"@),
{
    if frame_len <= buffer_len {
        return Ok(());
    }
    let mut out: Vec<char> = Vec::new();
    append_str(&mut out, "A ");
    push_decimal(&mut out, frame_len as u64);
    append_str(&mut out, " byte camera frame exceeds the virtual camera's ");
    push_decimal(&mut out, buffer_len as u64);
    append_str(&mut out, " byte buffer");
    Err(string_from_chars(&out))
}

/// Whether the video device named `device_name` may be the output of the
/// virtual camera called `camera_name`: the two names agree up to case and
/// surrounding whitespace, or the device's name mentions Camux.
pub open spec fn output_candidate_spec(camera_name: Seq<char>, device_name: Seq<char>) -> bool {
    let listed = lowercase(trimmed(device_name));
    listed == lowercase(trimmed(camera_name)) || contains_seq(listed, "camux"@)
}

/// Whether the video device named `device_name` may be the output of the
/// virtual camera called `camera_name`.
pub fn is_output_candidate(camera_name: &str, device_name: &str) -> (r: bool)
    ensures
        r == output_candidate_spec(camera_name@, device_name@),
{
    let expected = crate::text::to_lowercase(crate::text::trim(camera_name).as_str());
    let listed = crate::text::to_lowercase(crate::text::trim(device_name).as_str());
    if listed == expected {
        return true;
    }
    let hay = crate::text::chars_of(listed.as_str());
    let needle = crate::text::chars_of("camux");
    crate::text::contains_chars(&hay, &needle)
}

/// The message for a virtual camera whose output device cannot be found.
pub fn output_not_ready_message(camera_name: &str) -> (r: String)
    ensures
        r@ == camera_name@ + " is not ready. Repair the virtual camera in Settings first."@,
{
    let mut out: Vec<char> = Vec::new();
    append_str(&mut out, camera_name);
    append_str(&mut out, " is not ready. Repair the virtual camera in Settings first.");
    string_from_chars(&out)
}

} // verus!
