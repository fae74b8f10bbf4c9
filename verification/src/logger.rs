//! Bookkeeping of the TCP log sink: whether it may use sockets, whether it listens and has a
//! client, how many accepts failed in a row, and the bounded backlog of output kept while no
//! client is connected and replayed to the next one. The sockets themselves are driven by
//! the caller, which reports what each socket call did.

use vstd::prelude::*;
use std::collections::VecDeque;

verus! {

/// Most bytes of log output kept while no client is connected.
pub const BACKLOG_LIMIT: usize = 0x200000;

/// Consecutive `accept` failures before the listening socket is closed and bound again.
pub const ACCEPT_FAILURES_BEFORE_REBIND: u32 = 5;

/// Length in bytes of the UTF-8 encoding of `s`.
pub open spec fn utf8_len(s: Seq<char>) -> nat {
    vstd::utf8::encode_utf8(s).len()
}

/// Total length in bytes of a list of messages.
pub open spec fn total_len(messages: Seq<Seq<char>>) -> nat
    decreases messages.len(),
{
    if messages.len() == 0 {
        0
    } else {
        utf8_len(messages[0]) + total_len(messages.drop_first())
    }
}

/// Number of oldest messages that must go so that `incoming` more bytes fit in the backlog.
pub open spec fn evicted_count(backlog: Seq<Seq<char>>, incoming: nat) -> nat
    decreases backlog.len(),
{
    if backlog.len() == 0 || total_len(backlog) + incoming <= BACKLOG_LIMIT {
        0
    } else {
        1 + evicted_count(backlog.drop_first(), incoming)
    }
}

/// The backlog after `message` is offered to it: a message that alone exceeds the limit is
/// not kept; otherwise the oldest messages go until the new one fits, and it is appended.
pub open spec fn backlog_after(backlog: Seq<Seq<char>>, message: Seq<char>) -> Seq<Seq<char>> {
    if utf8_len(message) > BACKLOG_LIMIT {
        backlog
    } else {
        backlog.skip(evicted_count(backlog, utf8_len(message)) as int).push(message)
    }
}

/// What the caller's write to the connected client did.
#[derive(Clone, Copy, PartialEq, Eq, Structural, Debug)]
pub enum WriteOutcome {
    /// There was no client to write to.
    NoClient,
    /// The whole message was written.
    Sent,
    /// The write failed; the client is gone.
    Failed,
}

/// What the caller's attempt to bind the listening socket did.
#[derive(Clone, Copy, PartialEq, Eq, Structural, Debug)]
pub enum BindOutcome {
    /// Bound and made non-blocking.
    Bound,
    /// Bound, but it could not be made non-blocking.
    NotNonBlocking,
    /// Binding failed.
    Failed,
}

/// What the caller's non-blocking `accept` did.
#[derive(Clone, Copy, PartialEq, Eq, Structural, Debug)]
pub enum AcceptOutcome {
    /// A client connected.
    Accepted,
    /// No client was waiting.
    WouldBlock,
    /// The call failed.
    Failed,
}

/// The state of the TCP log sink.
pub struct TcpLogger {
    enabled: bool,
    listening: bool,
    connected: bool,
    accept_failures: u32,
    bind_failure_reported: bool,
    backlog: VecDeque<String>,
    backlog_bytes: usize,
}

/// The state of the TCP log sink, as plain values.
pub struct LoggerView {
    /// False between a socket library finalization and the next initialization.
    pub enabled: bool,
    pub listening: bool,
    pub connected: bool,
    pub accept_failures: u32,
    pub bind_failure_reported: bool,
    /// Messages kept for the next client, oldest first.
    pub backlog: Seq<Seq<char>>,
}

/// Whether the sink may bind its listening socket.
pub open spec fn may_bind(v: LoggerView) -> bool {
    v.enabled && !v.listening
}

/// Whether the sink may accept on its listening socket.
pub open spec fn may_accept(v: LoggerView) -> bool {
    v.enabled && v.listening
}

/// Whether the sink may write to its client.
pub open spec fn may_write_directly(v: LoggerView) -> bool {
    v.enabled && v.connected
}

/// The sink after the socket library is finalized: no socket calls, no client, no listener.
pub open spec fn suspended(v: LoggerView) -> LoggerView {
    LoggerView { enabled: false, listening: false, connected: false, ..v }
}

/// The sink after the socket library is initialized again.
pub open spec fn resumed(v: LoggerView) -> LoggerView {
    LoggerView { enabled: true, bind_failure_reported: false, ..v }
}

/// The sink after binding its listening socket did `outcome`.
pub open spec fn bind_step(v: LoggerView, outcome: BindOutcome) -> LoggerView {
    match outcome {
        BindOutcome::Bound => LoggerView { listening: true, accept_failures: 0, bind_failure_reported: false, ..v },
        BindOutcome::NotNonBlocking => LoggerView { enabled: false, ..v },
        BindOutcome::Failed => LoggerView { bind_failure_reported: true, ..v },
    }
}

/// Whether a bind that did `outcome` is worth a line in the kernel log.
pub open spec fn bind_reported(v: LoggerView, outcome: BindOutcome) -> bool {
    match outcome {
        BindOutcome::Bound => false,
        BindOutcome::NotNonBlocking => true,
        BindOutcome::Failed => !v.bind_failure_reported,
    }
}

/// Whether an accept that did `outcome` closes the listening socket, to be bound again.
pub open spec fn accept_drops_listener(v: LoggerView, outcome: AcceptOutcome) -> bool {
    outcome == AcceptOutcome::Failed && v.accept_failures + 1 >= ACCEPT_FAILURES_BEFORE_REBIND
}

/// The sink after an accept did `outcome`.
pub open spec fn accept_step(v: LoggerView, outcome: AcceptOutcome) -> LoggerView {
    match outcome {
        AcceptOutcome::Accepted => LoggerView { accept_failures: 0, ..v },
        AcceptOutcome::WouldBlock => v,
        AcceptOutcome::Failed => if accept_drops_listener(v, outcome) {
            LoggerView { listening: false, accept_failures: 0, ..v }
        } else {
            LoggerView { accept_failures: (v.accept_failures + 1) as u32, ..v }
        },
    }
}

/// The sink after `message` is kept for the next client.
pub open spec fn offer_step(v: LoggerView, message: Seq<char>) -> LoggerView {
    LoggerView { backlog: backlog_after(v.backlog, message), ..v }
}

/// The sink after `message` was routed to the client, whose write did `outcome`: sent, or
/// kept for the next client (and the client gone).
pub open spec fn write_step(v: LoggerView, message: Seq<char>, outcome: WriteOutcome) -> LoggerView {
    if outcome == WriteOutcome::Sent {
        v
    } else {
        LoggerView { connected: false, ..offer_step(v, message) }
    }
}

/// The sink after a message from the log channel: routed while enabled, kept otherwise.
pub open spec fn deliver_step(v: LoggerView, message: Seq<char>, outcome: WriteOutcome) -> LoggerView {
    if v.enabled {
        write_step(v, message, outcome)
    } else {
        offer_step(v, message)
    }
}

/// The sink after a direct write to its client went through (`sent`) or not.
pub open spec fn direct_write_step(v: LoggerView, sent: bool) -> LoggerView {
    LoggerView { connected: sent, ..v }
}

/// The sink after a new client took the `replayed` oldest messages of the backlog; it
/// becomes the current client if the replay was `complete`.
pub open spec fn connect_step(v: LoggerView, replayed: int, complete: bool) -> LoggerView {
    LoggerView { backlog: v.backlog.skip(replayed), connected: complete || v.connected, ..v }
}

/// One thing that can happen to the sink.
pub enum SinkEvent {
    Suspend,
    Resume,
    Bind(BindOutcome),
    Accept(AcceptOutcome),
    Offer(String),
    Write(String, WriteOutcome),
    Deliver(String, WriteOutcome),
    DirectWrite(bool),
    Connect(usize, bool),
}

/// The sink after `event`.
pub open spec fn event_step(v: LoggerView, event: SinkEvent) -> LoggerView {
    match event {
        SinkEvent::Suspend => suspended(v),
        SinkEvent::Resume => resumed(v),
        SinkEvent::Bind(o) => bind_step(v, o),
        SinkEvent::Accept(o) => accept_step(v, o),
        SinkEvent::Offer(m) => offer_step(v, m@),
        SinkEvent::Write(m, o) => write_step(v, m@, o),
        SinkEvent::Deliver(m, o) => deliver_step(v, m@, o),
        SinkEvent::DirectWrite(sent) => direct_write_step(v, sent),
        SinkEvent::Connect(k, complete) => connect_step(v, k as int, complete),
    }
}

/// The sink after `events`, in order.
pub open spec fn events_after(v: LoggerView, events: Seq<SinkEvent>) -> LoggerView
    decreases events.len(),
{
    if events.len() == 0 {
        v
    } else {
        events_after(event_step(v, events[0]), events.drop_first())
    }
}

/// A sleep of the console (the socket library finalized, then initialized again) leaves the
/// sink enabled, with no socket to reuse, and keeps every message of the backlog.
pub proof fn law_suspend_resume(v: LoggerView)
    ensures
        resumed(suspended(v)).enabled,
        !resumed(suspended(v)).listening,
        !resumed(suspended(v)).connected,
        resumed(suspended(v)).backlog == v.backlog,
{
}

/// Whether `events` holds no resume.
pub open spec fn no_resume(events: Seq<SinkEvent>) -> bool {
    forall|i: int| 0 <= i < events.len() ==> !(#[trigger] events[i] is Resume)
}

/// Whether `event` may happen to the sink in state `v`: a write reports a client exactly
/// when there is one, a direct write needs a client, and a replay takes at most the
/// backlog, all of it when complete.
pub open spec fn event_admissible(v: LoggerView, event: SinkEvent) -> bool {
    match event {
        SinkEvent::Write(_, o) => (o == WriteOutcome::NoClient) == !v.connected,
        SinkEvent::Deliver(_, o) => (o == WriteOutcome::NoClient) == !may_write_directly(v),
        SinkEvent::DirectWrite(_) => may_write_directly(v),
        SinkEvent::Connect(k, complete) => k <= v.backlog.len() && (complete ==> k == v.backlog.len()),
        _ => true,
    }
}

/// Whether each of `events` may happen in the state the ones before it leave, from `v`.
pub open spec fn events_admissible(v: LoggerView, events: Seq<SinkEvent>) -> bool
    decreases events.len(),
{
    events.len() == 0 || (event_admissible(v, events[0]) && events_admissible(
        event_step(v, events[0]),
        events.drop_first(),
    ))
}

/// Whether `events` connects a client: a replay of the backlog that went through.
pub open spec fn connects_client(events: Seq<SinkEvent>) -> bool {
    exists|i: int| 0 <= i < events.len() && #[trigger] events[i] matches SinkEvent::Connect(_, true)
}

/// After a suspend, even across a resume, the sink has no client to write to until a new
/// client connects: a direct write is refused and no message goes to a socket.
pub proof fn law_no_client_until_connect(v: LoggerView, events: Seq<SinkEvent>)
    requires
        events_admissible(suspended(v), events),
        !connects_client(events),
    ensures
        !events_after(suspended(v), events).connected,
        !may_write_directly(events_after(suspended(v), events)),
{
    lemma_no_client_stays(suspended(v), events);
}

proof fn lemma_no_client_stays(v: LoggerView, events: Seq<SinkEvent>)
    requires
        !v.connected,
        events_admissible(v, events),
        !connects_client(events),
    ensures
        !events_after(v, events).connected,
    decreases events.len(),
{
    if events.len() > 0 {
        assert(!(events[0] matches SinkEvent::Connect(_, true)));
        assert forall|i: int| 0 <= i < events.drop_first().len() implies !(#[trigger] events.drop_first()[i] matches SinkEvent::Connect(
            _,
            true,
        )) by {
            assert(events.drop_first()[i] == events[i + 1]);
        }
        lemma_no_client_stays(event_step(v, events[0]), events.drop_first());
    }
}

/// From a suspend until the next resume, whatever happens to it, the sink makes no socket
/// call: it does not bind, accept or write to a client, so a direct write is refused.
pub proof fn law_no_socket_calls_until_resume(v: LoggerView, events: Seq<SinkEvent>)
    requires
        no_resume(events),
    ensures
        !events_after(suspended(v), events).enabled,
        !may_bind(events_after(suspended(v), events)),
        !may_accept(events_after(suspended(v), events)),
        !may_write_directly(events_after(suspended(v), events)),
{
    lemma_disabled_stays(suspended(v), events);
}

proof fn lemma_disabled_stays(v: LoggerView, events: Seq<SinkEvent>)
    requires
        !v.enabled,
        no_resume(events),
    ensures
        !events_after(v, events).enabled,
    decreases events.len(),
{
    if events.len() > 0 {
        assert(!(events[0] is Resume));
        assert forall|i: int| 0 <= i < events.drop_first().len() implies !(#[trigger] events.drop_first()[i] is Resume) by {
            assert(events.drop_first()[i] == events[i + 1]);
        }
        lemma_disabled_stays(event_step(v, events[0]), events.drop_first());
    }
}

/// Whatever is offered to it, the backlog stays within its limit.
pub proof fn law_backlog_within_limit(backlog: Seq<Seq<char>>, message: Seq<char>)
    requires
        total_len(backlog) <= BACKLOG_LIMIT,
    ensures
        total_len(backlog_after(backlog, message)) <= BACKLOG_LIMIT,
{
    if utf8_len(message) <= BACKLOG_LIMIT {
        lemma_evicted_fits(backlog, utf8_len(message));
        lemma_total_len_push(backlog.skip(evicted_count(backlog, utf8_len(message)) as int), message);
    }
}

/// A message that fits is kept as the newest, after the newest messages of the old backlog
/// in their order, whether or not a client was ever connected; only the oldest are dropped.
pub proof fn law_backlog_keeps_newest(backlog: Seq<Seq<char>>, message: Seq<char>)
    requires
        utf8_len(message) <= BACKLOG_LIMIT,
    ensures
        backlog_after(backlog, message).last() == message,
        exists|k: int|
            0 <= k <= backlog.len() && #[trigger] backlog_after(backlog, message).drop_last() == backlog.skip(k),
{
    lemma_evicted_fits(backlog, utf8_len(message));
    let k = evicted_count(backlog, utf8_len(message)) as int;
    assert(backlog_after(backlog, message).drop_last() == backlog.skip(k));
}

/// Eviction is minimal: the backlog keeps its longest suffix that fits with the offered
/// message. In particular, when everything fits, nothing is dropped.
pub proof fn law_backlog_evicts_least(backlog: Seq<Seq<char>>, message: Seq<char>)
    requires
        utf8_len(message) <= BACKLOG_LIMIT,
    ensures
        total_len(backlog) + utf8_len(message) <= BACKLOG_LIMIT ==> backlog_after(backlog, message) == backlog.push(
            message,
        ),
        exists|k: int|
            0 <= k <= backlog.len() && #[trigger] backlog_after(backlog, message) == backlog.skip(k).push(message)
                && total_len(backlog.skip(k)) + utf8_len(message) <= BACKLOG_LIMIT && forall|j: int|
                0 <= j < k ==> total_len(#[trigger] backlog.skip(j)) + utf8_len(message) > BACKLOG_LIMIT,
{
    lemma_evicted_fits(backlog, utf8_len(message));
    lemma_evicted_least(backlog, utf8_len(message));
    let k = evicted_count(backlog, utf8_len(message)) as int;
    assert(backlog_after(backlog, message) == backlog.skip(k).push(message));
    if total_len(backlog) + utf8_len(message) <= BACKLOG_LIMIT {
        assert(backlog.skip(0) =~= backlog);
    }
}

proof fn lemma_evicted_least(backlog: Seq<Seq<char>>, incoming: nat)
    ensures
        evicted_count(backlog, incoming) <= backlog.len(),
        forall|j: int|
            0 <= j < evicted_count(backlog, incoming) ==> total_len(#[trigger] backlog.skip(j)) + incoming
                > BACKLOG_LIMIT,
    decreases backlog.len(),
{
    if backlog.len() > 0 && total_len(backlog) + incoming > BACKLOG_LIMIT {
        let rest = backlog.drop_first();
        lemma_evicted_least(rest, incoming);
        assert forall|j: int|
            0 <= j < evicted_count(backlog, incoming) implies total_len(#[trigger] backlog.skip(j)) + incoming
            > BACKLOG_LIMIT by {
            if j == 0 {
                assert(backlog.skip(0) =~= backlog);
            } else {
                assert(backlog.skip(j) =~= rest.skip(j - 1));
            }
        }
    }
}

/// Output kept while no client is connected is replayed to the next client, oldest first:
/// a complete replay hands over the whole backlog and leaves it empty.
pub proof fn law_replayed_on_connect(v: LoggerView, message: Seq<char>)
    requires
        utf8_len(message) <= BACKLOG_LIMIT,
    ensures
        ({
            let kept = offer_step(v, message);
            &&& kept.backlog.last() == message
            &&& connect_step(kept, kept.backlog.len() as int, true).backlog.len() == 0
            &&& connect_step(kept, kept.backlog.len() as int, true).connected
        }),
{
    law_backlog_keeps_newest(v.backlog, message);
}

/// The views of a list of strings.
pub open spec fn string_views(s: Seq<String>) -> Seq<Seq<char>> {
    s.map_values(|m: String| m@)
}

proof fn lemma_total_len_push(messages: Seq<Seq<char>>, m: Seq<char>)
    ensures
        total_len(messages.push(m)) == total_len(messages) + utf8_len(m),
    decreases messages.len(),
{
    if messages.len() == 0 {
        assert(messages.push(m).drop_first() =~= messages);
    } else {
        assert(messages.push(m).drop_first() == messages.drop_first().push(m));
        lemma_total_len_push(messages.drop_first(), m);
    }
}

proof fn lemma_evicted_fits(backlog: Seq<Seq<char>>, incoming: nat)
    requires
        incoming <= BACKLOG_LIMIT,
    ensures
        evicted_count(backlog, incoming) <= backlog.len(),
        total_len(backlog.skip(evicted_count(backlog, incoming) as int)) + incoming <= BACKLOG_LIMIT,
    decreases backlog.len(),
{
    if backlog.len() == 0 {
        assert(backlog.skip(0) == backlog);
    } else if total_len(backlog) + incoming <= BACKLOG_LIMIT {
        assert(backlog.skip(0) == backlog);
    } else {
        lemma_evicted_fits(backlog.drop_first(), incoming);
        assert(backlog.skip(evicted_count(backlog, incoming) as int) == backlog.drop_first().skip(
            evicted_count(backlog.drop_first(), incoming) as int,
        ));
    }
}

/// Byte length of a message, as its UTF-8 encoding.
fn message_len(m: &String) -> (len: usize)
    ensures
        len == utf8_len(m@),
{
    m.as_str().as_bytes().len()
}

impl View for TcpLogger {
    type V = LoggerView;

    closed spec fn view(&self) -> LoggerView {
        LoggerView {
            enabled: self.enabled,
            listening: self.listening,
            connected: self.connected,
            accept_failures: self.accept_failures,
            bind_failure_reported: self.bind_failure_reported,
            backlog: string_views(self.backlog@),
        }
    }
}

impl TcpLogger {
    /// The sink's invariant: the byte count matches the backlog, which stays within the
    /// limit, and the accept failures are fewer than those that trigger a rebind.
    pub closed spec fn wf(&self) -> bool {
        &&& self.backlog_bytes == total_len(string_views(self.backlog@))
        &&& total_len(string_views(self.backlog@)) <= BACKLOG_LIMIT
        &&& self.accept_failures < ACCEPT_FAILURES_BEFORE_REBIND
    }

    /// The state at start: enabled, no socket, nothing kept.
    pub fn new() -> (logger: Self)
        ensures
            logger.wf(),
            logger@.enabled,
            !logger@.listening,
            !logger@.connected,
            logger@.accept_failures == 0,
            !logger@.bind_failure_reported,
            logger@.backlog == Seq::<Seq<char>>::empty(),
    {
        let logger = TcpLogger {
            enabled: true,
            listening: false,
            connected: false,
            accept_failures: 0,
            bind_failure_reported: false,
            backlog: VecDeque::new(),
            backlog_bytes: 0,
        };
        assert(string_views(logger.backlog@) =~= Seq::<Seq<char>>::empty());
        logger
    }

    /// Whether the sink may make socket calls.
    pub fn is_enabled(&self) -> (enabled: bool)
        ensures
            enabled == self@.enabled,
    {
        self.enabled
    }

    /// Whether the sink has a client to write to directly.
    pub fn direct_writable(&self) -> (writable: bool)
        ensures
            writable == may_write_directly(self@),
    {
        self.enabled && self.connected
    }

    /// Whether the listening socket needs to be bound.
    pub fn needs_listener(&self) -> (needed: bool)
        ensures
            needed == may_bind(self@),
    {
        self.enabled && !self.listening
    }

    /// Whether there is a listening socket to accept on.
    pub fn can_accept(&self) -> (can: bool)
        ensures
            can == may_accept(self@),
    {
        self.enabled && self.listening
    }

    /// Number of `accept` failures in a row since the listener was bound or last accepted.
    pub fn accept_failures(&self) -> (count: u32)
        ensures
            count == self@.accept_failures,
    {
        self.accept_failures
    }

    /// Number of messages kept for the next client.
    pub fn backlog_len(&self) -> (len: usize)
        ensures
            len == self@.backlog.len(),
    {
        self.backlog.len()
    }

    /// The `i`-th oldest message kept for the next client.
    pub fn backlog_message(&self, i: usize) -> (message: &String)
        requires
            i < self@.backlog.len(),
        ensures
            message@ == self@.backlog[i as int],
    {
        &self.backlog[i]
    }

    /// Closes the sink's sockets and stops it from making socket calls; the backlog stays.
    pub fn suspend(&mut self)
        requires
            old(self).wf(),
        ensures
            final(self).wf(),
            final(self)@ == suspended(old(self)@),
    {
        self.enabled = false;
        self.connected = false;
        self.listening = false;
    }

    /// Lets the sink use sockets again; a bind failure will be reported anew.
    pub fn resume(&mut self)
        requires
            old(self).wf(),
        ensures
            final(self).wf(),
            final(self)@ == resumed(old(self)@),
    {
        self.enabled = true;
        self.bind_failure_reported = false;
    }

    /// Records what binding the listening socket did. Returns whether the failure is worth
    /// a line in the kernel log: the socket cannot be made non-blocking (the sink then
    /// disables itself, since a blocking accept would hold its lock), or binding failed for
    /// the first time since the last success or resume.
    pub fn on_bind(&mut self, outcome: BindOutcome) -> (report: bool)
        requires
            old(self).wf(),
        ensures
            final(self).wf(),
            report == bind_reported(old(self)@, outcome),
            final(self)@ == bind_step(old(self)@, outcome),
    {
        match outcome {
            BindOutcome::Bound => {
                self.accept_failures = 0;
                self.bind_failure_reported = false;
                self.listening = true;
                false
            },
            BindOutcome::NotNonBlocking => {
                self.enabled = false;
                true
            },
            BindOutcome::Failed => {
                if !self.bind_failure_reported {
                    self.bind_failure_reported = true;
                    true
                } else {
                    false
                }
            },
        }
    }

    /// Records what a non-blocking accept did. Returns whether the listening socket must be
    /// closed: after `ACCEPT_FAILURES_BEFORE_REBIND` failures in a row it is bound again on
    /// the next poll. A client that connected is then handed to `connect`.
    pub fn on_accept(&mut self, outcome: AcceptOutcome) -> (drop_listener: bool)
        requires
            old(self).wf(),
        ensures
            final(self).wf(),
            drop_listener == accept_drops_listener(old(self)@, outcome),
            final(self)@ == accept_step(old(self)@, outcome),
    {
        match outcome {
            AcceptOutcome::Accepted => {
                self.accept_failures = 0;
                false
            },
            AcceptOutcome::WouldBlock => false,
            AcceptOutcome::Failed => {
                self.accept_failures = self.accept_failures + 1;
                if self.accept_failures >= ACCEPT_FAILURES_BEFORE_REBIND {
                    self.listening = false;
                    self.accept_failures = 0;
                    true
                } else {
                    false
                }
            },
        }
    }

    /// Keeps `message` for the next client, dropping the oldest messages until it fits in
    /// the backlog. A message that alone exceeds the limit is not kept.
    pub fn push_backlog(&mut self, message: String)
        requires
            old(self).wf(),
        ensures
            final(self).wf(),
            final(self)@ == offer_step(old(self)@, message@),
    {
        let len = message_len(&message);
        if len > BACKLOG_LIMIT {
            return;
        }
        proof {
            lemma_evicted_fits(self@.backlog, len as nat);
        }
        let ghost original = self@.backlog;
        let ghost target = evicted_count(original, len as nat);
        let ghost mut dropped: int = 0;
        while self.backlog_bytes + len > BACKLOG_LIMIT
            invariant
                self.wf(),
                len == utf8_len(message@),
                len <= BACKLOG_LIMIT,
                0 <= dropped <= target,
                target == evicted_count(original, len as nat),
                target <= original.len(),
                self@.backlog == original.skip(dropped),
                evicted_count(self@.backlog, len as nat) == target - dropped,
                self@.enabled == old(self)@.enabled,
                self@.listening == old(self)@.listening,
                self@.connected == old(self)@.connected,
                self@.accept_failures == old(self)@.accept_failures,
                self@.bind_failure_reported == old(self)@.bind_failure_reported,
            decreases self.backlog@.len(),
        {
            let ghost views = string_views(self.backlog@);
            match self.backlog.pop_front() {
                Some(d) => {
                    assert(views[0] == d@);
                    assert(string_views(self.backlog@) =~= views.drop_first());
                    let dl = message_len(&d);
                    self.backlog_bytes = self.backlog_bytes - dl;
                    proof {
                        assert(original.skip(dropped + 1) == original.skip(dropped).drop_first());
                        dropped = dropped + 1;
                    }
                },
                None => {
                    assert(false);
                },
            }
        }
        proof {
            assert(evicted_count(self@.backlog, len as nat) == 0);
            assert(dropped == target);
            lemma_total_len_push(string_views(self.backlog@), message@);
        }
        self.backlog_bytes = self.backlog_bytes + len;
        let ghost views = string_views(self.backlog@);
        self.backlog.push_back(message);
        assert(string_views(self.backlog@) =~= views.push(message@));
    }

    /// Routes one message: written to the client when there is one (`outcome` tells what the
    /// write did), kept in the backlog otherwise or when the write failed, in which case the
    /// client is gone. Returns whether the caller must close the client's socket.
    pub fn write(&mut self, message: String, outcome: WriteOutcome) -> (client_lost: bool)
        requires
            old(self).wf(),
            (outcome == WriteOutcome::NoClient) == !old(self)@.connected,
        ensures
            final(self).wf(),
            client_lost == (outcome == WriteOutcome::Failed),
            final(self)@ == write_step(old(self)@, message@, outcome),
    {
        match outcome {
            WriteOutcome::Sent => false,
            WriteOutcome::Failed => {
                self.connected = false;
                self.push_backlog(message);
                true
            },
            WriteOutcome::NoClient => {
                self.push_backlog(message);
                false
            },
        }
    }

    /// Handles one message from the log channel: written (or kept) while the sink is enabled,
    /// kept while it is suspended. Returns whether the caller must close the client's socket.
    pub fn deliver(&mut self, message: String, outcome: WriteOutcome) -> (client_lost: bool)
        requires
            old(self).wf(),
            (outcome == WriteOutcome::NoClient) == !may_write_directly(old(self)@),
        ensures
            final(self).wf(),
            client_lost == (outcome == WriteOutcome::Failed),
            final(self)@ == deliver_step(old(self)@, message@, outcome),
    {
        if self.enabled {
            self.write(message, outcome)
        } else {
            self.push_backlog(message);
            false
        }
    }

    /// Writes a message directly to the client on the caller's thread (for crash reports).
    /// Only called when `direct_writable`; `sent` tells whether the write and flush went
    /// through. Returns `sent`; a failed write loses the client.
    pub fn write_direct(&mut self, sent: bool) -> (delivered: bool)
        requires
            old(self).wf(),
            may_write_directly(old(self)@),
        ensures
            final(self).wf(),
            delivered == sent,
            final(self)@ == direct_write_step(old(self)@, sent),
    {
        if sent {
            true
        } else {
            self.connected = false;
            false
        }
    }

    /// A new client connected and the caller replayed the backlog to it, oldest first:
    /// `replayed` messages went through, and `complete` tells whether all of them did. The
    /// replayed messages leave the backlog; if the replay completed, the new client becomes
    /// the current one, otherwise it is dropped and any previous client stays.
    pub fn connect(&mut self, replayed: usize, complete: bool)
        requires
            old(self).wf(),
            replayed <= old(self)@.backlog.len(),
            complete ==> replayed == old(self)@.backlog.len(),
        ensures
            final(self).wf(),
            final(self)@ == connect_step(old(self)@, replayed as int, complete),
    {
        let mut i: usize = 0;
        let ghost original = self@.backlog;
        while i < replayed
            invariant
                self.wf(),
                i <= replayed <= original.len(),
                self@.backlog == original.skip(i as int),
                self@.enabled == old(self)@.enabled,
                self@.listening == old(self)@.listening,
                self@.connected == old(self)@.connected,
                self@.accept_failures == old(self)@.accept_failures,
                self@.bind_failure_reported == old(self)@.bind_failure_reported,
            decreases replayed - i,
        {
            let ghost views = string_views(self.backlog@);
            match self.backlog.pop_front() {
                Some(d) => {
                    assert(views[0] == d@);
                    assert(string_views(self.backlog@) =~= views.drop_first());
                    let dl = message_len(&d);
                    self.backlog_bytes = self.backlog_bytes - dl;
                    assert(original.skip(i + 1) == original.skip(i as int).drop_first());
                },
                None => {
                    assert(false);
                },
            }
            i = i + 1;
        }
        if complete {
            self.connected = true;
        }
    }
}

} // verus!
