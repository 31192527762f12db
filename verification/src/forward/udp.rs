//! The UDP data plane: the sessions that a listener keeps per client, and
//! what a session does with a datagram that the kernel found too large.
//!
//! UDP has no connections, so a forwarder makes up one session for each
//! source endpoint it hears from. The caller owns the sockets and the
//! queues; the table here says which datagram opens a session, which one
//! belongs to a session that exists, and which sessions have gone idle.

use crate::data::net::SocketAddress;
use crate::data::rule::RuleTarget;
use crate::forward::stats::{ForwarderEvent, TransferCounter};
use crate::forward::utils::{select_target, spec_draws, spec_target_index};
use vstd::prelude::*;

verus! {

/// Bytes of the send and of the receive buffer asked for on a UDP socket.
pub const UDP_SOCKET_BUFFER_SIZE: usize = 131_072;

/// Bytes read from a UDP socket at once.
pub const DATAGRAM_BUFFER_SIZE: usize = 65_535;

/// Datagrams that may wait in a session's queue.
pub const SESSION_QUEUE_CAPACITY: usize = 100;

/// Seconds between two sweeps for idle sessions.
pub const SWEEP_INTERVAL_SECS: u64 = 30;

/// Milliseconds without traffic beyond which a session is idle.
pub const SESSION_IDLE_MS: u64 = 60_000;

/// A payload of more bytes than this is split when the kernel refuses it
/// as too large.
pub const LARGE_PAYLOAD: usize = 16_000;

/// Bytes of one fragment of a split payload.
pub const FRAGMENT_SIZE: usize = 8_192;

/// The system's error number for a message that is too large.
pub const MESSAGE_TOO_LARGE: i32 = 40;

/// One client's session: who it is and when it was last heard from, in
/// milliseconds on the caller's clock.
#[derive(Copy, Clone, Debug, PartialEq, Eq)]
pub struct UdpSession {
    pub client: SocketAddress,
    pub last_active_ms: u64,
}

/// Whether some session of the list belongs to `client`.
pub open spec fn spec_has_session(sessions: Seq<UdpSession>, client: SocketAddress) -> bool {
    exists|i: int| 0 <= i < sessions.len() && (#[trigger] sessions[i]).client == client
}

/// Whether no two sessions of the list belong to the same client.
pub open spec fn spec_one_session_each(sessions: Seq<UdpSession>) -> bool {
    forall|i: int, j: int|
        0 <= i < j < sessions.len() ==> (#[trigger] sessions[i]).client != (
        #[trigger] sessions[j]).client
}

/// Whether a session was heard from no more than a minute before
/// `now_ms`.
pub open spec fn spec_is_active(session: UdpSession, now_ms: u64) -> bool {
    now_ms - session.last_active_ms <= SESSION_IDLE_MS
}

/// The test that a sweep at `now_ms` applies to each session.
pub open spec fn spec_active_at(now_ms: u64) -> spec_fn(UdpSession) -> bool {
    |session: UdpSession| spec_is_active(session, now_ms)
}

/// What a listener does with a datagram.
#[derive(Copy, Clone, Debug, PartialEq, Eq)]
pub enum Ingress {
    /// Put it into the queue of the client's session.
    Forward,
    /// Open a session to `target` for the client, send the datagram there
    /// at once, and start the session's task.
    Open { target: SocketAddress },
}

/// The sessions of one UDP listener, in the order they were opened.
pub struct UdpSessionTable {
    sessions: Vec<UdpSession>,
}

impl View for UdpSessionTable {
    type V = Seq<UdpSession>;

    closed spec fn view(&self) -> Seq<UdpSession> {
        self.sessions@
    }
}

impl UdpSessionTable {
    #[verifier::type_invariant]
    closed spec fn one_session_each(self) -> bool {
        spec_one_session_each(self.sessions@)
    }

    pub fn new() -> (table: Self)
        ensures
            table@ == Seq::<UdpSession>::empty(),
    {
        UdpSessionTable { sessions: Vec::new() }
    }

    /// Takes the sessions out, leaving the table empty.
    fn take(&mut self) -> (sessions: Vec<UdpSession>)
        ensures
            sessions@ == old(self)@,
            spec_one_session_each(sessions@),
            final(self)@ == Seq::<UdpSession>::empty(),
    {
        proof {
            use_type_invariant(&*self);
        }
        let mut table = UdpSessionTable::new();
        core::mem::swap(self, &mut table);
        table.sessions
    }

    /// The number of sessions, which a rule's counters report as its live
    /// UDP connections.
    pub fn len(&self) -> (count: usize)
        ensures
            count == self@.len(),
            spec_one_session_each(self@),
    {
        proof {
            use_type_invariant(self);
        }
        self.sessions.len()
    }

    /// The position of the client's session, if it has one.
    fn position(&self, client: &SocketAddress) -> (found: Option<usize>)
        ensures
            match found {
                Some(i) => i < self@.len() && self@[i as int].client == *client,
                None => !spec_has_session(self@, *client),
            },
    {
        let mut i: usize = 0;
        while i < self.sessions.len()
            invariant
                i <= self.sessions.len(),
                forall|k: int| 0 <= k < i ==> (#[trigger] self.sessions@[k]).client != *client,
            decreases self.sessions.len() - i,
        {
            if self.sessions[i].client.same(client) {
                return Some(i);
            }
            i += 1;
        }
        None
    }

    /// Whether the client has a session.
    pub fn contains(&self, client: &SocketAddress) -> (found: bool)
        ensures
            found == spec_has_session(self@, *client),
    {
        self.position(client).is_some()
    }

    /// Takes in a datagram of `size` bytes that arrived from `client` at
    /// `now_ms`. Its bytes are counted. A client that has a session keeps
    /// it, now last heard from at `now_ms`, and the datagram is forwarded
    /// to that session. For any other client a session is entered at the
    /// end of the table, to the endpoint that the policy of `target`
    /// picks (`turn` is the selection's number on the round-robin
    /// counter).
    pub fn on_datagram(
        &mut self,
        client: SocketAddress,
        size: usize,
        now_ms: u64,
        target: &RuleTarget,
        turn: usize,
        counter: &mut TransferCounter,
    ) -> (ingress: Ingress)
        requires
            target.addrs.len() > 0,
        ensures
            final(counter)@ == (old(counter)@ + size) % 0x1_0000_0000_0000_0000,
            spec_one_session_each(final(self)@),
            ingress is Forward <==> spec_has_session(old(self)@, client),
            ingress is Forward ==> exists|i: int|
                0 <= i < old(self)@.len() && (#[trigger] old(self)@[i]).client == client
                    && final(self)@ == old(self)@.update(
                    i,
                    UdpSession { client, last_active_ms: now_ms },
                ),
            ingress matches Ingress::Open { target: endpoint } ==> {
                &&& final(self)@ == old(self)@.push(UdpSession { client, last_active_ms: now_ms })
                &&& target@.addrs.contains(endpoint)
                &&& !spec_draws(target.policy) ==> endpoint == target@.addrs[spec_target_index(
                    target@,
                    turn,
                    0,
                )]
            },
    {
        proof {
            use_type_invariant(&*self);
        }
        counter.add(size as u64);
        let session = UdpSession { client, last_active_ms: now_ms };
        let found = self.position(&client);
        let mut sessions = self.take();
        let ingress = match found {
            Some(i) => {
                sessions.set(i, session);
                Ingress::Forward
            },
            None => {
                sessions.push(session);
                Ingress::Open { target: select_target(target, turn) }
            },
        };
        self.sessions = sessions;
        ingress
    }

    /// Drops the client's session, as after its queue refused a datagram.
    /// Returns whether there was one.
    pub fn remove(&mut self, client: &SocketAddress) -> (removed: bool)
        ensures
            removed == spec_has_session(old(self)@, *client),
            !spec_has_session(final(self)@, *client),
            spec_one_session_each(final(self)@),
            !removed ==> final(self)@ == old(self)@,
            removed ==> exists|i: int|
                0 <= i < old(self)@.len() && (#[trigger] old(self)@[i]).client == *client
                    && final(self)@ == old(self)@.remove(i),
    {
        proof {
            use_type_invariant(&*self);
        }
        match self.position(client) {
            Some(i) => {
                let mut sessions = self.take();
                sessions.remove(i);
                assert forall|k: int| 0 <= k < sessions@.len() implies (
                #[trigger] sessions@[k]).client != *client by {
                    if k < i {
                        assert(sessions@[k] == old(self)@[k]);
                    } else {
                        assert(sessions@[k] == old(self)@[k + 1]);
                    }
                }
                self.sessions = sessions;
                true
            },
            None => false,
        }
    }

    /// Takes in whether the queue of the client's session took the
    /// datagram that was forwarded to it. A session whose queue took it
    /// stays as it is; one whose queue refused it, being full or closed,
    /// is dropped. Returns whether a session was dropped.
    pub fn on_forwarded(&mut self, client: &SocketAddress, delivered: bool) -> (dropped: bool)
        ensures
            dropped == (!delivered && spec_has_session(old(self)@, *client)),
            delivered ==> final(self)@ == old(self)@,
            !delivered ==> !spec_has_session(final(self)@, *client),
            spec_one_session_each(final(self)@),
            !dropped ==> final(self)@ == old(self)@,
            dropped ==> exists|i: int|
                0 <= i < old(self)@.len() && (#[trigger] old(self)@[i]).client == *client
                    && final(self)@ == old(self)@.remove(i),
    {
        if delivered {
            proof {
                use_type_invariant(&*self);
            }
            false
        } else {
            self.remove(client)
        }
    }

    /// Drops the sessions that were last heard from more than a minute
    /// before `now_ms`; the others stay, in their order and as they are.
    /// Returns how many were dropped.
    pub fn evict_idle(&mut self, now_ms: u64) -> (dropped: usize)
        ensures
            final(self)@ == old(self)@.filter(spec_active_at(now_ms)),
            spec_one_session_each(final(self)@),
            dropped == old(self)@.len() - final(self)@.len(),
            forall|i: int|
                0 <= i < final(self)@.len() ==> spec_is_active(#[trigger] final(self)@[i], now_ms),
            forall|client: SocketAddress| #[trigger]
                spec_has_session(final(self)@, client) ==> spec_has_session(old(self)@, client),
    {
        proof {
            use_type_invariant(&*self);
        }
        let ghost before = self.sessions@;
        let mut kept: Vec<UdpSession> = Vec::new();
        let ghost mut origin: Seq<int> = Seq::empty();
        let mut i: usize = 0;
        while i < self.sessions.len()
            invariant
                self.sessions@ == before,
                spec_one_session_each(before),
                i <= before.len(),
                kept@ == before.take(i as int).filter(spec_active_at(now_ms)),
                kept@.len() == origin.len(),
                kept@.len() <= i,
                forall|k: int|
                    0 <= k < origin.len() ==> 0 <= (#[trigger] origin[k]) < i && kept@[k]
                        == before[origin[k]],
                forall|k: int, l: int|
                    0 <= k < l < origin.len() ==> (#[trigger] origin[k]) < (#[trigger] origin[l]),
            decreases before.len() - i,
        {
            let session = self.sessions[i];
            proof {
                assert(before.take(i + 1) =~= before.take(i as int).push(session));
                before.take(i as int).lemma_filter_push(session, spec_active_at(now_ms));
            }
            if now_ms < session.last_active_ms || now_ms - session.last_active_ms
                <= SESSION_IDLE_MS {
                kept.push(session);
                proof {
                    origin = origin.push(i as int);
                }
            }
            i += 1;
        }
        proof {
            assert(before.take(i as int) =~= before);
            assert forall|k: int, l: int| 0 <= k < l < kept@.len() implies (
            #[trigger] kept@[k]).client != (#[trigger] kept@[l]).client by {
                assert(origin[k] < origin[l]);
                assert(before[origin[k]].client != before[origin[l]].client);
            }
        }
        proof {
            assert forall|k: int| 0 <= k < kept@.len() implies spec_is_active(
                #[trigger] kept@[k],
                now_ms,
            ) by {
                before.lemma_filter_pred(spec_active_at(now_ms), k);
            }
            assert forall|client: SocketAddress| #[trigger]
                spec_has_session(kept@, client) implies spec_has_session(before, client) by {
                let k = choose|k: int| 0 <= k < kept@.len() && (#[trigger] kept@[k]).client == client;
                assert(before[origin[k]].client == client);
            }
        }
        let dropped = self.sessions.len() - kept.len();
        self.sessions = kept;
        dropped
    }
}

/// What a session does after a datagram could not be sent to its target.
#[derive(Copy, Clone, Debug, PartialEq, Eq, Structural)]
pub enum SendRecovery {
    /// Send the payload again in fragments.
    Fragment,
    /// End the session.
    Terminate,
}

/// A payload is split exactly when it has more than 16,000 bytes and the
/// system refused it as too large. Any other failure ends the session.
pub fn send_recovery(payload_len: usize, os_error: Option<i32>) -> (recovery: SendRecovery)
    ensures
        recovery == if payload_len > LARGE_PAYLOAD && os_error == Some(MESSAGE_TOO_LARGE) {
            SendRecovery::Fragment
        } else {
            SendRecovery::Terminate
        },
{
    match os_error {
        Some(code) => {
            if payload_len > LARGE_PAYLOAD && code == MESSAGE_TOO_LARGE {
                SendRecovery::Fragment
            } else {
                SendRecovery::Terminate
            }
        },
        None => SendRecovery::Terminate,
    }
}

/// The part of a payload that one fragment carries: the bytes from
/// `start` up to, not including, `end`.
#[derive(Copy, Clone, Debug, PartialEq, Eq)]
pub struct Fragment {
    pub start: usize,
    pub end: usize,
}

/// The number of fragments of a payload of `len` bytes.
pub open spec fn spec_fragment_count(len: nat) -> nat {
    ((len + FRAGMENT_SIZE - 1) / FRAGMENT_SIZE as int) as nat
}

/// The `i`-th fragment of a payload of `len` bytes.
pub open spec fn spec_fragment(len: nat, i: int) -> Fragment {
    Fragment {
        start: (i * FRAGMENT_SIZE) as usize,
        end: if (i + 1) * FRAGMENT_SIZE <= len {
            ((i + 1) * FRAGMENT_SIZE) as usize
        } else {
            len as usize
        },
    }
}

/// The fragments of a payload of `len` bytes, in the order in which they
/// are sent: each of 8,192 bytes but the last, which takes what is left.
/// They are sent one after the other, and the first that fails ends the
/// sending of the rest.
pub fn fragments(len: usize) -> (parts: Vec<Fragment>)
    ensures
        parts@.len() == spec_fragment_count(len as nat),
        forall|i: int| 0 <= i < parts@.len() ==> #[trigger] parts@[i] == spec_fragment(len as nat, i),
        forall|i: int|
            0 <= i < parts@.len() ==> (#[trigger] parts@[i]).start < parts@[i].end <= len
                && parts@[i].end - parts@[i].start <= FRAGMENT_SIZE,
        forall|i: int| 0 <= i < parts@.len() - 1 ==> (#[trigger] parts@[i]).end == parts@[i + 1].start,
        len > 0 ==> parts@[0].start == 0 && parts@.last().end == len,
{
    let mut parts: Vec<Fragment> = Vec::new();
    let mut offset: usize = 0;
    while offset < len
        invariant
            offset <= len,
            offset == parts@.len() * FRAGMENT_SIZE || offset == len,
            offset == len ==> parts@.len() == spec_fragment_count(len as nat),
            offset < len ==> parts@.len() < spec_fragment_count(len as nat),
            forall|i: int|
                0 <= i < parts@.len() ==> #[trigger] parts@[i] == spec_fragment(len as nat, i),
        decreases len - offset,
    {
        let end = if len - offset > FRAGMENT_SIZE {
            offset + FRAGMENT_SIZE
        } else {
            len
        };
        parts.push(Fragment { start: offset, end });
        offset = end;
    }
    parts
}

/// What happened in the task of one session.
#[derive(Copy, Clone, Debug, PartialEq, Eq, Structural)]
pub enum SessionEvent {
    /// A datagram of the client came out of the session's queue.
    FromClient { len: usize },
    /// The datagram could not be sent to the target; the system gave
    /// this error number, if any.
    TargetRefused { len: usize, os_error: Option<i32> },
    /// A fragment could not be sent to the target.
    FragmentRefused,
    /// A datagram of the target arrived.
    FromTarget { len: usize },
    /// The target's datagram was sent to the client, or could not be.
    SentToClient { len: usize, ok: bool },
    /// The session's queue, or the queue of the target's datagrams, was
    /// closed.
    QueueClosed,
}

/// What the task of a session does next.
#[derive(Copy, Clone, Debug, PartialEq, Eq, Structural)]
pub enum SessionAction {
    /// Send the datagram to the target as a whole.
    SendToTarget,
    /// Send the datagram to the target in fragments, one after the other.
    SendFragments,
    /// Send the datagram to the client, from the listener's socket.
    SendToClient,
    /// Wait for the next datagram.
    Wait,
    /// End the session and abort the reader of the target's socket.
    Terminate,
}

/// What the task of a session does after an event.
pub open spec fn spec_session_step(event: SessionEvent) -> SessionAction {
    match event {
        SessionEvent::FromClient { len } => SessionAction::SendToTarget,
        SessionEvent::TargetRefused { len, os_error } => if len > LARGE_PAYLOAD && os_error == Some(
            MESSAGE_TOO_LARGE,
        ) {
            SessionAction::SendFragments
        } else {
            SessionAction::Terminate
        },
        SessionEvent::FragmentRefused => SessionAction::Wait,
        SessionEvent::FromTarget { len } => SessionAction::SendToClient,
        SessionEvent::SentToClient { len, ok } => if ok {
            SessionAction::Wait
        } else {
            SessionAction::Terminate
        },
        SessionEvent::QueueClosed => SessionAction::Terminate,
    }
}

/// The bytes that an event of a session adds to the listener's transfer
/// counter: those of a target's datagram that reached the client.
pub open spec fn spec_session_counted(event: SessionEvent) -> u64 {
    match event {
        SessionEvent::SentToClient { len, ok } => if ok {
            len as u64
        } else {
            0
        },
        _ => 0,
    }
}

/// Decides what the task of a session does after an event. A client's
/// datagram goes to the target as a whole; if the target's socket
/// refuses it, it is sent again in fragments where [`send_recovery`]
/// says so, and the session ends otherwise. A fragment that is refused
/// ends the sending of the fragments, not the session. A target's
/// datagram goes back to the client and is counted once it is sent; if
/// it cannot be sent, the session ends.
pub fn session_step(event: SessionEvent, counter: &mut TransferCounter) -> (action: SessionAction)
    ensures
        action == spec_session_step(event),
        final(counter)@ == (old(counter)@ + spec_session_counted(event)) % 0x1_0000_0000_0000_0000,
{
    match event {
        SessionEvent::FromClient { .. } => SessionAction::SendToTarget,
        SessionEvent::TargetRefused { len, os_error } => match send_recovery(len, os_error) {
            SendRecovery::Fragment => SessionAction::SendFragments,
            SendRecovery::Terminate => SessionAction::Terminate,
        },
        SessionEvent::FragmentRefused => SessionAction::Wait,
        SessionEvent::FromTarget { .. } => SessionAction::SendToClient,
        SessionEvent::SentToClient { len, ok } => {
            if ok {
                counter.add(len as u64);
                SessionAction::Wait
            } else {
                SessionAction::Terminate
            }
        },
        SessionEvent::QueueClosed => SessionAction::Terminate,
    }
}

/// What a UDP listener reports to the manager when an update of its
/// rule's counters is due, so many milliseconds after the last one: the
/// bytes counted since then, and the number of sessions it holds.
pub fn stats_due(table: &UdpSessionTable, counter: &mut TransferCounter, elapsed_ms: u64) -> (event:
    ForwarderEvent)
    ensures
        event == (ForwarderEvent::UdpTransferred {
            bytes: old(counter)@,
            elapsed_ms,
            sessions: table@.len() as u64,
        }),
        final(counter)@ == 0,
{
    let bytes = counter.take();
    ForwarderEvent::UdpTransferred { bytes, elapsed_ms, sessions: table.len() as u64 }
}

} // verus!
