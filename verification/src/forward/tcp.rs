//! The TCP data plane: what a listener admits, how a connection's sockets
//! are set up, and the two relays that move its bytes.
//!
//! Nothing here touches a socket. The caller accepts, connects, reads and
//! writes; after each of these it reports what happened and is told what
//! to do next.

use crate::cli::AgentConfig;
use crate::data::net::SocketAddress;
use crate::forward::stats::{ForwarderEvent, TransferCounter};
use crate::data::rule::{RuleStatsView, RuleTargetView};
use crate::forward::utils::{select_target, spec_draws, spec_target_index};
use crate::model::rule::Rule;
use vstd::prelude::*;

verus! {

/// Time-to-live set on a listener.
pub const LISTENER_TTL: u32 = 255;

/// Seconds of idleness before keepalive probes start, and between probes.
pub const KEEPALIVE_SECS: u64 = 20;

/// Seconds a relay waits for the client to send.
pub const CLIENT_READ_TIMEOUT_SECS: u64 = 60;

/// Seconds a relay waits for the server to send.
pub const SERVER_READ_TIMEOUT_SECS: u64 = 300;

/// Seconds after which a connection's relays are cut off.
pub const CONNECTION_LIFETIME_SECS: u64 = 300;

/// Milliseconds after which written data is flushed at the latest.
pub const FLUSH_INTERVAL_MS: u64 = 50;

/// Whether a limit leaves room for one more when `live` are counted. No
/// limit always does.
pub open spec fn spec_admits(limit: Option<u64>, live: nat) -> bool {
    match limit {
        Some(cap) => live < cap,
        None => true,
    }
}

/// The smaller of the rule's cap and the agent's, where an absent cap is
/// no cap at all.
pub open spec fn spec_effective_limit(rule: Option<u64>, agent: Option<u64>) -> Option<u64> {
    match (rule, agent) {
        (Some(r), Some(a)) => Some(if r <= a { r } else { a }),
        (Some(r), None) => Some(r),
        (None, Some(a)) => Some(a),
        (None, None) => None,
    }
}

/// The cap on a rule's live connections: the smaller of the rule's own
/// and the agent's, reading an absent one as unbounded. It admits a
/// connection exactly when both caps do.
pub fn effective_connection_limit(rule: Option<u64>, agent: Option<u64>) -> (limit: Option<u64>)
    ensures
        limit == spec_effective_limit(rule, agent),
        forall|live: nat| #[trigger]
            spec_admits(limit, live) <==> spec_admits(rule, live) && spec_admits(agent, live),
{
    match (rule, agent) {
        (Some(r), Some(a)) => Some(if r <= a { r } else { a }),
        (Some(r), None) => Some(r),
        (None, Some(a)) => Some(a),
        (None, None) => None,
    }
}

/// The permits of one listener: as many as its cap, one held by each live
/// connection. A listener without a cap has no pool and admits everyone.
#[derive(Copy, Clone, Debug, PartialEq, Eq)]
pub struct ConnectionGate {
    limit: Option<u64>,
    live: u64,
}

pub struct ConnectionGateView {
    pub limit: Option<u64>,
    pub live: nat,
}

impl ConnectionGateView {
    /// The permits once a connection was accepted: one more is out if
    /// there is a pool and it had one free.
    pub open spec fn after_accept(self) -> ConnectionGateView {
        if spec_admits(self.limit, self.live) && self.limit is Some {
            ConnectionGateView { live: self.live + 1, ..self }
        } else {
            self
        }
    }

    /// The permits once a connection ended: its permit is back.
    pub open spec fn after_release(self) -> ConnectionGateView {
        if self.live > 0 {
            ConnectionGateView { live: (self.live - 1) as nat, ..self }
        } else {
            self
        }
    }
}

impl View for ConnectionGate {
    type V = ConnectionGateView;

    closed spec fn view(&self) -> ConnectionGateView {
        ConnectionGateView { limit: self.limit, live: self.live as nat }
    }
}

impl ConnectionGate {
    /// No more permits are out than the cap allows; without a cap none is
    /// counted.
    #[verifier::type_invariant]
    closed spec fn bounded(self) -> bool {
        match self.limit {
            Some(cap) => self.live <= cap,
            None => self.live == 0,
        }
    }

    /// A gate with all permits free, capped by the smaller of the rule's
    /// cap and the agent's.
    pub fn new(rule: Option<u64>, agent: Option<u64>) -> (gate: Self)
        ensures
            gate@.limit == spec_effective_limit(rule, agent),
            gate@.live == 0,
    {
        ConnectionGate { limit: effective_connection_limit(rule, agent), live: 0 }
    }

    pub fn limit(&self) -> (limit: Option<u64>)
        ensures
            limit == self@.limit,
    {
        self.limit
    }

    /// How many permits are out.
    pub fn live(&self) -> (live: u64)
        ensures
            live == self@.live,
            self@.limit matches Some(cap) ==> live <= cap,
    {
        proof {
            use_type_invariant(self);
        }
        self.live
    }

    /// Takes a permit for an accepted connection if one is free, without
    /// waiting. A connection that gets none is dropped by the caller.
    pub fn try_admit(&mut self) -> (admitted: bool)
        ensures
            admitted == spec_admits(old(self)@.limit, old(self)@.live),
            final(self)@.limit == old(self)@.limit,
            final(self)@.live == if admitted && old(self)@.limit is Some {
                old(self)@.live + 1
            } else {
                old(self)@.live
            },
            final(self)@ == old(self)@.after_accept(),
    {
        proof {
            use_type_invariant(&*self);
        }
        match self.limit {
            None => true,
            Some(cap) => {
                if self.live < cap {
                    self.live = self.live + 1;
                    true
                } else {
                    false
                }
            },
        }
    }

    /// Gives back the permit of a connection that ended.
    pub fn release(&mut self)
        ensures
            final(self)@.limit == old(self)@.limit,
            final(self)@.live == if old(self)@.live > 0 {
                (old(self)@.live - 1) as nat
            } else {
                0
            },
            final(self)@ == old(self)@.after_release(),
    {
        proof {
            use_type_invariant(&*self);
        }
        if self.live > 0 {
            self.live = self.live - 1;
        }
    }
}

/// What is set on both sockets of a connection. Each setting is applied
/// on a best-effort basis: a socket that refuses one is used as it is.
#[derive(Copy, Clone, Debug, PartialEq, Eq)]
pub struct TcpSocketOptions {
    pub keepalive_time_secs: u64,
    pub keepalive_interval_secs: u64,
    pub recv_buffer_size: usize,
    pub send_buffer_size: usize,
    pub nodelay: bool,
}

/// Bytes a relay reads at once: the configured buffer size in KiB.
pub fn relay_buffer_size(config: &AgentConfig) -> (size: usize)
    ensures
        size == config.tcp_buffer_size * 1024,
{
    (config.tcp_buffer_size as usize) * 1024
}

/// The socket settings of a connection: keepalive after 20 s and every
/// 20 s, receive and send buffers of four times the relay buffer, and no
/// delaying of small writes.
pub fn tcp_socket_options(config: &AgentConfig) -> (options: TcpSocketOptions)
    ensures
        options == spec_socket_options(*config),
{
    let size = relay_buffer_size(config) * 4;
    TcpSocketOptions {
        keepalive_time_secs: KEEPALIVE_SECS,
        keepalive_interval_secs: KEEPALIVE_SECS,
        recv_buffer_size: size,
        send_buffer_size: size,
        nodelay: true,
    }
}

/// What a connection handler needs before it touches a socket.
#[derive(Copy, Clone, Debug, PartialEq, Eq)]
pub struct ConnectionPlan {
    /// The upstream endpoint to connect to.
    pub target: SocketAddress,
    pub options: TcpSocketOptions,
    /// Bytes each relay reads at once.
    pub buffer_size: usize,
    /// Seconds after which the relays are cut off.
    pub lifetime_secs: u64,
    /// Milliseconds between two updates of the rule's counters.
    pub stats_interval_ms: u64,
}

/// The socket settings of a connection under the agent's settings.
pub open spec fn spec_socket_options(config: AgentConfig) -> TcpSocketOptions {
    TcpSocketOptions {
        keepalive_time_secs: KEEPALIVE_SECS,
        keepalive_interval_secs: KEEPALIVE_SECS,
        recv_buffer_size: (config.tcp_buffer_size * 4096) as usize,
        send_buffer_size: (config.tcp_buffer_size * 4096) as usize,
        nodelay: true,
    }
}

/// Whether `plan` is a plan for a connection of a rule with the given
/// target, made on the given turn of the round-robin counter: its
/// endpoint is the one that the target's policy picks (under `Fallback`
/// the first, under `RoundRobin` the one at the turn modulo the number of
/// endpoints, under the other policies any of the target's), and the
/// rest is what the agent's settings say.
pub open spec fn spec_plans(
    target: RuleTargetView,
    config: AgentConfig,
    turn: usize,
    plan: ConnectionPlan,
) -> bool {
    &&& target.addrs.contains(plan.target)
    &&& !spec_draws(target.policy) ==> plan.target == target.addrs[spec_target_index(
        target,
        turn,
        0,
    )]
    &&& plan.options == spec_socket_options(config)
    &&& plan.buffer_size == config.tcp_buffer_size * 1024
    &&& plan.lifetime_secs == CONNECTION_LIFETIME_SECS
    &&& plan.stats_interval_ms == config.stats_update_interval
}

/// Plans the handling of one accepted connection of `rule`; `turn` is
/// the selection's number on the round-robin counter.
pub fn plan_connection(rule: &Rule, config: &AgentConfig, turn: usize) -> (plan: ConnectionPlan)
    requires
        rule.target.addrs.len() > 0,
    ensures
        spec_plans(rule@.target, *config, turn, plan),
{
    ConnectionPlan {
        target: select_target(&rule.target, turn),
        options: tcp_socket_options(config),
        buffer_size: relay_buffer_size(config),
        lifetime_secs: CONNECTION_LIFETIME_SECS,
        stats_interval_ms: config.stats_update_interval,
    }
}

/// The direction of one of a connection's two relays.
#[derive(Copy, Clone, Debug, PartialEq, Eq, Structural)]
pub enum RelayDirection {
    ClientToServer,
    ServerToClient,
}

/// What a read with a timeout came back with.
#[derive(Copy, Clone, Debug, PartialEq, Eq, Structural)]
pub enum ReadOutcome {
    /// The peer closed its side.
    Eof,
    /// This many bytes now stand at the start of the buffer.
    Data(usize),
    /// The read failed.
    Failed,
    /// Nothing arrived in time.
    TimedOut,
}

/// What the caller of a relay reports.
#[derive(Copy, Clone, Debug, PartialEq, Eq, Structural)]
pub enum RelayEvent {
    /// The read that was asked for has ended.
    Read(ReadOutcome),
    /// The write that was asked for has ended; `true` if all was written.
    Written(bool),
    /// The flush that was asked for has ended; `true` if it succeeded.
    Flushed(bool),
}

/// What a relay asks its caller to do next.
#[derive(Copy, Clone, Debug, PartialEq, Eq, Structural)]
pub enum RelayAction {
    /// Read into the buffer, giving up after so many seconds.
    Read { timeout_secs: u64 },
    /// Write the first `len` bytes of the buffer, all of them.
    Write { len: usize },
    /// Flush the write half.
    Flush,
    /// Shut the write half down; the relay has ended.
    Shutdown,
}

/// Where a relay stands.
#[derive(Copy, Clone, Debug, PartialEq, Eq, Structural)]
pub enum RelayPhase {
    /// A read is under way.
    Reading,
    /// The `len` bytes last read are being written.
    Writing { len: usize },
    /// A flush is under way.
    Flushing,
    /// The relay has ended.
    Closed,
}

/// One direction of a connection.
#[derive(Copy, Clone, Debug, PartialEq, Eq)]
pub struct Relay {
    pub direction: RelayDirection,
    /// Bytes read at once.
    pub buffer_size: usize,
    pub phase: RelayPhase,
    /// When the write half was last flushed (at first: when the relay
    /// started), in milliseconds on the caller's clock.
    pub last_flush_ms: u64,
}

/// Seconds a relay of the given direction waits for its reader.
pub open spec fn spec_read_timeout(direction: RelayDirection) -> u64 {
    match direction {
        RelayDirection::ClientToServer => CLIENT_READ_TIMEOUT_SECS,
        RelayDirection::ServerToClient => SERVER_READ_TIMEOUT_SECS,
    }
}

/// Whether a write of `len` bytes that ended at `now_ms` is followed by a
/// flush: the buffer was full, or the last flush is 50 ms or more ago.
pub open spec fn spec_flush_due(relay: Relay, len: usize, now_ms: u64) -> bool {
    len == relay.buffer_size || now_ms - relay.last_flush_ms >= FLUSH_INTERVAL_MS
}

impl Relay {
    /// The relay after an event that its caller reports at `now_ms`.
    /// An event that does not answer what the relay last asked for ends
    /// it, as a failure does.
    pub open spec fn spec_next(self, event: RelayEvent, now_ms: u64) -> Relay {
        match (self.phase, event) {
            (RelayPhase::Reading, RelayEvent::Read(ReadOutcome::Data(len))) if len > 0 => Relay {
                phase: RelayPhase::Writing { len },
                ..self
            },
            (RelayPhase::Writing { len }, RelayEvent::Written(true)) => if spec_flush_due(
                self,
                len,
                now_ms,
            ) {
                Relay { phase: RelayPhase::Flushing, ..self }
            } else {
                Relay { phase: RelayPhase::Reading, ..self }
            },
            (RelayPhase::Flushing, RelayEvent::Flushed(true)) => Relay {
                phase: RelayPhase::Reading,
                last_flush_ms: now_ms,
                ..self
            },
            _ => Relay { phase: RelayPhase::Closed, ..self },
        }
    }

    /// What the relay asks for in its phase.
    pub open spec fn spec_action(self) -> RelayAction {
        match self.phase {
            RelayPhase::Reading => RelayAction::Read {
                timeout_secs: spec_read_timeout(self.direction),
            },
            RelayPhase::Writing { len } => RelayAction::Write { len },
            RelayPhase::Flushing => RelayAction::Flush,
            RelayPhase::Closed => RelayAction::Shutdown,
        }
    }

    /// The bytes that an event adds to the transfer counter: those of a
    /// chunk whose write has just succeeded.
    pub open spec fn spec_counted(self, event: RelayEvent) -> u64 {
        match (self.phase, event) {
            (RelayPhase::Writing { len }, RelayEvent::Written(true)) => len as u64,
            _ => 0,
        }
    }

    /// A relay that is about to read for the first time.
    pub fn new(direction: RelayDirection, buffer_size: usize, now_ms: u64) -> (relay: Self)
        ensures
            relay == (Relay {
                direction,
                buffer_size,
                phase: RelayPhase::Reading,
                last_flush_ms: now_ms,
            }),
    {
        Relay { direction, buffer_size, phase: RelayPhase::Reading, last_flush_ms: now_ms }
    }

    /// Seconds the relay waits for its reader: 60 for the client, 300 for
    /// the server.
    pub fn read_timeout_secs(&self) -> (secs: u64)
        ensures
            secs == spec_read_timeout(self.direction),
    {
        match self.direction {
            RelayDirection::ClientToServer => CLIENT_READ_TIMEOUT_SECS,
            RelayDirection::ServerToClient => SERVER_READ_TIMEOUT_SECS,
        }
    }

    /// What the relay asks its caller to do now.
    pub fn action(&self) -> (action: RelayAction)
        ensures
            action == self.spec_action(),
    {
        match self.phase {
            RelayPhase::Reading => RelayAction::Read { timeout_secs: self.read_timeout_secs() },
            RelayPhase::Writing { len } => RelayAction::Write { len },
            RelayPhase::Flushing => RelayAction::Flush,
            RelayPhase::Closed => RelayAction::Shutdown,
        }
    }

    /// Takes the caller's report of what happened at `now_ms` and says
    /// what to do next. Bytes read are written once, in the order read;
    /// the end of input, a failed or timed-out read, a failed write and a
    /// failed flush each end the relay, which then asks for the write
    /// half to be shut down. The bytes of each successful write are added
    /// to `counter`.
    pub fn step(&mut self, event: RelayEvent, now_ms: u64, counter: &mut TransferCounter) -> (action:
        RelayAction)
        ensures
            *final(self) == old(self).spec_next(event, now_ms),
            action == final(self).spec_action(),
            final(counter)@ == (old(counter)@ + old(self).spec_counted(event))
                % 0x1_0000_0000_0000_0000,
    {
        let next = match (self.phase, event) {
            (RelayPhase::Reading, RelayEvent::Read(ReadOutcome::Data(len))) => {
                if len > 0 {
                    RelayPhase::Writing { len }
                } else {
                    RelayPhase::Closed
                }
            },
            (RelayPhase::Writing { len }, RelayEvent::Written(true)) => {
                counter.add(len as u64);
                if len == self.buffer_size || (now_ms >= self.last_flush_ms && now_ms
                    - self.last_flush_ms >= FLUSH_INTERVAL_MS) {
                    RelayPhase::Flushing
                } else {
                    RelayPhase::Reading
                }
            },
            (RelayPhase::Flushing, RelayEvent::Flushed(true)) => {
                self.last_flush_ms = now_ms;
                RelayPhase::Reading
            },
            _ => RelayPhase::Closed,
        };
        self.phase = next;
        self.action()
    }
}

/// The relay after a run of events, each with the time it was reported.
pub open spec fn spec_relay_run(relay: Relay, events: Seq<(RelayEvent, u64)>) -> Relay
    decreases events.len(),
{
    if events.len() == 0 {
        relay
    } else {
        spec_relay_run(relay, events.drop_last()).spec_next(events.last().0, events.last().1)
    }
}

/// The lengths of the chunks that reads handed to the relay during a run,
/// in order.
pub open spec fn spec_chunks_read(relay: Relay, events: Seq<(RelayEvent, u64)>) -> Seq<usize>
    decreases events.len(),
{
    if events.len() == 0 {
        Seq::empty()
    } else {
        let before = spec_relay_run(relay, events.drop_last());
        let earlier = spec_chunks_read(relay, events.drop_last());
        match (before.phase, events.last().0) {
            (RelayPhase::Reading, RelayEvent::Read(ReadOutcome::Data(len))) if len > 0 => earlier.push(
                len,
            ),
            _ => earlier,
        }
    }
}

/// The lengths of the writes that the relay asked for during a run, in
/// order.
pub open spec fn spec_writes_asked(relay: Relay, events: Seq<(RelayEvent, u64)>) -> Seq<usize>
    decreases events.len(),
{
    if events.len() == 0 {
        Seq::empty()
    } else {
        let before = spec_relay_run(relay, events.drop_last());
        let after = spec_relay_run(relay, events);
        let earlier = spec_writes_asked(relay, events.drop_last());
        match after.spec_action() {
            RelayAction::Write { len } => earlier.push(len),
            _ => earlier,
        }
    }
}

/// The lengths of the writes that were reported as done during a run, in
/// order.
pub open spec fn spec_writes_done(relay: Relay, events: Seq<(RelayEvent, u64)>) -> Seq<usize>
    decreases events.len(),
{
    if events.len() == 0 {
        Seq::empty()
    } else {
        let before = spec_relay_run(relay, events.drop_last());
        let earlier = spec_writes_done(relay, events.drop_last());
        match (before.phase, events.last().0) {
            (RelayPhase::Writing { len }, RelayEvent::Written(true)) => earlier.push(len),
            _ => earlier,
        }
    }
}

/// Whatever a relay that starts by reading is told, in whatever order:
/// it asks for exactly one write per chunk read, of that chunk and in the
/// order read, so no byte is written twice; and the writes that were done
/// are the chunks read up to some point, so a byte that was not written
/// is followed by none that was.
pub proof fn relay_writes_each_chunk_once(relay: Relay, events: Seq<(RelayEvent, u64)>)
    requires
        relay.phase == RelayPhase::Reading,
    ensures
        spec_writes_asked(relay, events) == spec_chunks_read(relay, events),
        spec_writes_done(relay, events).is_prefix_of(spec_chunks_read(relay, events)),
        spec_chunks_read(relay, events).len() - spec_writes_done(relay, events).len() <= 1,
        spec_relay_run(relay, events).phase matches RelayPhase::Writing { len } ==> {
            &&& spec_chunks_read(relay, events).len() == spec_writes_done(relay, events).len() + 1
            &&& spec_chunks_read(relay, events).last() == len
        },
        spec_relay_run(relay, events).phase is Reading || spec_relay_run(relay, events).phase
            is Flushing ==> spec_chunks_read(relay, events) == spec_writes_done(relay, events),
    decreases events.len(),
{
    if events.len() > 0 {
        relay_writes_each_chunk_once(relay, events.drop_last());
        let before = spec_relay_run(relay, events.drop_last());
        let read = spec_chunks_read(relay, events.drop_last());
        let done = spec_writes_done(relay, events.drop_last());
        match (before.phase, events.last().0) {
            (RelayPhase::Writing { len }, RelayEvent::Written(true)) => {
                assert(done.push(len) =~= read);
            },
            _ => {},
        }
    }
}

/// Decides on a connection that a listener has just accepted: one that
/// gets a permit is planned, one that gets none is to be dropped at
/// once, without reaching a target. `turn` is the selection's number on
/// the round-robin counter.
pub fn accept_connection(
    gate: &mut ConnectionGate,
    rule: &Rule,
    config: &AgentConfig,
    turn: usize,
) -> (plan: Option<ConnectionPlan>)
    requires
        rule.target.addrs.len() > 0,
    ensures
        plan is Some <==> spec_admits(old(gate)@.limit, old(gate)@.live),
        final(gate)@.limit == old(gate)@.limit,
        final(gate)@.live == if plan is Some && old(gate)@.limit is Some {
            old(gate)@.live + 1
        } else {
            old(gate)@.live
        },
        plan matches Some(planned) ==> spec_plans(rule@.target, *config, turn, planned),
        final(gate)@ == old(gate)@.after_accept(),
{
    if gate.try_admit() {
        Some(plan_connection(rule, config, turn))
    } else {
        None
    }
}

/// Where the handler of one connection stands.
#[derive(Copy, Clone, Debug, PartialEq, Eq, Structural)]
pub enum ConnectionPhase {
    /// The connection to the target is being made.
    Connecting,
    /// The two relays run.
    Relaying,
    /// The handler has ended.
    Closed,
}

/// What happened to a connection's handler.
#[derive(Copy, Clone, Debug, PartialEq, Eq, Structural)]
pub enum ConnectionEvent {
    /// The target answered the attempt to connect, or did not.
    Connected(bool),
    /// An update of the counters is due, so many milliseconds after the
    /// last one.
    StatsDue { elapsed_ms: u64 },
    /// Both relays have ended, or the connection's lifetime is over.
    Finished,
}

/// The handler of one accepted connection: its plan, where it stands,
/// and the bytes its relays have moved since the last update.
pub struct TcpConnection {
    pub plan: ConnectionPlan,
    pub phase: ConnectionPhase,
    pub moved: TransferCounter,
}

pub struct TcpConnectionView {
    pub plan: ConnectionPlan,
    pub phase: ConnectionPhase,
    pub moved: u64,
}

impl View for TcpConnection {
    type V = TcpConnectionView;

    open spec fn view(&self) -> TcpConnectionView {
        TcpConnectionView { plan: self.plan, phase: self.phase, moved: self.moved@ }
    }
}

impl TcpConnectionView {
    /// The handler after an event. A handler that has ended stays so.
    pub open spec fn next(self, event: ConnectionEvent) -> TcpConnectionView {
        match (self.phase, event) {
            (ConnectionPhase::Connecting, ConnectionEvent::Connected(true)) => TcpConnectionView {
                phase: ConnectionPhase::Relaying,
                ..self
            },
            (ConnectionPhase::Relaying, ConnectionEvent::StatsDue { elapsed_ms }) => TcpConnectionView {
                moved: 0,
                ..self
            },
            (ConnectionPhase::Closed, _) => self,
            (ConnectionPhase::Connecting, ConnectionEvent::StatsDue { elapsed_ms }) => self,
            _ => TcpConnectionView { phase: ConnectionPhase::Closed, ..self },
        }
    }

    /// What the handler reports to the manager on an event: its traffic
    /// on each update while it relays, and its end exactly once, on
    /// whatever path it ends.
    pub open spec fn report(self, event: ConnectionEvent) -> Option<ForwarderEvent> {
        match (self.phase, event) {
            (ConnectionPhase::Relaying, ConnectionEvent::StatsDue { elapsed_ms }) => Some(
                ForwarderEvent::Transferred { bytes: self.moved, elapsed_ms },
            ),
            (ConnectionPhase::Closed, _) => None,
            (ConnectionPhase::Connecting, ConnectionEvent::Connected(true)) => None,
            (ConnectionPhase::Connecting, ConnectionEvent::StatsDue { elapsed_ms }) => None,
            _ => Some(ForwarderEvent::ConnectionClosed),
        }
    }
}

impl TcpConnection {
    /// The handler of a connection that was admitted with `plan`. It
    /// starts by reporting the connection as opened, and then connects
    /// to the planned target.
    pub fn open(plan: ConnectionPlan) -> (opened: (Self, ForwarderEvent))
        ensures
            opened.0@ == (TcpConnectionView { plan, phase: ConnectionPhase::Connecting, moved: 0 }),
            opened.1 == ForwarderEvent::ConnectionOpened,
    {
        (
            TcpConnection { plan, phase: ConnectionPhase::Connecting, moved: TransferCounter::new() },
            ForwarderEvent::ConnectionOpened,
        )
    }

    /// Takes in what happened and says what to report. A failed attempt
    /// to connect ends the handler; a successful one starts the relays,
    /// with the planned socket settings. While the relays run, each due
    /// update reports the bytes moved since the last one. The end of the
    /// relays, or of the connection's lifetime, ends the handler. The
    /// handler reports its end once, however it ends.
    pub fn step(&mut self, event: ConnectionEvent) -> (report: Option<ForwarderEvent>)
        ensures
            final(self)@ == old(self)@.next(event),
            report == old(self)@.report(event),
    {
        match (self.phase, event) {
            (ConnectionPhase::Connecting, ConnectionEvent::Connected(true)) => {
                self.phase = ConnectionPhase::Relaying;
                None
            },
            (ConnectionPhase::Relaying, ConnectionEvent::StatsDue { elapsed_ms }) => {
                let bytes = self.moved.take();
                Some(ForwarderEvent::Transferred { bytes, elapsed_ms })
            },
            (ConnectionPhase::Closed, _) => None,
            (ConnectionPhase::Connecting, ConnectionEvent::StatsDue { .. }) => None,
            _ => {
                self.phase = ConnectionPhase::Closed;
                Some(ForwarderEvent::ConnectionClosed)
            },
        }
    }

    /// Passes an event of one of the connection's relays on to the
    /// relay, which counts what it wrote into the connection's counter.
    /// A relay of a connection that does not relay is ended.
    pub fn relay(&mut self, relay: &mut Relay, event: RelayEvent, now_ms: u64) -> (action:
        RelayAction)
        ensures
            final(self)@.plan == old(self)@.plan,
            final(self)@.phase == old(self)@.phase,
            old(self)@.phase == ConnectionPhase::Relaying ==> *final(relay) == old(relay).spec_next(
                event,
                now_ms,
            ) && final(self)@.moved == (old(self)@.moved + old(relay).spec_counted(event))
                % 0x1_0000_0000_0000_0000,
            old(self)@.phase != ConnectionPhase::Relaying ==> final(relay).phase
                == RelayPhase::Closed && final(self)@.moved == old(self)@.moved,
            action == final(relay).spec_action(),
    {
        match self.phase {
            ConnectionPhase::Relaying => relay.step(event, now_ms, &mut self.moved),
            _ => {
                relay.phase = RelayPhase::Closed;
                RelayAction::Shutdown
            },
        }
    }
}

/// The handler after a run of events.
pub open spec fn spec_connection_run(
    connection: TcpConnectionView,
    events: Seq<ConnectionEvent>,
) -> TcpConnectionView
    decreases events.len(),
{
    if events.len() == 0 {
        connection
    } else {
        spec_connection_run(connection, events.drop_last()).next(events.last())
    }
}

/// How often the handler reported its end during a run of events.
pub open spec fn spec_ends_reported(connection: TcpConnectionView, events: Seq<ConnectionEvent>) -> nat
    decreases events.len(),
{
    if events.len() == 0 {
        0
    } else {
        let before = spec_connection_run(connection, events.drop_last());
        spec_ends_reported(connection, events.drop_last()) + if before.report(events.last())
            == Some(ForwarderEvent::ConnectionClosed) {
            1nat
        } else {
            0nat
        }
    }
}

/// Whatever happens to a handler that has not ended, and in whatever
/// order: it reports its end once if it has ended and not at all as long
/// as it has not. A connection that was counted as opened is therefore
/// counted as closed exactly once, on every path.
pub proof fn connection_reports_its_end_once(
    connection: TcpConnectionView,
    events: Seq<ConnectionEvent>,
)
    requires
        connection.phase != ConnectionPhase::Closed,
    ensures
        spec_ends_reported(connection, events) == if spec_connection_run(connection, events).phase
            == ConnectionPhase::Closed {
            1nat
        } else {
            0nat
        },
    decreases events.len(),
{
    if events.len() > 0 {
        connection_reports_its_end_once(connection, events.drop_last());
    }
}

/// What happens at a listener, as far as its permits and its rule's
/// live counters go.
pub enum ListenerEvent {
    /// A connection was accepted. If it got a permit, its handler
    /// reported it as opened.
    Accepted,
    /// The handler of a connection that held a permit ended: it reported
    /// the connection as closed and gave the permit back.
    Ended,
    /// The operator reset the rule's live counters.
    Reset,
    /// A handler reported traffic.
    Updated { bytes: u64, elapsed_ms: u64 },
}

/// A listener's gate, and the live counters of its rule.
pub struct ListenerView {
    pub gate: ConnectionGateView,
    pub counters: RuleStatsView,
}

impl ListenerView {
    /// The listener after an event.
    pub open spec fn next(self, event: ListenerEvent) -> ListenerView {
        match event {
            ListenerEvent::Accepted => if spec_admits(self.gate.limit, self.gate.live) {
                ListenerView {
                    gate: self.gate.after_accept(),
                    counters: self.counters.after_connection_opened(),
                }
            } else {
                self
            },
            ListenerEvent::Ended => if self.gate.live > 0 {
                ListenerView {
                    gate: self.gate.after_release(),
                    counters: self.counters.after_connection_closed(),
                }
            } else {
                self
            },
            ListenerEvent::Reset => ListenerView { counters: RuleStatsView::zero(), ..self },
            ListenerEvent::Updated { bytes, elapsed_ms } => ListenerView {
                counters: self.counters.after_transfer(bytes, elapsed_ms),
                ..self
            },
        }
    }

    /// The listener after a run of events.
    pub open spec fn run(self, events: Seq<ListenerEvent>) -> ListenerView
        decreases events.len(),
    {
        if events.len() == 0 {
            self
        } else {
            self.run(events.drop_last()).next(events.last())
        }
    }
}

/// Whatever happens at a capped listener, and in whatever order: the
/// rule's count of live TCP connections never exceeds the permits that
/// are out, and these never exceed the cap. With a cap of two, the count
/// is never three.
pub proof fn live_count_stays_within_the_cap(listener: ListenerView, events: Seq<ListenerEvent>)
    requires
        listener.gate.limit is Some,
        listener.counters.connections.tcp <= listener.gate.live <= listener.gate.limit->0,
    ensures
        listener.run(events).gate.limit == listener.gate.limit,
        listener.run(events).counters.connections.tcp <= listener.run(events).gate.live
            <= listener.gate.limit->0,
    decreases events.len(),
{
    if events.len() > 0 {
        live_count_stays_within_the_cap(listener, events.drop_last());
    }
}

} // verus!
