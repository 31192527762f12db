use pedicab::data::net::{IpAddress, SocketAddress};
use pedicab::data::rule::{RuleTarget, RuleTargetPolicy};
use pedicab::forward::stats::{ForwarderEvent, TransferCounter};
use pedicab::forward::udp::{
    fragments, send_recovery, session_step, stats_due, Fragment, Ingress, SendRecovery,
    SessionAction, SessionEvent, UdpSessionTable, DATAGRAM_BUFFER_SIZE, FRAGMENT_SIZE,
    LARGE_PAYLOAD, MESSAGE_TOO_LARGE, SESSION_IDLE_MS, SESSION_QUEUE_CAPACITY, SWEEP_INTERVAL_SECS,
    UDP_SOCKET_BUFFER_SIZE,
};

fn endpoint(last: u8, port: u16) -> SocketAddress {
    SocketAddress { ip: IpAddress::V4([10, 0, 0, last]), port }
}

fn target() -> RuleTarget {
    RuleTarget { addrs: vec![endpoint(100, 53), endpoint(101, 53)], policy: RuleTargetPolicy::Fallback }
}

#[test]
fn the_documented_sizes() {
    assert_eq!(UDP_SOCKET_BUFFER_SIZE, 128 * 1024);
    assert_eq!(DATAGRAM_BUFFER_SIZE, 65_535);
    assert_eq!(SESSION_QUEUE_CAPACITY, 100);
    assert_eq!(SWEEP_INTERVAL_SECS, 30);
    assert_eq!(SESSION_IDLE_MS, 60_000);
    assert_eq!(LARGE_PAYLOAD, 16_000);
    assert_eq!(FRAGMENT_SIZE, 8_192);
    assert_eq!(MESSAGE_TOO_LARGE, 40);
}

#[test]
fn the_first_datagram_opens_a_session() {
    let mut table = UdpSessionTable::new();
    let mut counter = TransferCounter::new();
    assert_eq!(table.len(), 0);
    let client = endpoint(1, 4000);
    assert!(!table.contains(&client));
    let first = table.on_datagram(client, 100, 0, &target(), 0, &mut counter);
    assert_eq!(first, Ingress::Open { target: endpoint(100, 53) });
    assert_eq!(table.len(), 1);
    assert!(table.contains(&client));
    let second = table.on_datagram(client, 50, 10, &target(), 0, &mut counter);
    assert_eq!(second, Ingress::Forward);
    assert_eq!(table.len(), 1);
    let other = table.on_datagram(endpoint(1, 4001), 1, 20, &target(), 0, &mut counter);
    assert_eq!(other, Ingress::Open { target: endpoint(100, 53) });
    assert_eq!(table.len(), 2);
    assert_eq!(counter.take(), 151);
}

#[test]
fn sessions_pick_their_target_by_policy() {
    let mut table = UdpSessionTable::new();
    let mut counter = TransferCounter::new();
    let round_robin = RuleTarget {
        addrs: vec![endpoint(100, 53), endpoint(101, 53)],
        policy: RuleTargetPolicy::RoundRobin,
    };
    let first = table.on_datagram(endpoint(1, 1), 1, 0, &round_robin, 6, &mut counter);
    let second = table.on_datagram(endpoint(1, 2), 1, 0, &round_robin, 7, &mut counter);
    assert_eq!(first, Ingress::Open { target: endpoint(100, 53) });
    assert_eq!(second, Ingress::Open { target: endpoint(101, 53) });
}

#[test]
fn udp_idle_eviction() {
    let mut table = UdpSessionTable::new();
    let mut counter = TransferCounter::new();
    table.on_datagram(endpoint(1, 4000), 10, 0, &target(), 0, &mut counter);
    assert_eq!(table.len(), 1);
    assert_eq!(table.evict_idle(30_000), 0);
    assert_eq!(table.len(), 1);
    assert_eq!(table.evict_idle(60_000), 0);
    assert_eq!(table.len(), 1);
    assert_eq!(table.evict_idle(90_000), 1);
    assert_eq!(table.len(), 0);
    assert_eq!(table.evict_idle(120_000), 0);
}

#[test]
fn a_session_is_idle_only_beyond_a_minute() {
    let mut table = UdpSessionTable::new();
    let mut counter = TransferCounter::new();
    table.on_datagram(endpoint(1, 4000), 10, 5, &target(), 0, &mut counter);
    assert_eq!(table.evict_idle(60_004), 0);
    assert_eq!(table.evict_idle(60_005), 0);
    assert!(table.contains(&endpoint(1, 4000)));
    assert_eq!(table.evict_idle(60_006), 1);
    assert!(!table.contains(&endpoint(1, 4000)));
}

#[test]
fn traffic_keeps_a_session_alive() {
    let mut table = UdpSessionTable::new();
    let mut counter = TransferCounter::new();
    let busy = endpoint(1, 1);
    let quiet = endpoint(1, 2);
    let late = endpoint(1, 3);
    table.on_datagram(busy, 1, 0, &target(), 0, &mut counter);
    table.on_datagram(quiet, 1, 0, &target(), 0, &mut counter);
    table.on_datagram(late, 1, 20_000, &target(), 0, &mut counter);
    table.on_datagram(busy, 1, 50_000, &target(), 0, &mut counter);
    assert_eq!(table.evict_idle(60_001), 1);
    assert!(table.contains(&busy));
    assert!(!table.contains(&quiet));
    assert!(table.contains(&late));
    assert_eq!(table.evict_idle(80_001), 1);
    assert!(table.contains(&busy));
    assert!(!table.contains(&late));
    assert_eq!(table.evict_idle(1_000), 0);
    assert_eq!(table.len(), 1);
    assert_eq!(table.evict_idle(110_001), 1);
    assert_eq!(table.len(), 0);
}

#[test]
fn a_session_whose_queue_refuses_is_dropped() {
    let mut table = UdpSessionTable::new();
    let mut counter = TransferCounter::new();
    let a = endpoint(1, 1);
    let b = endpoint(1, 2);
    table.on_datagram(a, 1, 0, &target(), 0, &mut counter);
    table.on_datagram(b, 1, 0, &target(), 0, &mut counter);
    assert!(table.remove(&a));
    assert!(!table.remove(&a));
    assert!(!table.contains(&a));
    assert!(table.contains(&b));
    assert_eq!(table.len(), 1);
    assert_eq!(
        table.on_datagram(a, 1, 5, &target(), 0, &mut counter),
        Ingress::Open { target: endpoint(100, 53) }
    );
}

#[test]
fn udp_fragmentation() {
    assert_eq!(send_recovery(20_000, Some(40)), SendRecovery::Fragment);
    let parts = fragments(20_000);
    assert_eq!(
        parts,
        vec![
            Fragment { start: 0, end: 8_192 },
            Fragment { start: 8_192, end: 16_384 },
            Fragment { start: 16_384, end: 20_000 },
        ]
    );
    let sizes: Vec<usize> = parts.iter().map(|part| part.end - part.start).collect();
    assert_eq!(sizes, vec![8_192, 8_192, 3_616]);
}

#[test]
fn fragments_cover_the_payload() {
    assert_eq!(fragments(0), Vec::<Fragment>::new());
    assert_eq!(fragments(1), vec![Fragment { start: 0, end: 1 }]);
    assert_eq!(fragments(8_192), vec![Fragment { start: 0, end: 8_192 }]);
    assert_eq!(
        fragments(8_193),
        vec![Fragment { start: 0, end: 8_192 }, Fragment { start: 8_192, end: 8_193 }]
    );
    assert_eq!(fragments(16_384).len(), 2);
    let parts = fragments(65_535);
    assert_eq!(parts.len(), 8);
    assert_eq!(parts[7], Fragment { start: 57_344, end: 65_535 });
    let mut next = 0;
    for part in parts {
        assert_eq!(part.start, next);
        assert!(part.end - part.start <= 8_192);
        next = part.end;
    }
    assert_eq!(next, 65_535);
}

#[test]
fn only_large_payloads_refused_as_too_large_are_split() {
    assert_eq!(send_recovery(16_001, Some(40)), SendRecovery::Fragment);
    assert_eq!(send_recovery(16_000, Some(40)), SendRecovery::Terminate);
    assert_eq!(send_recovery(20_000, Some(90)), SendRecovery::Terminate);
    assert_eq!(send_recovery(20_000, None), SendRecovery::Terminate);
    assert_eq!(send_recovery(100, Some(111)), SendRecovery::Terminate);
    assert_eq!(send_recovery(0, None), SendRecovery::Terminate);
}

#[test]
fn a_session_task_follows_its_events() {
    let mut counter = TransferCounter::new();
    assert_eq!(
        session_step(SessionEvent::FromClient { len: 20_000 }, &mut counter),
        SessionAction::SendToTarget
    );
    assert_eq!(
        session_step(SessionEvent::TargetRefused { len: 20_000, os_error: Some(40) }, &mut counter),
        SessionAction::SendFragments
    );
    assert_eq!(
        session_step(SessionEvent::TargetRefused { len: 20_000, os_error: Some(1) }, &mut counter),
        SessionAction::Terminate
    );
    assert_eq!(
        session_step(SessionEvent::TargetRefused { len: 100, os_error: Some(40) }, &mut counter),
        SessionAction::Terminate
    );
    assert_eq!(session_step(SessionEvent::FragmentRefused, &mut counter), SessionAction::Wait);
    assert_eq!(
        session_step(SessionEvent::FromTarget { len: 512 }, &mut counter),
        SessionAction::SendToClient
    );
    assert_eq!(counter.take(), 0);
    assert_eq!(
        session_step(SessionEvent::SentToClient { len: 512, ok: true }, &mut counter),
        SessionAction::Wait
    );
    assert_eq!(counter.take(), 512);
    assert_eq!(
        session_step(SessionEvent::SentToClient { len: 512, ok: false }, &mut counter),
        SessionAction::Terminate
    );
    assert_eq!(counter.take(), 0);
    assert_eq!(session_step(SessionEvent::QueueClosed, &mut counter), SessionAction::Terminate);
}

#[test]
fn a_listener_reports_bytes_and_sessions() {
    let mut table = UdpSessionTable::new();
    let mut counter = TransferCounter::new();
    table.on_datagram(endpoint(1, 1), 100, 0, &target(), 0, &mut counter);
    table.on_datagram(endpoint(1, 2), 50, 0, &target(), 0, &mut counter);
    assert_eq!(
        stats_due(&table, &mut counter, 300),
        ForwarderEvent::UdpTransferred { bytes: 150, elapsed_ms: 300, sessions: 2 }
    );
    assert_eq!(
        stats_due(&table, &mut counter, 300),
        ForwarderEvent::UdpTransferred { bytes: 0, elapsed_ms: 300, sessions: 2 }
    );
}

#[test]
fn a_refused_queue_drops_the_session() {
    let mut table = UdpSessionTable::new();
    let mut counter = TransferCounter::new();
    let a = endpoint(1, 1);
    let b = endpoint(1, 2);
    table.on_datagram(a, 1, 0, &target(), 0, &mut counter);
    table.on_datagram(b, 1, 0, &target(), 0, &mut counter);
    assert!(!table.on_forwarded(&a, true));
    assert_eq!(table.len(), 2);
    assert!(table.on_forwarded(&a, false));
    assert!(!table.contains(&a));
    assert!(table.contains(&b));
    assert!(!table.on_forwarded(&a, false));
    assert!(!table.on_forwarded(&endpoint(9, 9), true));
    assert_eq!(table.len(), 1);
}
