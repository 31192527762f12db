use pedicab::cli::AgentConfig;
use pedicab::data::generic::CompactUuid;
use pedicab::data::net::{IpAddress, SocketAddress};
use pedicab::data::rule::{
    RuleConfig, RuleProtocol, RuleStats, RuleStatus, RuleTarget, RuleTargetPolicy,
};
use pedicab::forward::stats::{ForwarderEvent, TransferCounter};
use pedicab::forward::tcp::{
    accept_connection, effective_connection_limit, plan_connection, relay_buffer_size,
    tcp_socket_options, ConnectionEvent, ConnectionGate, ConnectionPhase, ReadOutcome, Relay,
    RelayAction, RelayDirection, RelayEvent, RelayPhase, TcpConnection, TcpSocketOptions,
    CLIENT_READ_TIMEOUT_SECS, CONNECTION_LIFETIME_SECS, FLUSH_INTERVAL_MS, KEEPALIVE_SECS,
    LISTENER_TTL, SERVER_READ_TIMEOUT_SECS,
};
use pedicab::model::rule::Rule;

fn endpoint(port: u16) -> SocketAddress {
    SocketAddress { ip: IpAddress::V4([127, 0, 0, 1]), port }
}

fn config(kib: u8) -> AgentConfig {
    AgentConfig {
        expanded_nofile_limit: false,
        stats_update_interval: 300,
        connections_limit: None,
        tcp_buffer_size: kib,
    }
}

#[test]
fn the_effective_cap_is_the_minimum_where_absent_means_unbounded() {
    assert_eq!(effective_connection_limit(Some(2), Some(5)), Some(2));
    assert_eq!(effective_connection_limit(Some(5), Some(2)), Some(2));
    assert_eq!(effective_connection_limit(Some(3), Some(3)), Some(3));
    assert_eq!(effective_connection_limit(Some(4), None), Some(4));
    assert_eq!(effective_connection_limit(None, Some(6)), Some(6));
    assert_eq!(effective_connection_limit(None, None), None);
    assert_eq!(effective_connection_limit(Some(0), None), Some(0));
}

#[test]
fn connection_cap() {
    let mut gate = ConnectionGate::new(Some(2), None);
    let mut stats = RuleStats::default();
    let mut seen = Vec::new();
    for _ in 0..3 {
        if gate.try_admit() {
            stats = stats.after_connection_opened();
            seen.push(stats.connections.tcp);
        }
    }
    assert_eq!(seen, vec![1, 2]);
    assert_eq!(gate.live(), 2);
    assert!(!gate.try_admit());
    assert_eq!(gate.live(), 2);
    gate.release();
    stats = stats.after_connection_closed();
    assert_eq!(stats.connections.tcp, 1);
    assert!(gate.try_admit());
    assert!(!gate.try_admit());
    assert_eq!(gate.limit(), Some(2));
}

#[test]
fn a_gate_without_a_cap_admits_everyone() {
    let mut gate = ConnectionGate::new(None, None);
    for _ in 0..1000 {
        assert!(gate.try_admit());
    }
    assert_eq!(gate.live(), 0);
    gate.release();
    assert_eq!(gate.live(), 0);
    assert_eq!(gate.limit(), None);
}

#[test]
fn a_gate_with_no_permits_admits_no_one() {
    let mut gate = ConnectionGate::new(Some(0), Some(9));
    assert!(!gate.try_admit());
    gate.release();
    assert!(!gate.try_admit());
    assert_eq!(gate.live(), 0);
}

#[test]
fn the_agent_cap_bounds_the_gate() {
    let mut gate = ConnectionGate::new(Some(10), Some(1));
    assert_eq!(gate.limit(), Some(1));
    assert!(gate.try_admit());
    assert!(!gate.try_admit());
}

#[test]
fn socket_settings_follow_the_buffer_size() {
    assert_eq!(relay_buffer_size(&config(8)), 8192);
    assert_eq!(relay_buffer_size(&config(2)), 2048);
    assert_eq!(relay_buffer_size(&config(255)), 261_120);
    assert_eq!(
        tcp_socket_options(&config(8)),
        TcpSocketOptions {
            keepalive_time_secs: 20,
            keepalive_interval_secs: 20,
            recv_buffer_size: 32_768,
            send_buffer_size: 32_768,
            nodelay: true,
        }
    );
    assert_eq!(tcp_socket_options(&config(255)).recv_buffer_size, 1_044_480);
    assert_eq!(KEEPALIVE_SECS, 20);
    assert_eq!(LISTENER_TTL, 255);
}

#[test]
fn a_connection_is_planned_from_rule_and_settings() {
    let rule = Rule {
        id: CompactUuid([1; 16]),
        name: String::new(),
        listen: endpoint(19000),
        target: RuleTarget {
            addrs: vec![endpoint(19001), endpoint(19002), endpoint(19003)],
            policy: RuleTargetPolicy::RoundRobin,
        },
        protocol: RuleProtocol::Tcp,
        config: RuleConfig { bandwidth: None, connections: None },
        enabled: true,
        status: RuleStatus::Running,
        stats: RuleStats::default(),
        remarks: String::new(),
    };
    let plan = plan_connection(&rule, &config(8), 4);
    assert_eq!(plan.target, endpoint(19002));
    assert_eq!(plan.buffer_size, 8192);
    assert_eq!(plan.lifetime_secs, 300);
    assert_eq!(plan.stats_interval_ms, 300);
    assert_eq!(plan.options, tcp_socket_options(&config(8)));
    assert_eq!(CONNECTION_LIFETIME_SECS, 300);
}

#[test]
fn relays_wait_longer_for_the_server() {
    let up = Relay::new(RelayDirection::ClientToServer, 8192, 0);
    let down = Relay::new(RelayDirection::ServerToClient, 8192, 0);
    assert_eq!(up.read_timeout_secs(), 60);
    assert_eq!(down.read_timeout_secs(), 300);
    assert_eq!(up.action(), RelayAction::Read { timeout_secs: CLIENT_READ_TIMEOUT_SECS });
    assert_eq!(down.action(), RelayAction::Read { timeout_secs: SERVER_READ_TIMEOUT_SECS });
    assert_eq!(up.phase, RelayPhase::Reading);
}

#[test]
fn a_relay_writes_what_it_read_once() {
    let mut counter = TransferCounter::new();
    let mut relay = Relay::new(RelayDirection::ClientToServer, 8192, 1000);
    let action = relay.step(RelayEvent::Read(ReadOutcome::Data(100)), 1001, &mut counter);
    assert_eq!(action, RelayAction::Write { len: 100 });
    assert_eq!(counter.take(), 0);
    let action = relay.step(RelayEvent::Written(true), 1002, &mut counter);
    assert_eq!(action, RelayAction::Read { timeout_secs: 60 });
    assert_eq!(counter.take(), 100);
    let action = relay.step(RelayEvent::Read(ReadOutcome::Data(7)), 1003, &mut counter);
    assert_eq!(action, RelayAction::Write { len: 7 });
    let action = relay.step(RelayEvent::Written(true), 1004, &mut counter);
    assert_eq!(action, RelayAction::Read { timeout_secs: 60 });
    assert_eq!(counter.take(), 7);
}

#[test]
fn a_relay_flushes_a_full_buffer_and_after_fifty_milliseconds() {
    let mut counter = TransferCounter::new();
    let mut relay = Relay::new(RelayDirection::ServerToClient, 4096, 1000);
    relay.step(RelayEvent::Read(ReadOutcome::Data(4096)), 1001, &mut counter);
    assert_eq!(relay.step(RelayEvent::Written(true), 1002, &mut counter), RelayAction::Flush);
    assert_eq!(
        relay.step(RelayEvent::Flushed(true), 1003, &mut counter),
        RelayAction::Read { timeout_secs: 300 }
    );
    assert_eq!(relay.last_flush_ms, 1003);

    relay.step(RelayEvent::Read(ReadOutcome::Data(10)), 1040, &mut counter);
    assert_eq!(
        relay.step(RelayEvent::Written(true), 1003 + FLUSH_INTERVAL_MS - 1, &mut counter),
        RelayAction::Read { timeout_secs: 300 }
    );
    assert_eq!(relay.last_flush_ms, 1003);
    relay.step(RelayEvent::Read(ReadOutcome::Data(10)), 1052, &mut counter);
    assert_eq!(
        relay.step(RelayEvent::Written(true), 1003 + FLUSH_INTERVAL_MS, &mut counter),
        RelayAction::Flush
    );
    relay.step(RelayEvent::Flushed(true), 1060, &mut counter);
    assert_eq!(relay.last_flush_ms, 1060);

    relay.step(RelayEvent::Read(ReadOutcome::Data(10)), 1061, &mut counter);
    assert_eq!(
        relay.step(RelayEvent::Written(true), 5, &mut counter),
        RelayAction::Read { timeout_secs: 300 }
    );
    assert_eq!(counter.take(), 4096 + 30);
}

#[test]
fn a_relay_ends_on_every_failure() {
    let endings = [
        vec![RelayEvent::Read(ReadOutcome::Eof)],
        vec![RelayEvent::Read(ReadOutcome::Data(0))],
        vec![RelayEvent::Read(ReadOutcome::Failed)],
        vec![RelayEvent::Read(ReadOutcome::TimedOut)],
        vec![RelayEvent::Read(ReadOutcome::Data(5)), RelayEvent::Written(false)],
        vec![
            RelayEvent::Read(ReadOutcome::Data(64)),
            RelayEvent::Written(true),
            RelayEvent::Flushed(false),
        ],
        vec![RelayEvent::Written(true)],
        vec![RelayEvent::Flushed(true)],
        vec![RelayEvent::Read(ReadOutcome::Data(5)), RelayEvent::Read(ReadOutcome::Data(5))],
    ];
    for events in endings.iter() {
        let mut counter = TransferCounter::new();
        let mut relay = Relay::new(RelayDirection::ClientToServer, 64, 0);
        let mut last = relay.action();
        for event in events {
            last = relay.step(*event, 0, &mut counter);
        }
        assert_eq!(last, RelayAction::Shutdown);
        assert_eq!(relay.phase, RelayPhase::Closed);
        assert_eq!(relay.step(RelayEvent::Read(ReadOutcome::Data(9)), 1, &mut counter), RelayAction::Shutdown);
        assert_eq!(relay.step(RelayEvent::Written(true), 1, &mut counter), RelayAction::Shutdown);
        assert_eq!(relay.action(), RelayAction::Shutdown);
    }
}

#[test]
fn a_failed_write_is_not_counted() {
    let mut counter = TransferCounter::new();
    let mut relay = Relay::new(RelayDirection::ClientToServer, 64, 0);
    relay.step(RelayEvent::Read(ReadOutcome::Data(5)), 0, &mut counter);
    relay.step(RelayEvent::Written(false), 0, &mut counter);
    assert_eq!(counter.take(), 0);
}

#[test]
fn every_chunk_read_is_written_exactly_once() {
    let chunks = [1usize, 64, 3, 64, 64, 9];
    let mut counter = TransferCounter::new();
    let mut relay = Relay::new(RelayDirection::ClientToServer, 64, 0);
    let mut written = Vec::new();
    let mut now = 0;
    for chunk in chunks {
        now += 20;
        match relay.step(RelayEvent::Read(ReadOutcome::Data(chunk)), now, &mut counter) {
            RelayAction::Write { len } => written.push(len),
            other => panic!("unexpected {:?}", other),
        }
        match relay.step(RelayEvent::Written(true), now, &mut counter) {
            RelayAction::Flush => {
                assert_eq!(relay.step(RelayEvent::Flushed(true), now, &mut counter), RelayAction::Read { timeout_secs: 60 });
            }
            RelayAction::Read { .. } => {}
            other => panic!("unexpected {:?}", other),
        }
    }
    assert_eq!(written, chunks.to_vec());
    assert_eq!(counter.take(), 205);
}

fn rule_with(connections: Option<u64>) -> Rule {
    Rule {
        id: CompactUuid([1; 16]),
        name: String::new(),
        listen: endpoint(19000),
        target: RuleTarget { addrs: vec![endpoint(19001)], policy: RuleTargetPolicy::Fallback },
        protocol: RuleProtocol::Tcp,
        config: RuleConfig { bandwidth: None, connections },
        enabled: true,
        status: RuleStatus::Running,
        stats: RuleStats::default(),
        remarks: String::new(),
    }
}

#[test]
fn accepted_connections_are_planned_or_dropped() {
    let rule = rule_with(Some(2));
    let mut gate = ConnectionGate::new(rule.config.connections, None);
    let first = accept_connection(&mut gate, &rule, &config(8), 0);
    let second = accept_connection(&mut gate, &rule, &config(8), 1);
    let third = accept_connection(&mut gate, &rule, &config(8), 2);
    assert_eq!(first, Some(plan_connection(&rule, &config(8), 0)));
    assert_eq!(second.unwrap().target, endpoint(19001));
    assert_eq!(third, None);
    assert_eq!(gate.live(), 2);
    gate.release();
    assert!(accept_connection(&mut gate, &rule, &config(8), 3).is_some());
}

#[test]
fn a_connection_reports_open_traffic_and_close() {
    let plan = plan_connection(&rule_with(None), &config(8), 0);
    let (mut connection, opened) = TcpConnection::open(plan);
    assert_eq!(opened, ForwarderEvent::ConnectionOpened);
    assert_eq!(connection.phase, ConnectionPhase::Connecting);
    assert_eq!(connection.step(ConnectionEvent::StatsDue { elapsed_ms: 300 }), None);
    assert_eq!(connection.step(ConnectionEvent::Connected(true)), None);
    assert_eq!(connection.phase, ConnectionPhase::Relaying);

    let mut up = Relay::new(RelayDirection::ClientToServer, plan.buffer_size, 0);
    let mut down = Relay::new(RelayDirection::ServerToClient, plan.buffer_size, 0);
    connection.relay(&mut up, RelayEvent::Read(ReadOutcome::Data(100)), 1);
    connection.relay(&mut up, RelayEvent::Written(true), 2);
    connection.relay(&mut down, RelayEvent::Read(ReadOutcome::Data(900)), 3);
    connection.relay(&mut down, RelayEvent::Written(true), 4);
    assert_eq!(
        connection.step(ConnectionEvent::StatsDue { elapsed_ms: 300 }),
        Some(ForwarderEvent::Transferred { bytes: 1000, elapsed_ms: 300 })
    );
    assert_eq!(
        connection.step(ConnectionEvent::StatsDue { elapsed_ms: 300 }),
        Some(ForwarderEvent::Transferred { bytes: 0, elapsed_ms: 300 })
    );
    assert_eq!(connection.step(ConnectionEvent::Finished), Some(ForwarderEvent::ConnectionClosed));
    assert_eq!(connection.phase, ConnectionPhase::Closed);
    assert_eq!(connection.step(ConnectionEvent::Finished), None);
    assert_eq!(connection.step(ConnectionEvent::StatsDue { elapsed_ms: 300 }), None);
    assert_eq!(connection.step(ConnectionEvent::Connected(true)), None);
    assert_eq!(
        connection.relay(&mut up, RelayEvent::Read(ReadOutcome::Data(1)), 9),
        RelayAction::Shutdown
    );
    assert_eq!(up.phase, RelayPhase::Closed);
}

#[test]
fn a_connection_that_cannot_reach_its_target_is_closed() {
    let plan = plan_connection(&rule_with(None), &config(8), 0);
    let (mut connection, _) = TcpConnection::open(plan);
    assert_eq!(
        connection.step(ConnectionEvent::Connected(false)),
        Some(ForwarderEvent::ConnectionClosed)
    );
    assert_eq!(connection.step(ConnectionEvent::Finished), None);
    let (mut cut, _) = TcpConnection::open(plan);
    assert_eq!(cut.step(ConnectionEvent::Finished), Some(ForwarderEvent::ConnectionClosed));
    let (mut odd, _) = TcpConnection::open(plan);
    odd.step(ConnectionEvent::Connected(true));
    assert_eq!(odd.step(ConnectionEvent::Connected(true)), Some(ForwarderEvent::ConnectionClosed));
}

#[test]
fn accepted_connections_go_to_the_endpoint_of_their_turn() {
    let mut rule = rule_with(None);
    rule.target = RuleTarget {
        addrs: vec![endpoint(1), endpoint(2), endpoint(3)],
        policy: RuleTargetPolicy::RoundRobin,
    };
    let mut gate = ConnectionGate::new(None, None);
    let picked: Vec<SocketAddress> = (7..13)
        .map(|turn| accept_connection(&mut gate, &rule, &config(8), turn).unwrap().target)
        .collect();
    assert_eq!(
        picked,
        vec![endpoint(2), endpoint(3), endpoint(1), endpoint(2), endpoint(3), endpoint(1)]
    );
    rule.target.policy = RuleTargetPolicy::Fallback;
    for turn in 0..5 {
        let plan = accept_connection(&mut gate, &rule, &config(8), turn).unwrap();
        assert_eq!(plan.target, endpoint(1));
        assert_eq!(plan.options, tcp_socket_options(&config(8)));
    }
    rule.target.policy = RuleTargetPolicy::Random;
    for turn in 0..20 {
        let plan = accept_connection(&mut gate, &rule, &config(8), turn).unwrap();
        assert!(rule.target.addrs.contains(&plan.target));
    }
}

#[test]
fn the_live_count_follows_the_permits_that_are_out() {
    let rule = rule_with(Some(2));
    let mut gate = ConnectionGate::new(rule.config.connections, None);
    let mut stats = RuleStats::default();
    let mut seen = Vec::new();
    let steps = [true, true, true, false, true, true, false, false, false, true];
    for accept in steps {
        if accept {
            if accept_connection(&mut gate, &rule, &config(8), 0).is_some() {
                stats = stats.after_connection_opened();
            }
        } else if gate.live() > 0 {
            gate.release();
            stats = stats.after_connection_closed();
        }
        assert!(stats.connections.tcp <= gate.live());
        assert!(gate.live() <= 2);
        seen.push(stats.connections.tcp);
    }
    assert_eq!(seen, vec![1, 2, 2, 1, 2, 2, 1, 0, 0, 1]);
    stats = RuleStats::default();
    gate.release();
    stats = stats.after_connection_closed();
    assert_eq!(stats.connections.tcp, 0);
    assert_eq!(gate.live(), 0);
}
