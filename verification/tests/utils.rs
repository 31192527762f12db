use pedicab::cli::{AgentConfig, Cli, GlobalConfig, ServerConfig};
use pedicab::data::net::{IpAddress, SocketAddress};
use pedicab::data::rule::{RuleTarget, RuleTargetPolicy};
use pedicab::forward::utils::{nofile_target, select_target, select_target_with};

fn endpoint(last: u8) -> SocketAddress {
    SocketAddress { ip: IpAddress::V4([10, 0, 0, last]), port: 80 }
}

fn target(policy: RuleTargetPolicy) -> RuleTarget {
    RuleTarget { addrs: vec![endpoint(1), endpoint(2), endpoint(3)], policy }
}

#[test]
fn fallback_takes_the_first_endpoint() {
    let target = target(RuleTargetPolicy::Fallback);
    for turn in 0..10 {
        assert_eq!(select_target(&target, turn), endpoint(1));
        assert_eq!(select_target_with(&target, turn, 2), endpoint(1));
    }
}

#[test]
fn round_robin_takes_the_endpoints_in_turn() {
    let target = target(RuleTargetPolicy::RoundRobin);
    let picked: Vec<SocketAddress> = (0..7).map(|turn| select_target(&target, turn)).collect();
    assert_eq!(
        picked,
        vec![endpoint(1), endpoint(2), endpoint(3), endpoint(1), endpoint(2), endpoint(3), endpoint(1)]
    );
    assert_eq!(select_target(&target, usize::MAX), target.addrs[usize::MAX % 3]);
}

#[test]
fn random_takes_the_drawn_endpoint() {
    for policy in [RuleTargetPolicy::Random, RuleTargetPolicy::LeastConnections] {
        let target = target(policy);
        assert_eq!(select_target_with(&target, 9, 0), endpoint(1));
        assert_eq!(select_target_with(&target, 9, 1), endpoint(2));
        assert_eq!(select_target_with(&target, 9, 2), endpoint(3));
    }
}

#[test]
fn random_draws_among_the_endpoints() {
    for policy in [RuleTargetPolicy::Random, RuleTargetPolicy::LeastConnections] {
        let target = target(policy);
        let mut seen = [false; 3];
        for turn in 0..400 {
            let picked = select_target(&target, turn);
            let at = target.addrs.iter().position(|addr| *addr == picked).unwrap();
            seen[at] = true;
        }
        assert_eq!(seen, [true, true, true]);
        let single = RuleTarget { addrs: vec![endpoint(9)], policy };
        assert_eq!(select_target(&single, 0), endpoint(9));
    }
}

#[test]
fn the_nofile_target_never_exceeds_the_hard_limit() {
    assert_eq!(nofile_target(false, u64::MAX), 65_536);
    assert_eq!(nofile_target(true, u64::MAX), 1_048_576);
    assert_eq!(nofile_target(false, 1024), 1024);
    assert_eq!(nofile_target(true, 524_288), 524_288);
    assert_eq!(nofile_target(true, 1_048_576), 1_048_576);
    assert_eq!(nofile_target(false, 0), 0);
}

#[test]
fn settings_are_checked_against_their_ranges() {
    let good = AgentConfig::default();
    assert!(good.is_valid());
    assert_eq!(good.stats_update_interval, 300);
    assert_eq!(good.tcp_buffer_size, 8);
    assert_eq!(good.connections_limit, None);
    assert!(!good.expanded_nofile_limit);
    let with = |interval: u64, limit: Option<u64>, buffer: u8| AgentConfig {
        expanded_nofile_limit: false,
        stats_update_interval: interval,
        connections_limit: limit,
        tcp_buffer_size: buffer,
    };
    assert!(with(100, Some(1), 2).is_valid());
    assert!(with(5000, None, 255).is_valid());
    assert!(!with(99, None, 8).is_valid());
    assert!(!with(5001, None, 8).is_valid());
    assert!(!with(300, Some(0), 8).is_valid());
    assert!(!with(300, None, 1).is_valid());
}

#[test]
fn server_and_global_settings_are_checked() {
    let server = |port: u16| ServerConfig {
        listen_host: IpAddress::V4([0, 0, 0, 0]),
        listen_port: port,
        auth_token: String::from("t"),
        web_mode: false,
    };
    let global = |interval: u64| GlobalConfig {
        database_path: String::from("pedicab_data"),
        do_migrations: false,
        flush_database_interval: interval,
        log_level: String::from("INFO"),
    };
    assert!(server(8080).is_valid());
    assert!(server(4).is_valid());
    assert!(!server(3).is_valid());
    assert_eq!(
        server(8080).listen_address(),
        SocketAddress { ip: IpAddress::V4([0, 0, 0, 0]), port: 8080 }
    );
    assert_eq!(server(8080).listen_address().to_text(), "0.0.0.0:8080");
    assert!(global(10_000).is_valid());
    assert!(global(1_000).is_valid());
    assert!(global(60_000).is_valid());
    assert!(!global(999).is_valid());
    assert!(!global(60_001).is_valid());
    let all = |port: u16, interval: u64| Cli {
        server: server(port),
        agent: AgentConfig::default(),
        global: global(interval),
    };
    assert!(all(8080, 10_000).is_valid());
    assert!(!all(1, 10_000).is_valid());
    assert!(!all(8080, 1).is_valid());
}
