use pedicab::cli::AgentConfig;
use pedicab::dal::rule::{CreateRuleParams, Error, StoreOp, UpdateRuleParams};
use pedicab::dal::DataAccessLayer;
use pedicab::data::generic::CompactUuid;
use pedicab::data::net::{IpAddress, SocketAddress};
use pedicab::data::rule::{
    RuleConfig, RuleProtocol, RuleStats, RuleStatsConnections, RuleStatus, RuleTarget,
    RuleTargetPolicy,
};
use pedicab::forward::manager::{ForwardManager, ObservedRule, Supervised};
use pedicab::forward::stats::ForwarderEvent;
use pedicab::forward::task::{ForwardTask, TaskCommand};
use pedicab::forward::tcp::{accept_connection, ConnectionEvent, ConnectionGate, TcpConnection};
use pedicab::model::rule::Rule;

fn endpoint(port: u16) -> SocketAddress {
    SocketAddress { ip: IpAddress::V4([127, 0, 0, 1]), port }
}

fn params(name: &str, listen: u16, target: u16, connections: Option<u64>) -> CreateRuleParams {
    CreateRuleParams {
        name: String::from(name),
        listen: endpoint(listen),
        target: RuleTarget { addrs: vec![endpoint(target)], policy: RuleTargetPolicy::Fallback },
        protocol: RuleProtocol::Tcp,
        config: Some(RuleConfig { bandwidth: None, connections }),
        enabled: None,
        status: None,
        remarks: None,
    }
}

fn nothing() -> UpdateRuleParams {
    UpdateRuleParams {
        name: None,
        listen: None,
        target: None,
        protocol: None,
        config: None,
        enabled: None,
        status: None,
        remarks: None,
    }
}

fn manager() -> ForwardManager {
    ForwardManager::new(DataAccessLayer::new(), AgentConfig::default())
}

fn stored(manager: &ForwardManager, id: CompactUuid) -> Rule {
    manager.dal().rule.find_by_id(id).unwrap().unwrap()
}

fn running_ids(manager: &ForwardManager) -> Vec<CompactUuid> {
    manager.get_rules().iter().map(|rule| rule.id).collect()
}

fn spawned(command: &TaskCommand) -> &ForwardTask {
    match command {
        TaskCommand::Spawn(task) => task,
        TaskCommand::Abort(_) => panic!("expected a spawn"),
    }
}

fn not_found() -> Error {
    Error::Logics(String::from("rule not found"))
}

#[test]
fn create_enable_reconcile_running() {
    let mut fm = manager();
    let rule = fm.dal_mut().rule.create(params("R", 19000, 19001, Some(2))).unwrap();
    fm.tick();
    assert_eq!(fm.take_commands(), Vec::<TaskCommand>::new());
    assert_eq!(running_ids(&fm), Vec::<CompactUuid>::new());

    fm.dal_mut().rule.enable(rule.id).unwrap();
    fm.tick();
    assert_eq!(running_ids(&fm), vec![rule.id]);
    assert_eq!(stored(&fm, rule.id).status, RuleStatus::Running);
    assert_eq!(
        fm.supervised(),
        vec![Supervised { id: rule.id, digest: stored(&fm, rule.id).digest_config() }]
    );
    let commands = fm.take_commands();
    assert_eq!(commands.len(), 1);
    assert_eq!(fm.tasks(), vec![spawned(&commands[0]).clone()]);
    let task = spawned(&commands[0]);
    assert_eq!(task.rule.id, rule.id);
    assert_eq!(task.rule.listen, endpoint(19000));
    assert_eq!(task.rule.target.addrs, vec![endpoint(19001)]);
    assert_eq!(task.connections_limit, Some(2));
    assert!(task.runs_tcp());
    assert!(!task.runs_udp());

    fm.tick();
    assert_eq!(fm.take_commands(), Vec::<TaskCommand>::new());
    assert_eq!(running_ids(&fm), vec![rule.id]);
}

#[test]
fn digest_sensitive_restart() {
    let mut fm = manager();
    let rule = fm.dal_mut().rule.create(params("R", 19000, 19001, Some(2))).unwrap();
    fm.dal_mut().rule.enable(rule.id).unwrap();
    fm.tick();
    fm.take_commands();

    let mut patch = nothing();
    patch.target =
        Some(RuleTarget { addrs: vec![endpoint(19002)], policy: RuleTargetPolicy::Fallback });
    let before = fm.supervised()[0].digest;
    fm.dal_mut().rule.update(rule.id, patch).unwrap();
    fm.tick();
    let commands = fm.take_commands();
    assert_eq!(commands.len(), 2);
    assert_eq!(commands[0], TaskCommand::Abort(rule.id));
    assert_eq!(spawned(&commands[1]).rule.target.addrs, vec![endpoint(19002)]);
    assert_ne!(fm.supervised()[0].digest, before);
    assert_eq!(fm.supervised()[0].digest, stored(&fm, rule.id).digest_config());
    assert_eq!(fm.tasks().len(), 1);
    assert_eq!(fm.tasks()[0].rule.target.addrs, vec![endpoint(19002)]);
    assert_eq!(stored(&fm, rule.id).status, RuleStatus::Running);
    assert_eq!(running_ids(&fm), vec![rule.id]);

    let mut remarks = nothing();
    remarks.remarks = Some(String::from("just a note"));
    fm.dal_mut().rule.update(rule.id, remarks).unwrap();
    fm.tick();
    assert_eq!(fm.take_commands(), Vec::<TaskCommand>::new());
    assert_eq!(stored(&fm, rule.id).status, RuleStatus::Running);
    assert_eq!(stored(&fm, rule.id).remarks, "just a note");
}

#[test]
fn bind_failure_is_sticky() {
    let mut fm = manager();
    let first = fm.dal_mut().rule.create(params("R", 19000, 19001, None)).unwrap();
    let second = fm.dal_mut().rule.create(params("R2", 19000, 19003, None)).unwrap();
    fm.dal_mut().rule.enable(first.id).unwrap();
    fm.dal_mut().rule.enable(second.id).unwrap();
    fm.tick();
    assert_eq!(fm.take_commands().len(), 2);

    fm.report(second.id, ForwarderEvent::BindFailed { listen: endpoint(19000) });
    assert_eq!(stored(&fm, second.id).status, RuleStatus::Error);
    assert_eq!(
        fm.get_stat(second.id).unwrap().last_failed_message,
        "failed to bind to 127.0.0.1:19000"
    );

    fm.tick();
    assert_eq!(running_ids(&fm), vec![first.id]);
    assert_eq!(fm.take_commands(), Vec::<TaskCommand>::new());
    fm.tick();
    fm.tick();
    assert_eq!(fm.take_commands(), Vec::<TaskCommand>::new());
    assert_eq!(stored(&fm, second.id).status, RuleStatus::Error);

    fm.dal_mut().rule.disable(second.id).unwrap();
    fm.dal_mut().rule.enable(second.id).unwrap();
    fm.tick();
    let commands = fm.take_commands();
    assert_eq!(commands.len(), 2);
    assert_eq!(commands[0], TaskCommand::Abort(second.id));
    assert_eq!(spawned(&commands[1]).rule.id, second.id);
    assert_eq!(running_ids(&fm), vec![first.id, second.id]);
    assert_eq!(stored(&fm, second.id).status, RuleStatus::Running);
}

#[test]
fn disable_drops_the_task() {
    let mut fm = manager();
    let rule = fm.dal_mut().rule.create(params("R", 19000, 19001, None)).unwrap();
    fm.dal_mut().rule.enable(rule.id).unwrap();
    fm.tick();
    fm.take_commands();

    fm.dal_mut().rule.disable(rule.id).unwrap();
    fm.tick();
    assert_eq!(fm.take_commands(), vec![TaskCommand::Abort(rule.id)]);
    assert_eq!(stored(&fm, rule.id).status, RuleStatus::Stopped);
    assert_eq!(running_ids(&fm), Vec::<CompactUuid>::new());
    assert_eq!(fm.tasks(), Vec::<ForwardTask>::new());
    fm.tick();
    assert_eq!(fm.take_commands(), Vec::<TaskCommand>::new());
}

#[test]
fn delete_drops_the_task() {
    let mut fm = manager();
    let rule = fm.dal_mut().rule.create(params("R", 19000, 19001, None)).unwrap();
    fm.dal_mut().rule.enable(rule.id).unwrap();
    fm.tick();
    fm.take_commands();
    fm.dal_mut().rule.delete(rule.id).unwrap();
    fm.tick();
    assert_eq!(fm.take_commands(), vec![TaskCommand::Abort(rule.id)]);
    assert_eq!(running_ids(&fm), Vec::<CompactUuid>::new());
    assert_eq!(fm.dal().rule.count(), Ok(0));
}

#[test]
fn stops_of_one_tick_come_before_its_starts() {
    let mut fm = manager();
    let a = fm.dal_mut().rule.create(params("a", 1000, 1001, None)).unwrap();
    let b = fm.dal_mut().rule.create(params("b", 2000, 2001, None)).unwrap();
    fm.dal_mut().rule.enable(b.id).unwrap();
    fm.tick();
    fm.take_commands();
    fm.dal_mut().rule.disable(b.id).unwrap();
    fm.dal_mut().rule.enable(a.id).unwrap();
    fm.tick();
    let commands = fm.take_commands();
    assert_eq!(commands.len(), 2);
    assert_eq!(commands[0], TaskCommand::Abort(b.id));
    assert_eq!(spawned(&commands[1]).rule.id, a.id);
    assert_eq!(running_ids(&fm), vec![a.id]);
}

#[test]
fn supervised_rules_are_wanted_after_a_tick() {
    let mut fm = manager();
    let mut all = Vec::new();
    for i in 0..6u16 {
        let rule = fm.dal_mut().rule.create(params("r", 1000 + i, 2000 + i, None)).unwrap();
        all.push(rule.id);
    }
    fm.dal_mut().rule.enable(all[0]).unwrap();
    fm.dal_mut().rule.enable(all[1]).unwrap();
    fm.dal_mut().rule.enable(all[2]).unwrap();
    fm.dal_mut().rule.enable(all[4]).unwrap();
    fm.dal_mut().rule.update_status(all[1], RuleStatus::Error).unwrap();
    fm.tick();
    assert_eq!(running_ids(&fm), vec![all[0], all[2], all[4]]);
    for rule in fm.get_rules() {
        assert!(rule.enabled);
        assert_eq!(rule.status, RuleStatus::Running);
    }
    let supervised: Vec<CompactUuid> = fm.supervised().iter().map(|entry| entry.id).collect();
    assert_eq!(supervised, vec![all[0], all[2], all[4]]);
    for task in fm.tasks() {
        assert!(supervised.contains(&task.rule.id));
    }
    let started: Vec<CompactUuid> =
        fm.take_commands().iter().map(|command| spawned(command).rule.id).collect();
    assert_eq!(started, vec![all[0], all[2], all[4]]);

    fm.dal_mut().rule.disable(all[2]).unwrap();
    fm.dal_mut().rule.delete(all[4]).unwrap();
    fm.tick();
    let supervised: Vec<CompactUuid> = fm.supervised().iter().map(|entry| entry.id).collect();
    assert_eq!(supervised, vec![all[0]]);
    let tasks: Vec<CompactUuid> = fm.tasks().iter().map(|task| task.rule.id).collect();
    assert_eq!(tasks, vec![all[0]]);
    assert_eq!(
        fm.take_commands(),
        vec![TaskCommand::Abort(all[2]), TaskCommand::Abort(all[4])]
    );
}

#[test]
fn start_and_stop_by_hand() {
    let mut fm = manager();
    let rule = fm.dal_mut().rule.create(params("R", 19000, 19001, Some(7))).unwrap();
    assert_eq!(fm.start_rule(rule.id), Err(Error::Logics(String::from("rule is disabled"))));
    assert_eq!(fm.start_rule(CompactUuid([3; 16])), Err(not_found()));
    assert_eq!(fm.take_commands(), Vec::<TaskCommand>::new());

    fm.dal_mut().rule.enable(rule.id).unwrap();
    assert_eq!(fm.start_rule(rule.id), Ok(()));
    assert_eq!(stored(&fm, rule.id).status, RuleStatus::Running);
    let commands = fm.take_commands();
    assert_eq!(commands.len(), 1);
    assert_eq!(spawned(&commands[0]).connections_limit, Some(7));

    assert_eq!(fm.stop_rule(rule.id), Ok(()));
    assert_eq!(stored(&fm, rule.id).status, RuleStatus::Stopped);
    assert_eq!(fm.take_commands(), vec![TaskCommand::Abort(rule.id)]);
    assert_eq!(fm.stop_rule(rule.id), Err(not_found()));
    assert_eq!(fm.take_commands(), Vec::<TaskCommand>::new());
}

#[test]
fn stop_does_what_it_can_without_a_task() {
    let mut fm = manager();
    let rule = fm.dal_mut().rule.create(params("R", 19000, 19001, None)).unwrap();
    fm.dal_mut().rule.update_status(rule.id, RuleStatus::Running).unwrap();
    assert_eq!(fm.stop_rule(rule.id), Err(not_found()));
    assert_eq!(stored(&fm, rule.id).status, RuleStatus::Stopped);
}

#[test]
fn after_stop_the_rule_is_gone_from_the_manager() {
    let mut fm = manager();
    let rule = fm.dal_mut().rule.create(params("R", 19000, 19001, None)).unwrap();
    fm.dal_mut().rule.enable(rule.id).unwrap();
    fm.tick();
    fm.take_commands();
    assert_eq!(fm.stop_rule(rule.id), Ok(()));
    assert_eq!(running_ids(&fm), Vec::<CompactUuid>::new());
    assert_eq!(fm.supervised(), Vec::<Supervised>::new());
    assert_eq!(fm.tasks(), Vec::<ForwardTask>::new());
    assert_eq!(stored(&fm, rule.id).status, RuleStatus::Stopped);
    assert_eq!(fm.take_commands(), vec![TaskCommand::Abort(rule.id)]);
    assert_eq!(fm.stop_rule(rule.id), Err(not_found()));
}

#[test]
fn restart_stops_then_starts() {
    let mut fm = manager();
    let rule = fm.dal_mut().rule.create(params("R", 19000, 19001, None)).unwrap();
    assert_eq!(fm.restart_rule(rule.id), Err(not_found()));
    fm.dal_mut().rule.enable(rule.id).unwrap();
    fm.tick();
    fm.take_commands();
    assert_eq!(fm.restart_rule(rule.id), Ok(()));
    let commands = fm.take_commands();
    assert_eq!(commands.len(), 2);
    assert_eq!(commands[0], TaskCommand::Abort(rule.id));
    assert_eq!(spawned(&commands[1]).rule.id, rule.id);
    assert_eq!(stored(&fm, rule.id).status, RuleStatus::Running);

    fm.dal_mut().rule.disable(rule.id).unwrap();
    assert_eq!(fm.restart_rule(rule.id), Err(Error::Logics(String::from("rule is disabled"))));
    assert_eq!(fm.take_commands(), vec![TaskCommand::Abort(rule.id)]);
}

#[test]
fn the_effective_cap_is_the_smaller_one() {
    let config = AgentConfig {
        expanded_nofile_limit: false,
        stats_update_interval: 300,
        connections_limit: Some(5),
        tcp_buffer_size: 8,
    };
    let mut fm = ForwardManager::new(DataAccessLayer::new(), config);
    assert_eq!(fm.config(), config);
    let big = fm.dal_mut().rule.create(params("big", 1000, 1001, Some(9))).unwrap();
    let small = fm.dal_mut().rule.create(params("small", 2000, 2001, Some(2))).unwrap();
    let open = fm.dal_mut().rule.create(params("open", 3000, 3001, None)).unwrap();
    for id in [big.id, small.id, open.id] {
        fm.dal_mut().rule.enable(id).unwrap();
    }
    fm.tick();
    let caps: Vec<Option<u64>> =
        fm.take_commands().iter().map(|command| spawned(command).connections_limit).collect();
    assert_eq!(caps, vec![Some(5), Some(2), Some(5)]);
}

#[test]
fn a_new_manager_starts_enabled_rules_and_carries_counters_over() {
    let mut dal = DataAccessLayer::new();
    let mut on = params("on", 1000, 1001, None);
    on.enabled = Some(true);
    let on = dal.rule.create(on).unwrap();
    let off = dal.rule.create(params("off", 2000, 2001, None)).unwrap();
    let persisted = RuleStats {
        connections: RuleStatsConnections { tcp: 3, udp: 4 },
        speed: 500,
        bandwidth: 1_000_000,
        failed_times: 2,
        last_failed_message: String::from("old failure"),
    };
    dal.rule.update_stats(on.id, persisted.clone()).unwrap();
    let mut fm = ForwardManager::new(dal, AgentConfig::default());
    assert_eq!(running_ids(&fm), vec![on.id]);
    assert_eq!(stored(&fm, on.id).status, RuleStatus::Running);
    assert_eq!(stored(&fm, on.id).stats, persisted);
    let commands = fm.take_commands();
    assert_eq!(commands.len(), 1);
    assert_eq!(spawned(&commands[0]).rule.id, on.id);
    let carried = RuleStats {
        connections: RuleStatsConnections { tcp: 0, udp: 0 },
        speed: 0,
        bandwidth: 1_000_000,
        failed_times: 2,
        last_failed_message: String::new(),
    };
    assert_eq!(fm.get_stat(on.id), Some(carried));
    assert_eq!(fm.get_stat(off.id), Some(RuleStats::default()));
    assert_eq!(fm.get_stat(CompactUuid([9; 16])), None);
}

#[test]
fn counters_follow_the_reports() {
    let mut fm = manager();
    let id = CompactUuid([5; 16]);
    assert_eq!(fm.get_stat(id), None);
    fm.report(id, ForwarderEvent::ConnectionOpened);
    fm.report(id, ForwarderEvent::ConnectionOpened);
    assert_eq!(fm.get_stat(id).unwrap().connections.tcp, 2);
    fm.report(id, ForwarderEvent::Transferred { bytes: 4096, elapsed_ms: 300 });
    let stats = fm.get_stat(id).unwrap();
    assert_eq!(stats.bandwidth, 4096);
    assert_eq!(stats.speed, 13653);
    assert_eq!(stats.connections.tcp, 2);
    fm.report(id, ForwarderEvent::Transferred { bytes: 0, elapsed_ms: 300 });
    assert_eq!(fm.get_stat(id).unwrap().speed, 1365);
    assert_eq!(fm.get_stat(id).unwrap().bandwidth, 4096);
    fm.report(id, ForwarderEvent::ConnectionClosed);
    assert_eq!(fm.get_stat(id).unwrap().connections.tcp, 1);
    fm.report(id, ForwarderEvent::ConnectionClosed);
    fm.report(id, ForwarderEvent::ConnectionClosed);
    assert_eq!(fm.get_stat(id).unwrap().connections.tcp, 0);
    fm.report(id, ForwarderEvent::UdpTransferred { bytes: 100, elapsed_ms: 100, sessions: 3 });
    let stats = fm.get_stat(id).unwrap();
    assert_eq!(stats.connections, RuleStatsConnections { tcp: 0, udp: 3 });
    assert_eq!(stats.bandwidth, 4196);
    assert_eq!(stats.speed, 1000);
}

#[test]
fn a_bind_failure_keeps_the_counters() {
    let mut fm = manager();
    let rule = fm.dal_mut().rule.create(params("R", 19000, 19001, None)).unwrap();
    fm.report(rule.id, ForwarderEvent::Transferred { bytes: 10, elapsed_ms: 5 });
    fm.report(rule.id, ForwarderEvent::BindFailed { listen: rule.listen });
    let stats = fm.get_stat(rule.id).unwrap();
    assert_eq!(stats.bandwidth, 10);
    assert_eq!(stats.speed, 2000);
    assert_eq!(stats.failed_times, 0);
    assert_eq!(stats.last_failed_message, "failed to bind to 127.0.0.1:19000");
    assert_eq!(stored(&fm, rule.id).status, RuleStatus::Error);
}

#[test]
fn get_stats_lists_supervised_rules_only() {
    let mut fm = manager();
    let on = fm.dal_mut().rule.create(params("on", 1000, 1001, None)).unwrap();
    let off = fm.dal_mut().rule.create(params("off", 2000, 2001, None)).unwrap();
    fm.dal_mut().rule.enable(on.id).unwrap();
    fm.tick();
    fm.report(on.id, ForwarderEvent::Transferred { bytes: 7, elapsed_ms: 1 });
    fm.report(off.id, ForwarderEvent::Transferred { bytes: 9, elapsed_ms: 1 });
    let stats = fm.get_stats();
    assert_eq!(stats.len(), 1);
    assert_eq!(stats[0].0, on.id);
    assert_eq!(stats[0].1.bandwidth, 7);
    assert_eq!(fm.get_stat(off.id).unwrap().bandwidth, 9);
}

#[test]
fn flush_stores_the_live_counters() {
    let mut fm = manager();
    let a = fm.dal_mut().rule.create(params("a", 1000, 1001, None)).unwrap();
    let b = fm.dal_mut().rule.create(params("b", 2000, 2001, None)).unwrap();
    let c = fm.dal_mut().rule.create(params("c", 3000, 3001, None)).unwrap();
    fm.dal_mut().rule.enable(a.id).unwrap();
    fm.tick();
    fm.report(a.id, ForwarderEvent::Transferred { bytes: 1234, elapsed_ms: 10 });
    fm.report(b.id, ForwarderEvent::Transferred { bytes: 77, elapsed_ms: 10 });
    fm.report(CompactUuid([8; 16]), ForwarderEvent::Transferred { bytes: 5, elapsed_ms: 10 });
    fm.dal_mut().rule.take_pending();
    fm.flush_stats();
    for id in [a.id, b.id] {
        let live = fm.get_stat(id).unwrap();
        assert_eq!(stored(&fm, id).stats, live);
        assert_eq!(stored(&fm, id).stats.bandwidth, live.bandwidth);
    }
    assert_eq!(stored(&fm, a.id).stats.bandwidth, 1234);
    assert_eq!(stored(&fm, b.id).stats.bandwidth, 77);
    assert_eq!(stored(&fm, c.id).stats, RuleStats::default());
    assert_eq!(fm.dal().rule.count(), Ok(3));
    assert_eq!(fm.dal().rule.index(), vec![a.id, b.id, c.id]);
    let written: Vec<CompactUuid> = fm.dal_mut().rule.take_pending()
        .iter()
        .filter_map(|op| match op {
            StoreOp::PutRule(rule) => Some(rule.id),
            _ => None,
        })
        .collect();
    assert_eq!(written.len(), 2);
    assert!(written.contains(&a.id) && written.contains(&b.id));
}

#[test]
fn reset_writes_zeros_into_the_cache_only() {
    let mut fm = manager();
    let a = fm.dal_mut().rule.create(params("a", 1000, 1001, None)).unwrap();
    let b = fm.dal_mut().rule.create(params("b", 2000, 2001, None)).unwrap();
    fm.dal_mut().rule.enable(a.id).unwrap();
    fm.tick();
    fm.report(a.id, ForwarderEvent::Transferred { bytes: 50, elapsed_ms: 10 });
    fm.report(b.id, ForwarderEvent::Transferred { bytes: 60, elapsed_ms: 10 });
    fm.flush_stats();

    assert_eq!(fm.reset_stat(CompactUuid([9; 16])), Err(not_found()));
    assert_eq!(fm.reset_stat(b.id), Ok(()));
    assert_eq!(fm.get_stat(b.id), Some(RuleStats::default()));
    assert_eq!(stored(&fm, b.id).stats.bandwidth, 60);

    fm.report(b.id, ForwarderEvent::Transferred { bytes: 60, elapsed_ms: 10 });
    assert_eq!(fm.reset_stats(), 1);
    assert_eq!(fm.get_stat(a.id), Some(RuleStats::default()));
    assert_eq!(fm.get_stat(b.id).unwrap().bandwidth, 60);
    assert_eq!(stored(&fm, a.id).stats.bandwidth, 50);
    fm.flush_stats();
    assert_eq!(stored(&fm, a.id).stats, RuleStats::default());
}

#[test]
fn reconcile_goes_by_what_was_seen() {
    let mut fm = manager();
    let rule = fm.dal_mut().rule.create(params("R", 19000, 19001, None)).unwrap();
    fm.dal_mut().rule.enable(rule.id).unwrap();
    let seen = |digest: u64, status: RuleStatus| {
        vec![ObservedRule { id: rule.id, enabled: true, status, digest }]
    };
    fm.reconcile(&seen(1, RuleStatus::Stopped));
    assert_eq!(fm.take_commands().len(), 1);
    fm.reconcile(&seen(1, RuleStatus::Running));
    assert_eq!(fm.take_commands().len(), 0);
    fm.reconcile(&seen(2, RuleStatus::Running));
    let commands = fm.take_commands();
    assert_eq!(commands.len(), 2);
    assert_eq!(commands[0], TaskCommand::Abort(rule.id));
    fm.reconcile(&seen(2, RuleStatus::Error));
    assert_eq!(fm.take_commands().len(), 0);
    assert_eq!(running_ids(&fm), Vec::<CompactUuid>::new());
    fm.reconcile(&Vec::new());
    assert_eq!(fm.take_commands().len(), 0);
}

#[test]
fn observation_copies_what_the_tick_needs() {
    let mut fm = manager();
    let rule = fm.dal_mut().rule.create(params("R", 19000, 19001, None)).unwrap();
    fm.dal_mut().rule.enable(rule.id).unwrap();
    let rules = fm.dal().rule.find_all().unwrap();
    let seen = ForwardManager::observe(&rules);
    assert_eq!(seen.len(), 1);
    assert_eq!(seen[0].id, rule.id);
    assert!(seen[0].enabled);
    assert_eq!(seen[0].status, RuleStatus::Stopped);
    assert_eq!(seen[0].digest, rules[0].digest_config());
}

#[test]
fn polling_intervals() {
    assert_eq!(ForwardManager::poll_interval_secs(false), 1);
    assert_eq!(ForwardManager::poll_interval_secs(true), 5);
}

#[test]
fn a_failed_forwarder_leaves_its_task_behind() {
    let mut fm = manager();
    let rule = fm.dal_mut().rule.create(params("R", 19000, 19001, None)).unwrap();
    fm.dal_mut().rule.enable(rule.id).unwrap();
    fm.tick();
    fm.take_commands();
    fm.report(rule.id, ForwarderEvent::BindFailed { listen: rule.listen });
    fm.tick();
    assert_eq!(fm.supervised(), Vec::<Supervised>::new());
    assert_eq!(fm.tasks().len(), 1);
    assert_eq!(fm.take_commands(), Vec::<TaskCommand>::new());
}

#[test]
fn live_connections_never_exceed_the_cap() {
    let mut fm = manager();
    let rule = fm.dal_mut().rule.create(params("R", 19000, 19001, Some(2))).unwrap();
    fm.dal_mut().rule.enable(rule.id).unwrap();
    fm.tick();
    let commands = fm.take_commands();
    let task = spawned(&commands[0]).clone();
    let mut gate = ConnectionGate::new(task.connections_limit, None);
    let mut open = Vec::new();
    let mut peak = 0;
    for turn in 0..3 {
        match accept_connection(&mut gate, &task.rule, &fm.config(), turn) {
            Some(plan) => {
                let (connection, opened) = TcpConnection::open(plan);
                fm.report(rule.id, opened);
                open.push(connection);
            }
            None => {}
        }
        peak = peak.max(fm.get_stat(rule.id).unwrap().connections.tcp);
    }
    assert_eq!(open.len(), 2);
    assert_eq!(peak, 2);
    assert_eq!(fm.get_stats()[0].1.connections.tcp, 2);
    for mut connection in open {
        connection.step(ConnectionEvent::Connected(true));
        let closed = connection.step(ConnectionEvent::Finished).unwrap();
        fm.report(rule.id, closed);
        gate.release();
    }
    assert_eq!(fm.get_stat(rule.id).unwrap().connections.tcp, 0);
    assert!(accept_connection(&mut gate, &task.rule, &fm.config(), 3).is_some());
}

#[test]
fn starting_a_rule_that_runs_aborts_its_forwarder_first() {
    let mut fm = manager();
    let rule = fm.dal_mut().rule.create(params("R", 19000, 19001, None)).unwrap();
    fm.dal_mut().rule.enable(rule.id).unwrap();
    assert_eq!(fm.start_rule(rule.id), Ok(()));
    let first = fm.take_commands();
    assert_eq!(first.len(), 1);
    assert_eq!(spawned(&first[0]).rule.id, rule.id);

    assert_eq!(fm.start_rule(rule.id), Ok(()));
    let second = fm.take_commands();
    assert_eq!(second.len(), 2);
    assert_eq!(second[0], TaskCommand::Abort(rule.id));
    assert_eq!(spawned(&second[1]).rule.id, rule.id);
    assert_eq!(fm.tasks().len(), 1);
    assert_eq!(fm.tasks()[0], spawned(&second[1]).clone());
    assert_eq!(stored(&fm, rule.id).status, RuleStatus::Running);
}

#[test]
fn a_rule_restarted_by_hand_is_started_over_by_the_tick() {
    let mut fm = manager();
    let rule = fm.dal_mut().rule.create(params("R", 19000, 19001, None)).unwrap();
    fm.dal_mut().rule.enable(rule.id).unwrap();
    fm.tick();
    fm.take_commands();
    assert_eq!(fm.restart_rule(rule.id), Ok(()));
    fm.take_commands();
    fm.tick();
    let commands = fm.take_commands();
    assert_eq!(commands.len(), 2);
    assert_eq!(commands[0], TaskCommand::Abort(rule.id));
    assert_eq!(spawned(&commands[1]).rule.id, rule.id);
    assert_eq!(fm.tasks().len(), 1);
    assert_eq!(running_ids(&fm), vec![rule.id]);
}
