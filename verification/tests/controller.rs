use pedicab::cli::{AgentConfig, Cli, GlobalConfig, ServerConfig};
use pedicab::dal::rule::{CreateRuleParams, UpdateRuleParams};
use pedicab::dal::DataAccessLayer;
use pedicab::data::generic::CompactUuid;
use pedicab::data::net::{IpAddress, SocketAddress};
use pedicab::data::rule::{RuleProtocol, RuleStats, RuleStatus, RuleTarget, RuleTargetPolicy};
use pedicab::forward::manager::ForwardManager;
use pedicab::forward::stats::ForwarderEvent;
use pedicab::server::auth::AuthOutcome;
use pedicab::server::controller::{fm, rule};
use pedicab::server::response::BaseResponse;
use pedicab::server::AppState;

fn endpoint(port: u16) -> SocketAddress {
    SocketAddress { ip: IpAddress::V4([127, 0, 0, 1]), port }
}

fn state() -> AppState {
    AppState {
        cli: Cli {
            server: ServerConfig {
                listen_host: IpAddress::V4([0, 0, 0, 0]),
                listen_port: 8080,
                auth_token: String::from("s3cret"),
                web_mode: false,
            },
            agent: AgentConfig::default(),
            global: GlobalConfig {
                database_path: String::from("pedicab_data"),
                do_migrations: false,
                flush_database_interval: 10_000,
                log_level: String::from("INFO"),
            },
        },
        fm: ForwardManager::new(DataAccessLayer::new(), AgentConfig::default()),
    }
}

fn params(name: &str) -> CreateRuleParams {
    CreateRuleParams {
        name: String::from(name),
        listen: endpoint(19000),
        target: RuleTarget { addrs: vec![endpoint(19001)], policy: RuleTargetPolicy::Fallback },
        protocol: RuleProtocol::Udp,
        config: None,
        enabled: None,
        status: None,
        remarks: None,
    }
}

fn nothing() -> UpdateRuleParams {
    UpdateRuleParams {
        name: None,
        listen: None,
        target: None,
        protocol: None,
        config: None,
        enabled: None,
        status: None,
        remarks: None,
    }
}

fn not_found(id: &CompactUuid) -> String {
    format!("Rule not found: {}", id.to_text())
}

#[test]
fn requests_are_authorized_by_the_configured_token() {
    let state = state();
    assert_eq!(state.authorize(Some(b"Bearer s3cret")), AuthOutcome::Granted);
    assert_eq!(state.authorize(Some(b"Bearer other")), AuthOutcome::Invalid);
    assert_eq!(state.authorize(Some(b"s3cret")), AuthOutcome::Malformed);
    assert_eq!(state.authorize(None), AuthOutcome::Missing);
}

#[test]
fn rules_are_created_listed_and_fetched() {
    let mut state = state();
    assert_eq!(rule::get_rules(&state), BaseResponse::Success(Vec::new()));
    let created = match rule::create_rule(&mut state, params("a")) {
        BaseResponse::Success(rule) => rule,
        other => panic!("unexpected {:?}", other),
    };
    assert_eq!(created.name, "a");
    assert!(!created.enabled);
    assert_eq!(rule::get_rules(&state), BaseResponse::Success(vec![created.clone()]));
    assert_eq!(rule::get_rule_by_id(&state, created.id), BaseResponse::Success(Some(created.clone())));
    assert_eq!(rule::get_rule_by_id(&state, CompactUuid([0; 16])), BaseResponse::Success(None));
    assert_eq!(rule::get_rules(&state).status(), 200);
}

#[test]
fn requests_for_absent_rules_are_validation_errors() {
    let mut state = state();
    let id = CompactUuid([4; 16]);
    let refused = BaseResponse::Error { code: 400, message: not_found(&id) };
    assert_eq!(rule::enable_rule(&mut state, id), refused);
    assert_eq!(rule::disable_rule(&mut state, id), refused);
    assert_eq!(
        rule::update_rule(&mut state, id, nothing()),
        BaseResponse::Error { code: 400, message: not_found(&id) }
    );
    assert_eq!(rule::delete_rule(&mut state, id), BaseResponse::Success("ok"));
    assert_eq!(
        fm::restart_rule(&mut state, id),
        BaseResponse::Error { code: 400, message: String::from("Logics error: rule not found") }
    );
    assert_eq!(
        fm::get_stat(&mut state, id),
        BaseResponse::Error { code: 400, message: String::from("rule not found") }
    );
    assert_eq!(
        fm::reset_stat(&mut state, id),
        BaseResponse::Error { code: 400, message: String::from("Logics error: rule not found") }
    );
}

#[test]
fn the_rule_actions_pass_through() {
    let mut state = state();
    let created = match rule::create_rule(&mut state, params("a")) {
        BaseResponse::Success(rule) => rule,
        other => panic!("unexpected {:?}", other),
    };
    assert_eq!(rule::enable_rule(&mut state, created.id), BaseResponse::Success("ok"));
    let mut patch = nothing();
    patch.remarks = Some(String::from("note"));
    let patched = match rule::update_rule(&mut state, created.id, patch) {
        BaseResponse::Success(rule) => rule,
        other => panic!("unexpected {:?}", other),
    };
    assert!(patched.enabled);
    assert_eq!(patched.remarks, "note");
    assert_eq!(patched.status, RuleStatus::Stopped);

    state.fm.tick();
    assert_eq!(state.fm.take_commands().len(), 1);
    let running = match fm::get_running_rules(&state) {
        BaseResponse::Success(rules) => rules,
        other => panic!("unexpected {:?}", other),
    };
    assert_eq!(running.len(), 1);
    assert_eq!(running[0].status, RuleStatus::Running);
    assert_eq!(fm::restart_rule(&mut state, created.id), BaseResponse::Success("ok"));
    assert_eq!(state.fm.take_commands().len(), 2);

    assert_eq!(rule::disable_rule(&mut state, created.id), BaseResponse::Success("ok"));
    assert_eq!(
        fm::restart_rule(&mut state, created.id),
        BaseResponse::Error { code: 400, message: String::from("Logics error: rule is disabled") }
    );
    assert_eq!(rule::delete_rule(&mut state, created.id), BaseResponse::Success("ok"));
    assert_eq!(rule::get_rules(&state), BaseResponse::Success(Vec::new()));
}

#[test]
fn live_counters_are_read_and_reset() {
    let mut state = state();
    let mut enabled = params("a");
    enabled.enabled = Some(true);
    let created = match rule::create_rule(&mut state, enabled) {
        BaseResponse::Success(rule) => rule,
        other => panic!("unexpected {:?}", other),
    };
    state.fm.tick();
    state.fm.report(created.id, ForwarderEvent::Transferred { bytes: 10, elapsed_ms: 10 });
    let stats = match fm::get_stat(&mut state, created.id) {
        BaseResponse::Success(stats) => stats,
        other => panic!("unexpected {:?}", other),
    };
    assert_eq!(stats.bandwidth, 10);
    let listed = match fm::get_stats(&state) {
        BaseResponse::Success(entries) => entries,
        other => panic!("unexpected {:?}", other),
    };
    assert_eq!(listed, vec![(created.id, stats)]);
    assert_eq!(fm::reset_stat(&mut state, created.id), BaseResponse::Success("ok"));
    assert_eq!(fm::get_stat(&mut state, created.id), BaseResponse::Success(RuleStats::default()));
    state.fm.report(created.id, ForwarderEvent::Transferred { bytes: 10, elapsed_ms: 10 });
    assert_eq!(fm::reset_stats(&mut state), BaseResponse::Success("ok"));
    assert_eq!(fm::get_stat(&mut state, created.id), BaseResponse::Success(RuleStats::default()));
}
