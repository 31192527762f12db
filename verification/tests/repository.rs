use pedicab::dal::rule::{CreateRuleParams, Error, RuleDataAccessLayer, StoreOp, UpdateRuleParams};
use pedicab::dal::DataAccessLayer;
use pedicab::data::generic::CompactUuid;
use pedicab::data::net::{IpAddress, SocketAddress};
use pedicab::data::rule::{
    RuleConfig, RuleProtocol, RuleStats, RuleStatsConnections, RuleStatus, RuleTarget,
    RuleTargetPolicy,
};
use pedicab::model::rule::Rule;

fn endpoint(port: u16) -> SocketAddress {
    SocketAddress { ip: IpAddress::V4([127, 0, 0, 1]), port }
}

fn params(name: &str, port: u16) -> CreateRuleParams {
    CreateRuleParams {
        name: String::from(name),
        listen: endpoint(port),
        target: RuleTarget { addrs: vec![endpoint(port + 1)], policy: RuleTargetPolicy::Fallback },
        protocol: RuleProtocol::Tcp,
        config: None,
        enabled: None,
        status: None,
        remarks: None,
    }
}

fn nothing() -> UpdateRuleParams {
    UpdateRuleParams {
        name: None,
        listen: None,
        target: None,
        protocol: None,
        config: None,
        enabled: None,
        status: None,
        remarks: None,
    }
}

fn ids(rules: &[Rule]) -> Vec<CompactUuid> {
    rules.iter().map(|rule| rule.id).collect()
}

#[test]
fn a_new_repository_is_empty() {
    let repository = RuleDataAccessLayer::new();
    assert_eq!(repository.find_all().unwrap(), Vec::<Rule>::new());
    assert_eq!(repository.count().unwrap(), 0);
    assert_eq!(repository.index(), Vec::<CompactUuid>::new());
    assert_eq!(repository.find_by_id(CompactUuid([1; 16])).unwrap(), None);
    let dal = DataAccessLayer::new();
    assert_eq!(dal.rule.count().unwrap(), 0);
}

#[test]
fn create_applies_the_defaults() {
    let mut repository = RuleDataAccessLayer::new();
    let rule = repository.create(params("web", 19000)).unwrap();
    assert_eq!(rule.name, "web");
    assert_eq!(rule.listen, endpoint(19000));
    assert_eq!(rule.target.addrs, vec![endpoint(19001)]);
    assert_eq!(rule.protocol, RuleProtocol::Tcp);
    assert_eq!(rule.config, RuleConfig { bandwidth: None, connections: None });
    assert!(!rule.enabled);
    assert_eq!(rule.status, RuleStatus::Stopped);
    assert_eq!(rule.stats, RuleStats::default());
    assert_eq!(rule.remarks, "");
    assert_eq!(rule.id.0[6] >> 4, 7);
    assert_eq!(repository.find_by_id(rule.id).unwrap(), Some(rule.clone()));
    assert_eq!(repository.find_all().unwrap(), vec![rule]);
    assert_eq!(repository.count().unwrap(), 1);
}

#[test]
fn create_takes_what_the_params_say() {
    let mut repository = RuleDataAccessLayer::new();
    let mut given = params("web", 19000);
    given.config = Some(RuleConfig { bandwidth: Some(1000), connections: Some(2) });
    given.enabled = Some(true);
    given.status = Some(RuleStatus::Error);
    given.remarks = Some(String::from("note"));
    let rule = repository.create(given).unwrap();
    assert_eq!(rule.config, RuleConfig { bandwidth: Some(1000), connections: Some(2) });
    assert!(rule.enabled);
    assert_eq!(rule.status, RuleStatus::Error);
    assert_eq!(rule.remarks, "note");
    assert_eq!(rule.stats, RuleStats::default());
}

#[test]
fn find_all_follows_the_index_through_any_operations() {
    let mut repository = RuleDataAccessLayer::new();
    let a = repository.create(params("a", 1000)).unwrap();
    let b = repository.create(params("b", 2000)).unwrap();
    let c = repository.create(params("c", 3000)).unwrap();
    assert_eq!(ids(&repository.find_all().unwrap()), vec![a.id, b.id, c.id]);
    assert_eq!(repository.index(), vec![a.id, b.id, c.id]);

    repository.update_status(b.id, RuleStatus::Running).unwrap();
    repository.enable(a.id).unwrap();
    assert_eq!(ids(&repository.find_all().unwrap()), vec![a.id, b.id, c.id]);

    assert!(repository.delete(b.id).unwrap());
    assert_eq!(ids(&repository.find_all().unwrap()), vec![a.id, c.id]);
    assert_eq!(repository.index(), vec![a.id, c.id]);
    assert_eq!(repository.count().unwrap(), 2);

    let d = repository.create(params("d", 4000)).unwrap();
    assert_eq!(ids(&repository.find_all().unwrap()), vec![a.id, c.id, d.id]);
    assert_eq!(repository.index(), ids(&repository.find_all().unwrap()));

    let mut rename = nothing();
    rename.name = Some(String::from("renamed"));
    repository.update(a.id, rename).unwrap();
    assert_eq!(repository.index(), vec![a.id, c.id, d.id]);
    assert_eq!(repository.find_all().unwrap()[0].name, "renamed");
}

#[test]
fn create_with_a_taken_identifier_replaces_in_place() {
    let mut repository = RuleDataAccessLayer::new();
    let first = CompactUuid([1; 16]);
    let second = CompactUuid([2; 16]);
    repository.create_with(first, params("a", 1000)).unwrap();
    repository.create_with(second, params("b", 2000)).unwrap();
    let replaced = repository.create_with(first, params("c", 3000)).unwrap();
    assert_eq!(replaced.id, first);
    assert_eq!(repository.index(), vec![first, second]);
    assert_eq!(repository.find_by_id(first).unwrap().unwrap().name, "c");
    assert_eq!(repository.count().unwrap(), 2);
}

#[test]
fn update_patches_only_what_is_named() {
    let mut repository = RuleDataAccessLayer::new();
    let rule = repository.create(params("web", 19000)).unwrap();
    let mut patch = nothing();
    patch.remarks = Some(String::from("note"));
    patch.config = Some(RuleConfig { bandwidth: None, connections: Some(5) });
    let patched = repository.update(rule.id, patch).unwrap();
    let mut expected = rule.clone();
    expected.remarks = String::from("note");
    expected.config = RuleConfig { bandwidth: None, connections: Some(5) };
    assert_eq!(patched, expected);
    assert_eq!(repository.find_by_id(rule.id).unwrap(), Some(expected.clone()));

    let mut all = nothing();
    all.name = Some(String::from("n"));
    all.listen = Some(endpoint(1));
    all.target = Some(RuleTarget { addrs: vec![endpoint(2), endpoint(3)], policy: RuleTargetPolicy::Random });
    all.protocol = Some(RuleProtocol::Udp);
    all.enabled = Some(true);
    all.status = Some(RuleStatus::Running);
    let patched = repository.update(rule.id, all).unwrap();
    assert_eq!(patched.name, "n");
    assert_eq!(patched.listen, endpoint(1));
    assert_eq!(patched.target.addrs, vec![endpoint(2), endpoint(3)]);
    assert_eq!(patched.target.policy, RuleTargetPolicy::Random);
    assert_eq!(patched.protocol, RuleProtocol::Udp);
    assert!(patched.enabled);
    assert_eq!(patched.status, RuleStatus::Running);
    assert_eq!(patched.remarks, "note");
    assert_eq!(patched.id, rule.id);

    let same = repository.update(rule.id, nothing()).unwrap();
    assert_eq!(same, patched);
}

#[test]
fn absent_rules_are_not_found() {
    let mut repository = RuleDataAccessLayer::new();
    let kept = repository.create(params("web", 19000)).unwrap();
    let id = CompactUuid([
        0x01, 0x90, 0xa6, 0xfc, 0x3b, 0x1e, 0x7c, 0x52, 0x9d, 0x3e, 0x01, 0x23, 0x45, 0x67, 0x89,
        0xab,
    ]);
    let expected = Error::NotFound(String::from("0190a6fc-3b1e-7c52-9d3e-0123456789ab"));
    assert_eq!(repository.update(id, nothing()), Err(Error::NotFound(String::from("0190a6fc-3b1e-7c52-9d3e-0123456789ab"))));
    assert_eq!(repository.update_status(id, RuleStatus::Running), Err(Error::NotFound(String::from("0190a6fc-3b1e-7c52-9d3e-0123456789ab"))));
    assert_eq!(repository.update_stats(id, RuleStats::default()).unwrap_err(), expected);
    assert_eq!(repository.enable(id).unwrap_err(), expected);
    assert_eq!(repository.disable(id).unwrap_err(), expected);
    assert_eq!(repository.delete(id), Ok(false));
    assert_eq!(repository.find_by_id(id), Ok(None));
    assert_eq!(repository.find_all().unwrap(), vec![kept]);
    assert_eq!(expected.message(), "Rule not found: 0190a6fc-3b1e-7c52-9d3e-0123456789ab");
}

#[test]
fn error_sentences() {
    assert_eq!(Error::Db(String::from("io")).message(), "Database error: io");
    assert_eq!(Error::Logics(String::from("rule is disabled")).message(), "Logics error: rule is disabled");
    assert_eq!(Error::DecodeError(String::from("eof")).message(), "Decode error: eof");
    assert_eq!(Error::EncodeError(String::from("big")).message(), "Encode error: big");
}

#[test]
fn enable_and_disable_mark_the_rule_stopped() {
    let mut repository = RuleDataAccessLayer::new();
    let rule = repository.create(params("web", 19000)).unwrap();
    repository.update_status(rule.id, RuleStatus::Error).unwrap();
    repository.enable(rule.id).unwrap();
    let stored = repository.find_by_id(rule.id).unwrap().unwrap();
    assert!(stored.enabled);
    assert_eq!(stored.status, RuleStatus::Stopped);
    repository.update_status(rule.id, RuleStatus::Running).unwrap();
    repository.disable(rule.id).unwrap();
    let stored = repository.find_by_id(rule.id).unwrap().unwrap();
    assert!(!stored.enabled);
    assert_eq!(stored.status, RuleStatus::Stopped);
}

#[test]
fn field_scoped_updates_touch_one_field() {
    let mut repository = RuleDataAccessLayer::new();
    let rule = repository.create(params("web", 19000)).unwrap();
    let stats = RuleStats {
        connections: RuleStatsConnections { tcp: 1, udp: 2 },
        speed: 3,
        bandwidth: 4,
        failed_times: 5,
        last_failed_message: String::from("m"),
    };
    repository.update_stats(rule.id, stats.clone()).unwrap();
    repository.update_status(rule.id, RuleStatus::Running).unwrap();
    let mut expected = rule.clone();
    expected.stats = stats;
    expected.status = RuleStatus::Running;
    assert_eq!(repository.find_by_id(rule.id).unwrap(), Some(expected));
}

#[test]
fn delete_removes_rule_and_index_entry() {
    let mut repository = RuleDataAccessLayer::new();
    let a = repository.create(params("a", 1000)).unwrap();
    let b = repository.create(params("b", 2000)).unwrap();
    assert_eq!(repository.delete(a.id), Ok(true));
    assert_eq!(repository.delete(a.id), Ok(false));
    assert_eq!(repository.find_by_id(a.id), Ok(None));
    assert_eq!(repository.find_all().unwrap(), vec![b.clone()]);
    assert_eq!(repository.index(), vec![b.id]);
}

#[test]
fn the_journal_names_every_write_once() {
    let mut repository = RuleDataAccessLayer::new();
    let a = repository.create(params("a", 1000)).unwrap();
    assert_eq!(
        repository.take_pending(),
        vec![StoreOp::PutRule(a.clone()), StoreOp::PutIndex(vec![a.id]), StoreOp::Flush]
    );
    assert_eq!(repository.take_pending(), Vec::<StoreOp>::new());

    repository.update_status(a.id, RuleStatus::Running).unwrap();
    let mut running = a.clone();
    running.status = RuleStatus::Running;
    assert_eq!(repository.take_pending(), vec![StoreOp::PutRule(running), StoreOp::Flush]);

    let b = repository.create(params("b", 2000)).unwrap();
    repository.take_pending();
    repository.delete(a.id).unwrap();
    assert_eq!(
        repository.take_pending(),
        vec![StoreOp::RemoveRule(a.id), StoreOp::PutIndex(vec![b.id]), StoreOp::Flush]
    );
    assert!(repository.update_status(a.id, RuleStatus::Stopped).is_err());
    assert_eq!(repository.delete(a.id), Ok(false));
    assert_eq!(repository.take_pending(), Vec::<StoreOp>::new());
    assert_eq!(repository.find_all().unwrap(), vec![b]);
}

#[test]
fn restore_keeps_the_first_rule_of_each_identifier() {
    let mut source = RuleDataAccessLayer::new();
    let a = source.create(params("a", 1000)).unwrap();
    let b = source.create(params("b", 2000)).unwrap();
    let mut twin = a.clone();
    twin.name = String::from("twin");
    let mut restored = RuleDataAccessLayer::restore(vec![a.clone(), b.clone(), twin]);
    assert_eq!(restored.find_all().unwrap(), vec![a.clone(), b.clone()]);
    assert_eq!(restored.index(), vec![a.id, b.id]);
    assert_eq!(restored.take_pending(), Vec::<StoreOp>::new());
    let mut empty = RuleDataAccessLayer::restore(Vec::new());
    assert_eq!(empty.count(), Ok(0));
    assert_eq!(empty.take_pending(), Vec::<StoreOp>::new());
}

#[test]
fn writes_that_were_refused_go_back_to_the_head_of_the_journal() {
    let mut repository = RuleDataAccessLayer::new();
    let a = repository.create(params("a", 1000)).unwrap();
    let mut taken = repository.take_pending();
    assert_eq!(taken.len(), 3);
    let refused = taken.split_off(1);
    repository.update_status(a.id, RuleStatus::Running).unwrap();
    repository.put_back(refused);
    let mut running = a.clone();
    running.status = RuleStatus::Running;
    assert_eq!(
        repository.take_pending(),
        vec![
            StoreOp::PutIndex(vec![a.id]),
            StoreOp::Flush,
            StoreOp::PutRule(running.clone()),
            StoreOp::Flush,
        ]
    );
    repository.put_back(Vec::new());
    assert_eq!(repository.take_pending(), Vec::<StoreOp>::new());
    assert_eq!(repository.find_all().unwrap(), vec![running]);
}

#[test]
fn created_rules_get_identifiers_of_version_seven() {
    let mut repository = RuleDataAccessLayer::new();
    for port in [1000u16, 2000, 3000] {
        let rule = repository.create(params("r", port)).unwrap();
        assert_eq!(rule.id.0[6] >> 4, 7);
        assert_eq!(rule.id.0[8] >> 6, 2);
    }
    assert_eq!(repository.count(), Ok(3));
}
