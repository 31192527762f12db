//! The rule repository.
//!
//! The repository holds the rules in the order of the rule index, and a
//! journal of the writes that bring a durable store up to date with it.
//! The store has one key per rule, holding the rule, and one key that
//! holds the index. Whoever owns the store takes the journal and applies
//! it.

use crate::data::generic::{spec_uuid_text, CompactUuid};
use crate::data::net::SocketAddress;
use crate::data::rule::{
    RuleConfig, RuleProtocol, RuleStats, RuleStatsView, RuleStatus, RuleTarget, RuleTargetView,
};
use crate::model::rule::{Rule, RuleView};
use vstd::prelude::*;
use vstd::string::StringExecFns;

verus! {

/// The key of the durable store under which the rule index stands. A
/// rule stands under the sixteen bytes of its identifier.
pub const RULE_INDEX_KEY: &'static str = "__rule_index";

/// What can go wrong with a rule.
#[derive(Debug, PartialEq, Eq)]
pub enum Error {
    /// No rule has the identifier, given as text.
    NotFound(String),
    /// The durable store failed.
    Db(String),
    /// The request makes no sense in the rule's state.
    Logics(String),
    /// Stored bytes are not a rule.
    DecodeError(String),
    /// A rule could not be turned into bytes.
    EncodeError(String),
}

pub enum ErrorView {
    NotFound(Seq<char>),
    Db(Seq<char>),
    Logics(Seq<char>),
    DecodeError(Seq<char>),
    EncodeError(Seq<char>),
}

impl View for Error {
    type V = ErrorView;

    open spec fn view(&self) -> ErrorView {
        match self {
            Error::NotFound(text) => ErrorView::NotFound(text@),
            Error::Db(text) => ErrorView::Db(text@),
            Error::Logics(text) => ErrorView::Logics(text@),
            Error::DecodeError(text) => ErrorView::DecodeError(text@),
            Error::EncodeError(text) => ErrorView::EncodeError(text@),
        }
    }
}

impl ErrorView {
    /// The error as a sentence.
    pub open spec fn message(self) -> Seq<char> {
        match self {
            ErrorView::NotFound(text) => "Rule not found: "@ + text,
            ErrorView::Db(text) => "Database error: "@ + text,
            ErrorView::Logics(text) => "Logics error: "@ + text,
            ErrorView::DecodeError(text) => "Decode error: "@ + text,
            ErrorView::EncodeError(text) => "Encode error: "@ + text,
        }
    }
}

impl Error {
    /// The error as a sentence.
    pub fn message(&self) -> (text: String)
        ensures
            text@ == self@.message(),
    {
        match self {
            Error::NotFound(text) => String::from_str("Rule not found: ").concat(text.as_str()),
            Error::Db(text) => String::from_str("Database error: ").concat(text.as_str()),
            Error::Logics(text) => String::from_str("Logics error: ").concat(text.as_str()),
            Error::DecodeError(text) => String::from_str("Decode error: ").concat(text.as_str()),
            Error::EncodeError(text) => String::from_str("Encode error: ").concat(text.as_str()),
        }
    }
}

/// What a new rule is made from. What is left out takes its default: no
/// limits, not enabled, stopped, no remarks.
#[derive(Debug)]
pub struct CreateRuleParams {
    pub name: String,
    pub listen: SocketAddress,
    pub target: RuleTarget,
    pub protocol: RuleProtocol,
    pub config: Option<RuleConfig>,
    pub enabled: Option<bool>,
    pub status: Option<RuleStatus>,
    pub remarks: Option<String>,
}

/// The fields of a rule to replace. What is left out stays as it is.
#[derive(Debug)]
pub struct UpdateRuleParams {
    pub name: Option<String>,
    pub listen: Option<SocketAddress>,
    pub target: Option<RuleTarget>,
    pub protocol: Option<RuleProtocol>,
    pub config: Option<RuleConfig>,
    pub enabled: Option<bool>,
    pub status: Option<RuleStatus>,
    pub remarks: Option<String>,
}

pub struct CreateRuleParamsView {
    pub name: Seq<char>,
    pub listen: SocketAddress,
    pub target: RuleTargetView,
    pub protocol: RuleProtocol,
    pub config: Option<RuleConfig>,
    pub enabled: Option<bool>,
    pub status: Option<RuleStatus>,
    pub remarks: Option<Seq<char>>,
}

pub struct UpdateRuleParamsView {
    pub name: Option<Seq<char>>,
    pub listen: Option<SocketAddress>,
    pub target: Option<RuleTargetView>,
    pub protocol: Option<RuleProtocol>,
    pub config: Option<RuleConfig>,
    pub enabled: Option<bool>,
    pub status: Option<RuleStatus>,
    pub remarks: Option<Seq<char>>,
}

impl View for CreateRuleParams {
    type V = CreateRuleParamsView;

    open spec fn view(&self) -> CreateRuleParamsView {
        CreateRuleParamsView {
            name: self.name@,
            listen: self.listen,
            target: self.target@,
            protocol: self.protocol,
            config: self.config,
            enabled: self.enabled,
            status: self.status,
            remarks: match self.remarks {
                Some(text) => Some(text@),
                None => None,
            },
        }
    }
}

impl View for UpdateRuleParams {
    type V = UpdateRuleParamsView;

    open spec fn view(&self) -> UpdateRuleParamsView {
        UpdateRuleParamsView {
            name: match self.name {
                Some(text) => Some(text@),
                None => None,
            },
            listen: self.listen,
            target: match self.target {
                Some(target) => Some(target@),
                None => None,
            },
            protocol: self.protocol,
            config: self.config,
            enabled: self.enabled,
            status: self.status,
            remarks: match self.remarks {
                Some(text) => Some(text@),
                None => None,
            },
        }
    }
}

impl CreateRuleParamsView {
    /// The rule that is made from these under the given identifier.
    pub open spec fn rule(self, id: Seq<u8>) -> RuleView {
        RuleView {
            id,
            name: self.name,
            listen: self.listen,
            target: self.target,
            protocol: self.protocol,
            config: match self.config {
                Some(config) => config,
                None => RuleConfig { bandwidth: None, connections: None },
            },
            enabled: match self.enabled {
                Some(enabled) => enabled,
                None => false,
            },
            status: match self.status {
                Some(status) => status,
                None => RuleStatus::Stopped,
            },
            stats: RuleStatsView::zero(),
            remarks: match self.remarks {
                Some(remarks) => remarks,
                None => Seq::empty(),
            },
        }
    }
}

impl UpdateRuleParamsView {
    /// The rule after these replaced what they name.
    pub open spec fn apply(self, rule: RuleView) -> RuleView {
        RuleView {
            id: rule.id,
            name: match self.name {
                Some(name) => name,
                None => rule.name,
            },
            listen: match self.listen {
                Some(listen) => listen,
                None => rule.listen,
            },
            target: match self.target {
                Some(target) => target,
                None => rule.target,
            },
            protocol: match self.protocol {
                Some(protocol) => protocol,
                None => rule.protocol,
            },
            config: match self.config {
                Some(config) => config,
                None => rule.config,
            },
            enabled: match self.enabled {
                Some(enabled) => enabled,
                None => rule.enabled,
            },
            status: match self.status {
                Some(status) => status,
                None => rule.status,
            },
            stats: rule.stats,
            remarks: match self.remarks {
                Some(remarks) => remarks,
                None => rule.remarks,
            },
        }
    }
}

/// One write to the durable store.
#[derive(Debug, PartialEq, Eq)]
pub enum StoreOp {
    /// Store the rule under the key of its identifier.
    PutRule(Rule),
    /// Store these identifiers, in this order, under the key of the index.
    PutIndex(Vec<CompactUuid>),
    /// Remove the key of the identifier.
    RemoveRule(CompactUuid),
    /// Make what was written durable.
    Flush,
}

pub enum StoreOpView {
    PutRule(RuleView),
    PutIndex(Seq<Seq<u8>>),
    RemoveRule(Seq<u8>),
    Flush,
}

impl View for StoreOp {
    type V = StoreOpView;

    open spec fn view(&self) -> StoreOpView {
        match self {
            StoreOp::PutRule(rule) => StoreOpView::PutRule(rule@),
            StoreOp::PutIndex(ids) => StoreOpView::PutIndex(ids@.map_values(|id: CompactUuid| id@)),
            StoreOp::RemoveRule(id) => StoreOpView::RemoveRule(id@),
            StoreOp::Flush => StoreOpView::Flush,
        }
    }
}

/// The identifiers of the rules, in their order.
pub open spec fn spec_ids(rules: Seq<RuleView>) -> Seq<Seq<u8>> {
    rules.map_values(|rule: RuleView| rule.id)
}

/// Whether no two of the rules share an identifier.
pub open spec fn spec_distinct_ids(rules: Seq<RuleView>) -> bool {
    forall|i: int, j: int|
        0 <= i < j < rules.len() ==> (#[trigger] rules[i]).id != (#[trigger] rules[j]).id
}

/// Whether one of the rules has the identifier.
pub open spec fn spec_has_rule(rules: Seq<RuleView>, id: Seq<u8>) -> bool {
    exists|i: int| 0 <= i < rules.len() && (#[trigger] rules[i]).id == id
}

/// Where the rule with the identifier stands; meaningful if there is one.
pub open spec fn spec_position(rules: Seq<RuleView>, id: Seq<u8>) -> int {
    choose|i: int| 0 <= i < rules.len() && (#[trigger] rules[i]).id == id
}

/// The rule with the identifier, if there is one.
pub open spec fn spec_rule(rules: Seq<RuleView>, id: Seq<u8>) -> Option<RuleView> {
    if spec_has_rule(rules, id) {
        Some(rules[spec_position(rules, id)])
    } else {
        None
    }
}

/// Among rules with distinct identifiers, the place where an identifier
/// is found is its position.
pub proof fn lemma_position_is(rules: Seq<RuleView>, id: Seq<u8>, i: int)
    requires
        spec_distinct_ids(rules),
        0 <= i < rules.len(),
        rules[i].id == id,
    ensures
        spec_has_rule(rules, id),
        spec_position(rules, id) == i,
        spec_rule(rules, id) == Some(rules[i]),
{
    let j = spec_position(rules, id);
    assert(0 <= j < rules.len() && rules[j].id == id);
    if j < i {
        assert(rules[j].id != rules[i].id);
    }
    if i < j {
        assert(rules[i].id != rules[j].id);
    }
}

/// The model of the repository: the rules in index order, and the writes
/// that the durable store has not seen yet.
pub struct RepositoryView {
    pub rules: Seq<RuleView>,
    pub pending: Seq<StoreOpView>,
}

impl RepositoryView {
    /// The rule index: the identifiers of the rules, in order.
    pub open spec fn index(self) -> Seq<Seq<u8>> {
        spec_ids(self.rules)
    }

    pub open spec fn contains(self, id: Seq<u8>) -> bool {
        spec_has_rule(self.rules, id)
    }

    pub open spec fn rule(self, id: Seq<u8>) -> Option<RuleView> {
        spec_rule(self.rules, id)
    }

    /// The status that the rule with the identifier is stored with.
    pub open spec fn status_of(self, id: Seq<u8>) -> Option<RuleStatus> {
        match self.rule(id) {
            Some(rule) => Some(rule.status),
            None => None,
        }
    }

    /// The repository after `rule` was stored: in the place of the rule
    /// that had its identifier, or else at the end, which also writes the
    /// index anew. One flush makes the write durable.
    pub open spec fn put(self, rule: RuleView) -> RepositoryView {
        if self.contains(rule.id) {
            RepositoryView {
                rules: self.rules.update(spec_position(self.rules, rule.id), rule),
                pending: self.pending + seq![StoreOpView::PutRule(rule), StoreOpView::Flush],
            }
        } else {
            RepositoryView {
                rules: self.rules.push(rule),
                pending: self.pending + seq![
                    StoreOpView::PutRule(rule),
                    StoreOpView::PutIndex(spec_ids(self.rules.push(rule))),
                    StoreOpView::Flush,
                ],
            }
        }
    }

    /// The repository after the rule with the identifier was removed, if
    /// there was one: its key is removed and the index written anew.
    pub open spec fn without(self, id: Seq<u8>) -> RepositoryView {
        if self.contains(id) {
            let left = self.rules.remove(spec_position(self.rules, id));
            RepositoryView {
                rules: left,
                pending: self.pending + seq![
                    StoreOpView::RemoveRule(id),
                    StoreOpView::PutIndex(spec_ids(left)),
                    StoreOpView::Flush,
                ],
            }
        } else {
            self
        }
    }

    /// The repository after the status of a rule was set, if there is
    /// such a rule.
    pub open spec fn with_status(self, id: Seq<u8>, status: RuleStatus) -> RepositoryView {
        match self.rule(id) {
            Some(rule) => self.put(RuleView { status, ..rule }),
            None => self,
        }
    }

    /// The repository after the counters of a rule were set, if there is
    /// such a rule.
    pub open spec fn with_stats(self, id: Seq<u8>, stats: RuleStatsView) -> RepositoryView {
        match self.rule(id) {
            Some(rule) => self.put(RuleView { stats, ..rule }),
            None => self,
        }
    }

    /// The repository after a rule was enabled or disabled, which also
    /// marks it as stopped; if there is such a rule.
    pub open spec fn with_enabled(self, id: Seq<u8>, enabled: bool) -> RepositoryView {
        match self.rule(id) {
            Some(rule) => self.put(RuleView { enabled, status: RuleStatus::Stopped, ..rule }),
            None => self,
        }
    }
}

impl RepositoryView {
    /// Among rules with distinct identifiers, storing a rule leaves the
    /// identifiers as they are or adds the rule's at the end, makes the
    /// rule the one found under its identifier, and leaves what is found
    /// under any other identifier as it was.
    pub proof fn lemma_put(self, rule: RuleView)
        requires
            spec_distinct_ids(self.rules),
        ensures
            spec_distinct_ids(self.put(rule).rules),
            self.put(rule).rule(rule.id) == Some(rule),
            forall|other: Seq<u8>|
                other != rule.id ==> #[trigger] self.put(rule).rule(other) == self.rule(other),
            forall|other: Seq<u8>| #[trigger]
                self.put(rule).contains(other) <==> self.contains(other) || other == rule.id,
            self.contains(rule.id) ==> self.put(rule).index() == self.index(),
            !self.contains(rule.id) ==> self.put(rule).index() == self.index().push(rule.id),
    {
        let after = self.put(rule).rules;
        if self.contains(rule.id) {
            let at = spec_position(self.rules, rule.id);
            assert(after[at] == rule);
            assert forall|i: int, j: int| 0 <= i < j < after.len() implies (#[trigger] after[i]).id
                != (#[trigger] after[j]).id by {
                assert(self.rules[i].id == after[i].id);
                assert(self.rules[j].id == after[j].id);
            }
            lemma_position_is(after, rule.id, at);
            assert(spec_ids(after) =~= spec_ids(self.rules));
        } else {
            assert forall|i: int, j: int| 0 <= i < j < after.len() implies (#[trigger] after[i]).id
                != (#[trigger] after[j]).id by {
                assert(self.rules[i].id == after[i].id);
                if j < self.rules.len() {
                    assert(self.rules[j].id == after[j].id);
                }
            }
            lemma_position_is(after, rule.id, after.len() - 1);
            assert(spec_ids(after) =~= spec_ids(self.rules).push(rule.id));
        }
        assert forall|other: Seq<u8>| #[trigger]
            self.put(rule).contains(other) <==> self.contains(other) || other == rule.id by {
            if self.put(rule).contains(other) {
                let i = spec_position(after, other);
                if other != rule.id {
                    if i < self.rules.len() {
                        assert(self.rules[i].id == other);
                    }
                }
            }
            if self.contains(other) {
                let i = spec_position(self.rules, other);
                assert(after[i].id == other);
            }
        }
        assert forall|other: Seq<u8>| other != rule.id implies #[trigger] self.put(rule).rule(other)
            == self.rule(other) by {
            if self.contains(other) {
                let i = spec_position(self.rules, other);
                assert(after[i] == self.rules[i]);
                lemma_position_is(after, other, i);
            }
        }
    }

    /// Setting a rule's status changes that status, in the place where
    /// the rule stands, and nothing else.
    pub proof fn lemma_with_status_at(self, id: Seq<u8>, status: RuleStatus)
        requires
            spec_distinct_ids(self.rules),
        ensures
            spec_distinct_ids(self.with_status(id, status).rules),
            self.with_status(id, status).rules.len() == self.rules.len(),
            forall|i: int|
                0 <= i < self.rules.len() ==> #[trigger] self.with_status(id, status).rules[i]
                    == if self.rules[i].id == id {
                    RuleView { status, ..self.rules[i] }
                } else {
                    self.rules[i]
                },
    {
        if self.contains(id) {
            let at = spec_position(self.rules, id);
            let after = self.with_status(id, status).rules;
            assert(after == self.rules.update(at, RuleView { status, ..self.rules[at] }));
            assert forall|i: int| 0 <= i < self.rules.len() implies #[trigger] after[i]
                == if self.rules[i].id == id {
                RuleView { status, ..self.rules[i] }
            } else {
                self.rules[i]
            } by {
                if self.rules[i].id == id {
                    lemma_position_is(self.rules, id, i);
                }
            }
            assert forall|i: int, j: int| 0 <= i < j < after.len() implies (#[trigger] after[i]).id
                != (#[trigger] after[j]).id by {
                assert(self.rules[i].id == after[i].id);
                assert(self.rules[j].id == after[j].id);
            }
        } else {
            assert forall|i: int| 0 <= i < self.rules.len() implies self.rules[i].id != id by {
                if self.rules[i].id == id {
                    assert(self.contains(id));
                }
            }
        }
    }

    /// Setting a rule's status changes nothing else about the rules.
    pub proof fn lemma_with_status(self, id: Seq<u8>, status: RuleStatus)
        requires
            spec_distinct_ids(self.rules),
        ensures
            spec_distinct_ids(self.with_status(id, status).rules),
            self.with_status(id, status).index() == self.index(),
            self.with_status(id, status).rules.len() == self.rules.len(),
            forall|other: Seq<u8>| #[trigger]
                self.with_status(id, status).contains(other) <==> self.contains(other),
            forall|other: Seq<u8>|
                other != id ==> #[trigger] self.with_status(id, status).rule(other) == self.rule(
                    other,
                ),
            self.rule(id) matches Some(rule) ==> self.with_status(id, status).rule(id) == Some(
                RuleView { status, ..rule },
            ),
            self.rule(id) is None ==> self.with_status(id, status) == self,
    {
        match self.rule(id) {
            Some(rule) => {
                self.lemma_put(RuleView { status, ..rule });
                assert(spec_ids(self.with_status(id, status).rules).len() == spec_ids(
                    self.rules,
                ).len());
            },
            None => {},
        }
    }
}

/// The model of the durable store: what stands under the keys of the
/// rules, and what stands under the key of the index.
pub struct StoreView {
    pub records: Map<Seq<u8>, RuleView>,
    pub index: Seq<Seq<u8>>,
}

impl StoreView {
    /// The store after one write.
    pub open spec fn apply(self, op: StoreOpView) -> StoreView {
        match op {
            StoreOpView::PutRule(rule) => StoreView {
                records: self.records.insert(rule.id, rule),
                ..self
            },
            StoreOpView::PutIndex(ids) => StoreView { index: ids, ..self },
            StoreOpView::RemoveRule(id) => StoreView { records: self.records.remove(id), ..self },
            StoreOpView::Flush => self,
        }
    }

    /// The store after the writes, in their order.
    pub open spec fn replay(self, ops: Seq<StoreOpView>) -> StoreView
        decreases ops.len(),
    {
        if ops.len() == 0 {
            self
        } else {
            self.replay(ops.drop_last()).apply(ops.last())
        }
    }
}

impl RepositoryView {
    /// The store that is up to date with the repository: every rule
    /// under the key of its identifier, and the identifiers in their
    /// order under the key of the index.
    pub open spec fn store(self) -> StoreView {
        StoreView {
            records: Map::new(
                |id: Seq<u8>| self.contains(id),
                |id: Seq<u8>| self.rules[spec_position(self.rules, id)],
            ),
            index: self.index(),
        }
    }

    /// The writes that were added to the journal on the way from
    /// `earlier` to this repository.
    pub open spec fn written_since(self, earlier: RepositoryView) -> Seq<StoreOpView> {
        self.pending.skip(earlier.pending.len() as int)
    }

    /// The journal carries the store along: a store that is up to date
    /// with a repository is, after the writes that storing a rule adds
    /// to the journal, up to date with the repository that holds the
    /// rule.
    pub proof fn journal_follows_put(self, rule: RuleView)
        requires
            spec_distinct_ids(self.rules),
        ensures
            self.store().replay(self.put(rule).written_since(self)) == self.put(rule).store(),
    {
        self.lemma_put(rule);
        let after = self.put(rule);
        let written = after.written_since(self);
        if self.contains(rule.id) {
            assert(written =~= seq![StoreOpView::PutRule(rule), StoreOpView::Flush]);
            lemma_replay_two(self.store(), written);
            let end = self.store().replay(written);
            assert(end.records =~= after.store().records) by {
                assert forall|id: Seq<u8>| after.contains(id) implies #[trigger] end.records[id]
                    == after.store().records[id] by {
                    if id != rule.id {
                        assert(after.rule(id) == self.rule(id));
                    } else {
                        assert(after.rule(id) == Some(rule));
                    }
                }
            }
        } else {
            assert(written =~= seq![
                StoreOpView::PutRule(rule),
                StoreOpView::PutIndex(spec_ids(after.rules)),
                StoreOpView::Flush,
            ]);
            lemma_replay_three(self.store(), written);
            let end = self.store().replay(written);
            assert(end.records =~= after.store().records) by {
                assert forall|id: Seq<u8>| after.contains(id) implies #[trigger] end.records[id]
                    == after.store().records[id] by {
                    if id != rule.id {
                        assert(after.rule(id) == self.rule(id));
                    } else {
                        assert(after.rule(id) == Some(rule));
                    }
                }
            }
        }
    }

    /// The journal carries the store along: a store that is up to date
    /// with a repository is, after the writes that removing a rule adds
    /// to the journal, up to date with the repository without the rule.
    pub proof fn journal_follows_without(self, id: Seq<u8>)
        requires
            spec_distinct_ids(self.rules),
        ensures
            self.store().replay(self.without(id).written_since(self)) == self.without(id).store(),
            !self.without(id).contains(id),
            spec_distinct_ids(self.without(id).rules),
            forall|other: Seq<u8>|
                other != id ==> #[trigger] self.without(id).rule(other) == self.rule(other),
    {
        let after = self.without(id);
        let written = after.written_since(self);
        if self.contains(id) {
            let at = spec_position(self.rules, id);
            assert(after.rules == self.rules.remove(at));
            assert forall|k: int| 0 <= k < after.rules.len() implies (#[trigger] after.rules[k])
                == self.rules[if k < at {
                k
            } else {
                k + 1
            }] by {}
            assert forall|k: int, l: int| 0 <= k < l < after.rules.len() implies (
            #[trigger] after.rules[k]).id != (#[trigger] after.rules[l]).id by {
                let k0 = if k < at { k } else { k + 1 };
                let l0 = if l < at { l } else { l + 1 };
                assert(after.rules[k] == self.rules[k0]);
                assert(after.rules[l] == self.rules[l0]);
            }
            assert(!after.contains(id)) by {
                if after.contains(id) {
                    let k = spec_position(after.rules, id);
                    let k0 = if k < at { k } else { k + 1 };
                    assert(after.rules[k] == self.rules[k0]);
                    lemma_position_is(self.rules, id, k0);
                }
            }
            assert forall|other: Seq<u8>| other != id implies #[trigger] after.rule(other)
                == self.rule(other) by {
                if self.contains(other) {
                    let j = spec_position(self.rules, other);
                    let k = if j < at { j } else { j - 1 };
                    assert(after.rules[k] == self.rules[j]);
                    lemma_position_is(after.rules, other, k);
                }
                if after.contains(other) {
                    let k = spec_position(after.rules, other);
                    let k0 = if k < at { k } else { k + 1 };
                    assert(after.rules[k] == self.rules[k0]);
                    lemma_position_is(self.rules, other, k0);
                }
            }
            assert(written =~= seq![
                StoreOpView::RemoveRule(id),
                StoreOpView::PutIndex(spec_ids(after.rules)),
                StoreOpView::Flush,
            ]);
            lemma_replay_three(self.store(), written);
            let end = self.store().replay(written);
            assert(end.records =~= after.store().records) by {
                assert forall|other: Seq<u8>| #[trigger]
                    end.records.dom().contains(other) <==> after.store().records.dom().contains(
                        other,
                    ) by {
                    if other != id {
                        assert(after.rule(other) == self.rule(other));
                    }
                }
                assert forall|other: Seq<u8>| after.contains(other) implies #[trigger] end.records[other]
                    == after.store().records[other] by {
                    assert(after.rule(other) == self.rule(other));
                }
            }
        } else {
            assert(written =~= Seq::<StoreOpView>::empty());
            assert forall|other: Seq<u8>| other != id implies #[trigger] after.rule(other)
                == self.rule(other) by {}
        }
    }
}

/// Two writes are replayed one after the other.
pub proof fn lemma_replay_two(store: StoreView, ops: Seq<StoreOpView>)
    requires
        ops.len() == 2,
    ensures
        store.replay(ops) == store.apply(ops[0]).apply(ops[1]),
{
    let one = ops.drop_last();
    let none = one.drop_last();
    assert(none.len() == 0);
    assert(store.replay(none) == store);
    assert(one.last() == ops[0]);
    assert(store.replay(one) == store.replay(none).apply(one.last()));
    assert(store.replay(ops) == store.replay(one).apply(ops.last()));
}

/// Three writes are replayed one after the other.
pub proof fn lemma_replay_three(store: StoreView, ops: Seq<StoreOpView>)
    requires
        ops.len() == 3,
    ensures
        store.replay(ops) == store.apply(ops[0]).apply(ops[1]).apply(ops[2]),
{
    lemma_replay_two(store, ops.drop_last());
    assert(ops.drop_last()[0] == ops[0]);
    assert(ops.drop_last()[1] == ops[1]);
    assert(store.replay(ops) == store.replay(ops.drop_last()).apply(ops.last()));
}

/// The rule repository.
pub struct RuleDataAccessLayer {
    rules: Vec<Rule>,
    pending: Vec<StoreOp>,
}

impl View for RuleDataAccessLayer {
    type V = RepositoryView;

    closed spec fn view(&self) -> RepositoryView {
        RepositoryView {
            rules: self.rules@.map_values(|rule: Rule| rule@),
            pending: self.pending@.map_values(|op: StoreOp| op@),
        }
    }
}

/// The rules without those whose identifier an earlier one has.
pub open spec fn spec_first_of_each(rules: Seq<RuleView>) -> Seq<RuleView>
    decreases rules.len(),
{
    if rules.len() == 0 {
        Seq::empty()
    } else {
        let head = spec_first_of_each(rules.drop_last());
        if spec_has_rule(head, rules.last().id) {
            head
        } else {
            head.push(rules.last())
        }
    }
}

/// The error for an identifier that no rule has.
pub open spec fn spec_not_found(id: Seq<u8>) -> ErrorView {
    ErrorView::NotFound(spec_uuid_text(id))
}

fn not_found(id: &CompactUuid) -> (error: Error)
    ensures
        error@ == spec_not_found(id@),
{
    Error::NotFound(id.to_text())
}

/// The identifiers of the rules, in their order.
fn ids_of(rules: &Vec<Rule>) -> (ids: Vec<CompactUuid>)
    ensures
        ids@.map_values(|id: CompactUuid| id@) == spec_ids(rules@.map_values(|rule: Rule| rule@)),
{
    let mut ids: Vec<CompactUuid> = Vec::new();
    let mut i: usize = 0;
    while i < rules.len()
        invariant
            i <= rules.len(),
            ids@.len() == i,
            forall|k: int| 0 <= k < i ==> (#[trigger] ids@[k])@ == rules@[k]@.id,
        decreases rules.len() - i,
    {
        ids.push(rules[i].id);
        i += 1;
    }
    assert(ids@.map_values(|id: CompactUuid| id@) =~= spec_ids(
        rules@.map_values(|rule: Rule| rule@),
    ));
    ids
}

impl RuleDataAccessLayer {
    /// Every rule is stored under an identifier of its own.
    #[verifier::type_invariant]
    pub closed spec fn wf(self) -> bool {
        spec_distinct_ids(self.rules@.map_values(|rule: Rule| rule@))
    }

    /// Every rule of a repository is stored under an identifier of its
    /// own.
    pub proof fn lemma_distinct(&self)
        requires
            self.wf(),
        ensures
            spec_distinct_ids(self@.rules),
    {
    }

    /// A repository without rules.
    pub fn new() -> (repository: Self)
        ensures
            repository@.rules.len() == 0,
            repository@.pending.len() == 0,
    {
        RuleDataAccessLayer { rules: Vec::new(), pending: Vec::new() }
    }

    /// A repository of the rules that a durable store was found to hold,
    /// in the order of its index. Of rules that share an identifier, the
    /// first is kept. Nothing is to be written.
    pub fn restore(rules: Vec<Rule>) -> (repository: Self)
        ensures
            repository@.rules == spec_first_of_each(rules@.map_values(|rule: Rule| rule@)),
            repository@.pending.len() == 0,
    {
        let ghost given = rules@.map_values(|rule: Rule| rule@);
        let mut repository = RuleDataAccessLayer::new();
        assert(repository@.rules =~= spec_first_of_each(given.take(0)));
        let mut i: usize = 0;
        while i < rules.len()
            invariant
                i <= rules.len(),
                given == rules@.map_values(|rule: Rule| rule@),
                repository@.rules == spec_first_of_each(given.take(i as int)),
            decreases rules.len() - i,
        {
            proof {
                assert(given.take(i + 1).drop_last() =~= given.take(i as int));
                assert(given.take(i + 1).last() == rules@[i as int]@);
            }
            if repository.position(&rules[i].id).is_none() {
                repository.store(rules[i].clone());
            }
            i += 1;
        }
        assert(given.take(i as int) =~= given);
        repository.take_pending();
        repository
    }

    /// The writes that the durable store has not seen yet, oldest first.
    /// They are handed out once.
    pub fn take_pending(&mut self) -> (ops: Vec<StoreOp>)
        ensures
            ops@.map_values(|op: StoreOp| op@) == old(self)@.pending,
            final(self)@.rules == old(self)@.rules,
            final(self)@.pending.len() == 0,
    {
        let mut fresh = RuleDataAccessLayer::new();
        proof {
            use_type_invariant(&*self);
        }
        core::mem::swap(self, &mut fresh);
        let RuleDataAccessLayer { rules, pending } = fresh;
        self.rules = rules;
        pending
    }

    /// Puts writes that were taken and could not be applied back at the
    /// head of the journal, in their order, so that they are handed out
    /// again before any later write. The rules stay as they are.
    pub fn put_back(&mut self, ops: Vec<StoreOp>)
        ensures
            final(self)@.rules == old(self)@.rules,
            final(self)@.pending == ops@.map_values(|op: StoreOp| op@) + old(self)@.pending,
    {
        let mut fresh = RuleDataAccessLayer::new();
        proof {
            use_type_invariant(&*self);
        }
        core::mem::swap(self, &mut fresh);
        let RuleDataAccessLayer { rules, mut pending } = fresh;
        let ghost later = pending@;
        let mut journal = ops;
        journal.append(&mut pending);
        assert(journal@.map_values(|op: StoreOp| op@) =~= ops@.map_values(|op: StoreOp| op@)
            + later.map_values(|op: StoreOp| op@));
        self.rules = rules;
        self.pending = journal;
    }

    /// Where the rule with the identifier stands.
    fn position(&self, id: &CompactUuid) -> (found: Option<usize>)
        ensures
            spec_distinct_ids(self@.rules),
            match found {
                Some(i) => i < self@.rules.len() && self@.rules[i as int].id == id@
                    && spec_position(self@.rules, id@) == i && self@.contains(id@),
                None => !self@.contains(id@),
            },
    {
        proof {
            use_type_invariant(self);
        }
        let mut i: usize = 0;
        while i < self.rules.len()
            invariant
                i <= self.rules.len(),
                spec_distinct_ids(self@.rules),
                forall|k: int| 0 <= k < i ==> (#[trigger] self@.rules[k]).id != id@,
            decreases self.rules.len() - i,
        {
            if self.rules[i].id.same(id) {
                proof {
                    lemma_position_is(self@.rules, id@, i as int);
                }
                return Some(i);
            }
            i += 1;
        }
        None
    }

    /// Stores `rule` in the place of the rule that has its identifier, or
    /// else at the end.
    fn store(&mut self, rule: Rule)
        ensures
            final(self)@ == old(self)@.put(rule@),
    {
        let found = self.position(&rule.id);
        let mut fresh = RuleDataAccessLayer::new();
        core::mem::swap(self, &mut fresh);
        let RuleDataAccessLayer { mut rules, mut pending } = fresh;
        let ghost before = rules@.map_values(|rule: Rule| rule@);
        let ghost journal = pending@.map_values(|op: StoreOp| op@);
        pending.push(StoreOp::PutRule(rule.clone()));
        match found {
            Some(i) => {
                rules.set(i, rule);
                pending.push(StoreOp::Flush);
                proof {
                    let after = rules@.map_values(|rule: Rule| rule@);
                    assert(after =~= before.update(i as int, rule@));
                    assert(pending@.map_values(|op: StoreOp| op@) =~= journal + seq![
                        StoreOpView::PutRule(rule@),
                        StoreOpView::Flush,
                    ]);
                }
            },
            None => {
                rules.push(rule);
                pending.push(StoreOp::PutIndex(ids_of(&rules)));
                pending.push(StoreOp::Flush);
                proof {
                    let after = rules@.map_values(|rule: Rule| rule@);
                    assert(after =~= before.push(rule@));
                    assert forall|i: int, j: int| 0 <= i < j < after.len() implies (
                    #[trigger] after[i]).id != (#[trigger] after[j]).id by {
                        assert(before[i].id == after[i].id);
                        if j < before.len() {
                            assert(before[j].id == after[j].id);
                        }
                    }
                    assert(pending@.map_values(|op: StoreOp| op@) =~= journal + seq![
                        StoreOpView::PutRule(rule@),
                        StoreOpView::PutIndex(spec_ids(after)),
                        StoreOpView::Flush,
                    ]);
                }
            },
        }
        self.rules = rules;
        self.pending = pending;
    }

    /// The rules, in the order of the rule index.
    pub fn find_all(&self) -> (found: Result<Vec<Rule>, Error>)
        ensures
            found matches Ok(rules) && rules@.map_values(|rule: Rule| rule@) == self@.rules
                && spec_ids(rules@.map_values(|rule: Rule| rule@)) == self@.index(),
    {
        let mut rules: Vec<Rule> = Vec::new();
        let mut i: usize = 0;
        while i < self.rules.len()
            invariant
                i <= self.rules.len(),
                rules@.len() == i,
                rules@.map_values(|rule: Rule| rule@) == self@.rules.take(i as int),
            decreases self.rules.len() - i,
        {
            let ghost copied = rules@.map_values(|rule: Rule| rule@);
            let rule = self.rules[i].clone();
            rules.push(rule);
            proof {
                let next = rules@.map_values(|rule: Rule| rule@);
                assert(next.len() == i + 1);
                assert forall|k: int| 0 <= k < i + 1 implies next[k] == self@.rules.take(i + 1)[k] by {
                    if k < i {
                        assert(next[k] == copied[k]);
                        assert(copied[k] == self@.rules.take(i as int)[k]);
                    }
                }
                assert(next =~= self@.rules.take(i + 1));
            }
            i += 1;
        }
        assert(self@.rules.take(i as int) =~= self@.rules);
        Ok(rules)
    }

    /// The identifiers of the rules: the rule index.
    pub fn index(&self) -> (ids: Vec<CompactUuid>)
        ensures
            ids@.map_values(|id: CompactUuid| id@) == self@.index(),
    {
        ids_of(&self.rules)
    }

    /// The rule with the identifier, if there is one.
    pub fn find_by_id(&self, id: CompactUuid) -> (found: Result<Option<Rule>, Error>)
        ensures
            found matches Ok(rule) && match rule {
                Some(rule) => self@.rule(id@) == Some(rule@),
                None => self@.rule(id@) is None,
            },
    {
        match self.position(&id) {
            Some(i) => Ok(Some(self.rules[i].clone())),
            None => Ok(None),
        }
    }

    /// The number of rules.
    pub fn count(&self) -> (counted: Result<u64, Error>)
        ensures
            counted == Ok::<u64, Error>(self@.rules.len() as u64),
    {
        Ok(self.rules.len() as u64)
    }

    /// Makes a rule from `params` under the identifier `id` and stores
    /// it. The rule starts without counters and, unless `params` say
    /// otherwise, without limits, not enabled, stopped and without
    /// remarks. A rule that had the identifier is replaced where it
    /// stands; otherwise the rule is entered at the end of the index.
    pub fn create_with(&mut self, id: CompactUuid, params: CreateRuleParams) -> (created: Result<
        Rule,
        Error,
    >)
        ensures
            created matches Ok(rule) && rule@ == params@.rule(id@),
            final(self)@ == old(self)@.put(params@.rule(id@)),
    {
        let rule = Rule {
            id,
            name: params.name,
            listen: params.listen,
            target: params.target,
            protocol: params.protocol,
            config: match params.config {
                Some(config) => config,
                None => RuleConfig::default(),
            },
            enabled: match params.enabled {
                Some(enabled) => enabled,
                None => false,
            },
            status: match params.status {
                Some(status) => status,
                None => RuleStatus::default(),
            },
            stats: RuleStats::default(),
            remarks: match params.remarks {
                Some(remarks) => remarks,
                None => String::new(),
            },
        };
        self.store(rule.clone());
        Ok(rule)
    }

    /// Makes a rule from `params` under a new time-ordered identifier (of
    /// version 7) and stores it, as [`Self::create_with`] does under a
    /// given one.
    pub fn create(&mut self, params: CreateRuleParams) -> (created: Result<Rule, Error>)
        ensures
            created matches Ok(rule) && rule@ == params@.rule(rule@.id) && final(self)@ == old(
                self,
            )@.put(rule@) && rule@.id.len() == 16 && rule@.id[6] / 16 == 7 && rule@.id[8] / 64
                == 2,
    {
        let id = CompactUuid::generate();
        self.create_with(id, params)
    }

    /// Replaces the fields of the rule that `params` name. Fails with
    /// `NotFound`, and changes nothing, exactly when no rule has the
    /// identifier.
    pub fn update(&mut self, id: CompactUuid, params: UpdateRuleParams) -> (updated: Result<
        Rule,
        Error,
    >)
        ensures
            match old(self)@.rule(id@) {
                Some(rule) => {
                    &&& updated matches Ok(patched) && patched@ == params@.apply(rule)
                    &&& final(self)@ == old(self)@.put(params@.apply(rule))
                },
                None => {
                    &&& updated matches Err(error) && error@ == spec_not_found(id@)
                    &&& final(self)@ == old(self)@
                },
            },
    {
        match self.position(&id) {
            None => Err(not_found(&id)),
            Some(i) => {
                let current = &self.rules[i];
                let rule = Rule {
                    id: current.id,
                    name: match params.name {
                        Some(name) => name,
                        None => current.name.clone(),
                    },
                    listen: match params.listen {
                        Some(listen) => listen,
                        None => current.listen,
                    },
                    target: match params.target {
                        Some(target) => target,
                        None => current.target.clone(),
                    },
                    protocol: match params.protocol {
                        Some(protocol) => protocol,
                        None => current.protocol,
                    },
                    config: match params.config {
                        Some(config) => config,
                        None => current.config,
                    },
                    enabled: match params.enabled {
                        Some(enabled) => enabled,
                        None => current.enabled,
                    },
                    status: match params.status {
                        Some(status) => status,
                        None => current.status,
                    },
                    stats: current.stats.clone(),
                    remarks: match params.remarks {
                        Some(remarks) => remarks,
                        None => current.remarks.clone(),
                    },
                };
                self.store(rule.clone());
                Ok(rule)
            },
        }
    }

    /// Sets the status of a rule. Fails with `NotFound`, and changes
    /// nothing, exactly when no rule has the identifier.
    pub fn update_status(&mut self, id: CompactUuid, status: RuleStatus) -> (updated: Result<
        (),
        Error,
    >)
        ensures
            final(self)@ == old(self)@.with_status(id@, status),
            match updated {
                Ok(_) => old(self)@.contains(id@),
                Err(error) => !old(self)@.contains(id@) && error@ == spec_not_found(id@),
            },
    {
        match self.position(&id) {
            None => Err(not_found(&id)),
            Some(i) => {
                let mut rule = self.rules[i].clone();
                rule.status = status;
                self.store(rule);
                Ok(())
            },
        }
    }

    /// Sets the counters of a rule. Fails with `NotFound`, and changes
    /// nothing, exactly when no rule has the identifier.
    pub fn update_stats(&mut self, id: CompactUuid, stats: RuleStats) -> (updated: Result<
        (),
        Error,
    >)
        ensures
            final(self)@ == old(self)@.with_stats(id@, stats@),
            match updated {
                Ok(_) => old(self)@.contains(id@),
                Err(error) => !old(self)@.contains(id@) && error@ == spec_not_found(id@),
            },
    {
        match self.position(&id) {
            None => Err(not_found(&id)),
            Some(i) => {
                let mut rule = self.rules[i].clone();
                rule.stats = stats;
                self.store(rule);
                Ok(())
            },
        }
    }

    /// Enables a rule and marks it as stopped, so that the manager starts
    /// it anew. Fails with `NotFound`, and changes nothing, exactly when
    /// no rule has the identifier.
    pub fn enable(&mut self, id: CompactUuid) -> (updated: Result<(), Error>)
        ensures
            final(self)@ == old(self)@.with_enabled(id@, true),
            match updated {
                Ok(_) => old(self)@.contains(id@),
                Err(error) => !old(self)@.contains(id@) && error@ == spec_not_found(id@),
            },
    {
        self.set_enabled(id, true)
    }

    /// Disables a rule and marks it as stopped. Fails with `NotFound`,
    /// and changes nothing, exactly when no rule has the identifier.
    pub fn disable(&mut self, id: CompactUuid) -> (updated: Result<(), Error>)
        ensures
            final(self)@ == old(self)@.with_enabled(id@, false),
            match updated {
                Ok(_) => old(self)@.contains(id@),
                Err(error) => !old(self)@.contains(id@) && error@ == spec_not_found(id@),
            },
    {
        self.set_enabled(id, false)
    }

    fn set_enabled(&mut self, id: CompactUuid, enabled: bool) -> (updated: Result<(), Error>)
        ensures
            final(self)@ == old(self)@.with_enabled(id@, enabled),
            match updated {
                Ok(_) => old(self)@.contains(id@),
                Err(error) => !old(self)@.contains(id@) && error@ == spec_not_found(id@),
            },
    {
        match self.position(&id) {
            None => Err(not_found(&id)),
            Some(i) => {
                let mut rule = self.rules[i].clone();
                rule.enabled = enabled;
                rule.status = RuleStatus::Stopped;
                self.store(rule);
                Ok(())
            },
        }
    }

    /// Removes the rule with the identifier from the repository and from
    /// the index. Returns whether there was one.
    pub fn delete(&mut self, id: CompactUuid) -> (deleted: Result<bool, Error>)
        ensures
            deleted == Ok::<bool, Error>(old(self)@.contains(id@)),
            final(self)@ == old(self)@.without(id@),
            !final(self)@.contains(id@),
    {
        match self.position(&id) {
            None => Ok(false),
            Some(i) => {
                let mut fresh = RuleDataAccessLayer::new();
                core::mem::swap(self, &mut fresh);
                let RuleDataAccessLayer { mut rules, mut pending } = fresh;
                let ghost before = rules@.map_values(|rule: Rule| rule@);
                let ghost journal = pending@.map_values(|op: StoreOp| op@);
                rules.remove(i);
                pending.push(StoreOp::RemoveRule(id));
                pending.push(StoreOp::PutIndex(ids_of(&rules)));
                pending.push(StoreOp::Flush);
                proof {
                    let after = rules@.map_values(|rule: Rule| rule@);
                    assert(after =~= before.remove(i as int));
                    assert forall|k: int| 0 <= k < after.len() implies (#[trigger] after[k]).id
                        != id@ by {
                        if k < i {
                            assert(after[k] == before[k]);
                        } else {
                            assert(after[k] == before[k + 1]);
                        }
                    }
                    assert forall|k: int, l: int| 0 <= k < l < after.len() implies (
                    #[trigger] after[k]).id != (#[trigger] after[l]).id by {
                        let k0 = if k < i { k } else { k + 1 };
                        let l0 = if l < i { l } else { l + 1 };
                        assert(after[k] == before[k0]);
                        assert(after[l] == before[l0]);
                    }
                    assert(pending@.map_values(|op: StoreOp| op@) =~= journal + seq![
                        StoreOpView::RemoveRule(id@),
                        StoreOpView::PutIndex(spec_ids(after)),
                        StoreOpView::Flush,
                    ]);
                }
                self.rules = rules;
                self.pending = pending;
                Ok(true)
            },
        }
    }
}

} // verus!
