//! The forward manager: the control loop that brings the running
//! forwarders in line with the stored rules.
//!
//! The manager owns the repository, the live counters, the list of rules
//! it supervises with the digest each was started with, and the table of
//! registered tasks. It starts and stops no forwarder itself: it gives
//! commands, which the caller takes and carries out in order, and it
//! hears from the caller what the forwarders report.

use crate::cli::AgentConfig;
use crate::dal::rule::{
    lemma_position_is, spec_distinct_ids, spec_has_rule, spec_position, Error, ErrorView,
    RepositoryView,
};
use crate::dal::DataAccessLayer;
use crate::data::generic::CompactUuid;
use crate::data::rule::{RuleStats, RuleStatsView, RuleStatus};
use crate::forward::cache::{
    spec_entry_views, spec_lists, spec_no_counters, StatsCache, STATS_CACHE_CAPACITY,
};
use crate::forward::stats::ForwarderEvent;
use crate::forward::supervision::{
    lemma_counters_apart, spec_caps_effective, spec_stored_enabled, spec_stored_wanted,
    spec_tasks_accounted, spec_tasks_current,
};
use crate::forward::task::{
    spec_has_task, spec_one_task_each, spec_with_task, spec_without_task, ForwardTask,
    ForwardTaskView, TaskCommand, TaskCommandView, TaskTable,
};
use crate::forward::tcp::{effective_connection_limit, spec_effective_limit};
use crate::model::rule::{Rule, RuleView};
use vstd::prelude::*;
use vstd::string::StringExecFns;

verus! {

/// Seconds between two reconcile ticks.
pub const POLL_INTERVAL_SECS: u64 = 1;

/// Seconds between two reconcile ticks of a debug build.
pub const DEBUG_POLL_INTERVAL_SECS: u64 = 5;

/// A rule under supervision, with the digest it had when the manager
/// last looked.
#[derive(Copy, Clone, Debug, PartialEq, Eq)]
pub struct Supervised {
    pub id: CompactUuid,
    pub digest: u64,
}

pub struct SupervisedView {
    pub id: Seq<u8>,
    pub digest: u64,
}

impl View for Supervised {
    type V = SupervisedView;

    open spec fn view(&self) -> SupervisedView {
        SupervisedView { id: self.id@, digest: self.digest }
    }
}

/// Whether the rule is on the list of supervised rules.
pub open spec fn spec_supervises(rules: Seq<SupervisedView>, id: Seq<u8>) -> bool {
    exists|i: int| 0 <= i < rules.len() && (#[trigger] rules[i]).id == id
}

/// The test for an entry of another rule than the one with the id.
pub open spec fn spec_of_another(id: Seq<u8>) -> spec_fn(SupervisedView) -> bool {
    |entry: SupervisedView| entry.id != id
}

/// The list of supervised rules without the rule.
pub open spec fn spec_unsupervised(rules: Seq<SupervisedView>, id: Seq<u8>) -> Seq<SupervisedView> {
    rules.filter(spec_of_another(id))
}

/// The digest that the list holds for the rule, if the rule is on it:
/// that of its first entry.
pub open spec fn spec_digest_of(rules: Seq<SupervisedView>, id: Seq<u8>) -> Option<u64>
    decreases rules.len(),
{
    if rules.len() == 0 {
        None
    } else if rules[0].id == id {
        Some(rules[0].digest)
    } else {
        spec_digest_of(rules.drop_first(), id)
    }
}

/// What a tick sees of a stored rule: who it is, what the operator wants
/// of it, how it last fared, and the digest of its config material.
#[derive(Copy, Clone, Debug, PartialEq, Eq)]
pub struct ObservedRule {
    pub id: CompactUuid,
    pub enabled: bool,
    pub status: RuleStatus,
    pub digest: u64,
}

pub struct ObservedRuleView {
    pub id: Seq<u8>,
    pub enabled: bool,
    pub status: RuleStatus,
    pub digest: u64,
}

impl View for ObservedRule {
    type V = ObservedRuleView;

    open spec fn view(&self) -> ObservedRuleView {
        ObservedRuleView {
            id: self.id@,
            enabled: self.enabled,
            status: self.status,
            digest: self.digest,
        }
    }
}

impl ObservedRuleView {
    /// Whether the manager wants a forwarder for the rule.
    pub open spec fn wanted(self) -> bool {
        self.enabled && self.status != RuleStatus::Error
    }
}

/// What a tick sees of the stored rules, where `digests` are the digests
/// of their config material, one for each.
pub open spec fn spec_observation(rules: Seq<RuleView>, digests: Seq<u64>) -> Seq<
    ObservedRuleView,
>
    recommends
        digests.len() == rules.len(),
{
    Seq::new(
        rules.len(),
        |i: int|
            ObservedRuleView {
                id: rules[i].id,
                enabled: rules[i].enabled,
                status: rules[i].status,
                digest: digests[i],
            },
    )
}

/// Whether the rule was seen, and seen enabled.
pub open spec fn spec_seen_enabled(observed: Seq<ObservedRuleView>, id: Seq<u8>) -> bool {
    exists|i: int| 0 <= i < observed.len() && (#[trigger] observed[i]).id == id && observed[i].enabled
}

/// Whether the rule was seen, and seen wanted.
pub open spec fn spec_seen_wanted(observed: Seq<ObservedRuleView>, id: Seq<u8>) -> bool {
    exists|i: int|
        0 <= i < observed.len() && (#[trigger] observed[i]).id == id && observed[i].wanted()
}

/// The entry of a wanted rule on the supervised list; an unwanted rule
/// has none.
pub open spec fn spec_entry_of() -> spec_fn(ObservedRuleView) -> Option<SupervisedView> {
    |rule: ObservedRuleView|
        if rule.wanted() {
            Some(SupervisedView { id: rule.id, digest: rule.digest })
        } else {
            None
        }
}

/// The supervised list after a tick: the wanted rules among those seen,
/// in the order seen, each with the digest seen.
pub open spec fn spec_wanted(observed: Seq<ObservedRuleView>) -> Seq<SupervisedView> {
    observed.filter_map(spec_entry_of())
}

/// The live counters that a starting manager takes over from the stored
/// rules: for each rule the cumulative counters it is stored with.
pub open spec fn spec_carried_stats(rules: Seq<RuleView>) -> Map<Seq<u8>, RuleStatsView> {
    Map::new(
        |id: Seq<u8>| spec_has_rule(rules, id),
        |id: Seq<u8>| rules[spec_position(rules, id)].stats.carried_over(),
    )
}

/// The repository after the listed counters were stored, one after the
/// other, each with the rule it belongs to; counters of a rule that is
/// not stored are passed over.
pub open spec fn spec_flushed(
    repository: RepositoryView,
    entries: Seq<(CompactUuid, RuleStatsView)>,
) -> RepositoryView
    decreases entries.len(),
{
    if entries.len() == 0 {
        repository
    } else {
        spec_flushed(repository, entries.drop_last()).with_stats(
            entries.last().0@,
            entries.last().1,
        )
    }
}

/// The error of a request that names a rule the manager cannot act on.
pub open spec fn spec_rule_not_found() -> ErrorView {
    ErrorView::Logics("rule not found"@)
}

/// The error of a request to start a rule that is not enabled.
pub open spec fn spec_rule_disabled() -> ErrorView {
    ErrorView::Logics("rule is disabled"@)
}

/// The model of the manager.
pub struct ManagerView {
    /// The repository.
    pub repository: RepositoryView,
    /// The supervised rules, in the order of the rule index at the last
    /// tick.
    pub rules: Seq<SupervisedView>,
    /// The registered tasks.
    pub tasks: Seq<ForwardTaskView>,
    /// The commands that the caller has not taken yet, oldest first.
    pub commands: Seq<TaskCommandView>,
    /// The live counters.
    pub stats: Map<Seq<u8>, RuleStatsView>,
    /// The agent's settings.
    pub config: AgentConfig,
}

impl ManagerView {
    /// The task that the rule's forwarder is started with.
    pub open spec fn task_for(self, rule: RuleView) -> ForwardTaskView {
        ForwardTaskView {
            rule,
            connections_limit: spec_effective_limit(
                rule.config.connections,
                self.config.connections_limit,
            ),
        }
    }

    /// The commands once the abort of the rule's task, if it has one, is
    /// commanded.
    pub open spec fn aborting(self, id: Seq<u8>) -> Seq<TaskCommandView> {
        if spec_has_task(self.tasks, id) {
            self.commands.push(TaskCommandView::Abort(id))
        } else {
            self.commands
        }
    }

    /// The manager after it stopped the rule: the stored status is
    /// `Stopped` if the rule is stored, the rule is off the supervised
    /// list and has no task, and the abort of the task it had is
    /// commanded.
    pub open spec fn stopped(self, id: Seq<u8>) -> ManagerView {
        ManagerView {
            repository: self.repository.with_status(id, RuleStatus::Stopped),
            rules: spec_unsupervised(self.rules, id),
            tasks: spec_without_task(self.tasks, id),
            commands: self.aborting(id),
            ..self
        }
    }

    /// Whether the manager can start the rule: it is stored and enabled.
    pub open spec fn can_start(self, id: Seq<u8>) -> bool {
        self.repository.rule(id) matches Some(rule) && rule.enabled
    }

    /// The manager after it started the rule, if it can: the task is
    /// registered in the place of the one the rule had, the abort of
    /// that one and then the start of the new one are commanded, and the
    /// stored status is `Running`. So a rule never has two forwarders.
    pub open spec fn started(self, id: Seq<u8>) -> ManagerView {
        match self.repository.rule(id) {
            Some(rule) => if rule.enabled {
                ManagerView {
                    repository: self.repository.with_status(id, RuleStatus::Running),
                    tasks: spec_with_task(self.tasks, self.task_for(rule)),
                    commands: self.aborting(id).push(TaskCommandView::Spawn(self.task_for(rule))),
                    ..self
                }
            } else {
                self
            },
            None => self,
        }
    }

    /// The manager after a restart of the rule: stopped, and started
    /// again if there was a task to stop.
    pub open spec fn restarted(self, id: Seq<u8>) -> ManagerView {
        if spec_has_task(self.tasks, id) {
            self.stopped(id).started(id)
        } else {
            self.stopped(id)
        }
    }

    /// The manager after the first step of a tick over the supervised
    /// rules `supervised`: each of them that was not seen enabled (it was
    /// deleted, or disabled) is stopped, in the order of the list.
    pub open spec fn stop_unwanted(
        self,
        supervised: Seq<SupervisedView>,
        observed: Seq<ObservedRuleView>,
    ) -> ManagerView
        decreases supervised.len(),
    {
        if supervised.len() == 0 {
            self
        } else {
            let before = self.stop_unwanted(supervised.drop_last(), observed);
            if spec_seen_enabled(observed, supervised.last().id) {
                before
            } else {
                before.stopped(supervised.last().id)
            }
        }
    }

    /// The manager after the second step of a tick for one rule seen: a
    /// wanted rule that is not supervised is started; one that is
    /// supervised under another digest is stopped and then started; any
    /// other rule is left alone.
    pub open spec fn reconciled_with(self, rule: ObservedRuleView) -> ManagerView {
        if !rule.wanted() {
            self
        } else if !spec_supervises(self.rules, rule.id) {
            self.started(rule.id)
        } else if spec_digest_of(self.rules, rule.id) != Some(rule.digest) {
            self.stopped(rule.id).started(rule.id)
        } else {
            self
        }
    }

    /// The manager after the second step of a tick over the rules seen,
    /// in the order seen.
    pub open spec fn start_wanted(self, observed: Seq<ObservedRuleView>) -> ManagerView
        decreases observed.len(),
    {
        if observed.len() == 0 {
            self
        } else {
            self.start_wanted(observed.drop_last()).reconciled_with(observed.last())
        }
    }

    /// The manager after a tick that saw `observed`: supervised rules
    /// that are no longer wanted are stopped, then wanted rules that are
    /// new or changed are started, and then the supervised list is the
    /// list of the wanted rules.
    pub open spec fn reconciled(self, observed: Seq<ObservedRuleView>) -> ManagerView {
        ManagerView {
            rules: spec_wanted(observed),
            ..self.stop_unwanted(self.rules, observed).start_wanted(observed)
        }
    }

    /// The live counters of a rule; a rule without any counts as one
    /// whose counters are all zero.
    pub open spec fn counters(self, id: Seq<u8>) -> RuleStatsView {
        if self.stats.contains_key(id) {
            self.stats[id]
        } else {
            RuleStatsView::zero()
        }
    }

    /// The manager with these live counters for the rule.
    pub open spec fn with_counters(self, id: Seq<u8>, stats: RuleStatsView) -> ManagerView {
        ManagerView { stats: self.stats.insert(id, stats), ..self }
    }

    /// The live counters of the supervised rules.
    pub open spec fn supervised_stats(self) -> Map<Seq<u8>, RuleStatsView> {
        self.stats.restrict(Set::new(|id: Seq<u8>| spec_supervises(self.rules, id)))
    }

    /// The live counters after a reset of those of the supervised rules.
    pub open spec fn reset_supervised_stats(self) -> Map<Seq<u8>, RuleStatsView> {
        Map::new(
            |id: Seq<u8>| self.stats.contains_key(id),
            |id: Seq<u8>|
                if spec_supervises(self.rules, id) {
                    RuleStatsView::zero()
                } else {
                    self.stats[id]
                },
        )
    }

    /// The manager after a forwarder's report about the rule, as far as
    /// the live counters take it: a failure to bind puts the stored rule
    /// into `Error`, and every report changes the live counters.
    pub open spec fn reported(self, id: Seq<u8>, event: ForwarderEvent) -> ManagerView {
        ManagerView {
            repository: if event is BindFailed {
                self.repository.with_status(id, RuleStatus::Error)
            } else {
                self.repository
            },
            stats: self.stats.insert(id, event.counters_after(self.counters(id))),
            ..self
        }
    }

    /// The manager after a tick in which the live counters were stored
    /// in the order of `entries` and the stored rules were then seen with
    /// the digests `digests`.
    pub open spec fn ticked(
        self,
        entries: Seq<(CompactUuid, RuleStatsView)>,
        digests: Seq<u64>,
    ) -> ManagerView {
        let flushed = ManagerView { repository: spec_flushed(self.repository, entries), ..self };
        flushed.reconciled(spec_observation(flushed.repository.rules, digests))
    }

    /// A manager that has just been made for the repository: it
    /// supervises nothing and has no counters yet.
    pub open spec fn initial(repository: RepositoryView, config: AgentConfig) -> ManagerView {
        ManagerView {
            repository,
            rules: Seq::empty(),
            tasks: Seq::empty(),
            commands: Seq::empty(),
            stats: Map::empty(),
            config,
        }
    }

    /// Whether every rule on the supervised list is stored, enabled and
    /// not in `Error`.
    pub open spec fn supervises_wanted_rules(self) -> bool {
        forall|i: int|
            0 <= i < self.rules.len() ==> self.repository.rule((#[trigger] self.rules[i]).id)
                is Some && self.repository.rule(self.rules[i].id)->0.wanted()
    }

    /// Whether every registered task belongs to a rule on the supervised
    /// list.
    pub open spec fn tasks_supervised(self) -> bool {
        forall|i: int|
            0 <= i < self.tasks.len() ==> spec_supervises(
                self.rules,
                (#[trigger] self.tasks[i]).rule.id,
            )
    }

    /// The stored rules of the supervised list, in its order. A rule that
    /// is no longer stored is left out.
    pub open spec fn supervised_rules(self) -> Seq<RuleView> {
        self.rules.filter_map(|entry: SupervisedView| self.repository.rule(entry.id))
    }
}

/// A listing of counters has as many entries as there are counters.
pub proof fn lemma_listing_len(
    entries: Seq<(CompactUuid, RuleStatsView)>,
    counters: Map<Seq<u8>, RuleStatsView>,
)
    requires
        spec_lists(entries, counters),
    ensures
        counters.dom().finite(),
        counters.len() == entries.len(),
    decreases entries.len(),
{
    if entries.len() == 0 {
        assert(counters.dom() =~= Set::<Seq<u8>>::empty());
    } else {
        let last = entries.last();
        let rest = entries.drop_last();
        let fewer = counters.remove(last.0@);
        assert(spec_lists(rest, fewer)) by {
            assert forall|i: int| 0 <= i < rest.len() implies fewer.contains_key(
                (#[trigger] rest[i]).0@,
            ) && fewer[rest[i].0@] == rest[i].1 by {
                assert(rest[i] == entries[i]);
                assert(entries[i].0@ != entries[entries.len() - 1].0@);
            }
            assert forall|i: int, j: int| 0 <= i < j < rest.len() implies (#[trigger] rest[i]).0@ != (
            #[trigger] rest[j]).0@ by {
                assert(rest[i] == entries[i]);
                assert(rest[j] == entries[j]);
            }
            assert forall|key: Seq<u8>| #[trigger] fewer.contains_key(key) implies exists|i: int|
                0 <= i < rest.len() && (#[trigger] rest[i]).0@ == key by {
                assert(counters.contains_key(key));
                let i = choose|i: int| 0 <= i < entries.len() && (#[trigger] entries[i]).0@ == key;
                assert(rest[i] == entries[i]);
            }
        }
        lemma_listing_len(rest, fewer);
        assert(counters.contains_key(entries[entries.len() - 1].0@));
        assert(counters.dom() =~= fewer.dom().insert(last.0@));
    }
}

/// Storing a listing of the live counters leaves every stored rule with
/// its live counters, if it has any, and else as it was.
pub proof fn lemma_flushed(
    repository: RepositoryView,
    entries: Seq<(CompactUuid, RuleStatsView)>,
    counters: Map<Seq<u8>, RuleStatsView>,
)
    requires
        spec_distinct_ids(repository.rules),
        forall|i: int|
            0 <= i < entries.len() ==> counters.contains_key((#[trigger] entries[i]).0@)
                && counters[entries[i].0@] == entries[i].1,
    ensures
        spec_distinct_ids(spec_flushed(repository, entries).rules),
        spec_flushed(repository, entries).rules.len() == repository.rules.len(),
        forall|i: int|
            0 <= i < repository.rules.len() ==> (#[trigger] spec_flushed(
                repository,
                entries,
            ).rules[i]) == if exists|k: int|
                0 <= k < entries.len() && (#[trigger] entries[k]).0@ == repository.rules[i].id {
                RuleView { stats: counters[repository.rules[i].id], ..repository.rules[i] }
            } else {
                repository.rules[i]
            },
    decreases entries.len(),
{
    if entries.len() > 0 {
        let rest = entries.drop_last();
        let last = entries.last();
        assert forall|i: int| 0 <= i < rest.len() implies counters.contains_key(
            (#[trigger] rest[i]).0@,
        ) && counters[rest[i].0@] == rest[i].1 by {
            assert(rest[i] == entries[i]);
        }
        lemma_flushed(repository, rest, counters);
        let before = spec_flushed(repository, rest);
        let after = spec_flushed(repository, entries);
        assert(after == before.with_stats(last.0@, last.1));
        assert(counters[entries[entries.len() - 1].0@] == last.1);
        assert forall|i: int| 0 <= i < repository.rules.len() implies (#[trigger] after.rules[i])
            == if exists|k: int|
            0 <= k < entries.len() && (#[trigger] entries[k]).0@ == repository.rules[i].id {
            RuleView { stats: counters[repository.rules[i].id], ..repository.rules[i] }
        } else {
            repository.rules[i]
        } by {
            let id = repository.rules[i].id;
            let earlier = exists|k: int| 0 <= k < rest.len() && (#[trigger] rest[k]).0@ == id;
            let listed = exists|k: int| 0 <= k < entries.len() && (#[trigger] entries[k]).0@ == id;
            assert(before.rules[i].id == id);
            assert(listed == (earlier || last.0@ == id)) by {
                if earlier {
                    let k = choose|k: int| 0 <= k < rest.len() && (#[trigger] rest[k]).0@ == id;
                    assert(entries[k].0@ == id);
                }
                if last.0@ == id {
                    assert(entries[entries.len() - 1].0@ == id);
                }
                if listed {
                    let k = choose|k: int|
                        0 <= k < entries.len() && (#[trigger] entries[k]).0@ == id;
                    if k < rest.len() {
                        assert(rest[k].0@ == id);
                    }
                }
            }
            if before.contains(last.0@) {
                let at = spec_position(before.rules, last.0@);
                lemma_position_is(before.rules, id, i);
                assert(after.rules == before.rules.update(
                    at,
                    RuleView { stats: last.1, ..before.rules[at] },
                ));
            } else {
                assert(before.rules[i].id != last.0@);
            }
        }
        assert(after.rules.len() == repository.rules.len());
        assert forall|i: int, j: int| 0 <= i < j < after.rules.len() implies (
        #[trigger] after.rules[i]).id != (#[trigger] after.rules[j]).id by {
            assert(after.rules[i].id == repository.rules[i].id);
            assert(after.rules[j].id == repository.rules[j].id);
        }
    }
}

impl ManagerView {
    /// A tick leaves the live counters and the settings alone.
    pub proof fn lemma_reconciled_keeps_counters(self, observed: Seq<ObservedRuleView>)
        ensures
            self.reconciled(observed).stats == self.stats,
            self.reconciled(observed).config == self.config,
    {
        self.lemma_stop_unwanted_keeps_counters(self.rules, observed);
        self.stop_unwanted(self.rules, observed).lemma_start_wanted_keeps_counters(observed);
    }

    pub proof fn lemma_stop_unwanted_keeps_counters(
        self,
        supervised: Seq<SupervisedView>,
        observed: Seq<ObservedRuleView>,
    )
        ensures
            self.stop_unwanted(supervised, observed).stats == self.stats,
            self.stop_unwanted(supervised, observed).config == self.config,
        decreases supervised.len(),
    {
        if supervised.len() > 0 {
            self.lemma_stop_unwanted_keeps_counters(supervised.drop_last(), observed);
        }
    }

    pub proof fn lemma_start_wanted_keeps_counters(self, observed: Seq<ObservedRuleView>)
        ensures
            self.start_wanted(observed).stats == self.stats,
            self.start_wanted(observed).config == self.config,
        decreases observed.len(),
    {
        if observed.len() > 0 {
            self.lemma_start_wanted_keeps_counters(observed.drop_last());
        }
    }
}

/// The forward manager.
pub struct ForwardManager {
    dal: DataAccessLayer,
    config: AgentConfig,
    stats_cache: StatsCache,
    rules: Vec<Supervised>,
    tasks: TaskTable,
    commands: Vec<TaskCommand>,
}

impl View for ForwardManager {
    type V = ManagerView;

    closed spec fn view(&self) -> ManagerView {
        ManagerView {
            repository: self.dal@,
            rules: self.rules@.map_values(|entry: Supervised| entry@),
            tasks: self.tasks@,
            commands: self.commands@.map_values(|command: TaskCommand| command@),
            stats: self.stats_cache@,
            config: self.config,
        }
    }
}

fn rule_not_found() -> (error: Error)
    ensures
        error@ == spec_rule_not_found(),
{
    Error::Logics(String::from_str("rule not found"))
}

fn rule_disabled() -> (error: Error)
    ensures
        error@ == spec_rule_disabled(),
{
    Error::Logics(String::from_str("rule is disabled"))
}

impl ForwardManager {
    /// The number of counters that the cache of live counters was made
    /// to hold.
    pub closed spec fn stats_limit(&self) -> nat {
        self.stats_cache.limit()
    }

    /// Whether the cache of live counters holds no more than it was made
    /// for, so that it drops nothing.
    pub open spec fn stats_settled(&self) -> bool {
        self@.stats.dom().finite() && self@.stats.len() <= self.stats_limit()
    }

    /// Whether the cache of live counters takes counters for the rule
    /// without dropping anything.
    pub open spec fn stats_admit(&self, id: Seq<u8>) -> bool {
        self.stats_settled() && (self@.stats.contains_key(id) || self@.stats.len()
            < self.stats_limit())
    }

    /// The repository.
    pub fn dal(&self) -> (dal: &DataAccessLayer)
        ensures
            dal@ == self@.repository,
    {
        &self.dal
    }

    /// The repository, to be changed. Whatever is done to it, the rest
    /// of the manager stays as it is.
    pub fn dal_mut(&mut self) -> (dal: &mut DataAccessLayer)
        ensures
            dal@ == old(self)@.repository,
            final(self)@ == (ManagerView { repository: final(dal)@, ..old(self)@ }),
            final(self).stats_limit() == old(self).stats_limit(),
    {
        &mut self.dal
    }

    /// The supervised rules, each with the digest it had at the last
    /// tick, in the order of the rule index at that tick.
    pub fn supervised(&self) -> (rules: Vec<Supervised>)
        ensures
            rules@.map_values(|entry: Supervised| entry@) == self@.rules,
    {
        let mut rules: Vec<Supervised> = Vec::new();
        let mut i: usize = 0;
        while i < self.rules.len()
            invariant
                i <= self.rules.len(),
                rules@.len() == i,
                forall|k: int| 0 <= k < i ==> (#[trigger] rules@[k]) == self.rules@[k],
            decreases self.rules.len() - i,
        {
            rules.push(self.rules[i]);
            i += 1;
        }
        assert(rules@.map_values(|entry: Supervised| entry@) =~= self@.rules);
        rules
    }

    /// The registered tasks, of which no rule has two.
    pub fn tasks(&self) -> (tasks: Vec<ForwardTask>)
        ensures
            tasks@.map_values(|task: ForwardTask| task@) == self@.tasks,
            spec_one_task_each(self@.tasks),
    {
        self.tasks.list()
    }

    /// The agent's settings.
    pub fn config(&self) -> (config: AgentConfig)
        ensures
            config == self@.config,
    {
        self.config
    }

    /// Hands out the commands given since they were last taken, oldest
    /// first.
    pub fn take_commands(&mut self) -> (commands: Vec<TaskCommand>)
        ensures
            commands@.map_values(|command: TaskCommand| command@) == old(self)@.commands,
            final(self)@ == (ManagerView { commands: Seq::empty(), ..old(self)@ }),
            final(self).stats_limit() == old(self).stats_limit(),
    {
        let mut commands: Vec<TaskCommand> = Vec::new();
        core::mem::swap(&mut self.commands, &mut commands);
        assert(self.commands@.map_values(|command: TaskCommand| command@) =~= Seq::<
            TaskCommandView,
        >::empty());
        commands
    }

    /// Takes the rule off the supervised list.
    fn unsupervise(&mut self, id: &CompactUuid)
        ensures
            final(self)@ == (ManagerView {
                rules: spec_unsupervised(old(self)@.rules, id@),
                ..old(self)@
            }),
            final(self).stats_limit() == old(self).stats_limit(),
    {
        let ghost before = self@.rules;
        let mut kept: Vec<Supervised> = Vec::new();
        let mut i: usize = 0;
        while i < self.rules.len()
            invariant
                i <= self.rules.len(),
                before == self.rules@.map_values(|entry: Supervised| entry@),
                kept@.map_values(|entry: Supervised| entry@) == spec_unsupervised(
                    before.take(i as int),
                    id@,
                ),
            decreases self.rules.len() - i,
        {
            let ghost so_far = kept@.map_values(|entry: Supervised| entry@);
            proof {
                assert(before.take(i + 1) =~= before.take(i as int).push(before[i as int]));
                before.take(i as int).lemma_filter_push(before[i as int], spec_of_another(id@));
            }
            if !self.rules[i].id.same(id) {
                kept.push(self.rules[i]);
                assert(kept@.map_values(|entry: Supervised| entry@) =~= so_far.push(
                    before[i as int],
                ));
            }
            i += 1;
        }
        assert(before.take(i as int) =~= before);
        self.rules = kept;
    }

    /// Stops the rule, as far as there is anything to stop: the stored
    /// status becomes `Stopped`, the rule leaves the supervised list, and
    /// its task, if it has one, leaves the table and is to be aborted.
    /// Fails with `Logics("rule not found")` exactly when the rule had no
    /// task; what is said above is done all the same.
    pub fn stop_rule(&mut self, id: CompactUuid) -> (stopped: Result<(), Error>)
        ensures
            final(self)@ == old(self)@.stopped(id@),
            final(self).stats_limit() == old(self).stats_limit(),
            match stopped {
                Ok(_) => spec_has_task(old(self)@.tasks, id@),
                Err(error) => !spec_has_task(old(self)@.tasks, id@) && error@
                    == spec_rule_not_found(),
            },
            !spec_has_task(final(self)@.tasks, id@),
            !spec_supervises(final(self)@.rules, id@),
            old(self)@.repository.contains(id@) ==> final(self)@.repository.status_of(id@) == Some(
                RuleStatus::Stopped,
            ),
    {
        proof {
            use_type_invariant(&self.dal.rule);
            self.dal.rule.lemma_distinct();
            self@.lemma_stopped(id@);
        }
        let had_task = self.tasks.remove(&id);
        let _ = self.dal.rule.update_status(id, RuleStatus::Stopped);
        self.unsupervise(&id);
        if had_task {
            let ghost commands = self@.commands;
            self.commands.push(TaskCommand::Abort(id));
            assert(self@.commands =~= commands.push(TaskCommandView::Abort(id@)));
            Ok(())
        } else {
            Err(rule_not_found())
        }
    }

    /// Starts the rule: registers the task of its forwarder in the place
    /// of the task the rule had, commands the abort of that one and then
    /// the start of the new one, and sets the stored status to `Running`. Fails with `Logics("rule not found")` exactly
    /// when the rule is not stored and with `Logics("rule is disabled")`
    /// exactly when it is stored and not enabled; nothing changes then.
    pub fn start_rule(&mut self, id: CompactUuid) -> (started: Result<(), Error>)
        ensures
            final(self)@ == old(self)@.started(id@),
            final(self).stats_limit() == old(self).stats_limit(),
            match started {
                Ok(_) => old(self)@.can_start(id@),
                Err(error) => match old(self)@.repository.rule(id@) {
                    Some(rule) => !rule.enabled && error@ == spec_rule_disabled(),
                    None => error@ == spec_rule_not_found(),
                },
            },
    {
        let found = match self.dal.rule.find_by_id(id) {
            Ok(found) => found,
            Err(error) => {
                return Err(error);
            },
        };
        let rule = match found {
            Some(rule) => rule,
            None => {
                return Err(rule_not_found());
            },
        };
        if !rule.enabled {
            return Err(rule_disabled());
        }
        let limit = effective_connection_limit(rule.config.connections, self.config.connections_limit);
        let task = ForwardTask { rule, connections_limit: limit };
        let ghost commands = self@.commands;
        if self.tasks.contains(&id) {
            self.commands.push(TaskCommand::Abort(id));
            assert(self@.commands =~= commands.push(TaskCommandView::Abort(id@)));
        }
        let ghost aborted = self@.commands;
        self.commands.push(TaskCommand::Spawn(task.clone()));
        assert(self@.commands =~= aborted.push(TaskCommandView::Spawn(task@)));
        self.tasks.put(task);
        let _ = self.dal.rule.update_status(id, RuleStatus::Running);
        Ok(())
    }

    /// Stops the rule and then starts it. Fails as [`Self::stop_rule`]
    /// does, and then starts nothing; else as [`Self::start_rule`] does.
    pub fn restart_rule(&mut self, id: CompactUuid) -> (restarted: Result<(), Error>)
        ensures
            final(self)@ == old(self)@.restarted(id@),
            final(self).stats_limit() == old(self).stats_limit(),
            restarted is Ok <==> spec_has_task(old(self)@.tasks, id@) && old(self)@.stopped(
                id@,
            ).can_start(id@),
            restarted matches Err(error) ==> error@ == if !spec_has_task(old(self)@.tasks, id@) {
                spec_rule_not_found()
            } else if old(self)@.repository.rule(id@) is Some {
                spec_rule_disabled()
            } else {
                spec_rule_not_found()
            },
    {
        proof {
            use_type_invariant(&self.dal.rule);
            self.dal.rule.lemma_distinct();
            self@.repository.lemma_with_status(id@, RuleStatus::Stopped);
        }
        match self.stop_rule(id) {
            Ok(_) => {},
            Err(error) => {
                return Err(error);
            },
        }
        self.start_rule(id)
    }

    /// The supervised rules as they are stored now, in the order of the
    /// supervised list. A supervised rule that is no longer stored is
    /// left out.
    pub fn get_rules(&self) -> (rules: Vec<Rule>)
        ensures
            rules@.map_values(|rule: Rule| rule@) == self@.supervised_rules(),
    {
        let ghost pick = |entry: SupervisedView| self@.repository.rule(entry.id);
        let mut rules: Vec<Rule> = Vec::new();
        let mut i: usize = 0;
        while i < self.rules.len()
            invariant
                i <= self.rules.len(),
                pick == |entry: SupervisedView| self@.repository.rule(entry.id),
                rules@.map_values(|rule: Rule| rule@) == self@.rules.take(i as int).filter_map(pick),
            decreases self.rules.len() - i,
        {
            let ghost so_far = rules@.map_values(|rule: Rule| rule@);
            proof {
                self@.rules.lemma_filter_map_take_succ(pick, i as int);
            }
            match self.dal.rule.find_by_id(self.rules[i].id) {
                Ok(Some(rule)) => {
                    rules.push(rule);
                    assert(rules@.map_values(|rule: Rule| rule@) =~= so_far + seq![rule@]);
                },
                _ => {
                    assert(so_far + Seq::<RuleView>::empty() =~= so_far);
                },
            }
            i += 1;
        }
        assert(self@.rules.take(i as int) =~= self@.rules);
        rules
    }

    /// The digest under which the rule is supervised, if it is.
    fn digest_of(&self, id: &CompactUuid) -> (digest: Option<u64>)
        ensures
            digest == spec_digest_of(self@.rules, id@),
            digest is Some <==> spec_supervises(self@.rules, id@),
    {
        let ghost rules = self@.rules;
        assert(rules.skip(0) =~= rules);
        let mut i: usize = 0;
        while i < self.rules.len()
            invariant
                i <= self.rules.len(),
                rules == self.rules@.map_values(|entry: Supervised| entry@),
                spec_digest_of(rules, id@) == spec_digest_of(rules.skip(i as int), id@),
                forall|k: int| 0 <= k < i ==> (#[trigger] rules[k]).id != id@,
            decreases self.rules.len() - i,
        {
            let ghost rest = rules.skip(i as int);
            assert(rest[0] == rules[i as int]);
            assert(rest.drop_first() =~= rules.skip(i + 1));
            if self.rules[i].id.same(id) {
                return Some(self.rules[i].digest);
            }
            i += 1;
        }
        assert(rules.skip(i as int).len() == 0);
        None
    }

    /// Whether the rule was seen, and seen enabled.
    fn seen_enabled(observed: &Vec<ObservedRule>, id: &CompactUuid) -> (seen: bool)
        ensures
            seen == spec_seen_enabled(observed@.map_values(|rule: ObservedRule| rule@), id@),
    {
        let ghost views = observed@.map_values(|rule: ObservedRule| rule@);
        let mut i: usize = 0;
        while i < observed.len()
            invariant
                i <= observed.len(),
                views == observed@.map_values(|rule: ObservedRule| rule@),
                forall|k: int| 0 <= k < i ==> !((#[trigger] views[k]).id == id@ && views[k].enabled),
            decreases observed.len() - i,
        {
            if observed[i].enabled && observed[i].id.same(id) {
                assert(views[i as int].id == id@ && views[i as int].enabled);
                return true;
            }
            i += 1;
        }
        false
    }

    /// One reconcile pass over what was seen of the stored rules.
    ///
    /// First, every supervised rule that was not seen enabled is stopped.
    /// Then, in the order seen, every wanted rule (enabled, and not in
    /// `Error`) that is not supervised is started, and every wanted rule
    /// that is supervised under another digest than the one seen is
    /// stopped and started. At last the supervised list becomes the list
    /// of the wanted rules with the digests seen.
    pub fn reconcile(&mut self, observed: &Vec<ObservedRule>)
        ensures
            final(self)@ == old(self)@.reconciled(observed@.map_values(|rule: ObservedRule| rule@)),
            final(self).stats_limit() == old(self).stats_limit(),
    {
        let ghost seen = observed@.map_values(|rule: ObservedRule| rule@);
        let ghost start = self@;
        let mut supervised: Vec<Supervised> = Vec::new();
        let mut i: usize = 0;
        while i < self.rules.len()
            invariant
                i <= self.rules.len(),
                supervised@.len() == i,
                forall|k: int| 0 <= k < i ==> (#[trigger] supervised@[k]) == self.rules@[k],
            decreases self.rules.len() - i,
        {
            supervised.push(self.rules[i]);
            i += 1;
        }
        assert(supervised@.map_values(|entry: Supervised| entry@) =~= start.rules);
        let ghost listed = start.rules;
        let mut i: usize = 0;
        while i < supervised.len()
            invariant
                i <= supervised.len(),
                listed == supervised@.map_values(|entry: Supervised| entry@),
                seen == observed@.map_values(|rule: ObservedRule| rule@),
                self@ == start.stop_unwanted(listed.take(i as int), seen),
                self.stats_limit() == old(self).stats_limit(),
            decreases supervised.len() - i,
        {
            assert(listed.take(i + 1).drop_last() =~= listed.take(i as int));
            assert(listed.take(i + 1).last() == listed[i as int]);
            if !Self::seen_enabled(observed, &supervised[i].id) {
                let _ = self.stop_rule(supervised[i].id);
            }
            i += 1;
        }
        assert(listed.take(i as int) =~= listed);
        let ghost cleared = self@;
        let mut wanted: Vec<Supervised> = Vec::new();
        let mut i: usize = 0;
        while i < observed.len()
            invariant
                i <= observed.len(),
                seen == observed@.map_values(|rule: ObservedRule| rule@),
                self@ == cleared.start_wanted(seen.take(i as int)),
                wanted@.map_values(|entry: Supervised| entry@) == spec_wanted(seen.take(i as int)),
                self.stats_limit() == old(self).stats_limit(),
            decreases observed.len() - i,
        {
            let rule = observed[i];
            let ghost so_far = wanted@.map_values(|entry: Supervised| entry@);
            proof {
                assert(seen.take(i + 1).drop_last() =~= seen.take(i as int));
                assert(seen.take(i + 1).last() == seen[i as int]);
                seen.lemma_filter_map_take_succ(spec_entry_of(), i as int);
            }
            let is_error = match rule.status {
                RuleStatus::Error => true,
                _ => false,
            };
            if rule.enabled && !is_error {
                match self.digest_of(&rule.id) {
                    None => {
                        let _ = self.start_rule(rule.id);
                    },
                    Some(digest) => {
                        if digest != rule.digest {
                            let _ = self.stop_rule(rule.id);
                            let _ = self.start_rule(rule.id);
                        }
                    },
                }
                wanted.push(Supervised { id: rule.id, digest: rule.digest });
                assert(wanted@.map_values(|entry: Supervised| entry@) =~= so_far + seq![
                    SupervisedView { id: rule.id@, digest: rule.digest },
                ]);
            } else {
                assert(so_far + Seq::<SupervisedView>::empty() =~= so_far);
            }
            i += 1;
        }
        assert(seen.take(i as int) =~= seen);
        self.rules = wanted;
    }

    /// Looks at the stored rules as a tick does, taking the digest of
    /// each.
    pub fn observe(rules: &Vec<Rule>) -> (observed: Vec<ObservedRule>)
        ensures
            observed@.len() == rules@.len(),
            forall|i: int|
                0 <= i < observed@.len() ==> (#[trigger] observed@[i]).id@ == rules@[i]@.id
                    && observed@[i].enabled == rules@[i].enabled && observed@[i].status
                    == rules@[i].status,
    {
        let mut observed: Vec<ObservedRule> = Vec::new();
        let mut i: usize = 0;
        while i < rules.len()
            invariant
                i <= rules.len(),
                observed@.len() == i,
                forall|k: int|
                    0 <= k < i ==> (#[trigger] observed@[k]).id@ == rules@[k]@.id
                        && observed@[k].enabled == rules@[k].enabled && observed@[k].status
                        == rules@[k].status,
            decreases rules.len() - i,
        {
            observed.push(
                ObservedRule {
                    id: rules[i].id,
                    enabled: rules[i].enabled,
                    status: rules[i].status,
                    digest: rules[i].digest_config(),
                },
            );
            i += 1;
        }
        observed
    }

    /// Brings the forwarders in line with the stored rules: one
    /// reconcile pass over all of them, each seen with the digest of its
    /// config material. Whatever the digests are, the manager ends as
    /// [`Self::reconcile`] leaves it for them.
    pub fn load_rules(&mut self)
        ensures
            exists|digests: Seq<u64>|
                digests.len() == old(self)@.repository.rules.len() && final(self)@ == old(
                    self,
                )@.reconciled(#[trigger] spec_observation(old(self)@.repository.rules, digests)),
            final(self).stats_limit() == old(self).stats_limit(),
            final(self)@.supervises_wanted_rules(),
            spec_tasks_accounted(old(self)@) ==> final(self)@.tasks_supervised()
                && spec_tasks_accounted(final(self)@) && spec_tasks_current(
                old(self)@.tasks,
                final(self)@,
            ),
            spec_tasks_accounted(old(self)@) && spec_caps_effective(old(self)@)
                ==> spec_caps_effective(final(self)@),
    {
        proof {
            use_type_invariant(&self.dal.rule);
            self.dal.rule.lemma_distinct();
        }
        let rules = match self.dal.rule.find_all() {
            Ok(rules) => rules,
            Err(_) => Vec::new(),
        };
        let observed = Self::observe(&rules);
        proof {
            let seen = observed@.map_values(|rule: ObservedRule| rule@);
            let digests = Seq::new(observed@.len(), |i: int| observed@[i].digest);
            assert(digests.len() == self@.repository.rules.len());
            assert(rules@.map_values(|rule: Rule| rule@) == self@.repository.rules);
            assert(seen =~= spec_observation(self@.repository.rules, digests)) by {
                assert forall|i: int| 0 <= i < seen.len() implies seen[i] == spec_observation(
                    self@.repository.rules,
                    digests,
                )[i] by {
                    assert(rules@.map_values(|rule: Rule| rule@)[i] == rules@[i]@);
                }
            }
        }
        let ghost digests = Seq::new(observed@.len(), |i: int| observed@[i].digest);
        self.reconcile(&observed);
        proof {
            old(self)@.tick_supervises_the_wanted_rules(digests);
            if spec_tasks_accounted(old(self)@) {
                old(self)@.tick_keeps_tasks_supervised(digests);
            }
        }
    }

    /// The live counters of a rule, or counters that are all zero.
    fn load_counters(&mut self, id: &CompactUuid) -> (stats: RuleStats)
        ensures
            stats@ == old(self)@.counters(id@),
            final(self)@ == (ManagerView { stats: final(self)@.stats, ..old(self)@ }),
            final(self).stats_limit() == old(self).stats_limit(),
            final(self)@.stats.submap_of(old(self)@.stats),
            old(self).stats_settled() ==> final(self)@ == old(self)@,
    {
        match self.stats_cache.get(id) {
            Some(stats) => stats,
            None => RuleStats::default(),
        }
    }

    /// Puts the live counters of a rule in the place of those it had.
    fn store_counters(&mut self, id: CompactUuid, stats: RuleStats)
        ensures
            final(self)@ == (ManagerView { stats: final(self)@.stats, ..old(self)@ }),
            final(self).stats_limit() == old(self).stats_limit(),
            final(self)@.stats.submap_of(old(self)@.stats.insert(id@, stats@)),
            old(self).stats_admit(id@) ==> final(self)@ == old(self)@.with_counters(id@, stats@)
                && final(self).stats_settled(),
    {
        self.stats_cache.insert(id, stats);
    }

    /// The live counters of a rule, if it has any.
    pub fn get_stat(&mut self, id: CompactUuid) -> (found: Option<RuleStats>)
        ensures
            match found {
                Some(stats) => old(self)@.stats.contains_key(id@) && old(self)@.stats[id@]
                    == stats@,
                None => !old(self)@.stats.contains_key(id@),
            },
            final(self)@ == (ManagerView { stats: final(self)@.stats, ..old(self)@ }),
            final(self).stats_limit() == old(self).stats_limit(),
            final(self)@.stats.submap_of(old(self)@.stats),
            old(self).stats_settled() ==> final(self)@ == old(self)@,
    {
        self.stats_cache.get(&id)
    }

    /// The live counters of the supervised rules, each rule once, in no
    /// particular order.
    pub fn get_stats(&self) -> (entries: Vec<(CompactUuid, RuleStats)>)
        ensures
            spec_lists(spec_entry_views(entries@), self@.supervised_stats()),
    {
        let all = self.stats_cache.iter();
        let ghost listed = spec_entry_views(all@);
        let ghost wanted = self@.supervised_stats();
        let mut entries: Vec<(CompactUuid, RuleStats)> = Vec::new();
        let mut i: usize = 0;
        while i < all.len()
            invariant
                i <= all.len(),
                listed == spec_entry_views(all@),
                wanted == self@.supervised_stats(),
                spec_lists(listed, self@.stats),
                forall|k: int|
                    0 <= k < entries@.len() ==> wanted.contains_key((#[trigger] entries@[k]).0@)
                        && wanted[entries@[k].0@] == entries@[k].1@ && exists|l: int|
                        0 <= l < i && (#[trigger] listed[l]).0@ == entries@[k].0@,
                forall|k: int, l: int|
                    0 <= k < l < entries@.len() ==> (#[trigger] entries@[k]).0@ != (
                    #[trigger] entries@[l]).0@,
                forall|l: int|
                    0 <= l < i && wanted.contains_key((#[trigger] listed[l]).0@) ==> exists|k: int|
                        0 <= k < entries@.len() && (#[trigger] entries@[k]).0@ == listed[l].0@,
            decreases all.len() - i,
        {
            let ghost before = entries@;
            assert(listed[i as int].0@ == all@[i as int].0@);
            if self.digest_of(&all[i].0).is_some() {
                entries.push((all[i].0, all[i].1.clone()));
                proof {
                    let last = entries@.len() - 1;
                    assert(entries@[last].0@ == listed[i as int].0@);
                    assert forall|k: int, l: int| 0 <= k < l < entries@.len() implies (
                    #[trigger] entries@[k]).0@ != (#[trigger] entries@[l]).0@ by {
                        assert(entries@[k] == before[k]);
                        if l < last {
                            assert(entries@[l] == before[l]);
                        } else {
                            let at = choose|at: int|
                                0 <= at < i && (#[trigger] listed[at]).0@ == before[k].0@;
                            assert(listed[at].0@ != listed[i as int].0@);
                        }
                    }
                    assert forall|k: int| 0 <= k < entries@.len() implies wanted.contains_key(
                        (#[trigger] entries@[k]).0@,
                    ) && wanted[entries@[k].0@] == entries@[k].1@ && exists|l: int|
                        0 <= l < i + 1 && (#[trigger] listed[l]).0@ == entries@[k].0@ by {
                        if k < last {
                            assert(entries@[k] == before[k]);
                            let at = choose|at: int|
                                0 <= at < i && (#[trigger] listed[at]).0@ == before[k].0@;
                            assert(listed[at].0@ == entries@[k].0@);
                        } else {
                            assert(listed[i as int].0@ == entries@[k].0@);
                        }
                    }
                    assert forall|l: int|
                        0 <= l < i + 1 && wanted.contains_key(
                            (#[trigger] listed[l]).0@,
                        ) implies exists|k: int|
                        0 <= k < entries@.len() && (#[trigger] entries@[k]).0@ == listed[l].0@ by {
                        if l < i {
                            let k = choose|k: int|
                                0 <= k < before.len() && (#[trigger] before[k]).0@ == listed[l].0@;
                            assert(entries@[k] == before[k]);
                        } else {
                            assert(entries@[last].0@ == listed[l].0@);
                        }
                    }
                }
            }
            i += 1;
        }
        proof {
            let views = spec_entry_views(entries@);
            assert forall|key: Seq<u8>| #[trigger] wanted.contains_key(key) implies exists|k: int|
                0 <= k < views.len() && (#[trigger] views[k]).0@ == key by {
                let l = choose|l: int| 0 <= l < listed.len() && (#[trigger] listed[l]).0@ == key;
                let k = choose|k: int|
                    0 <= k < entries@.len() && (#[trigger] entries@[k]).0@ == listed[l].0@;
                assert(views[k].0@ == key);
            }
            assert forall|k: int| 0 <= k < views.len() implies wanted.contains_key(
                (#[trigger] views[k]).0@,
            ) && wanted[views[k].0@] == views[k].1 by {
                assert(views[k].0@ == entries@[k].0@);
            }
            assert forall|k: int, l: int| 0 <= k < l < views.len() implies (#[trigger] views[k]).0@
                != (#[trigger] views[l]).0@ by {
                assert(entries@[k].0@ != entries@[l].0@);
            }
        }
        entries
    }

    /// Sets the live counters of a rule to zero. Fails with
    /// `Logics("rule not found")`, and changes nothing, exactly when the
    /// rule has no live counters. The stored counters are not touched:
    /// the next flush stores the zeros.
    pub fn reset_stat(&mut self, id: CompactUuid) -> (reset: Result<(), Error>)
        ensures
            match reset {
                Ok(_) => old(self)@.stats.contains_key(id@),
                Err(error) => !old(self)@.stats.contains_key(id@) && error@
                    == spec_rule_not_found(),
            },
            final(self)@ == (ManagerView { stats: final(self)@.stats, ..old(self)@ }),
            final(self).stats_limit() == old(self).stats_limit(),
            final(self)@.stats.submap_of(old(self)@.stats.insert(id@, RuleStatsView::zero())),
            old(self).stats_settled() ==> final(self).stats_settled() && final(self)@.stats == if old(
                self,
            )@.stats.contains_key(id@) {
                old(self)@.stats.insert(id@, RuleStatsView::zero())
            } else {
                old(self)@.stats
            },
    {
        let found = self.stats_cache.get(&id);
        let ghost read = self@.stats;
        let reset = match found {
            Some(_) => {
                self.stats_cache.insert(id, RuleStats::default());
                Ok(())
            },
            None => Err(rule_not_found()),
        };
        proof {
            let target = old(self)@.stats.insert(id@, RuleStatsView::zero());
            assert forall|key: Seq<u8>| #[trigger] self@.stats.dom().contains(key) implies target.dom().contains(
                key,
            ) && self@.stats[key] == target[key] by {
                if found is Some {
                    assert(read.insert(id@, RuleStatsView::zero()).dom().contains(key));
                    if key != id@ {
                        assert(read.dom().contains(key));
                        assert(old(self)@.stats.dom().contains(key));
                    }
                } else {
                    assert(old(self)@.stats.dom().contains(key));
                }
            }
        }
        reset
    }

    /// Sets the live counters of every supervised rule that has any to
    /// zero, and returns how many rules that were.
    pub fn reset_stats(&mut self) -> (count: usize)
        ensures
            final(self)@ == (ManagerView { stats: final(self)@.stats, ..old(self)@ }),
            final(self).stats_limit() == old(self).stats_limit(),
            old(self).stats_settled() ==> final(self).stats_settled() && final(self)@.stats
                == old(self)@.reset_supervised_stats() && count == old(
                self,
            )@.supervised_stats().len(),
    {
        let entries = self.get_stats();
        let ghost start = self@;
        let ghost listed = spec_entry_views(entries@);
        let ghost target = start.supervised_stats();
        let mut i: usize = 0;
        while i < entries.len()
            invariant
                i <= entries.len(),
                listed == spec_entry_views(entries@),
                target == start.supervised_stats(),
                spec_lists(listed, target),
                self@ == (ManagerView { stats: self@.stats, ..start }),
                self.stats_limit() == old(self).stats_limit(),
                start == old(self)@,
                old(self).stats_settled() ==> self.stats_settled() && self@.stats == Map::new(
                    |id: Seq<u8>| start.stats.contains_key(id),
                    |id: Seq<u8>|
                        if exists|k: int| 0 <= k < i && (#[trigger] listed[k]).0@ == id {
                            RuleStatsView::zero()
                        } else {
                            start.stats[id]
                        },
                ),
            decreases entries.len() - i,
        {
            let ghost now = self@.stats;
            let id = entries[i].0;
            assert(listed[i as int].0@ == id@);
            assert(target.contains_key(listed[i as int].0@));
            self.stats_cache.insert(id, RuleStats::default());
            proof {
                if old(self).stats_settled() {
                    assert(now.contains_key(id@));
                    assert(self@.stats =~= Map::new(
                        |id: Seq<u8>| start.stats.contains_key(id),
                        |id: Seq<u8>|
                            if exists|k: int| 0 <= k < i + 1 && (#[trigger] listed[k]).0@ == id {
                                RuleStatsView::zero()
                            } else {
                                start.stats[id]
                            },
                    )) by {
                        assert forall|key: Seq<u8>| start.stats.contains_key(key) implies (
                        exists|k: int| 0 <= k < i + 1 && (#[trigger] listed[k]).0@ == key) == (key
                            == id@ || exists|k: int| 0 <= k < i && (#[trigger] listed[k]).0@
                            == key) by {
                            if exists|k: int| 0 <= k < i && (#[trigger] listed[k]).0@ == key {
                                let k = choose|k: int| 0 <= k < i && (#[trigger] listed[k]).0@ == key;
                                assert(0 <= k < i + 1 && listed[k].0@ == key);
                            }
                            if key == id@ {
                                assert(listed[i as int].0@ == key);
                            }
                        }
                    }
                }
            }
            i += 1;
        }
        proof {
            if old(self).stats_settled() {
                assert(self@.stats =~= start.reset_supervised_stats()) by {
                    assert forall|key: Seq<u8>| start.stats.contains_key(key) implies (exists|k: int|
                        0 <= k < i && (#[trigger] listed[k]).0@ == key) == spec_supervises(
                        start.rules,
                        key,
                    ) by {
                        if spec_supervises(start.rules, key) {
                            assert(target.contains_key(key));
                        }
                        if exists|k: int| 0 <= k < i && (#[trigger] listed[k]).0@ == key {
                            let k = choose|k: int| 0 <= k < i && (#[trigger] listed[k]).0@ == key;
                            assert(target.contains_key(listed[k].0@));
                        }
                    }
                }
                lemma_listing_len(listed, target);
            }
        }
        entries.len()
    }

    /// Stores the listed counters, one after the other, each with the
    /// rule it belongs to; counters of a rule that is not stored are
    /// passed over.
    pub fn flush_entries(&mut self, entries: &Vec<(CompactUuid, RuleStats)>)
        ensures
            final(self)@ == (ManagerView {
                repository: spec_flushed(old(self)@.repository, spec_entry_views(entries@)),
                ..old(self)@
            }),
            final(self).stats_limit() == old(self).stats_limit(),
    {
        let ghost start = self@;
        let ghost listed = spec_entry_views(entries@);
        let mut i: usize = 0;
        while i < entries.len()
            invariant
                i <= entries.len(),
                listed == spec_entry_views(entries@),
                self@ == (ManagerView {
                    repository: spec_flushed(start.repository, listed.take(i as int)),
                    ..start
                }),
                self.stats_limit() == old(self).stats_limit(),
            decreases entries.len() - i,
        {
            proof {
                assert(listed.take(i + 1).drop_last() =~= listed.take(i as int));
                assert(listed.take(i + 1).last() == listed[i as int]);
            }
            let _ = self.dal.rule.update_stats(entries[i].0, entries[i].1.clone());
            i += 1;
        }
        assert(listed.take(i as int) =~= listed);
    }

    /// Stores the live counters of every rule that has some and is
    /// stored. After it, each such rule is stored with exactly its live
    /// counters; every other rule is stored as before, and no rule is
    /// added, removed or moved.
    pub fn flush_stats(&mut self)
        ensures
            final(self)@ == (ManagerView { repository: final(self)@.repository, ..old(self)@ }),
            final(self).stats_limit() == old(self).stats_limit(),
            exists|entries: Seq<(CompactUuid, RuleStatsView)>|
                spec_lists(entries, old(self)@.stats) && final(self)@.repository == #[trigger] spec_flushed(
                    old(self)@.repository,
                    entries,
                ),
            final(self)@.repository.rules.len() == old(self)@.repository.rules.len(),
            forall|i: int|
                0 <= i < final(self)@.repository.rules.len() ==> (
                #[trigger] final(self)@.repository.rules[i]) == if old(self)@.stats.contains_key(
                    old(self)@.repository.rules[i].id,
                ) {
                    RuleView {
                        stats: old(self)@.stats[old(self)@.repository.rules[i].id],
                        ..old(self)@.repository.rules[i]
                    }
                } else {
                    old(self)@.repository.rules[i]
                },
    {
        proof {
            use_type_invariant(&self.dal.rule);
            self.dal.rule.lemma_distinct();
        }
        let entries = self.stats_cache.iter();
        self.flush_entries(&entries);
        proof {
            lemma_flushed(old(self)@.repository, spec_entry_views(entries@), old(self)@.stats);
        }
    }

    /// Takes in what a forwarder reports about its rule. The rule's live
    /// counters are replaced as a whole by the counters that the event
    /// leaves; a rule without counters starts from zero. A failure to
    /// bind also puts the stored rule into `Error`, which keeps the
    /// manager from starting it again until the operator has reset it,
    /// and leaves the rule's counters with the message of the failure.
    pub fn report(&mut self, id: CompactUuid, event: ForwarderEvent)
        ensures
            final(self)@ == (ManagerView { stats: final(self)@.stats, ..old(self)@.reported(id@, event) }),
            final(self).stats_limit() == old(self).stats_limit(),
            final(self)@.stats.submap_of(old(self)@.reported(id@, event).stats),
            old(self).stats_admit(id@) ==> final(self)@ == old(self)@.reported(id@, event)
                && final(self).stats_settled(),
    {
        let current = self.load_counters(&id);
        let ghost read = self@.stats;
        if let ForwarderEvent::BindFailed { .. } = event {
            let _ = self.dal.rule.update_status(id, RuleStatus::Error);
        }
        let next = event.apply(&current);
        self.store_counters(id, next);
        proof {
            let target = old(self)@.reported(id@, event).stats;
            assert forall|key: Seq<u8>| #[trigger] self@.stats.dom().contains(key) implies target.dom().contains(
                key,
            ) && self@.stats[key] == target[key] by {
                assert(read.insert(id@, next@).dom().contains(key));
                if key != id@ {
                    assert(read.dom().contains(key));
                    assert(old(self)@.stats.dom().contains(key));
                }
            }
        }
    }

    /// A manager for the repository. It runs one reconcile pass at once,
    /// so that the enabled rules are started, and then takes over the
    /// cumulative counters (`bandwidth` and `failed_times`) that the
    /// rules are stored with; speed, live connections and the last
    /// failure's message start anew.
    pub fn new(dal: DataAccessLayer, config: AgentConfig) -> (manager: Self)
        ensures
            exists|digests: Seq<u64>|
                digests.len() == dal@.rules.len() && (ManagerView {
                    stats: spec_no_counters(),
                    ..manager@
                }) == ManagerView::initial(dal@, config).reconciled(
                    #[trigger] spec_observation(dal@.rules, digests),
                ),
            manager.stats_limit() == STATS_CACHE_CAPACITY,
            manager@.supervises_wanted_rules(),
            manager@.tasks_supervised(),
            spec_tasks_accounted(manager@),
            spec_caps_effective(manager@),
            manager@.stats.submap_of(spec_carried_stats(manager@.repository.rules)),
            manager@.repository.rules.len() <= STATS_CACHE_CAPACITY ==> manager.stats_settled()
                && manager@.stats == spec_carried_stats(manager@.repository.rules),
    {
        let mut manager = ForwardManager {
            dal,
            config,
            stats_cache: StatsCache::new(),
            rules: Vec::new(),
            tasks: TaskTable::new(),
            commands: Vec::new(),
        };
        assert(manager@ =~= ManagerView::initial(dal@, config)) by {
            assert(manager@.rules =~= Seq::<SupervisedView>::empty());
            assert(manager@.commands =~= Seq::<TaskCommandView>::empty());
            assert(manager@.tasks =~= Seq::<ForwardTaskView>::empty());
        }
        proof {
            assert(spec_tasks_accounted(manager@));
            assert(spec_caps_effective(manager@));
        }
        manager.load_rules();
        let ghost loaded = manager@;
        proof {
            let digests = choose|digests: Seq<u64>|
                digests.len() == dal@.rules.len() && loaded == ManagerView::initial(
                    dal@,
                    config,
                ).reconciled(#[trigger] spec_observation(dal@.rules, digests));
            ManagerView::initial(dal@, config).lemma_reconciled_keeps_counters(
                spec_observation(dal@.rules, digests),
            );
            assert(loaded.stats == spec_no_counters());
            assert(loaded.stats.dom() =~= Set::<Seq<u8>>::empty());
        }
        let rules = match manager.dal.rule.find_all() {
            Ok(rules) => rules,
            Err(_) => Vec::new(),
        };
        proof {
            use_type_invariant(&manager.dal.rule);
            manager.dal.rule.lemma_distinct();
        }
        let ghost stored = loaded.repository.rules;
        assert(manager@.stats =~= spec_carried_stats(stored).restrict(
            Set::new(|id: Seq<u8>| spec_has_rule(stored.take(0), id)),
        ));
        let mut i: usize = 0;
        while i < rules.len()
            invariant
                i <= rules.len(),
                stored == rules@.map_values(|rule: Rule| rule@),
                stored == loaded.repository.rules,
                spec_distinct_ids(stored),
                manager@ == (ManagerView { stats: manager@.stats, ..loaded }),
                manager.stats_limit() == STATS_CACHE_CAPACITY,
                manager@.stats.submap_of(spec_carried_stats(stored)),
                stored.len() <= STATS_CACHE_CAPACITY ==> manager.stats_settled()
                    && manager@.stats.len() == i && manager@.stats == spec_carried_stats(
                    stored,
                ).restrict(Set::new(|id: Seq<u8>| spec_has_rule(stored.take(i as int), id))),
            decreases rules.len() - i,
        {
            let ghost before = manager@.stats;
            let ghost full = spec_carried_stats(stored);
            assert(stored[i as int] == rules@[i as int]@);
            let counters = rules[i].stats.carried_over();
            manager.stats_cache.insert(rules[i].id, counters);
            proof {
                let id = stored[i as int].id;
                lemma_position_is(stored, id, i as int);
                assert(full.contains_key(id) && full[id] == counters@);
                assert forall|key: Seq<u8>| #[trigger] manager@.stats.dom().contains(key) implies full.dom().contains(
                    key,
                ) && manager@.stats[key] == full[key] by {
                    assert(before.insert(id, counters@).dom().contains(key));
                    if key != id {
                        assert(before.dom().contains(key));
                        assert(full.dom().contains(key));
                    }
                }
                if stored.len() <= STATS_CACHE_CAPACITY {
                    assert(!before.contains_key(id)) by {
                        if before.contains_key(id) {
                            let k = choose|k: int|
                                0 <= k < stored.take(i as int).len() && (#[trigger] stored.take(
                                    i as int,
                                )[k]).id == id;
                            assert(stored[k].id != stored[i as int].id);
                        }
                    }
                    assert(manager@.stats == before.insert(id, counters@));
                    assert forall|key: Seq<u8>| #[trigger]
                        spec_has_rule(stored.take(i + 1), key) == (key == id || spec_has_rule(
                            stored.take(i as int),
                            key,
                        )) by {
                        if spec_has_rule(stored.take(i as int), key) {
                            let k = choose|k: int|
                                0 <= k < stored.take(i as int).len() && (#[trigger] stored.take(
                                    i as int,
                                )[k]).id == key;
                            assert(stored.take(i + 1)[k].id == key);
                        }
                        if key == id {
                            assert(stored.take(i + 1)[i as int].id == key);
                        }
                        if spec_has_rule(stored.take(i + 1), key) {
                            let k = choose|k: int|
                                0 <= k < stored.take(i + 1).len() && (#[trigger] stored.take(
                                    i + 1,
                                )[k]).id == key;
                            if k < i {
                                assert(stored.take(i as int)[k].id == key);
                            }
                        }
                    }
                    assert(manager@.stats =~= full.restrict(
                        Set::new(|id: Seq<u8>| spec_has_rule(stored.take(i + 1), id)),
                    ));
                }
            }
            i += 1;
        }
        proof {
            if stored.len() <= STATS_CACHE_CAPACITY {
                assert(stored.take(i as int) =~= stored);
                assert(manager@.stats =~= spec_carried_stats(stored));
            }
            assert((ManagerView { stats: spec_no_counters(), ..manager@ }) == loaded);
        }
        manager
    }

    /// One tick of the polling loop: the live counters are stored, and
    /// then the forwarders are brought in line with the stored rules.
    pub fn tick(&mut self)
        ensures
            exists|entries: Seq<(CompactUuid, RuleStatsView)>, digests: Seq<u64>|
                spec_lists(entries, old(self)@.stats) && digests.len() == old(
                    self,
                )@.repository.rules.len() && final(self)@ == #[trigger] old(self)@.ticked(
                    entries,
                    digests,
                ),
            final(self).stats_limit() == old(self).stats_limit(),
            final(self)@.supervises_wanted_rules(),
            spec_tasks_accounted(old(self)@) ==> final(self)@.tasks_supervised()
                && spec_tasks_accounted(final(self)@) && spec_tasks_current(
                old(self)@.tasks,
                final(self)@,
            ),
            spec_tasks_accounted(old(self)@) && spec_caps_effective(old(self)@)
                ==> spec_caps_effective(final(self)@),
    {
        self.flush_stats();
        let ghost flushed = self@;
        proof {
            if spec_tasks_accounted(old(self)@) {
                let was = old(self)@.repository.rules;
                let now = flushed.repository.rules;
                assert forall|i: int| 0 <= i < flushed.tasks.len() implies {
                    ||| spec_stored_wanted(now, (#[trigger] flushed.tasks[i]).rule.id)
                    ||| spec_supervises(flushed.rules, flushed.tasks[i].rule.id)
                        && !spec_stored_enabled(now, flushed.tasks[i].rule.id)
                } by {
                    let id = old(self)@.tasks[i].rule.id;
                    assert(flushed.tasks[i] == old(self)@.tasks[i]);
                    lemma_counters_apart(was, now, id);
                }
                assert(spec_tasks_accounted(flushed));
            }
            assert(flushed.tasks == old(self)@.tasks && flushed.config == old(self)@.config);
            assert(spec_caps_effective(old(self)@) ==> spec_caps_effective(flushed));
        }
        self.load_rules();
        proof {
            let entries = choose|entries: Seq<(CompactUuid, RuleStatsView)>|
                spec_lists(entries, old(self)@.stats) && flushed.repository == #[trigger] spec_flushed(
                    old(self)@.repository,
                    entries,
                );
            let digests = choose|digests: Seq<u64>|
                digests.len() == flushed.repository.rules.len() && self@ == flushed.reconciled(
                    #[trigger] spec_observation(flushed.repository.rules, digests),
                );
            assert(flushed == (ManagerView {
                repository: spec_flushed(old(self)@.repository, entries),
                ..old(self)@
            }));
            assert(self@ == old(self)@.ticked(entries, digests));
        }
    }

    /// Seconds between two ticks of the polling loop: one, or five in a
    /// debug build.
    pub fn poll_interval_secs(debug: bool) -> (secs: u64)
        ensures
            secs == if debug {
                DEBUG_POLL_INTERVAL_SECS
            } else {
                POLL_INTERVAL_SECS
            },
    {
        if debug {
            DEBUG_POLL_INTERVAL_SECS
        } else {
            POLL_INTERVAL_SECS
        }
    }
}

} // verus!
