//! What holds of the manager whatever it is asked to do.
//!
//! The operations of the manager are stated exactly in its model. The
//! statements here are drawn from that model: what a tick and a stop
//! leave behind, for every state the manager can be in and every digest
//! that a tick can see.

use crate::dal::rule::{
    lemma_position_is, spec_distinct_ids, spec_has_rule, spec_position, spec_rule,
};
use crate::data::rule::RuleStatus;
use crate::forward::manager::{
    spec_observation, spec_seen_enabled, spec_seen_wanted, spec_supervises, spec_unsupervised,
    spec_wanted, ManagerView, ObservedRuleView, SupervisedView,
};
use crate::forward::task::{
    lemma_without_task, spec_has_task, spec_of_other_rule, spec_one_task_each, spec_without_task,
    ForwardTaskView,
};
use crate::forward::tcp::spec_effective_limit;
use crate::model::digest::same_config;
use crate::model::rule::RuleView;
use vstd::prelude::*;

verus! {

/// Whether `after` are the rules `before` with nothing changed but
/// statuses, none of which has become `Error`.
pub open spec fn spec_same_but_status(before: Seq<RuleView>, after: Seq<RuleView>) -> bool {
    &&& after.len() == before.len()
    &&& forall|i: int|
        0 <= i < before.len() ==> (#[trigger] after[i]) == (RuleView {
            status: after[i].status,
            ..before[i]
        }) && (before[i].status != RuleStatus::Error ==> after[i].status != RuleStatus::Error)
}

/// Whether each task's cap is the smaller of the cap of the rule it was
/// started with and the agent's.
pub open spec fn spec_caps_effective(manager: ManagerView) -> bool {
    forall|i: int|
        0 <= i < manager.tasks.len() ==> (#[trigger] manager.tasks[i]).connections_limit
            == spec_effective_limit(
            manager.tasks[i].rule.config.connections,
            manager.config.connections_limit,
        )
}

/// Whether a rule with the identifier is stored, enabled and not in
/// `Error`.
pub open spec fn spec_stored_wanted(rules: Seq<RuleView>, id: Seq<u8>) -> bool {
    exists|i: int| 0 <= i < rules.len() && (#[trigger] rules[i]).id == id && rules[i].wanted()
}

/// Whether a rule with the identifier is stored and enabled.
pub open spec fn spec_stored_enabled(rules: Seq<RuleView>, id: Seq<u8>) -> bool {
    exists|i: int| 0 <= i < rules.len() && (#[trigger] rules[i]).id == id && rules[i].enabled
}

/// Whether every registered task is one that the next tick either stops
/// or keeps supervised: its rule is stored, enabled and not in `Error`,
/// or is on the supervised list and not stored as enabled. The tasks
/// that are not accounted for are those of an enabled rule in `Error`,
/// whose forwarder has failed, and those of a rule that was started by
/// hand and is not wanted.
pub open spec fn spec_tasks_accounted(manager: ManagerView) -> bool {
    forall|i: int|
        0 <= i < manager.tasks.len() ==> {
            ||| spec_stored_wanted(manager.repository.rules, (#[trigger] manager.tasks[i]).rule.id)
            ||| spec_supervises(manager.rules, manager.tasks[i].rule.id) && !spec_stored_enabled(
                manager.repository.rules,
                manager.tasks[i].rule.id,
            )
        }
}

/// Rules that differ from others in counters only are stored wanted,
/// and enabled, exactly if those are.
pub proof fn lemma_counters_apart(was: Seq<RuleView>, now: Seq<RuleView>, id: Seq<u8>)
    requires
        now.len() == was.len(),
        forall|i: int|
            0 <= i < was.len() ==> (#[trigger] now[i]) == (RuleView { stats: now[i].stats, ..was[i] }),
    ensures
        spec_stored_wanted(now, id) <==> spec_stored_wanted(was, id),
        spec_stored_enabled(now, id) <==> spec_stored_enabled(was, id),
{
    if spec_stored_wanted(now, id) {
        let k = choose|k: int| 0 <= k < now.len() && (#[trigger] now[k]).id == id && now[k].wanted();
        assert(was[k].id == id && was[k].wanted());
    }
    if spec_stored_wanted(was, id) {
        let k = choose|k: int| 0 <= k < was.len() && (#[trigger] was[k]).id == id && was[k].wanted();
        assert(now[k].id == id && now[k].wanted());
    }
    if spec_stored_enabled(now, id) {
        let k = choose|k: int| 0 <= k < now.len() && (#[trigger] now[k]).id == id && now[k].enabled;
        assert(was[k].id == id && was[k].enabled);
    }
    if spec_stored_enabled(was, id) {
        let k = choose|k: int| 0 <= k < was.len() && (#[trigger] was[k]).id == id && was[k].enabled;
        assert(now[k].id == id && now[k].enabled);
    }
}

/// A tick sees a rule wanted, or enabled, exactly if the rule is stored
/// so.
pub proof fn lemma_seen_as_stored(rules: Seq<RuleView>, digests: Seq<u64>, id: Seq<u8>)
    requires
        digests.len() == rules.len(),
    ensures
        spec_seen_wanted(spec_observation(rules, digests), id) <==> spec_stored_wanted(rules, id),
        spec_seen_enabled(spec_observation(rules, digests), id) <==> spec_stored_enabled(rules, id),
{
    let observed = spec_observation(rules, digests);
    if spec_seen_wanted(observed, id) {
        let k = choose|k: int|
            0 <= k < observed.len() && (#[trigger] observed[k]).id == id && observed[k].wanted();
        assert(rules[k].id == id && rules[k].wanted());
    }
    if spec_stored_wanted(rules, id) {
        let k = choose|k: int| 0 <= k < rules.len() && (#[trigger] rules[k]).id == id && rules[k].wanted();
        assert(observed[k].id == id && observed[k].wanted());
    }
    if spec_seen_enabled(observed, id) {
        let k = choose|k: int|
            0 <= k < observed.len() && (#[trigger] observed[k]).id == id && observed[k].enabled;
        assert(rules[k].id == id && rules[k].enabled);
    }
    if spec_stored_enabled(rules, id) {
        let k = choose|k: int| 0 <= k < rules.len() && (#[trigger] rules[k]).id == id && rules[k].enabled;
        assert(observed[k].id == id && observed[k].enabled);
    }
}

/// Whether each task either was registered in `earlier` or was started
/// with the rule as it is stored, up to status and counters.
pub open spec fn spec_tasks_current(earlier: Seq<ForwardTaskView>, manager: ManagerView) -> bool {
    forall|i: int|
        0 <= i < manager.tasks.len() ==> {
            ||| earlier.contains(#[trigger] manager.tasks[i])
            ||| manager.repository.rule(manager.tasks[i].rule.id) matches Some(rule) && same_config(
                rule,
                manager.tasks[i].rule,
            )
        }
}

/// What is left of a task list without a rule's task is made of tasks of
/// the list, none of them of that rule.
pub proof fn lemma_without_task_members(tasks: Seq<ForwardTaskView>, id: Seq<u8>)
    ensures
        forall|i: int|
            0 <= i < spec_without_task(tasks, id).len() ==> (#[trigger] spec_without_task(
                tasks,
                id,
            )[i]).rule.id != id && tasks.contains(spec_without_task(tasks, id)[i]),
{
    let left = spec_without_task(tasks, id);
    assert forall|i: int| 0 <= i < left.len() implies (#[trigger] left[i]).rule.id != id
        && tasks.contains(left[i]) by {
        tasks.lemma_filter_pred(spec_of_other_rule(id), i);
        assert(left.contains(left[i]));
        tasks.lemma_filter_contains_rev(spec_of_other_rule(id), left[i]);
    }
}

impl ManagerView {
    /// Stopping a rule changes statuses in the repository and nothing
    /// else; the rule is then neither supervised nor has it a task, and
    /// it is stored as `Stopped` if it is stored.
    pub proof fn lemma_stopped(self, id: Seq<u8>)
        requires
            spec_distinct_ids(self.repository.rules),
        ensures
            spec_distinct_ids(self.stopped(id).repository.rules),
            spec_same_but_status(self.repository.rules, self.stopped(id).repository.rules),
            !spec_has_task(self.stopped(id).tasks, id),
            !spec_supervises(self.stopped(id).rules, id),
            self.repository.contains(id) ==> self.stopped(id).repository.status_of(id) == Some(
                RuleStatus::Stopped,
            ),
            !self.repository.contains(id) ==> !self.stopped(id).repository.contains(id),
            spec_one_task_each(self.tasks) ==> spec_one_task_each(self.stopped(id).tasks),
            spec_caps_effective(self) ==> spec_caps_effective(self.stopped(id)),
            forall|other: Seq<u8>|
                other != id ==> (#[trigger] spec_supervises(self.stopped(id).rules, other)
                    <==> spec_supervises(self.rules, other)),
    {
        self.repository.lemma_with_status_at(id, RuleStatus::Stopped);
        self.repository.lemma_with_status(id, RuleStatus::Stopped);
        lemma_without_task(self.tasks, id);
        lemma_without_task_members(self.tasks, id);
        lemma_unsupervised(self.rules, id);
        let after = self.stopped(id);
        assert forall|i: int| 0 <= i < after.tasks.len() implies (#[trigger] after.tasks[i]).connections_limit
            == spec_effective_limit(
            after.tasks[i].rule.config.connections,
            after.config.connections_limit,
        ) || !spec_caps_effective(self) by {
            if spec_caps_effective(self) {
                let task = after.tasks[i];
                assert(self.tasks.contains(task));
                let j = choose|j: int| 0 <= j < self.tasks.len() && self.tasks[j] == task;
                assert(self.tasks[j].connections_limit == spec_effective_limit(
                    self.tasks[j].rule.config.connections,
                    self.config.connections_limit,
                ));
            }
        }
    }

    /// Starting a rule changes statuses in the repository and nothing
    /// else. If the rule can be started, it then has a task, started
    /// with the rule as it was stored and capped by the smaller of the
    /// rule's cap and the agent's, and it is stored as `Running`.
    pub proof fn lemma_started(self, id: Seq<u8>)
        requires
            spec_distinct_ids(self.repository.rules),
        ensures
            spec_distinct_ids(self.started(id).repository.rules),
            spec_same_but_status(self.repository.rules, self.started(id).repository.rules),
            self.started(id).rules == self.rules,
            self.can_start(id) ==> spec_has_task(self.started(id).tasks, id) && self.started(
                id,
            ).repository.status_of(id) == Some(RuleStatus::Running),
            self.can_start(id) ==> self.started(id).tasks.last() == self.task_for(
                self.repository.rule(id)->0,
            ) && self.started(id).tasks.drop_last() == spec_without_task(self.tasks, id)
                && self.repository.rule(id)->0.id == id,
            !self.can_start(id) ==> self.started(id) == self,
            spec_one_task_each(self.tasks) ==> spec_one_task_each(self.started(id).tasks),
            spec_caps_effective(self) ==> spec_caps_effective(self.started(id)),
    {
        self.repository.lemma_with_status_at(id, RuleStatus::Running);
        self.repository.lemma_with_status(id, RuleStatus::Running);
        lemma_without_task(self.tasks, id);
        lemma_without_task_members(self.tasks, id);
        if self.can_start(id) {
            let rule = self.repository.rule(id)->0;
            let at = spec_position(self.repository.rules, id);
            assert(rule == self.repository.rules[at]);
            assert(rule.id == id);
            let task = self.task_for(rule);
            let left = spec_without_task(self.tasks, id);
            let after = self.started(id);
            assert(after.tasks == left.push(task));
            assert(after.tasks.drop_last() =~= left);
            assert(after.tasks[after.tasks.len() - 1].rule.id == id);
            if spec_one_task_each(self.tasks) {
                assert forall|i: int, j: int| 0 <= i < j < after.tasks.len() implies (
                #[trigger] after.tasks[i]).rule.id != (#[trigger] after.tasks[j]).rule.id by {
                    assert(after.tasks[i] == left[i]);
                    if j < left.len() {
                        assert(after.tasks[j] == left[j]);
                        assert(left[i].rule.id != left[j].rule.id);
                    }
                }
            }
            if spec_caps_effective(self) {
                assert forall|i: int| 0 <= i < after.tasks.len() implies (
                #[trigger] after.tasks[i]).connections_limit == spec_effective_limit(
                    after.tasks[i].rule.config.connections,
                    after.config.connections_limit,
                ) by {
                    if i < left.len() {
                        let kept = left[i];
                        assert(after.tasks[i] == kept);
                        assert(self.tasks.contains(kept));
                        let j = choose|j: int| 0 <= j < self.tasks.len() && self.tasks[j] == kept;
                        assert(self.tasks[j].connections_limit == spec_effective_limit(
                            self.tasks[j].rule.config.connections,
                            self.config.connections_limit,
                        ));
                    }
                }
            }
        }
    }
}

/// What is left of the supervised list without a rule does not hold the
/// rule, and holds every other rule exactly if the list did.
pub proof fn lemma_unsupervised(rules: Seq<SupervisedView>, id: Seq<u8>)
    ensures
        !spec_supervises(spec_unsupervised(rules, id), id),
        forall|other: Seq<u8>|
            other != id ==> (#[trigger] spec_supervises(spec_unsupervised(rules, id), other)
                <==> spec_supervises(rules, other)),
    decreases rules.len(),
{
    reveal(Seq::filter);
    let left = spec_unsupervised(rules, id);
    if rules.len() > 0 {
        let head = rules.drop_last();
        let last = rules.last();
        lemma_unsupervised(head, id);
        let head_left = spec_unsupervised(head, id);
        assert(left == if last.id != id {
            head_left.push(last)
        } else {
            head_left
        });
        if spec_supervises(left, id) {
            let i = choose|i: int| 0 <= i < left.len() && (#[trigger] left[i]).id == id;
            if i < head_left.len() {
                assert(head_left[i].id == id);
            }
        }
        assert forall|other: Seq<u8>| other != id implies (#[trigger] spec_supervises(left, other)
            <==> spec_supervises(rules, other)) by {
            if spec_supervises(left, other) {
                let i = choose|i: int| 0 <= i < left.len() && (#[trigger] left[i]).id == other;
                if i < head_left.len() {
                    assert(head_left[i].id == other);
                    assert(spec_supervises(head_left, other));
                    let j = choose|j: int| 0 <= j < head.len() && (#[trigger] head[j]).id == other;
                    assert(rules[j].id == other);
                } else {
                    assert(rules[rules.len() - 1].id == other);
                }
            }
            if spec_supervises(rules, other) {
                let j = choose|j: int| 0 <= j < rules.len() && (#[trigger] rules[j]).id == other;
                if j < head.len() {
                    assert(head[j].id == other);
                    assert(spec_supervises(head_left, other));
                    let i = choose|i: int|
                        0 <= i < head_left.len() && (#[trigger] head_left[i]).id == other;
                    assert(left[i].id == other);
                } else {
                    assert(left[left.len() - 1].id == other);
                }
            }
        }
    }
}

/// A rule is on the supervised list that a tick leaves exactly if it was
/// seen wanted.
pub proof fn lemma_wanted(observed: Seq<ObservedRuleView>)
    ensures
        forall|id: Seq<u8>| #[trigger]
            spec_supervises(spec_wanted(observed), id) <==> spec_seen_wanted(observed, id),
    decreases observed.len(),
{
    let listed = spec_wanted(observed);
    if observed.len() == 0 {
        assert(listed.len() == 0);
    } else {
        let head = observed.drop_last();
        let last = observed.last();
        lemma_wanted(head);
        let head_listed = spec_wanted(head);
        let entry = SupervisedView { id: last.id, digest: last.digest };
        assert(listed == if last.wanted() {
            head_listed + seq![entry]
        } else {
            head_listed
        });
        assert forall|id: Seq<u8>| #[trigger]
            spec_supervises(listed, id) <==> spec_seen_wanted(observed, id) by {
            if spec_supervises(listed, id) {
                let i = choose|i: int| 0 <= i < listed.len() && (#[trigger] listed[i]).id == id;
                if i < head_listed.len() {
                    assert(head_listed[i].id == id);
                    assert(spec_supervises(head_listed, id));
                    assert(spec_seen_wanted(head, id));
                    let k = choose|k: int|
                        0 <= k < head.len() && (#[trigger] head[k]).id == id && head[k].wanted();
                    assert(observed[k].id == id && observed[k].wanted());
                } else {
                    assert(observed[observed.len() - 1].id == id && observed[observed.len()
                        - 1].wanted());
                }
            }
            if spec_seen_wanted(observed, id) {
                let k = choose|k: int|
                    0 <= k < observed.len() && (#[trigger] observed[k]).id == id
                        && observed[k].wanted();
                if k < head.len() {
                    assert(head[k].id == id && head[k].wanted());
                    assert(spec_seen_wanted(head, id));
                    assert(spec_supervises(head_listed, id));
                    let i = choose|i: int|
                        0 <= i < head_listed.len() && (#[trigger] head_listed[i]).id == id;
                    assert(listed[i].id == id);
                } else {
                    assert(listed[listed.len() - 1].id == id);
                }
            }
        }
    }
}

/// Changing nothing but statuses, twice, is changing nothing but
/// statuses.
pub proof fn lemma_same_but_status_twice(a: Seq<RuleView>, b: Seq<RuleView>, c: Seq<RuleView>)
    requires
        spec_same_but_status(a, b),
        spec_same_but_status(b, c),
    ensures
        spec_same_but_status(a, c),
{
    assert forall|i: int| 0 <= i < a.len() implies (#[trigger] c[i]) == (RuleView {
        status: c[i].status,
        ..a[i]
    }) && (a[i].status != RuleStatus::Error ==> c[i].status != RuleStatus::Error) by {
        assert(b[i] == (RuleView { status: b[i].status, ..a[i] }));
        assert(c[i] == (RuleView { status: c[i].status, ..b[i] }));
    }
}

/// Among rules with distinct identifiers that differ from others in
/// status only, the same identifiers are found, in the same places.
pub proof fn lemma_found_alike(before: Seq<RuleView>, after: Seq<RuleView>, id: Seq<u8>)
    requires
        spec_distinct_ids(before),
        spec_distinct_ids(after),
        spec_same_but_status(before, after),
    ensures
        spec_has_rule(after, id) <==> spec_has_rule(before, id),
        spec_has_rule(before, id) ==> spec_position(after, id) == spec_position(before, id),
        spec_has_rule(before, id) ==> spec_rule(after, id)->0 == (RuleView {
            status: spec_rule(after, id)->0.status,
            ..spec_rule(before, id)->0
        }),
{
    if spec_has_rule(before, id) {
        let at = spec_position(before, id);
        assert(after[at].id == before[at].id);
        lemma_position_is(after, id, at);
    }
    if spec_has_rule(after, id) {
        let at = spec_position(after, id);
        assert(after[at].id == before[at].id);
        lemma_position_is(before, id, at);
    }
}

impl ManagerView {
    /// The first step of a tick changes statuses in the repository and
    /// nothing else, and registers no task. The tasks it leaves are
    /// tasks of rules that are not on the list it went over or were seen
    /// enabled.
    pub proof fn lemma_stop_unwanted(
        self,
        supervised: Seq<SupervisedView>,
        observed: Seq<ObservedRuleView>,
    )
        requires
            spec_distinct_ids(self.repository.rules),
        ensures
            spec_distinct_ids(self.stop_unwanted(supervised, observed).repository.rules),
            spec_same_but_status(
                self.repository.rules,
                self.stop_unwanted(supervised, observed).repository.rules,
            ),
            spec_one_task_each(self.tasks) ==> spec_one_task_each(
                self.stop_unwanted(supervised, observed).tasks,
            ),
            spec_caps_effective(self) ==> spec_caps_effective(
                self.stop_unwanted(supervised, observed),
            ),
            forall|i: int|
                0 <= i < self.stop_unwanted(supervised, observed).tasks.len() ==> {
                    let task = #[trigger] self.stop_unwanted(supervised, observed).tasks[i];
                    &&& self.tasks.contains(task)
                    &&& !spec_supervises(supervised, task.rule.id) || spec_seen_enabled(
                        observed,
                        task.rule.id,
                    )
                },
        decreases supervised.len(),
    {
        let after = self.stop_unwanted(supervised, observed);
        if supervised.len() == 0 {
            assert forall|i: int| 0 <= i < after.tasks.len() implies self.tasks.contains(
                #[trigger] after.tasks[i],
            ) by {}
        } else {
            let head = supervised.drop_last();
            let last = supervised.last();
            let before = self.stop_unwanted(head, observed);
            self.lemma_stop_unwanted(head, observed);
            assert forall|id: Seq<u8>| spec_supervises(supervised, id) implies spec_supervises(
                head,
                id,
            ) || id == last.id by {
                let j = choose|j: int| 0 <= j < supervised.len() && (#[trigger] supervised[j]).id == id;
                if j < head.len() {
                    assert(head[j].id == id);
                }
            }
            if spec_seen_enabled(observed, last.id) {
                assert forall|i: int| 0 <= i < after.tasks.len() implies {
                    let task = #[trigger] after.tasks[i];
                    &&& self.tasks.contains(task)
                    &&& !spec_supervises(supervised, task.rule.id) || spec_seen_enabled(
                        observed,
                        task.rule.id,
                    )
                } by {
                    assert(after.tasks[i] == before.tasks[i]);
                }
            } else {
                before.lemma_stopped(last.id);
                lemma_without_task_members(before.tasks, last.id);
                lemma_same_but_status_twice(
                    self.repository.rules,
                    before.repository.rules,
                    after.repository.rules,
                );
                assert forall|i: int| 0 <= i < after.tasks.len() implies {
                    let task = #[trigger] after.tasks[i];
                    &&& self.tasks.contains(task)
                    &&& !spec_supervises(supervised, task.rule.id) || spec_seen_enabled(
                        observed,
                        task.rule.id,
                    )
                } by {
                    let task = after.tasks[i];
                    assert(before.tasks.contains(task));
                    let j = choose|j: int| 0 <= j < before.tasks.len() && before.tasks[j] == task;
                    assert(self.tasks.contains(before.tasks[j]));
                }
            }
        }
    }

    /// The second step of a tick for one rule seen.
    pub proof fn lemma_reconciled_with(self, earlier: Seq<ForwardTaskView>, rule: ObservedRuleView)
        requires
            spec_distinct_ids(self.repository.rules),
            spec_tasks_current(earlier, self),
        ensures
            spec_distinct_ids(self.reconciled_with(rule).repository.rules),
            spec_same_but_status(
                self.repository.rules,
                self.reconciled_with(rule).repository.rules,
            ),
            spec_one_task_each(self.tasks) ==> spec_one_task_each(self.reconciled_with(rule).tasks),
            spec_caps_effective(self) ==> spec_caps_effective(self.reconciled_with(rule)),
            spec_tasks_current(earlier, self.reconciled_with(rule)),
            forall|i: int|
                0 <= i < self.reconciled_with(rule).tasks.len() ==> {
                    let task = #[trigger] self.reconciled_with(rule).tasks[i];
                    self.tasks.contains(task) || (rule.wanted() && task.rule.id == rule.id)
                },
    {
        let after = self.reconciled_with(rule);
        let id = rule.id;
        if !rule.wanted() || (spec_supervises(self.rules, id) && crate::forward::manager::spec_digest_of(
            self.rules,
            id,
        ) == Some(rule.digest)) {
            assert(after == self);
            assert forall|i: int| 0 <= i < after.tasks.len() implies self.tasks.contains(
                #[trigger] after.tasks[i],
            ) by {}
        } else {
            let base = if !spec_supervises(self.rules, id) {
                self
            } else {
                self.stopped(id)
            };
            if spec_supervises(self.rules, id) {
                self.lemma_stopped(id);
            }
            assert(spec_same_but_status(self.repository.rules, base.repository.rules));
            assert(spec_distinct_ids(base.repository.rules));
            lemma_without_task_members(self.tasks, id);
            assert forall|i: int| 0 <= i < base.tasks.len() implies self.tasks.contains(
                #[trigger] base.tasks[i],
            ) by {}
            base.lemma_started(id);
            assert(after == base.started(id));
            lemma_same_but_status_twice(
                self.repository.rules,
                base.repository.rules,
                after.repository.rules,
            );
            lemma_without_task_members(base.tasks, id);
            assert forall|i: int| 0 <= i < after.tasks.len() implies {
                let task = #[trigger] after.tasks[i];
                &&& self.tasks.contains(task) || (rule.wanted() && task.rule.id == rule.id)
                &&& earlier.contains(task) || (after.repository.rule(task.rule.id) matches Some(
                    stored,
                ) && same_config(stored, task.rule))
            } by {
                let task = after.tasks[i];
                if base.can_start(id) && i == after.tasks.len() - 1 {
                    let started_with = base.repository.rule(id)->0;
                    assert(task == base.task_for(started_with));
                    lemma_found_alike(base.repository.rules, after.repository.rules, id);
                } else {
                    if base.can_start(id) {
                        assert(after.tasks.drop_last()[i] == task);
                        let left = spec_without_task(base.tasks, id);
                        assert(left[i] == task);
                        assert(base.tasks.contains(task));
                    } else {
                        assert(after == base);
                        assert(base.tasks[i] == task);
                    }
                    let j = choose|j: int| 0 <= j < base.tasks.len() && base.tasks[j] == task;
                    assert(self.tasks.contains(base.tasks[j]));
                    let k = choose|k: int| 0 <= k < self.tasks.len() && self.tasks[k] == task;
                    if !earlier.contains(task) {
                        assert(self.repository.rule(self.tasks[k].rule.id) is Some);
                        lemma_found_alike(
                            self.repository.rules,
                            after.repository.rules,
                            task.rule.id,
                        );
                    }
                }
            }
        }
    }

    /// The second step of a tick changes statuses in the repository and
    /// nothing else. The tasks it leaves are tasks that were registered
    /// before or tasks of rules seen wanted; and a task that it
    /// registered was started with the rule as it is stored.
    pub proof fn lemma_start_wanted(
        self,
        earlier: Seq<ForwardTaskView>,
        observed: Seq<ObservedRuleView>,
    )
        requires
            spec_distinct_ids(self.repository.rules),
            spec_tasks_current(earlier, self),
        ensures
            spec_distinct_ids(self.start_wanted(observed).repository.rules),
            spec_same_but_status(self.repository.rules, self.start_wanted(observed).repository.rules),
            spec_one_task_each(self.tasks) ==> spec_one_task_each(self.start_wanted(observed).tasks),
            spec_caps_effective(self) ==> spec_caps_effective(self.start_wanted(observed)),
            spec_tasks_current(earlier, self.start_wanted(observed)),
            forall|i: int|
                0 <= i < self.start_wanted(observed).tasks.len() ==> {
                    let task = #[trigger] self.start_wanted(observed).tasks[i];
                    self.tasks.contains(task) || spec_seen_wanted(observed, task.rule.id)
                },
        decreases observed.len(),
    {
        let after = self.start_wanted(observed);
        if observed.len() == 0 {
            assert forall|i: int| 0 <= i < after.tasks.len() implies self.tasks.contains(
                #[trigger] after.tasks[i],
            ) by {}
        } else {
            let head = observed.drop_last();
            let last = observed.last();
            let before = self.start_wanted(head);
            self.lemma_start_wanted(earlier, head);
            before.lemma_reconciled_with(earlier, last);
            lemma_same_but_status_twice(
                self.repository.rules,
                before.repository.rules,
                after.repository.rules,
            );
            assert forall|i: int| 0 <= i < after.tasks.len() implies {
                let task = #[trigger] after.tasks[i];
                self.tasks.contains(task) || spec_seen_wanted(observed, task.rule.id)
            } by {
                let task = after.tasks[i];
                if before.tasks.contains(task) {
                    let j = choose|j: int| 0 <= j < before.tasks.len() && before.tasks[j] == task;
                    if !self.tasks.contains(before.tasks[j]) {
                        assert(spec_seen_wanted(head, task.rule.id));
                        let k = choose|k: int|
                            0 <= k < head.len() && (#[trigger] head[k]).id == task.rule.id
                                && head[k].wanted();
                        assert(observed[k].id == task.rule.id && observed[k].wanted());
                    }
                } else {
                    assert(observed[observed.len() - 1].id == task.rule.id && observed[observed.len()
                        - 1].wanted());
                }
            }
        }
    }

    /// After a tick, whatever digests it saw: the repository holds the
    /// rules it held, with nothing changed but statuses; every rule on
    /// the supervised list is stored, enabled and not in `Error`, and
    /// every stored rule that is enabled and was not in `Error` is on
    /// the list.
    pub proof fn tick_supervises_the_wanted_rules(self, digests: Seq<u64>)
        requires
            spec_distinct_ids(self.repository.rules),
            digests.len() == self.repository.rules.len(),
        ensures
            ({
                let after = self.reconciled(spec_observation(self.repository.rules, digests));
                &&& spec_distinct_ids(after.repository.rules)
                &&& spec_same_but_status(self.repository.rules, after.repository.rules)
                &&& forall|i: int|
                    0 <= i < after.rules.len() ==> after.repository.rule(
                        (#[trigger] after.rules[i]).id,
                    ) is Some && after.repository.rule(after.rules[i].id)->0.wanted()
                &&& forall|i: int|
                    0 <= i < self.repository.rules.len() && (
                    #[trigger] self.repository.rules[i]).wanted() ==> spec_supervises(
                        after.rules,
                        self.repository.rules[i].id,
                    )
            }),
    {
        let observed = spec_observation(self.repository.rules, digests);
        let cleared = self.stop_unwanted(self.rules, observed);
        let after = self.reconciled(observed);
        self.lemma_stop_unwanted(self.rules, observed);
        assert(spec_tasks_current(cleared.tasks, cleared)) by {
            assert forall|i: int| 0 <= i < cleared.tasks.len() implies cleared.tasks.contains(
                #[trigger] cleared.tasks[i],
            ) by {}
        }
        cleared.lemma_start_wanted(cleared.tasks, observed);
        lemma_same_but_status_twice(
            self.repository.rules,
            cleared.repository.rules,
            after.repository.rules,
        );
        lemma_wanted(observed);
        assert forall|i: int| 0 <= i < after.rules.len() implies after.repository.rule(
            (#[trigger] after.rules[i]).id,
        ) is Some && after.repository.rule(after.rules[i].id)->0.wanted() by {
            let id = after.rules[i].id;
            assert(spec_supervises(after.rules, id));
            assert(spec_seen_wanted(observed, id));
            let k = choose|k: int|
                0 <= k < observed.len() && (#[trigger] observed[k]).id == id && observed[k].wanted();
            assert(self.repository.rules[k].id == id);
            assert(after.repository.rules[k] == (RuleView {
                status: after.repository.rules[k].status,
                ..self.repository.rules[k]
            }));
            lemma_position_is(after.repository.rules, id, k);
        }
        assert forall|i: int|
            0 <= i < self.repository.rules.len() && (
            #[trigger] self.repository.rules[i]).wanted() implies spec_supervises(
            after.rules,
            self.repository.rules[i].id,
        ) by {
            assert(observed[i].id == self.repository.rules[i].id && observed[i].wanted());
        }
    }

    /// After a tick that began with every task accounted for, whatever
    /// digests it saw: every registered task belongs to a supervised
    /// rule, and every task is accounted for again; no rule has two
    /// tasks; each task's cap is the smaller of the cap of the rule it
    /// was started with and the agent's; and each task that the tick
    /// registered was started with the rule as it is stored, so that its
    /// cap is the smaller of the stored rule's and the agent's.
    pub proof fn tick_keeps_tasks_supervised(self, digests: Seq<u64>)
        requires
            spec_distinct_ids(self.repository.rules),
            digests.len() == self.repository.rules.len(),
            spec_tasks_accounted(self),
        ensures
            ({
                let after = self.reconciled(spec_observation(self.repository.rules, digests));
                &&& forall|i: int|
                    0 <= i < after.tasks.len() ==> spec_supervises(
                        after.rules,
                        (#[trigger] after.tasks[i]).rule.id,
                    )
                &&& spec_tasks_accounted(after)
                &&& spec_one_task_each(self.tasks) ==> spec_one_task_each(after.tasks)
                &&& spec_caps_effective(self) ==> spec_caps_effective(after)
                &&& spec_tasks_current(self.tasks, after)
            }),
    {
        let observed = spec_observation(self.repository.rules, digests);
        let cleared = self.stop_unwanted(self.rules, observed);
        let after = self.reconciled(observed);
        self.lemma_stop_unwanted(self.rules, observed);
        assert(spec_tasks_current(self.tasks, cleared)) by {
            assert forall|i: int| 0 <= i < cleared.tasks.len() implies self.tasks.contains(
                #[trigger] cleared.tasks[i],
            ) by {}
        }
        cleared.lemma_start_wanted(self.tasks, observed);
        lemma_wanted(observed);
        lemma_same_but_status_twice(
            self.repository.rules,
            cleared.repository.rules,
            after.repository.rules,
        );
        assert forall|i: int| 0 <= i < after.tasks.len() implies spec_supervises(
            after.rules,
            (#[trigger] after.tasks[i]).rule.id,
        ) && spec_stored_wanted(after.repository.rules, after.tasks[i].rule.id) by {
            let task = after.tasks[i];
            if cleared.tasks.contains(task) {
                let j = choose|j: int| 0 <= j < cleared.tasks.len() && cleared.tasks[j] == task;
                assert(self.tasks.contains(cleared.tasks[j]));
                let k = choose|k: int| 0 <= k < self.tasks.len() && self.tasks[k] == task;
                lemma_seen_as_stored(self.repository.rules, digests, self.tasks[k].rule.id);
                assert(spec_seen_wanted(observed, self.tasks[k].rule.id));
            }
            assert(spec_seen_wanted(observed, task.rule.id));
            let at = choose|at: int|
                0 <= at < observed.len() && (#[trigger] observed[at]).id == task.rule.id
                    && observed[at].wanted();
            assert(self.repository.rules[at].wanted());
            assert(after.repository.rules[at] == (RuleView {
                status: after.repository.rules[at].status,
                ..self.repository.rules[at]
            }));
            assert(after.repository.rules[at].id == task.rule.id
                && after.repository.rules[at].wanted());
        }
        assert(after.tasks == cleared.start_wanted(observed).tasks);
        assert(after.repository == cleared.start_wanted(observed).repository);
        assert(after.config == cleared.start_wanted(observed).config);
    }
}

} // verus!
