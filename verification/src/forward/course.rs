//! What a tick does to one rule.
//!
//! A tick goes over all supervised and all stored rules, but what
//! happens to one rule depends on that rule alone: on how it is stored,
//! on the digest it is supervised under, and on the task it has. What
//! the manager holds of one rule is set apart here, and the course of
//! that rule through a whole tick is stated in terms of it.

use crate::dal::rule::{spec_distinct_ids, spec_has_rule, spec_position};
use crate::data::rule::RuleStatus;
use crate::forward::manager::{
    spec_digest_of, spec_observation, spec_of_another, spec_seen_enabled, spec_seen_wanted,
    spec_supervises, spec_unsupervised, spec_wanted, ManagerView, ObservedRuleView, SupervisedView,
};
use crate::forward::supervision::{lemma_unsupervised, lemma_wanted};
use crate::forward::task::{
    spec_has_task, spec_of_other_rule, spec_without_task, ForwardTaskView, TaskCommandView,
};
use crate::forward::tcp::spec_effective_limit;
use crate::model::rule::RuleView;
use vstd::prelude::*;

verus! {

/// The test for a task of the rule with the id.
pub open spec fn spec_task_of(id: Seq<u8>) -> spec_fn(ForwardTaskView) -> bool {
    |task: ForwardTaskView| task.rule.id == id
}

/// The test for a command that concerns the rule with the id.
pub open spec fn spec_command_of(id: Seq<u8>) -> spec_fn(TaskCommandView) -> bool {
    |command: TaskCommandView|
        match command {
            TaskCommandView::Spawn(task) => task.rule.id == id,
            TaskCommandView::Abort(rule) => rule == id,
        }
}

/// What the manager holds of one rule.
pub struct RuleStateView {
    /// The rule as it is stored, if it is.
    pub stored: Option<RuleView>,
    /// The digest under which the rule is supervised, if it is.
    pub digest: Option<u64>,
    /// The tasks registered for the rule.
    pub tasks: Seq<ForwardTaskView>,
    /// The commands given for the rule and not taken yet, oldest first.
    pub commands: Seq<TaskCommandView>,
}

impl ManagerView {
    /// What the manager holds of the rule with the id.
    pub open spec fn of_rule(self, id: Seq<u8>) -> RuleStateView {
        RuleStateView {
            stored: self.repository.rule(id),
            digest: spec_digest_of(self.rules, id),
            tasks: self.tasks.filter(spec_task_of(id)),
            commands: self.commands.filter(spec_command_of(id)),
        }
    }
}

/// A rule is on the supervised list exactly if the list holds a digest
/// for it.
pub proof fn lemma_digest_of(rules: Seq<SupervisedView>, id: Seq<u8>)
    ensures
        spec_digest_of(rules, id) is Some <==> spec_supervises(rules, id),
    decreases rules.len(),
{
    if rules.len() > 0 {
        let rest = rules.drop_first();
        lemma_digest_of(rest, id);
        if spec_supervises(rest, id) {
            let i = choose|i: int| 0 <= i < rest.len() && (#[trigger] rest[i]).id == id;
            assert(rules[i + 1].id == id);
        }
        if spec_supervises(rules, id) && rules[0].id != id {
            let i = choose|i: int| 0 <= i < rules.len() && (#[trigger] rules[i]).id == id;
            assert(rest[i - 1].id == id);
        }
        if rules[0].id == id {
            assert(spec_supervises(rules, id));
        }
    }
}

/// Taking a rule off the supervised list leaves no digest for it and
/// leaves the digest of any other rule as it was.
pub proof fn lemma_digest_unsupervised(rules: Seq<SupervisedView>, gone: Seq<u8>, id: Seq<u8>)
    ensures
        spec_digest_of(spec_unsupervised(rules, gone), id) == if id == gone {
            None
        } else {
            spec_digest_of(rules, id)
        },
    decreases rules.len(),
{
    if id == gone {
        lemma_unsupervised(rules, gone);
        lemma_digest_of(spec_unsupervised(rules, gone), id);
    } else if rules.len() == 0 {
        reveal(Seq::filter);
    } else {
        let keep = spec_of_another(gone);
        let first = rules[0];
        let rest = rules.drop_first();
        assert(rules =~= seq![first] + rest);
        rest.lemma_filter_prepend(first, keep);
        lemma_digest_unsupervised(rest, gone, id);
        let left = spec_unsupervised(rules, gone);
        if keep(first) {
            assert(left =~= seq![first] + rest.filter(keep));
            assert(left[0] == first);
            assert(left.drop_first() =~= rest.filter(keep));
        } else {
            assert(left =~= rest.filter(keep));
        }
    }
}

/// The tasks of a rule among the tasks without those of a rule: none if
/// it is the same rule, and else as before.
pub proof fn lemma_tasks_without(tasks: Seq<ForwardTaskView>, gone: Seq<u8>, id: Seq<u8>)
    ensures
        spec_without_task(tasks, gone).filter(spec_task_of(id)) == if id == gone {
            Seq::<ForwardTaskView>::empty()
        } else {
            tasks.filter(spec_task_of(id))
        },
    decreases tasks.len(),
{
    reveal(Seq::filter);
    if tasks.len() > 0 {
        let head = tasks.drop_last();
        let last = tasks.last();
        lemma_tasks_without(head, gone, id);
        let kept = spec_without_task(head, gone);
        if spec_of_other_rule(gone)(last) {
            assert(spec_without_task(tasks, gone) == kept.push(last));
            kept.lemma_filter_push(last, spec_task_of(id));
        } else {
            assert(spec_without_task(tasks, gone) == kept);
        }
    }
}

/// A rule has a task exactly if there are tasks of the rule.
pub proof fn lemma_has_task(tasks: Seq<ForwardTaskView>, id: Seq<u8>)
    ensures
        spec_has_task(tasks, id) <==> tasks.filter(spec_task_of(id)).len() > 0,
    decreases tasks.len(),
{
    reveal(Seq::filter);
    if tasks.len() > 0 {
        let head = tasks.drop_last();
        let last = tasks.last();
        lemma_has_task(head, id);
        if spec_has_task(head, id) {
            let i = choose|i: int| 0 <= i < head.len() && (#[trigger] head[i]).rule.id == id;
            assert(tasks[i].rule.id == id);
        }
        if last.rule.id == id {
            assert(tasks[tasks.len() - 1].rule.id == id);
        }
        if spec_has_task(tasks, id) && last.rule.id != id {
            let i = choose|i: int| 0 <= i < tasks.len() && (#[trigger] tasks[i]).rule.id == id;
            assert(head[i].rule.id == id);
        }
    }
}

impl RuleStateView {
    /// The commands once the abort of the rule's task, if it has one, is
    /// commanded.
    pub open spec fn aborting(self, id: Seq<u8>) -> Seq<TaskCommandView> {
        if self.tasks.len() > 0 {
            self.commands.push(TaskCommandView::Abort(id))
        } else {
            self.commands
        }
    }

    /// What the manager holds of the rule after it stopped the rule.
    pub open spec fn stopped(self, id: Seq<u8>) -> RuleStateView {
        RuleStateView {
            stored: match self.stored {
                Some(rule) => Some(RuleView { status: RuleStatus::Stopped, ..rule }),
                None => None,
            },
            digest: None,
            tasks: Seq::empty(),
            commands: self.aborting(id),
        }
    }

    /// The task that the rule's forwarder is started with under the
    /// agent's cap.
    pub open spec fn task_for(rule: RuleView, agent_limit: Option<u64>) -> ForwardTaskView {
        ForwardTaskView {
            rule,
            connections_limit: spec_effective_limit(rule.config.connections, agent_limit),
        }
    }

    /// What the manager holds of the rule after it started the rule, if
    /// it can.
    pub open spec fn started(self, id: Seq<u8>, agent_limit: Option<u64>) -> RuleStateView {
        match self.stored {
            Some(rule) => if rule.enabled {
                RuleStateView {
                    stored: Some(RuleView { status: RuleStatus::Running, ..rule }),
                    digest: self.digest,
                    tasks: seq![Self::task_for(rule, agent_limit)],
                    commands: self.aborting(id).push(
                        TaskCommandView::Spawn(Self::task_for(rule, agent_limit)),
                    ),
                }
            } else {
                self
            },
            None => self,
        }
    }

    /// What the manager holds of the rule after the second step of a
    /// tick saw the rule.
    pub open spec fn reconciled_with(
        self,
        id: Seq<u8>,
        rule: ObservedRuleView,
        agent_limit: Option<u64>,
    ) -> RuleStateView {
        if !rule.wanted() {
            self
        } else if self.digest is None {
            self.started(id, agent_limit)
        } else if self.digest != Some(rule.digest) {
            self.stopped(id).started(id, agent_limit)
        } else {
            self
        }
    }

    /// What the manager holds of the rule after a tick in which the rule
    /// was seen as `seen` (not at all, if it is not stored). A supervised
    /// rule that was not seen enabled is stopped; a rule seen wanted is
    /// started if it is not supervised, and stopped and started if it is
    /// supervised under another digest than the one seen; and then the
    /// rule is supervised, under the digest seen, exactly if it was seen
    /// wanted.
    pub open spec fn ticked(
        self,
        id: Seq<u8>,
        seen: Option<ObservedRuleView>,
        agent_limit: Option<u64>,
    ) -> RuleStateView {
        let cleared = if self.digest is Some && !(seen is Some && seen->0.enabled) {
            self.stopped(id)
        } else {
            self
        };
        let begun = match seen {
            Some(rule) => cleared.reconciled_with(id, rule, agent_limit),
            None => cleared,
        };
        RuleStateView {
            digest: match seen {
                Some(rule) => if rule.wanted() {
                    Some(rule.digest)
                } else {
                    None
                },
                None => None,
            },
            ..begun
        }
    }
}

impl ManagerView {
    /// Stopping a rule does to what the manager holds of that rule what
    /// [`RuleStateView::stopped`] says, and nothing to what it holds of
    /// any other rule.
    pub proof fn lemma_stopped_of(self, gone: Seq<u8>, id: Seq<u8>)
        requires
            spec_distinct_ids(self.repository.rules),
        ensures
            self.stopped(gone).of_rule(id) == if id == gone {
                self.of_rule(id).stopped(id)
            } else {
                self.of_rule(id)
            },
    {
        self.repository.lemma_with_status(gone, RuleStatus::Stopped);
        lemma_digest_unsupervised(self.rules, gone, id);
        lemma_tasks_without(self.tasks, gone, id);
        lemma_has_task(self.tasks, gone);
        self.commands.lemma_filter_push(TaskCommandView::Abort(gone), spec_command_of(id));
        let after = self.stopped(gone).of_rule(id);
        let expected = if id == gone {
            self.of_rule(id).stopped(id)
        } else {
            self.of_rule(id)
        };
        assert(after.stored == expected.stored);
        assert(after.digest == expected.digest);
        assert(after.tasks =~= expected.tasks);
        assert(after.commands =~= expected.commands);
    }

    /// Starting a rule does to what the manager holds of that rule what
    /// [`RuleStateView::started`] says, and nothing to what it holds of
    /// any other rule.
    pub proof fn lemma_started_of(self, begun: Seq<u8>, id: Seq<u8>)
        requires
            spec_distinct_ids(self.repository.rules),
        ensures
            self.started(begun).of_rule(id) == if id == begun {
                self.of_rule(id).started(id, self.config.connections_limit)
            } else {
                self.of_rule(id)
            },
    {
        self.repository.lemma_with_status(begun, RuleStatus::Running);
        if self.can_start(begun) {
            let rule = self.repository.rule(begun)->0;
            let at = spec_position(self.repository.rules, begun);
            assert(rule == self.repository.rules[at]);
            assert(rule.id == begun);
            let task = self.task_for(rule);
            assert(task == RuleStateView::task_for(rule, self.config.connections_limit));
            lemma_tasks_without(self.tasks, begun, id);
            lemma_has_task(self.tasks, begun);
            spec_without_task(self.tasks, begun).lemma_filter_push(task, spec_task_of(id));
            self.commands.lemma_filter_push(TaskCommandView::Abort(begun), spec_command_of(id));
            self.aborting(begun).lemma_filter_push(
                TaskCommandView::Spawn(task),
                spec_command_of(id),
            );
            let after = self.started(begun).of_rule(id);
            let expected = if id == begun {
                self.of_rule(id).started(id, self.config.connections_limit)
            } else {
                self.of_rule(id)
            };
            assert(after.stored == expected.stored);
            assert(after.digest == expected.digest);
            assert(after.tasks =~= expected.tasks);
            assert(after.commands =~= expected.commands);
        }
    }

    /// The second step of a tick for one rule seen does to what the
    /// manager holds of that rule what
    /// [`RuleStateView::reconciled_with`] says, and nothing to what it
    /// holds of any other rule.
    pub proof fn lemma_reconciled_with_of(self, rule: ObservedRuleView, id: Seq<u8>)
        requires
            spec_distinct_ids(self.repository.rules),
        ensures
            self.reconciled_with(rule).of_rule(id) == if id == rule.id {
                self.of_rule(id).reconciled_with(id, rule, self.config.connections_limit)
            } else {
                self.of_rule(id)
            },
    {
        lemma_digest_of(self.rules, rule.id);
        if rule.wanted() {
            if !spec_supervises(self.rules, rule.id) {
                self.lemma_started_of(rule.id, id);
            } else if spec_digest_of(self.rules, rule.id) != Some(rule.digest) {
                self.lemma_stopped_of(rule.id, id);
                self.lemma_stopped(rule.id);
                self.stopped(rule.id).lemma_started_of(rule.id, id);
            }
        }
    }
}

/// Whether no two of the rules seen share an identifier.
pub open spec fn spec_distinct_seen(observed: Seq<ObservedRuleView>) -> bool {
    forall|i: int, j: int|
        0 <= i < j < observed.len() ==> (#[trigger] observed[i]).id != (#[trigger] observed[j]).id
}

/// Whether the rule with the identifier was seen.
pub open spec fn spec_was_seen(observed: Seq<ObservedRuleView>, id: Seq<u8>) -> bool {
    exists|i: int| 0 <= i < observed.len() && (#[trigger] observed[i]).id == id
}

/// What was seen of the rule with the identifier, if it was seen.
pub open spec fn spec_seen(observed: Seq<ObservedRuleView>, id: Seq<u8>) -> Option<
    ObservedRuleView,
> {
    if spec_was_seen(observed, id) {
        Some(observed[choose|i: int| 0 <= i < observed.len() && (#[trigger] observed[i]).id == id])
    } else {
        None
    }
}

/// Among rules seen with distinct identifiers, what was seen of a rule
/// is what stands in the place where its identifier is found.
pub proof fn lemma_seen_at(observed: Seq<ObservedRuleView>, i: int)
    requires
        spec_distinct_seen(observed),
        0 <= i < observed.len(),
    ensures
        spec_seen(observed, observed[i].id) == Some(observed[i]),
{
    let id = observed[i].id;
    assert(spec_was_seen(observed, id));
    let j = choose|j: int| 0 <= j < observed.len() && (#[trigger] observed[j]).id == id;
    if j < i {
        assert(observed[j].id != observed[i].id);
    }
    if i < j {
        assert(observed[i].id != observed[j].id);
    }
}

/// Whether no two entries of a supervised list are of the same rule.
pub open spec fn spec_distinct_supervised(rules: Seq<SupervisedView>) -> bool {
    forall|i: int, j: int|
        0 <= i < j < rules.len() ==> (#[trigger] rules[i]).id != (#[trigger] rules[j]).id
}

/// On a supervised list without two entries of the same rule, the
/// digest of a rule is that of its entry.
pub proof fn lemma_digest_at(rules: Seq<SupervisedView>, i: int)
    requires
        spec_distinct_supervised(rules),
        0 <= i < rules.len(),
    ensures
        spec_digest_of(rules, rules[i].id) == Some(rules[i].digest),
    decreases i,
{
    if i > 0 {
        let rest = rules.drop_first();
        assert(rules[0].id != rules[i].id);
        assert forall|a: int, b: int| 0 <= a < b < rest.len() implies (#[trigger] rest[a]).id != (
        #[trigger] rest[b]).id by {
            assert(rules[a + 1].id != rules[b + 1].id);
        }
        assert(rest[i - 1] == rules[i]);
        lemma_digest_at(rest, i - 1);
    }
}

/// Whether the entry is that of a rule seen wanted, with the digest
/// seen.
pub open spec fn spec_entry_seen(observed: Seq<ObservedRuleView>, entry: SupervisedView) -> bool {
    exists|k: int|
        0 <= k < observed.len() && (#[trigger] observed[k]).wanted() && observed[k].id == entry.id
            && observed[k].digest == entry.digest
}

/// The supervised list that a tick leaves holds one entry for each rule
/// seen wanted, with the digest seen, and none else.
pub proof fn lemma_wanted_entries(observed: Seq<ObservedRuleView>)
    requires
        spec_distinct_seen(observed),
    ensures
        spec_distinct_supervised(spec_wanted(observed)),
        forall|i: int|
            0 <= i < spec_wanted(observed).len() ==> spec_entry_seen(
                observed,
                #[trigger] spec_wanted(observed)[i],
            ),
    decreases observed.len(),
{
    let listed = spec_wanted(observed);
    if observed.len() == 0 {
        assert(listed.len() == 0);
    } else {
        let head = observed.drop_last();
        let last = observed.last();
        assert forall|i: int, j: int| 0 <= i < j < head.len() implies (#[trigger] head[i]).id != (
        #[trigger] head[j]).id by {
            assert(observed[i].id != observed[j].id);
        }
        lemma_wanted_entries(head);
        let head_listed = spec_wanted(head);
        let entry = SupervisedView { id: last.id, digest: last.digest };
        assert(listed == if last.wanted() {
            head_listed + seq![entry]
        } else {
            head_listed
        });
        assert forall|i: int| 0 <= i < listed.len() implies spec_entry_seen(
            observed,
            #[trigger] listed[i],
        ) by {
            if i < head_listed.len() {
                assert(listed[i] == head_listed[i]);
                assert(spec_entry_seen(head, head_listed[i]));
                let k = choose|k: int|
                    0 <= k < head.len() && (#[trigger] head[k]).wanted() && head[k].id
                        == head_listed[i].id && head[k].digest == head_listed[i].digest;
                assert(observed[k] == head[k]);
            } else {
                assert(observed[observed.len() - 1] == last);
            }
        }
        assert forall|i: int, j: int| 0 <= i < j < listed.len() implies (#[trigger] listed[i]).id
            != (#[trigger] listed[j]).id by {
            if j < head_listed.len() {
                assert(listed[i] == head_listed[i] && listed[j] == head_listed[j]);
            } else {
                assert(listed[i] == head_listed[i]);
                assert(spec_entry_seen(head, head_listed[i]));
                let k = choose|k: int|
                    0 <= k < head.len() && (#[trigger] head[k]).wanted() && head[k].id
                        == head_listed[i].id && head[k].digest == head_listed[i].digest;
                assert(observed[k].id != observed[observed.len() - 1].id);
            }
        }
    }
}

/// The digest that the supervised list holds for a rule after a tick is
/// the digest seen if the rule was seen wanted, and none else.
pub proof fn lemma_wanted_digest(observed: Seq<ObservedRuleView>, id: Seq<u8>)
    requires
        spec_distinct_seen(observed),
    ensures
        spec_digest_of(spec_wanted(observed), id) == match spec_seen(observed, id) {
            Some(rule) => if rule.wanted() {
                Some(rule.digest)
            } else {
                None
            },
            None => None,
        },
{
    let listed = spec_wanted(observed);
    lemma_wanted(observed);
    lemma_wanted_entries(observed);
    lemma_digest_of(listed, id);
    if spec_supervises(listed, id) {
        let i = choose|i: int| 0 <= i < listed.len() && (#[trigger] listed[i]).id == id;
        assert(spec_entry_seen(observed, listed[i]));
        let k = choose|k: int|
            0 <= k < observed.len() && (#[trigger] observed[k]).wanted() && observed[k].id
                == listed[i].id && observed[k].digest == listed[i].digest;
        lemma_seen_at(observed, k);
        lemma_digest_at(listed, i);
    } else {
        assert(!spec_seen_wanted(observed, id));
        if spec_was_seen(observed, id) {
            let k = choose|k: int| 0 <= k < observed.len() && (#[trigger] observed[k]).id == id;
            assert(!(observed[k].id == id && observed[k].wanted()));
        }
    }
}

impl ManagerView {
    /// The first step of a tick stops a rule that is on the list it goes
    /// over and was not seen enabled, and does nothing to what the
    /// manager holds of any other rule.
    pub proof fn lemma_stop_unwanted_of(
        self,
        supervised: Seq<SupervisedView>,
        observed: Seq<ObservedRuleView>,
        id: Seq<u8>,
    )
        requires
            spec_distinct_ids(self.repository.rules),
        ensures
            self.stop_unwanted(supervised, observed).of_rule(id) == if spec_supervises(
                supervised,
                id,
            ) && !spec_seen_enabled(observed, id) {
                self.of_rule(id).stopped(id)
            } else {
                self.of_rule(id)
            },
        decreases supervised.len(),
    {
        if supervised.len() > 0 {
            let head = supervised.drop_last();
            let last = supervised.last();
            let before = self.stop_unwanted(head, observed);
            self.lemma_stop_unwanted_of(head, observed, id);
            self.lemma_stop_unwanted(head, observed);
            assert(spec_supervises(supervised, id) <==> spec_supervises(head, id) || last.id == id) by {
                if spec_supervises(head, id) {
                    let i = choose|i: int| 0 <= i < head.len() && (#[trigger] head[i]).id == id;
                    assert(supervised[i].id == id);
                }
                if last.id == id {
                    assert(supervised[supervised.len() - 1].id == id);
                }
                if spec_supervises(supervised, id) && last.id != id {
                    let i = choose|i: int|
                        0 <= i < supervised.len() && (#[trigger] supervised[i]).id == id;
                    assert(head[i].id == id);
                }
            }
            if !spec_seen_enabled(observed, last.id) {
                before.lemma_stopped_of(last.id, id);
                let held = self.of_rule(id);
                assert(held.stopped(id).stopped(id) == held.stopped(id)) by {
                    assert(held.stopped(id).stopped(id).tasks =~= held.stopped(id).tasks);
                }
            }
        } else {
            assert(!spec_supervises(supervised, id));
        }
    }

    /// The second step of a tick over rules seen with distinct
    /// identifiers does to what the manager holds of a rule what
    /// [`RuleStateView::reconciled_with`] says for what was seen of that
    /// rule, and nothing if the rule was not seen.
    pub proof fn lemma_start_wanted_of(self, observed: Seq<ObservedRuleView>, id: Seq<u8>)
        requires
            spec_distinct_ids(self.repository.rules),
            spec_distinct_seen(observed),
        ensures
            self.start_wanted(observed).of_rule(id) == match spec_seen(observed, id) {
                Some(rule) => self.of_rule(id).reconciled_with(
                    id,
                    rule,
                    self.config.connections_limit,
                ),
                None => self.of_rule(id),
            },
        decreases observed.len(),
    {
        if observed.len() > 0 {
            let head = observed.drop_last();
            let last = observed.last();
            let before = self.start_wanted(head);
            assert forall|i: int, j: int| 0 <= i < j < head.len() implies (#[trigger] head[i]).id
                != (#[trigger] head[j]).id by {
                assert(observed[i].id != observed[j].id);
            }
            self.lemma_start_wanted_of(head, id);
            assert(spec_distinct_ids(before.repository.rules)) by {
                assert(crate::forward::supervision::spec_tasks_current(self.tasks, self)) by {
                    assert forall|i: int| 0 <= i < self.tasks.len() implies self.tasks.contains(
                        #[trigger] self.tasks[i],
                    ) by {}
                }
                self.lemma_start_wanted(self.tasks, head);
            }
            self.lemma_start_wanted_keeps_counters(head);
            before.lemma_reconciled_with_of(last, id);
            if last.id == id {
                lemma_seen_at(observed, observed.len() - 1);
                assert(!spec_was_seen(head, id)) by {
                    if spec_was_seen(head, id) {
                        let i = choose|i: int| 0 <= i < head.len() && (#[trigger] head[i]).id == id;
                        assert(observed[i].id != observed[observed.len() - 1].id);
                    }
                }
            } else {
                if spec_was_seen(head, id) {
                    let i = choose|i: int| 0 <= i < head.len() && (#[trigger] head[i]).id == id;
                    assert(observed[i] == head[i]);
                    lemma_seen_at(observed, i);
                    lemma_seen_at(head, i);
                } else {
                    if spec_was_seen(observed, id) {
                        let i = choose|i: int|
                            0 <= i < observed.len() && (#[trigger] observed[i]).id == id;
                        assert(head[i].id == id);
                    }
                }
            }
        } else {
            assert(!spec_was_seen(observed, id));
        }
    }

    /// The course of one rule through a whole tick, whatever digests the
    /// tick saw: what the manager holds of the rule afterwards is what
    /// [`RuleStateView::ticked`] says, for what the tick saw of that rule
    /// alone.
    pub proof fn tick_of_one_rule(self, digests: Seq<u64>, id: Seq<u8>)
        requires
            spec_distinct_ids(self.repository.rules),
            digests.len() == self.repository.rules.len(),
        ensures
            self.reconciled(spec_observation(self.repository.rules, digests)).of_rule(id)
                == self.of_rule(id).ticked(
                id,
                spec_seen(spec_observation(self.repository.rules, digests), id),
                self.config.connections_limit,
            ),
            spec_seen(spec_observation(self.repository.rules, digests), id) == if spec_has_rule(
                self.repository.rules,
                id,
            ) {
                Some(
                    spec_observation(self.repository.rules, digests)[spec_position(
                        self.repository.rules,
                        id,
                    )],
                )
            } else {
                None
            },
    {
        let stored = self.repository.rules;
        let observed = spec_observation(stored, digests);
        assert(spec_distinct_seen(observed)) by {
            assert forall|i: int, j: int| 0 <= i < j < observed.len() implies (
            #[trigger] observed[i]).id != (#[trigger] observed[j]).id by {
                assert(stored[i].id != stored[j].id);
            }
        }
        let seen = spec_seen(observed, id);
        if spec_has_rule(stored, id) {
            let at = spec_position(stored, id);
            assert(observed[at].id == id);
            lemma_seen_at(observed, at);
        } else {
            if spec_was_seen(observed, id) {
                let i = choose|i: int| 0 <= i < observed.len() && (#[trigger] observed[i]).id == id;
                assert(stored[i].id == id);
            }
        }
        assert(spec_seen_enabled(observed, id) <==> seen is Some && seen->0.enabled) by {
            if spec_seen_enabled(observed, id) {
                let i = choose|i: int|
                    0 <= i < observed.len() && (#[trigger] observed[i]).id == id
                        && observed[i].enabled;
                lemma_seen_at(observed, i);
            }
            if seen is Some && seen->0.enabled {
                let i = choose|i: int| 0 <= i < observed.len() && (#[trigger] observed[i]).id == id;
                assert(observed[i].id == id && observed[i].enabled);
            }
        }
        lemma_digest_of(self.rules, id);
        let cleared = self.stop_unwanted(self.rules, observed);
        self.lemma_stop_unwanted_of(self.rules, observed, id);
        self.lemma_stop_unwanted(self.rules, observed);
        self.lemma_stop_unwanted_keeps_counters(self.rules, observed);
        cleared.lemma_start_wanted_of(observed, id);
        lemma_wanted_digest(observed, id);
        let begun = cleared.start_wanted(observed);
        let after = self.reconciled(observed);
        assert(after.of_rule(id).stored == begun.of_rule(id).stored);
        assert(after.of_rule(id).tasks == begun.of_rule(id).tasks);
        assert(after.of_rule(id).commands == begun.of_rule(id).commands);
    }
}

impl ManagerView {
    /// What a tick saw of a stored rule, given the digests it saw of all.
    pub open spec fn digest_seen(self, digests: Seq<u64>, id: Seq<u8>) -> u64 {
        digests[spec_position(self.repository.rules, id)]
    }

    /// A wanted rule that is not supervised is started by the tick: its
    /// forwarder is commanded to start with the rule as it is stored,
    /// after the abort of a task that the rule still had; the rule is
    /// then stored as `Running` and supervised under the digest seen.
    pub proof fn tick_starts_a_new_rule(self, digests: Seq<u64>, id: Seq<u8>)
        requires
            spec_distinct_ids(self.repository.rules),
            digests.len() == self.repository.rules.len(),
            self.repository.rule(id) is Some,
            self.repository.rule(id)->0.wanted(),
            !spec_supervises(self.rules, id),
        ensures
            ({
                let rule = self.repository.rule(id)->0;
                let held = self.of_rule(id);
                let after = self.reconciled(
                    spec_observation(self.repository.rules, digests),
                ).of_rule(id);
                let task = RuleStateView::task_for(rule, self.config.connections_limit);
                &&& after.stored == Some(RuleView { status: RuleStatus::Running, ..rule })
                &&& after.digest == Some(self.digest_seen(digests, id))
                &&& after.tasks == seq![task]
                &&& after.commands == held.aborting(id).push(TaskCommandView::Spawn(task))
            }),
    {
        self.tick_of_one_rule(digests, id);
        lemma_digest_of(self.rules, id);
    }

    /// A wanted rule that is supervised under another digest than the
    /// one the tick sees is restarted in place: the abort of its task,
    /// if it has one, and then the start of a forwarder with the rule as
    /// it is stored now are commanded; the rule keeps its id, is stored
    /// as `Running`, has that one task, and is supervised under the
    /// digest seen and no longer under the old one.
    pub proof fn tick_restarts_a_changed_rule(self, digests: Seq<u64>, id: Seq<u8>)
        requires
            spec_distinct_ids(self.repository.rules),
            digests.len() == self.repository.rules.len(),
            self.repository.rule(id) is Some,
            self.repository.rule(id)->0.wanted(),
            spec_digest_of(self.rules, id) is Some,
            spec_digest_of(self.rules, id) != Some(self.digest_seen(digests, id)),
        ensures
            ({
                let rule = self.repository.rule(id)->0;
                let held = self.of_rule(id);
                let after = self.reconciled(
                    spec_observation(self.repository.rules, digests),
                ).of_rule(id);
                let task = RuleStateView::task_for(
                    RuleView { status: RuleStatus::Stopped, ..rule },
                    self.config.connections_limit,
                );
                &&& after.stored == Some(RuleView { status: RuleStatus::Running, ..rule })
                &&& after.digest == Some(self.digest_seen(digests, id))
                &&& after.tasks == seq![task]
                &&& after.commands == held.aborting(id).push(TaskCommandView::Spawn(task))
                &&& spec_has_task(self.tasks, id) ==> after.commands == held.commands.push(
                    TaskCommandView::Abort(id),
                ).push(TaskCommandView::Spawn(task))
            }),
    {
        self.tick_of_one_rule(digests, id);
        lemma_digest_of(self.rules, id);
        lemma_has_task(self.tasks, id);
        let held = self.of_rule(id);
        assert(held.stopped(id).aborting(id) == held.aborting(id)) by {
            assert(held.stopped(id).tasks.len() == 0);
        }
    }

    /// A wanted rule that is supervised under the digest that the tick
    /// sees is left alone: nothing is commanded for it, its task is the
    /// one it had, it is stored as it was and supervised as it was.
    /// Changes to a rule that leave its digest as it is, such as new
    /// remarks, therefore do not touch its forwarder.
    pub proof fn tick_leaves_an_unchanged_rule_alone(self, digests: Seq<u64>, id: Seq<u8>)
        requires
            spec_distinct_ids(self.repository.rules),
            digests.len() == self.repository.rules.len(),
            self.repository.rule(id) is Some,
            self.repository.rule(id)->0.wanted(),
            spec_digest_of(self.rules, id) == Some(self.digest_seen(digests, id)),
        ensures
            self.reconciled(spec_observation(self.repository.rules, digests)).of_rule(id)
                == self.of_rule(id),
    {
        self.tick_of_one_rule(digests, id);
    }

    /// An enabled rule in `Error` is left alone by every tick: no start
    /// is commanded for it, it stays stored in `Error`, and it is not
    /// supervised afterwards, until the operator resets its status.
    pub proof fn tick_leaves_a_failed_rule_alone(self, digests: Seq<u64>, id: Seq<u8>)
        requires
            spec_distinct_ids(self.repository.rules),
            digests.len() == self.repository.rules.len(),
            self.repository.rule(id) is Some,
            self.repository.rule(id)->0.enabled,
            self.repository.rule(id)->0.status == RuleStatus::Error,
        ensures
            self.reconciled(spec_observation(self.repository.rules, digests)).of_rule(id)
                == (RuleStateView { digest: None, ..self.of_rule(id) }),
    {
        self.tick_of_one_rule(digests, id);
    }

    /// A supervised rule that is no longer stored as enabled, because it
    /// was disabled or deleted, is stopped by the tick: the abort of its
    /// task, if it has one, is commanded and nothing else; it has no
    /// task and is not supervised afterwards; and if it is still stored,
    /// it is stored as `Stopped` and as not enabled.
    pub proof fn tick_stops_an_unwanted_rule(self, digests: Seq<u64>, id: Seq<u8>)
        requires
            spec_distinct_ids(self.repository.rules),
            digests.len() == self.repository.rules.len(),
            spec_supervises(self.rules, id),
            !(self.repository.rule(id) is Some && self.repository.rule(id)->0.enabled),
        ensures
            ({
                let held = self.of_rule(id);
                let after = self.reconciled(
                    spec_observation(self.repository.rules, digests),
                ).of_rule(id);
                &&& after == held.stopped(id)
                &&& after.tasks.len() == 0
                &&& after.digest is None
                &&& spec_has_task(self.tasks, id) ==> after.commands == held.commands.push(
                    TaskCommandView::Abort(id),
                )
                &&& !spec_has_task(self.tasks, id) ==> after.commands == held.commands
                &&& self.repository.rule(id) matches Some(rule) ==> after.stored == Some(
                    RuleView { status: RuleStatus::Stopped, ..rule },
                )
            }),
    {
        self.tick_of_one_rule(digests, id);
        lemma_digest_of(self.rules, id);
        lemma_has_task(self.tasks, id);
    }

    /// A rule that is neither supervised nor wanted is left alone by the
    /// tick.
    pub proof fn tick_leaves_an_idle_rule_alone(self, digests: Seq<u64>, id: Seq<u8>)
        requires
            spec_distinct_ids(self.repository.rules),
            digests.len() == self.repository.rules.len(),
            !spec_supervises(self.rules, id),
            !(self.repository.rule(id) is Some && self.repository.rule(id)->0.wanted()),
        ensures
            self.reconciled(spec_observation(self.repository.rules, digests)).of_rule(id)
                == self.of_rule(id),
    {
        self.tick_of_one_rule(digests, id);
        lemma_digest_of(self.rules, id);
    }
}

} // verus!
