//! What the manager hands to whoever runs the forwarders.

use crate::data::generic::CompactUuid;
use crate::data::rule::RuleProtocol;
use crate::model::rule::{Rule, RuleView};
use vstd::prelude::*;

verus! {

/// What a rule's forwarder is started with: the rule as it was stored at
/// that moment, and the cap on its live connections.
#[derive(Debug, PartialEq, Eq)]
pub struct ForwardTask {
    pub rule: Rule,
    pub connections_limit: Option<u64>,
}

pub struct ForwardTaskView {
    pub rule: RuleView,
    pub connections_limit: Option<u64>,
}

impl View for ForwardTask {
    type V = ForwardTaskView;

    open spec fn view(&self) -> ForwardTaskView {
        ForwardTaskView { rule: self.rule@, connections_limit: self.connections_limit }
    }
}

impl Clone for ForwardTask {
    fn clone(&self) -> (copy: Self)
        ensures
            copy@ == self@,
    {
        ForwardTask { rule: self.rule.clone(), connections_limit: self.connections_limit }
    }
}

impl ForwardTask {
    /// Whether the task runs a TCP forwarder. A rule for both transports
    /// runs one of each, and the end of either ends the other.
    pub fn runs_tcp(&self) -> (tcp: bool)
        ensures
            tcp == (self.rule.protocol != RuleProtocol::Udp),
    {
        match self.rule.protocol {
            RuleProtocol::Udp => false,
            _ => true,
        }
    }

    /// Whether the task runs a UDP forwarder.
    pub fn runs_udp(&self) -> (udp: bool)
        ensures
            udp == (self.rule.protocol != RuleProtocol::Tcp),
    {
        match self.rule.protocol {
            RuleProtocol::Tcp => false,
            _ => true,
        }
    }
}

/// What the manager asks of whoever runs the forwarders. Commands are
/// carried out in the order in which they were given.
#[derive(Debug, PartialEq, Eq)]
pub enum TaskCommand {
    /// Start the forwarder of the task's rule and keep its handle under
    /// the rule's id. No handle is kept there then: the forwarder that
    /// the rule had was aborted by the command before.
    Spawn(ForwardTask),
    /// Abort the forwarder whose handle is kept under the id.
    Abort(CompactUuid),
}

pub enum TaskCommandView {
    Spawn(ForwardTaskView),
    Abort(Seq<u8>),
}

impl View for TaskCommand {
    type V = TaskCommandView;

    open spec fn view(&self) -> TaskCommandView {
        match self {
            TaskCommand::Spawn(task) => TaskCommandView::Spawn(task@),
            TaskCommand::Abort(id) => TaskCommandView::Abort(id@),
        }
    }
}

/// Whether one of the tasks is that of the rule.
pub open spec fn spec_has_task(tasks: Seq<ForwardTaskView>, id: Seq<u8>) -> bool {
    exists|i: int| 0 <= i < tasks.len() && (#[trigger] tasks[i]).rule.id == id
}

/// Whether no rule has two tasks.
pub open spec fn spec_one_task_each(tasks: Seq<ForwardTaskView>) -> bool {
    forall|i: int, j: int|
        0 <= i < j < tasks.len() ==> (#[trigger] tasks[i]).rule.id != (#[trigger] tasks[j]).rule.id
}

/// The test for a task of another rule than the one with the id.
pub open spec fn spec_of_other_rule(id: Seq<u8>) -> spec_fn(ForwardTaskView) -> bool {
    |task: ForwardTaskView| task.rule.id != id
}

/// The tasks without that of the rule.
pub open spec fn spec_without_task(tasks: Seq<ForwardTaskView>, id: Seq<u8>) -> Seq<
    ForwardTaskView,
> {
    tasks.filter(spec_of_other_rule(id))
}

/// The tasks after the rule of `task` got this one: behind the others,
/// in the place of the one it had.
pub open spec fn spec_with_task(tasks: Seq<ForwardTaskView>, task: ForwardTaskView) -> Seq<
    ForwardTaskView,
> {
    spec_without_task(tasks, task.rule.id).push(task)
}

/// What is left without a rule's task holds no task of that rule, and
/// exactly the tasks of the other rules.
pub proof fn lemma_without_task(tasks: Seq<ForwardTaskView>, id: Seq<u8>)
    ensures
        !spec_has_task(spec_without_task(tasks, id), id),
        forall|other: Seq<u8>|
            other != id ==> (#[trigger] spec_has_task(spec_without_task(tasks, id), other)
                <==> spec_has_task(tasks, other)),
        spec_one_task_each(tasks) ==> spec_one_task_each(spec_without_task(tasks, id)),
        spec_without_task(tasks, id).len() <= tasks.len(),
        !spec_has_task(tasks, id) ==> spec_without_task(tasks, id) == tasks,
    decreases tasks.len(),
{
    reveal(Seq::filter);
    let keep = spec_of_other_rule(id);
    let left = spec_without_task(tasks, id);
    if tasks.len() > 0 {
        let head = tasks.drop_last();
        let last = tasks.last();
        lemma_without_task(head, id);
        let head_left = spec_without_task(head, id);
        assert(left == if keep(last) {
            head_left.push(last)
        } else {
            head_left
        });
        assert forall|other: Seq<u8>| other != id implies (#[trigger] spec_has_task(left, other)
            <==> spec_has_task(tasks, other)) by {
            if spec_has_task(left, other) {
                let i = choose|i: int| 0 <= i < left.len() && (#[trigger] left[i]).rule.id == other;
                if i < head_left.len() {
                    assert(head_left[i].rule.id == other);
                    assert(spec_has_task(head_left, other));
                    let j = choose|j: int|
                        0 <= j < head.len() && (#[trigger] head[j]).rule.id == other;
                    assert(tasks[j].rule.id == other);
                } else {
                    assert(tasks[tasks.len() - 1].rule.id == other);
                }
            }
            if spec_has_task(tasks, other) {
                let j = choose|j: int| 0 <= j < tasks.len() && (#[trigger] tasks[j]).rule.id == other;
                if j < head.len() {
                    assert(head[j].rule.id == other);
                    assert(spec_has_task(head_left, other));
                    let i = choose|i: int|
                        0 <= i < head_left.len() && (#[trigger] head_left[i]).rule.id == other;
                    assert(left[i].rule.id == other);
                } else {
                    assert(keep(last));
                    assert(left[left.len() - 1].rule.id == other);
                }
            }
        }
        if spec_has_task(left, id) {
            let i = choose|i: int| 0 <= i < left.len() && (#[trigger] left[i]).rule.id == id;
            if i < head_left.len() {
                assert(head_left[i].rule.id == id);
            }
        }
        if spec_one_task_each(tasks) {
            assert forall|i: int, j: int| 0 <= i < j < head.len() implies (#[trigger] head[i]).rule.id
                != (#[trigger] head[j]).rule.id by {
                assert(tasks[i].rule.id != tasks[j].rule.id);
            }
            assert forall|i: int, j: int| 0 <= i < j < left.len() implies (#[trigger] left[i]).rule.id
                != (#[trigger] left[j]).rule.id by {
                if j < head_left.len() {
                    assert(head_left[i].rule.id != head_left[j].rule.id);
                } else {
                    assert(keep(last));
                    assert(head_left[i].rule.id == left[i].rule.id);
                    if left[i].rule.id == last.rule.id {
                        assert(spec_has_task(head_left, last.rule.id));
                        assert(spec_has_task(head, last.rule.id));
                        let k = choose|k: int|
                            0 <= k < head.len() && (#[trigger] head[k]).rule.id == last.rule.id;
                        assert(tasks[k].rule.id != tasks[tasks.len() - 1].rule.id);
                    }
                }
            }
        }
        if !spec_has_task(tasks, id) {
            assert(!spec_has_task(head, id)) by {
                if spec_has_task(head, id) {
                    let k = choose|k: int| 0 <= k < head.len() && (#[trigger] head[k]).rule.id == id;
                    assert(tasks[k].rule.id == id);
                }
            }
            assert(tasks[tasks.len() - 1].rule.id != id);
            assert(left =~= head.push(last));
            assert(tasks =~= head.push(last));
        }
    }
}

/// The tasks that the manager has registered, at most one for a rule.
pub struct TaskTable {
    tasks: Vec<ForwardTask>,
}

impl View for TaskTable {
    type V = Seq<ForwardTaskView>;

    closed spec fn view(&self) -> Seq<ForwardTaskView> {
        self.tasks@.map_values(|task: ForwardTask| task@)
    }
}

impl TaskTable {
    #[verifier::type_invariant]
    closed spec fn one_task_each(self) -> bool {
        spec_one_task_each(self.tasks@.map_values(|task: ForwardTask| task@))
    }

    pub fn new() -> (table: Self)
        ensures
            table@.len() == 0,
    {
        TaskTable { tasks: Vec::new() }
    }

    /// Takes the tasks out, leaving the table empty.
    fn take(&mut self) -> (tasks: Vec<ForwardTask>)
        ensures
            tasks@.map_values(|task: ForwardTask| task@) == old(self)@,
            spec_one_task_each(old(self)@),
            final(self)@.len() == 0,
    {
        proof {
            use_type_invariant(&*self);
        }
        let mut table = TaskTable::new();
        core::mem::swap(self, &mut table);
        table.tasks
    }

    /// The number of registered tasks.
    pub fn len(&self) -> (count: usize)
        ensures
            count == self@.len(),
            spec_one_task_each(self@),
    {
        proof {
            use_type_invariant(self);
        }
        self.tasks.len()
    }

    /// Whether the rule has a task.
    pub fn contains(&self, id: &CompactUuid) -> (found: bool)
        ensures
            found == spec_has_task(self@, id@),
    {
        let mut i: usize = 0;
        while i < self.tasks.len()
            invariant
                i <= self.tasks.len(),
                forall|k: int| 0 <= k < i ==> (#[trigger] self@[k]).rule.id != id@,
            decreases self.tasks.len() - i,
        {
            if self.tasks[i].rule.id.same(id) {
                assert(self@[i as int].rule.id == id@);
                return true;
            }
            i += 1;
        }
        false
    }

    /// The registered tasks.
    pub fn list(&self) -> (tasks: Vec<ForwardTask>)
        ensures
            tasks@.map_values(|task: ForwardTask| task@) == self@,
            spec_one_task_each(self@),
    {
        proof {
            use_type_invariant(self);
        }
        let mut tasks: Vec<ForwardTask> = Vec::new();
        let mut i: usize = 0;
        while i < self.tasks.len()
            invariant
                i <= self.tasks.len(),
                tasks@.len() == i,
                forall|k: int| 0 <= k < i ==> (#[trigger] tasks@[k])@ == self@[k],
            decreases self.tasks.len() - i,
        {
            tasks.push(self.tasks[i].clone());
            i += 1;
        }
        assert(tasks@.map_values(|task: ForwardTask| task@) =~= self@);
        tasks
    }

    /// Takes the rule's task out of the table. Returns whether it had
    /// one.
    pub fn remove(&mut self, id: &CompactUuid) -> (removed: bool)
        ensures
            removed == spec_has_task(old(self)@, id@),
            final(self)@ == spec_without_task(old(self)@, id@),
            spec_one_task_each(final(self)@),
    {
        let tasks = self.take();
        let ghost before = tasks@.map_values(|task: ForwardTask| task@);
        let mut kept: Vec<ForwardTask> = Vec::new();
        let mut removed = false;
        let mut i: usize = 0;
        while i < tasks.len()
            invariant
                i <= tasks.len(),
                before == tasks@.map_values(|task: ForwardTask| task@),
                kept@.map_values(|task: ForwardTask| task@) == spec_without_task(
                    before.take(i as int),
                    id@,
                ),
                removed == spec_has_task(before.take(i as int), id@),
            decreases tasks.len() - i,
        {
            let ghost so_far = kept@.map_values(|task: ForwardTask| task@);
            proof {
                assert(before.take(i + 1) =~= before.take(i as int).push(before[i as int]));
                before.take(i as int).lemma_filter_push(before[i as int], spec_of_other_rule(id@));
                assert(spec_has_task(before.take(i + 1), id@) <==> spec_has_task(
                    before.take(i as int),
                    id@,
                ) || before[i as int].rule.id == id@) by {
                    if spec_has_task(before.take(i as int), id@) {
                        let k = choose|k: int|
                            0 <= k < before.take(i as int).len() && (#[trigger] before.take(
                                i as int,
                            )[k]).rule.id == id@;
                        assert(before.take(i + 1)[k].rule.id == id@);
                    }
                    if before[i as int].rule.id == id@ {
                        assert(before.take(i + 1)[i as int].rule.id == id@);
                    }
                    if spec_has_task(before.take(i + 1), id@) {
                        let k = choose|k: int|
                            0 <= k < before.take(i + 1).len() && (#[trigger] before.take(
                                i + 1,
                            )[k]).rule.id == id@;
                        if k < i {
                            assert(before.take(i as int)[k].rule.id == id@);
                        }
                    }
                }
            }
            if tasks[i].rule.id.same(id) {
                removed = true;
            } else {
                kept.push(tasks[i].clone());
                assert(kept@.map_values(|task: ForwardTask| task@) =~= so_far.push(
                    before[i as int],
                ));
            }
            i += 1;
        }
        proof {
            assert(before.take(i as int) =~= before);
            lemma_without_task(before, id@);
        }
        self.tasks = kept;
        removed
    }

    /// Registers the task for its rule, in the place of the task that
    /// the rule had.
    pub fn put(&mut self, task: ForwardTask)
        ensures
            final(self)@ == spec_with_task(old(self)@, task@),
            spec_one_task_each(final(self)@),
            spec_has_task(final(self)@, task@.rule.id),
    {
        let id = task.rule.id;
        self.remove(&id);
        let mut tasks = self.take();
        let ghost left = tasks@.map_values(|task: ForwardTask| task@);
        tasks.push(task);
        proof {
            let after = tasks@.map_values(|task: ForwardTask| task@);
            assert(after =~= left.push(task@));
            lemma_without_task(old(self)@, id@);
            assert forall|i: int, j: int| 0 <= i < j < after.len() implies (#[trigger] after[i]).rule.id
                != (#[trigger] after[j]).rule.id by {
                assert(after[i] == left[i]);
                if j < left.len() {
                    assert(after[j] == left[j]);
                } else {
                    if left[i].rule.id == id@ {
                        assert(spec_has_task(left, id@));
                    }
                }
            }
            assert(after[after.len() - 1].rule.id == task@.rule.id);
        }
        self.tasks = tasks;
    }
}

} // verus!
