//! A dependency graph of tasks: which tasks are ready to run.
use vstd::prelude::*;
use crate::metrics::{counter_bumped, counter_of, MetricsCollector};
use crate::common::{uuid_text, uuid_to_text, TaskStatus};
use crate::error::SystemError;
use crate::text::join_text;

verus! {

/// A task of the graph: its id, the ids it depends on, and its status.
pub struct GraphTask {
    /// Task id.
    pub id: u128,
    /// Ids of the tasks it waits for.
    pub deps: Vec<u128>,
    /// Status.
    pub status: TaskStatus,
}

/// The contents of a [`GraphTask`].
pub struct GraphTaskView {
    pub id: u128,
    pub deps: Set<u128>,
    pub status: TaskStatus,
}

/// Some task has the id `id`.
pub open spec fn has_task(ts: Seq<GraphTaskView>, id: u128) -> bool {
    exists|i: int| 0 <= i < ts.len() && (#[trigger] ts[i]).id == id
}

/// The status of task `id`, if it is in the graph.
pub open spec fn status_of(ts: Seq<GraphTaskView>, id: u128) -> Option<TaskStatus> {
    if has_task(ts, id) {
        Some(ts[choose|i: int| 0 <= i < ts.len() && (#[trigger] ts[i]).id == id].status)
    } else {
        None
    }
}

/// A task is ready when it is pending and every task it depends on is in
/// the graph and completed.
pub open spec fn is_ready(ts: Seq<GraphTaskView>, t: GraphTaskView) -> bool {
    t.status == TaskStatus::Pending && forall|d: u128|
        #[trigger] t.deps.contains(d) ==> status_of(ts, d) == Some(TaskStatus::Completed)
}

/// Ids are unique in the graph.
pub open spec fn ids_unique(ts: Seq<GraphTaskView>) -> bool {
    forall|i: int, j: int|
        0 <= i < ts.len() && 0 <= j < ts.len() && i != j ==> (#[trigger] ts[i]).id != (
        #[trigger] ts[j]).id
}

/// The tasks after `t` is added: it takes the place of a task with the same
/// id, or comes last.
pub open spec fn with_task(ts: Seq<GraphTaskView>, t: GraphTaskView) -> Seq<GraphTaskView> {
    if has_task(ts, t.id) {
        ts.map_values(|x: GraphTaskView| if x.id == t.id { t } else { x })
    } else {
        ts.push(t)
    }
}

/// The dependency graph.
pub struct TaskGraph {
    tasks: Vec<GraphTask>,
    metrics: MetricsCollector,
}

/// The counter that counts the moves of tasks into `status`.
pub open spec fn status_counter_name(status: TaskStatus) -> Seq<char> {
    match status {
        TaskStatus::Pending => "task_graph.status.Pending"@,
        TaskStatus::Running => "task_graph.status.Running"@,
        TaskStatus::Completed => "task_graph.status.Completed"@,
        TaskStatus::Failed => "task_graph.status.Failed"@,
    }
}

fn status_counter(status: TaskStatus) -> (s: &'static str)
    ensures
        s@ == status_counter_name(status),
{
    match status {
        TaskStatus::Pending => "task_graph.status.Pending",
        TaskStatus::Running => "task_graph.status.Running",
        TaskStatus::Completed => "task_graph.status.Completed",
        TaskStatus::Failed => "task_graph.status.Failed",
    }
}

impl TaskGraph {
    /// The tasks, in the order they were added.
    pub closed spec fn tasks(&self) -> Seq<GraphTaskView> {
        self.tasks@.map_values(
            |t: GraphTask| GraphTaskView { id: t.id, deps: t.deps@.to_set(), status: t.status },
        )
    }

    /// The graph's counters: "task_graph.tasks.added" and one per status
    /// (see [`status_counter_name`]).
    pub closed spec fn counters(&self) -> Seq<(Seq<char>, i64)> {
        self.metrics.counters()
    }

    /// Well-formedness: task ids are unique.
    pub closed spec fn wf(&self) -> bool {
        ids_unique(self.tasks()) && self.metrics.wf()
    }

    /// The graph's metrics.
    pub fn metrics(&self) -> (m: &MetricsCollector)
        ensures
            m.counters() == self.counters(),
    {
        &self.metrics
    }

    /// An empty graph.
    pub fn new() -> (g: Self)
        ensures
            g.wf(),
            g.tasks().len() == 0,
            forall|k: Seq<char>| #[trigger] counter_of(g.counters(), k) == 0,
    {
        let g = TaskGraph { tasks: Vec::new(), metrics: MetricsCollector::new() };
        assert(g.tasks() =~= Seq::<GraphTaskView>::empty());
        g
    }

    proof fn lemma_status_at(&self, i: int)
        requires
            self.wf(),
            0 <= i < self.tasks().len(),
        ensures
            status_of(self.tasks(), self.tasks()[i].id) == Some(self.tasks()[i].status),
    {
        let ts = self.tasks();
        let k = choose|k: int| 0 <= k < ts.len() && (#[trigger] ts[k]).id == ts[i].id;
        if k != i {
            assert(ts[k].id != ts[i].id);
        }
    }

    fn find(&self, id: u128) -> (r: Option<usize>)
        requires
            self.wf(),
        ensures
            match r {
                Some(i) => i < self.tasks().len() && self.tasks()[i as int].id == id && status_of(
                    self.tasks(),
                    id,
                ) == Some(self.tasks()[i as int].status),
                None => !has_task(self.tasks(), id) && status_of(self.tasks(), id) is None,
            },
    {
        let mut i: usize = 0;
        while i < self.tasks.len()
            invariant
                self.wf(),
                i <= self.tasks@.len(),
                forall|j: int| 0 <= j < i ==> (#[trigger] self.tasks@[j]).id != id,
            decreases self.tasks.len() - i,
        {
            if self.tasks[i].id == id {
                proof {
                    self.lemma_status_at(i as int);
                }
                return Some(i);
            }
            i = i + 1;
        }
        assert forall|j: int| 0 <= j < self.tasks().len() implies (#[trigger] self.tasks()[j]).id
            != id by {
            assert(self.tasks@[j].id != id);
        }
        None
    }

    /// How many tasks the graph holds.
    pub fn task_count(&self) -> (n: usize)
        ensures
            n == self.tasks().len(),
    {
        self.tasks.len()
    }

    /// Adds the task `task_id`, pending, waiting for the tasks `deps`; a task
    /// with the same id is replaced.
    pub fn add_task(&mut self, task_id: u128, deps: Vec<u128>) -> (r: Result<(), SystemError>)
        requires
            old(self).wf(),
            counter_of(old(self).counters(), "task_graph.tasks.added"@) < i64::MAX,
        ensures
            r is Ok,
            counter_bumped(old(self).counters(), final(self).counters(), "task_graph.tasks.added"@),
            final(self).wf(),
            ({
                let t = GraphTaskView { id: task_id, deps: deps@.to_set(), status: TaskStatus::Pending };
                if has_task(old(self).tasks(), task_id) {
                    exists|i: int|
                        0 <= i < old(self).tasks().len() && (#[trigger] old(self).tasks()[i]).id
                            == task_id && final(self).tasks() == old(self).tasks().update(i, t)
                } else {
                    final(self).tasks() == old(self).tasks().push(t)
                }
            }),
            final(self).tasks() == with_task(
                old(self).tasks(),
                GraphTaskView { id: task_id, deps: deps@.to_set(), status: TaskStatus::Pending },
            ),
    {
        let ghost old_ts = self.tasks();
        let ghost t = GraphTaskView { id: task_id, deps: deps@.to_set(), status: TaskStatus::Pending };
        let entry = GraphTask { id: task_id, deps, status: TaskStatus::Pending };
        match self.find(task_id) {
            Some(i) => {
                self.tasks.set(i, entry);
                proof {
                    let ts = self.tasks();
                    assert(ts =~= old_ts.update(i as int, t));
                    assert forall|j: int| 0 <= j < old_ts.len() && (#[trigger] old_ts[j]).id == task_id implies j == i by {
                        if j != i {
                            assert(old_ts[j].id != old_ts[i as int].id);
                        }
                    }
                    assert(ts =~= old_ts.map_values(|x: GraphTaskView| if x.id == task_id { t } else { x }));
                    assert forall|a: int, b: int|
                        0 <= a < ts.len() && 0 <= b < ts.len() && a != b implies (#[trigger] ts[a]).id
                            != (#[trigger] ts[b]).id by {
                        if a != i {
                            assert(ts[a] == old_ts[a]);
                        }
                        if b != i {
                            assert(ts[b] == old_ts[b]);
                        }
                    }
                }
            },
            None => {
                self.tasks.push(entry);
                proof {
                    let ts = self.tasks();
                    assert(ts =~= old_ts.push(t));
                    assert forall|a: int, b: int|
                        0 <= a < ts.len() && 0 <= b < ts.len() && a != b implies (#[trigger] ts[a]).id
                            != (#[trigger] ts[b]).id by {
                        if a < old_ts.len() {
                            assert(ts[a] == old_ts[a]);
                        }
                        if b < old_ts.len() {
                            assert(ts[b] == old_ts[b]);
                        }
                    }
                }
            },
        }
        let _ = self.metrics.increment_counter("task_graph.tasks.added", 1);
        Ok(())
    }

    fn deps_completed(&self, i: usize) -> (b: bool)
        requires
            self.wf(),
            i < self.tasks().len(),
        ensures
            b == forall|d: u128|
                #[trigger] self.tasks()[i as int].deps.contains(d) ==> status_of(self.tasks(), d)
                    == Some(TaskStatus::Completed),
    {
        let deps = &self.tasks[i].deps;
        let mut k: usize = 0;
        while k < deps.len()
            invariant
                self.wf(),
                i < self.tasks().len(),
                deps@ == self.tasks@[i as int].deps@,
                k <= deps@.len(),
                forall|j: int| 0 <= j < k ==> status_of(self.tasks(), #[trigger] deps@[j]) == Some(TaskStatus::Completed),
            decreases deps.len() - k,
        {
            let d = deps[k];
            let done = match self.find(d) {
                Some(j) => self.tasks[j].status == TaskStatus::Completed,
                None => false,
            };
            if !done {
                proof {
                    assert(deps@.to_set().contains(d));
                    assert(self.tasks()[i as int].deps == deps@.to_set());
                }
                return false;
            }
            k = k + 1;
        }
        proof {
            assert(self.tasks()[i as int].deps == deps@.to_set());
            assert forall|d: u128| #[trigger] self.tasks()[i as int].deps.contains(d) implies status_of(self.tasks(), d)
                == Some(TaskStatus::Completed) by {
                let j = choose|j: int| 0 <= j < deps@.len() && deps@[j] == d;
                assert(status_of(self.tasks(), deps@[j]) == Some(TaskStatus::Completed));
            }
        }
        true
    }

    /// The ids of the ready tasks, in the order the tasks were added: a task
    /// is ready when it is pending and every task it depends on is in the
    /// graph and completed.
    pub fn get_ready_tasks(&self) -> (r: Result<Vec<u128>, SystemError>)
        requires
            self.wf(),
        ensures
            r matches Ok(v) && v@ == self.tasks().filter(|t: GraphTaskView| is_ready(self.tasks(), t)).map_values(
                |t: GraphTaskView| t.id,
            ),
            r matches Ok(v) ==> forall|k: int|
                0 <= k < v@.len() ==> #[trigger] status_of(self.tasks(), v@[k]) == Some(TaskStatus::Pending),
    {
        let ghost ts = self.tasks();
        let ghost pred = |t: GraphTaskView| is_ready(ts, t);
        let mut ready: Vec<u128> = Vec::new();
        let mut i: usize = 0;
        while i < self.tasks.len()
            invariant
                self.wf(),
                ts == self.tasks(),
                pred == (|t: GraphTaskView| is_ready(ts, t)),
                i <= ts.len(),
                ready@ == ts.take(i as int).filter(pred).map_values(|t: GraphTaskView| t.id),
            decreases self.tasks.len() - i,
        {
            proof {
                reveal_with_fuel(Seq::<GraphTaskView>::filter, 1);
                assert(ts.take(i + 1).drop_last() =~= ts.take(i as int));
                assert(ts.take(i + 1).last() == ts[i as int]);
            }
            let is_pending = self.tasks[i].status == TaskStatus::Pending;
            let ok = is_pending && self.deps_completed(i);
            assert(ok == pred(ts[i as int]));
            if ok {
                ready.push(self.tasks[i].id);
                assert(ready@ =~= ts.take(i + 1).filter(pred).map_values(|t: GraphTaskView| t.id));
            } else {
                assert(ready@ =~= ts.take(i + 1).filter(pred).map_values(|t: GraphTaskView| t.id));
            }
            i = i + 1;
        }
        assert(ts.take(ts.len() as int) =~= ts);
        proof {
            law_ready_tasks_are_pending_and_unblocked(ts, ready@);
        }
        Ok(ready)
    }

    /// Sets the status of task `task_id`; an id not in the graph gives
    /// `TaskError("Task <id> not found")` and changes nothing.
    pub fn update_task_status(&mut self, task_id: u128, new_status: TaskStatus) -> (r: Result<(), SystemError>)
        requires
            old(self).wf(),
            counter_of(old(self).counters(), status_counter_name(new_status)) < i64::MAX,
        ensures
            final(self).wf(),
            r is Ok ==> counter_bumped(old(self).counters(), final(self).counters(), status_counter_name(new_status)),
            r is Err ==> final(self).counters() == old(self).counters(),
            has_task(old(self).tasks(), task_id) <==> r is Ok,
            r is Err ==> final(self).tasks() == old(self).tasks() && (r matches Err(SystemError::TaskError(m))
                && m@ == "Task "@ + uuid_text(task_id) + " not found"@),
            r is Ok ==> exists|i: int|
                0 <= i < old(self).tasks().len() && (#[trigger] old(self).tasks()[i]).id == task_id
                    && final(self).tasks() == old(self).tasks().update(
                    i,
                    GraphTaskView { status: new_status, ..old(self).tasks()[i] },
                ),
    {
        match self.find(task_id) {
            Some(i) => {
                let ghost old_ts = self.tasks();
                self.tasks[i].status = new_status;
                proof {
                    let ts = self.tasks();
                    assert(ts =~= old_ts.update(i as int, GraphTaskView { status: new_status, ..old_ts[i as int] }));
                    assert forall|a: int, b: int|
                        0 <= a < ts.len() && 0 <= b < ts.len() && a != b implies (#[trigger] ts[a]).id
                            != (#[trigger] ts[b]).id by {
                        assert(ts[a].id == old_ts[a].id);
                        assert(ts[b].id == old_ts[b].id);
                    }
                }
                let _ = self.metrics.increment_counter(status_counter(new_status), 1);
                Ok(())
            },
            None => Err(SystemError::TaskError(task_not_found(task_id))),
        }
    }

    /// The status of task `task_id`; `TaskError("Task <id> not found")` when
    /// it is not in the graph.
    pub fn get_task_status(&self, task_id: u128) -> (r: Result<TaskStatus, SystemError>)
        requires
            self.wf(),
        ensures
            match status_of(self.tasks(), task_id) {
                Some(s) => r == Ok::<TaskStatus, SystemError>(s),
                None => r matches Err(SystemError::TaskError(m)) && m@ == "Task "@ + uuid_text(task_id)
                    + " not found"@,
            },
    {
        match self.find(task_id) {
            Some(i) => Ok(self.tasks[i].status),
            None => Err(SystemError::TaskError(task_not_found(task_id))),
        }
    }
}

/// The message "Task <id> not found".
fn task_not_found(task_id: u128) -> (m: String)
    ensures
        m@ == "Task "@ + uuid_text(task_id) + " not found"@,
{
    let id = uuid_to_text(task_id);
    let head = join_text("Task ", id.as_str());
    join_text(head.as_str(), " not found")
}

/// A task that some other task waits for, and that is not completed, keeps
/// that task from being ready.
pub proof fn lemma_blocked_not_ready(ts: Seq<GraphTaskView>, t: GraphTaskView, d: u128)
    requires
        t.deps.contains(d),
        status_of(ts, d) != Some(TaskStatus::Completed),
    ensures
        !is_ready(ts, t),
{
}

/// The tasks after the task at position `i` takes status `s`.
pub open spec fn with_status_at(ts: Seq<GraphTaskView>, i: int, s: TaskStatus) -> Seq<GraphTaskView> {
    ts.update(i, GraphTaskView { status: s, ..ts[i] })
}

/// A status recorded for a task is what a later read of its status gives,
/// and the other tasks read as before.
pub proof fn law_status_read_back(ts: Seq<GraphTaskView>, i: int, s: TaskStatus)
    requires
        ids_unique(ts),
        0 <= i < ts.len(),
    ensures
        status_of(with_status_at(ts, i, s), ts[i].id) == Some(s),
        forall|id: u128| id != ts[i].id ==> #[trigger] status_of(with_status_at(ts, i, s), id) == status_of(ts, id),
{
    let n = with_status_at(ts, i, s);
    let id0 = ts[i].id;
    assert(n[i].id == id0);
    let k0 = choose|k: int| 0 <= k < n.len() && (#[trigger] n[k]).id == id0;
    if k0 != i {
        assert(n[k0].id == ts[k0].id);
        assert(ts[k0].id != ts[i].id);
    }
    assert forall|id: u128| id != id0 implies #[trigger] status_of(n, id) == status_of(ts, id) by {
        if has_task(ts, id) {
            let j = choose|j: int| 0 <= j < ts.len() && (#[trigger] ts[j]).id == id;
            assert(n[j] == ts[j]);
            let j2 = choose|j2: int| 0 <= j2 < n.len() && (#[trigger] n[j2]).id == id;
            if j2 != j {
                assert(n[j2].id == ts[j2].id);
                assert(ts[j2].id != ts[j].id);
            }
        } else {
            assert forall|j: int| 0 <= j < n.len() implies (#[trigger] n[j]).id != id by {
                assert(n[j].id == ts[j].id);
            }
        }
    }
}

/// A task just added reads as pending.
pub proof fn law_added_task_pending(ts: Seq<GraphTaskView>, id: u128, deps: Set<u128>)
    requires
        ids_unique(ts),
    ensures
        status_of(with_task(ts, GraphTaskView { id, deps, status: TaskStatus::Pending }), id) == Some(
            TaskStatus::Pending,
        ),
{
    let t = GraphTaskView { id, deps, status: TaskStatus::Pending };
    let n = with_task(ts, t);
    if has_task(ts, id) {
        let i = choose|i: int| 0 <= i < ts.len() && (#[trigger] ts[i]).id == id;
        assert(n[i] == t);
        let k = choose|k: int| 0 <= k < n.len() && (#[trigger] n[k]).id == id;
        assert(n[k] == (if ts[k].id == id { t } else { ts[k] }));
    } else {
        assert(n[ts.len() as int] == t);
        let k = choose|k: int| 0 <= k < n.len() && (#[trigger] n[k]).id == id;
        if k < ts.len() {
            assert(n[k] == ts[k]);
        }
    }
}

/// Every task that `t` depends on is in the graph and completed.
pub open spec fn deps_done(ts: Seq<GraphTaskView>, t: GraphTaskView) -> bool {
    forall|d: u128| #[trigger] t.deps.contains(d) ==> status_of(ts, d) == Some(TaskStatus::Completed)
}

/// Some task with id `id` has all its dependencies completed.
pub open spec fn unblocked_task(ts: Seq<GraphTaskView>, id: u128) -> bool {
    exists|i: int| 0 <= i < ts.len() && (#[trigger] ts[i]).id == id && deps_done(ts, ts[i])
}

proof fn lemma_ready_entry(ts: Seq<GraphTaskView>, k: int) -> (i: int)
    requires
        0 <= k < ts.filter(|t: GraphTaskView| is_ready(ts, t)).len(),
    ensures
        0 <= i < ts.len(),
        ts[i] == ts.filter(|t: GraphTaskView| is_ready(ts, t))[k],
        ts[i].status == TaskStatus::Pending,
        deps_done(ts, ts[i]),
{
    let p = |t: GraphTaskView| is_ready(ts, t);
    let f = ts.filter(p);
    ts.lemma_filter_pred(p, k);
    assert(f.contains(f[k]));
    ts.lemma_filter_contains_rev(p, f[k]);
    choose|i: int| 0 <= i < ts.len() && ts[i] == f[k]
}

proof fn lemma_status_at_index(ts: Seq<GraphTaskView>, i: int)
    requires
        ids_unique(ts),
        0 <= i < ts.len(),
    ensures
        status_of(ts, ts[i].id) == Some(ts[i].status),
{
    assert(has_task(ts, ts[i].id));
    let j = choose|j: int| 0 <= j < ts.len() && (#[trigger] ts[j]).id == ts[i].id;
    if j != i {
        assert(ts[j].id != ts[i].id);
    }
}

/// What "ready" means: every task listed as ready is in the graph with
/// status `Pending` (a running, completed or failed task is never listed)
/// and all it depends on is in the graph and completed; conversely every
/// pending task whose dependencies are all completed is listed.
pub proof fn law_ready_tasks_are_pending_and_unblocked(ts: Seq<GraphTaskView>, ready: Seq<u128>)
    requires
        ids_unique(ts),
        ready == ts.filter(|t: GraphTaskView| is_ready(ts, t)).map_values(|t: GraphTaskView| t.id),
    ensures
        forall|k: int| 0 <= k < ready.len() ==> #[trigger] status_of(ts, ready[k]) == Some(TaskStatus::Pending),
        forall|k: int| 0 <= k < ready.len() ==> unblocked_task(ts, #[trigger] ready[k]),
        forall|i: int|
            0 <= i < ts.len() && ts[i].status == TaskStatus::Pending && deps_done(ts, ts[i]) ==> ready.contains(
                #[trigger] ts[i].id,
            ),
{
    let p = |t: GraphTaskView| is_ready(ts, t);
    let f = ts.filter(p);
    assert forall|k: int| 0 <= k < ready.len() implies #[trigger] status_of(ts, ready[k]) == Some(
        TaskStatus::Pending,
    ) by {
        let i = lemma_ready_entry(ts, k);
        lemma_status_at_index(ts, i);
        assert(ts[i].id == ready[k]);
    }
    assert forall|k: int| 0 <= k < ready.len() implies unblocked_task(ts, #[trigger] ready[k]) by {
        let i = lemma_ready_entry(ts, k);
        assert(ts[i].id == ready[k]);
    }
    assert forall|i: int|
        0 <= i < ts.len() && ts[i].status == TaskStatus::Pending && deps_done(ts, ts[i]) implies ready.contains(
        #[trigger] ts[i].id,
    ) by {
        assert(p(ts[i]));
        ts.lemma_filter_contains(p, i);
        let k = choose|k: int| 0 <= k < f.len() && f[k] == ts[i];
        assert(ready[k] == ts[i].id);
    }
}

} // verus!
