//! Task lifecycle bookkeeping: status and result of each submitted task.
use vstd::prelude::*;
use crate::common::{uuid_text, uuid_to_text, TaskResult, TaskResultView};
use crate::error::SystemError;
use crate::text::join_text;

pub mod notification;

verus! {

/// Status of a managed task.
#[derive(Debug, Clone, Copy, PartialEq, Eq, Structural)]
pub enum TaskStatus {
    /// Waiting to run.
    Pending,
    /// Running.
    Running,
    /// Finished.
    Completed,
    /// Failed.
    Failed,
}

/// Some entry of `m` has the key `id`.
pub open spec fn has_key<V>(m: Seq<(u128, V)>, id: u128) -> bool {
    exists|i: int| 0 <= i < m.len() && (#[trigger] m[i]).0 == id
}

/// The value stored under `id`.
pub open spec fn value_of<V>(m: Seq<(u128, V)>, id: u128) -> Option<V> {
    if has_key(m, id) {
        Some(m[choose|i: int| 0 <= i < m.len() && (#[trigger] m[i]).0 == id].1)
    } else {
        None
    }
}

/// Keys are unique.
pub open spec fn keys_unique<V>(m: Seq<(u128, V)>) -> bool {
    forall|i: int, j: int|
        0 <= i < m.len() && 0 <= j < m.len() && i != j ==> (#[trigger] m[i]).0 != (#[trigger] m[j]).0
}

/// The message "Task <id> <what>".
fn task_message(task_id: u128, what: &str) -> (m: String)
    ensures
        m@ == "Task "@ + uuid_text(task_id) + what@,
{
    let id = uuid_to_text(task_id);
    let head = join_text("Task ", id.as_str());
    join_text(head.as_str(), what)
}

/// Keeps the status and the result of each submitted task.
pub struct TaskManager {
    tasks: Vec<(u128, TaskStatus)>,
    results: Vec<(u128, TaskResult)>,
}

impl TaskManager {
    /// Status of each task, by id.
    pub closed spec fn statuses(&self) -> Seq<(u128, TaskStatus)> {
        self.tasks@
    }

    /// Result of each task that has one, by id.
    pub closed spec fn results(&self) -> Seq<(u128, TaskResultView)> {
        self.results@.map_values(|e: (u128, TaskResult)| (e.0, e.1@))
    }

    /// Well-formedness: one status and at most one result per task.
    pub closed spec fn wf(&self) -> bool {
        keys_unique(self.statuses()) && keys_unique(self.results())
    }

    /// No tasks.
    pub fn new() -> (m: Self)
        ensures
            m.wf(),
            m.statuses().len() == 0,
            m.results().len() == 0,
    {
        let m = TaskManager { tasks: Vec::new(), results: Vec::new() };
        assert(m.results() =~= Seq::<(u128, TaskResultView)>::empty());
        m
    }

    fn find_status(&self, id: u128) -> (r: Option<usize>)
        requires
            self.wf(),
        ensures
            match r {
                Some(i) => i < self.statuses().len() && self.statuses()[i as int].0 == id
                    && value_of(self.statuses(), id) == Some(self.statuses()[i as int].1),
                None => !has_key(self.statuses(), id) && value_of(self.statuses(), id) is None,
            },
    {
        let mut i: usize = 0;
        while i < self.tasks.len()
            invariant
                self.wf(),
                i <= self.tasks@.len(),
                forall|j: int| 0 <= j < i ==> (#[trigger] self.tasks@[j]).0 != id,
            decreases self.tasks.len() - i,
        {
            if self.tasks[i].0 == id {
                proof {
                    let m = self.statuses();
                    let k = choose|k: int| 0 <= k < m.len() && (#[trigger] m[k]).0 == id;
                    if k != i {
                        assert(m[k].0 != m[i as int].0);
                    }
                }
                return Some(i);
            }
            i = i + 1;
        }
        None
    }

    fn find_result(&self, id: u128) -> (r: Option<usize>)
        requires
            self.wf(),
        ensures
            match r {
                Some(i) => i < self.results().len() && self.results()[i as int].0 == id
                    && value_of(self.results(), id) == Some(self.results()[i as int].1),
                None => !has_key(self.results(), id) && value_of(self.results(), id) is None,
            },
    {
        let mut i: usize = 0;
        while i < self.results.len()
            invariant
                self.wf(),
                i <= self.results@.len(),
                forall|j: int| 0 <= j < i ==> (#[trigger] self.results()[j]).0 != id,
            decreases self.results.len() - i,
        {
            assert(self.results()[i as int].0 == self.results@[i as int].0);
            if self.results[i].0 == id {
                proof {
                    let m = self.results();
                    let k = choose|k: int| 0 <= k < m.len() && (#[trigger] m[k]).0 == id;
                    if k != i {
                        assert(m[k].0 != m[i as int].0);
                    }
                }
                return Some(i);
            }
            i = i + 1;
        }
        None
    }

    /// Submits task `task_id` as pending; a task already submitted is
    /// refused with "Task <id> already exists" and nothing changes.
    pub fn submit_task(&mut self, task_id: u128) -> (r: Result<u128, SystemError>)
        requires
            old(self).wf(),
        ensures
            final(self).wf(),
            final(self).results() == old(self).results(),
            has_key(old(self).statuses(), task_id) ==> final(self).statuses() == old(self).statuses()
                && (r matches Err(SystemError::TaskError(m)) && m@ == "Task "@ + uuid_text(task_id) + " already exists"@),
            !has_key(old(self).statuses(), task_id) ==> r == Ok::<u128, SystemError>(task_id)
                && final(self).statuses() == old(self).statuses().push((task_id, TaskStatus::Pending)),
    {
        if self.find_status(task_id).is_some() {
            return Err(SystemError::TaskError(task_message(task_id, " already exists")));
        }
        let ghost old_m = self.statuses();
        self.tasks.push((task_id, TaskStatus::Pending));
        proof {
            let m = self.statuses();
            assert(m =~= old_m.push((task_id, TaskStatus::Pending)));
            assert forall|a: int, b: int| 0 <= a < m.len() && 0 <= b < m.len() && a != b implies (#[trigger] m[a]).0 != (#[trigger] m[b]).0 by {
                if a < old_m.len() && b < old_m.len() {
                } else if a < old_m.len() {
                    assert(old_m[a].0 != task_id);
                } else {
                    assert(old_m[b].0 != task_id);
                }
            }
        }
        Ok(task_id)
    }

    fn set_status(&mut self, i: usize, status: TaskStatus)
        requires
            old(self).wf(),
            i < old(self).statuses().len(),
        ensures
            final(self).wf(),
            final(self).results() == old(self).results(),
            final(self).statuses() == old(self).statuses().update(i as int, (old(self).statuses()[i as int].0, status)),
    {
        let ghost old_m = self.statuses();
        let id = self.tasks[i].0;
        self.tasks.set(i, (id, status));
        proof {
            let m = self.statuses();
            assert(m =~= old_m.update(i as int, (id, status)));
            assert forall|a: int, b: int| 0 <= a < m.len() && 0 <= b < m.len() && a != b implies (#[trigger] m[a]).0 != (#[trigger] m[b]).0 by {
                assert(m[a].0 == old_m[a].0);
                assert(m[b].0 == old_m[b].0);
            }
        }
    }

    /// Sets the status of task `task_id`; an unknown task gives "Task <id>
    /// not found" and nothing changes.
    pub fn update_task_status(&mut self, task_id: u128, status: TaskStatus) -> (r: Result<(), SystemError>)
        requires
            old(self).wf(),
        ensures
            final(self).wf(),
            final(self).results() == old(self).results(),
            has_key(old(self).statuses(), task_id) <==> r is Ok,
            r is Err ==> final(self).statuses() == old(self).statuses()
                && (r matches Err(SystemError::TaskError(m)) && m@ == "Task "@ + uuid_text(task_id) + " not found"@),
            forall|i: int| 0 <= i < old(self).statuses().len() && (#[trigger] old(self).statuses()[i]).0 == task_id
                ==> final(self).statuses() == old(self).statuses().update(i, (task_id, status)),
    {
        match self.find_status(task_id) {
            None => Err(SystemError::TaskError(task_message(task_id, " not found"))),
            Some(i) => {
                proof {
                    let m = self.statuses();
                    assert forall|j: int| 0 <= j < m.len() && (#[trigger] m[j]).0 == task_id implies j == i by {
                        if j != i {
                            assert(m[j].0 != m[i as int].0);
                        }
                    }
                }
                self.set_status(i, status);
                Ok(())
            },
        }
    }

    /// Records the result of task `task_id` and marks it completed; an
    /// unknown task gives "Task <id> not found" and nothing changes. A result
    /// recorded before is replaced.
    pub fn set_task_result(&mut self, task_id: u128, result: TaskResult) -> (r: Result<(), SystemError>)
        requires
            old(self).wf(),
        ensures
            final(self).wf(),
            has_key(old(self).statuses(), task_id) <==> r is Ok,
            r is Err ==> final(self).statuses() == old(self).statuses() && final(self).results() == old(self).results()
                && (r matches Err(SystemError::TaskError(m)) && m@ == "Task "@ + uuid_text(task_id) + " not found"@),
            r is Ok ==> value_of(final(self).statuses(), task_id) == Some(TaskStatus::Completed)
                && value_of(final(self).results(), task_id) == Some(result@)
                && (forall|other: u128| other != task_id ==> #[trigger] value_of(final(self).statuses(), other) == value_of(old(self).statuses(), other))
                && (forall|other: u128| other != task_id ==> #[trigger] value_of(final(self).results(), other) == value_of(old(self).results(), other)),
    {
        let i = match self.find_status(task_id) {
            None => return Err(SystemError::TaskError(task_message(task_id, " not found"))),
            Some(i) => i,
        };
        let ghost old_s = self.statuses();
        self.set_status(i, TaskStatus::Completed);
        proof {
            lemma_update_value(old_s, i as int, (task_id, TaskStatus::Completed));
        }
        let ghost old_r = self.results();
        let ghost rv = result@;
        match self.find_result(task_id) {
            Some(j) => {
                self.results.set(j, (task_id, result));
                proof {
                    assert(self.results() =~= old_r.update(j as int, (task_id, rv)));
                    lemma_update_value(old_r, j as int, (task_id, rv));
                }
            },
            None => {
                self.results.push((task_id, result));
                proof {
                    assert(self.results() =~= old_r.push((task_id, rv)));
                    lemma_push_value(old_r, (task_id, rv));
                }
            },
        }
        Ok(())
    }

    /// The status of task `task_id`; "Task <id> not found" for an unknown
    /// task.
    pub fn get_task_status(&self, task_id: u128) -> (r: Result<TaskStatus, SystemError>)
        requires
            self.wf(),
        ensures
            match value_of(self.statuses(), task_id) {
                Some(s) => r == Ok::<TaskStatus, SystemError>(s),
                None => r matches Err(SystemError::TaskError(m)) && m@ == "Task "@ + uuid_text(task_id) + " not found"@,
            },
    {
        match self.find_status(task_id) {
            Some(i) => Ok(self.tasks[i].1),
            None => Err(SystemError::TaskError(task_message(task_id, " not found"))),
        }
    }

    /// A copy of the result of task `task_id`, if one was recorded.
    pub fn get_task_result(&self, task_id: u128) -> (r: Result<Option<TaskResult>, SystemError>)
        requires
            self.wf(),
        ensures
            r matches Ok(o) && match value_of(self.results(), task_id) {
                Some(v) => o matches Some(x) && x@ == v,
                None => o is None,
            },
    {
        match self.find_result(task_id) {
            Some(i) => {
                assert(self.results()[i as int].1 == self.results@[i as int].1@);
                Ok(Some(self.results[i].1.clone()))
            },
            None => Ok(None),
        }
    }
}

/// A value recorded under a task's key (replacing the entry there) is what a
/// later read of that key gives; every other key reads as before.
pub proof fn lemma_update_value<V>(m: Seq<(u128, V)>, i: int, e: (u128, V))
    requires
        keys_unique(m),
        0 <= i < m.len(),
        m[i].0 == e.0,
    ensures
        keys_unique(m.update(i, e)),
        value_of(m.update(i, e), e.0) == Some(e.1),
        forall|k: u128| k != e.0 ==> #[trigger] value_of(m.update(i, e), k) == value_of(m, k),
{
    let n = m.update(i, e);
    assert forall|a: int, b: int| 0 <= a < n.len() && 0 <= b < n.len() && a != b implies (#[trigger] n[a]).0 != (#[trigger] n[b]).0 by {
        assert(n[a].0 == m[a].0);
        assert(n[b].0 == m[b].0);
    }
    let k0 = choose|k: int| 0 <= k < n.len() && (#[trigger] n[k]).0 == e.0;
    assert(n[i].0 == e.0);
    if k0 != i {
        assert(n[k0].0 != n[i].0);
    }
    assert forall|k: u128| k != e.0 implies #[trigger] value_of(n, k) == value_of(m, k) by {
        if has_key(m, k) {
            let j = choose|j: int| 0 <= j < m.len() && (#[trigger] m[j]).0 == k;
            assert(n[j].0 == k);
            let j2 = choose|j2: int| 0 <= j2 < n.len() && (#[trigger] n[j2]).0 == k;
            if j2 != j {
                assert(n[j2].0 != n[j].0);
            }
        } else {
            assert forall|j: int| 0 <= j < n.len() implies (#[trigger] n[j]).0 != k by {
                assert(n[j].0 == m[j].0);
            }
        }
    }
}

/// A value recorded under a new key (appended) is what a later read of that
/// key gives; every other key reads as before.
pub proof fn lemma_push_value<V>(m: Seq<(u128, V)>, e: (u128, V))
    requires
        keys_unique(m),
        !has_key(m, e.0),
    ensures
        keys_unique(m.push(e)),
        value_of(m.push(e), e.0) == Some(e.1),
        forall|k: u128| k != e.0 ==> #[trigger] value_of(m.push(e), k) == value_of(m, k),
{
    let n = m.push(e);
    assert forall|a: int, b: int| 0 <= a < n.len() && 0 <= b < n.len() && a != b implies (#[trigger] n[a]).0 != (#[trigger] n[b]).0 by {
        if a < m.len() {
            assert(n[a] == m[a]);
        }
        if b < m.len() {
            assert(n[b] == m[b]);
        }
    }
    assert(n[m.len() as int].0 == e.0);
    let k0 = choose|k: int| 0 <= k < n.len() && (#[trigger] n[k]).0 == e.0;
    if k0 != m.len() {
        assert(n[k0] == m[k0]);
    }
    assert forall|k: u128| k != e.0 implies #[trigger] value_of(n, k) == value_of(m, k) by {
        if has_key(m, k) {
            let j = choose|j: int| 0 <= j < m.len() && (#[trigger] m[j]).0 == k;
            assert(n[j] == m[j]);
            let j2 = choose|j2: int| 0 <= j2 < n.len() && (#[trigger] n[j2]).0 == k;
            if j2 != j {
                assert(n[j2].0 != n[j].0);
            }
        } else {
            assert forall|j: int| 0 <= j < n.len() implies (#[trigger] n[j]).0 != k by {
                if j < m.len() {
                    assert(n[j] == m[j]);
                }
            }
        }
    }
}

} // verus!
