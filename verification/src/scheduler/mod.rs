//! Scheduling: task priorities, node health, load-balancing strategies, the
//! deadline-ordered priority queues, the load balancer and the task graph.
use vstd::prelude::*;
use crate::common::new_uuid_text;
use crate::text::{lemma_text_irreflexive, lemma_text_total, lemma_text_transitive, text_less, text_eq, text_lt};

pub mod load_balancer;
pub mod task_graph;

verus! {

/// Priority of a queued task.
#[derive(Debug, Clone, Copy, PartialEq, Eq, Structural)]
pub enum TaskPriority {
    /// Served first.
    High,
    /// Served second.
    Normal,
    /// Served last.
    Low,
}

/// Health of a node.
#[derive(Debug, Clone, PartialEq)]
pub enum NodeHealth {
    /// Healthy.
    Healthy,
    /// Unhealthy, with the reason.
    Unhealthy(String),
}

/// How the load balancer picks a node.
#[derive(Debug)]
pub enum LoadBalanceStrategy {
    /// Each healthy node in turn.
    RoundRobin,
    /// The healthy node with the fewest tasks.
    LeastLoaded,
    /// The node preferred by data locality.
    DataAware,
    /// A named custom strategy: the first healthy node.
    Custom(String),
}

impl Clone for LoadBalanceStrategy {
    fn clone(&self) -> (c: Self)
        ensures
            c == *self,
    {
        match self {
            LoadBalanceStrategy::RoundRobin => LoadBalanceStrategy::RoundRobin,
            LoadBalanceStrategy::LeastLoaded => LoadBalanceStrategy::LeastLoaded,
            LoadBalanceStrategy::DataAware => LoadBalanceStrategy::DataAware,
            LoadBalanceStrategy::Custom(name) => LoadBalanceStrategy::Custom(name.clone()),
        }
    }
}

impl Default for LoadBalanceStrategy {
    fn default() -> (s: Self)
        ensures
            s is LeastLoaded,
    {
        LoadBalanceStrategy::LeastLoaded
    }
}

/// A queued unit of work. Times are milliseconds of the caller's monotonic
/// clock.
#[derive(Debug)]
pub struct Task {
    /// Task id.
    pub id: String,
    /// Priority.
    pub priority: TaskPriority,
    /// Work description.
    pub payload: Vec<u8>,
    /// Creation time.
    pub created_at: u64,
    /// Time by which the task must start, if any.
    pub deadline: Option<u64>,
    /// Deliveries attempted again after a failed hand-off.
    pub retries: u32,
}

/// Hand-off failures after which a task is no longer queued again.
pub const MAX_TASK_RETRIES: u32 = 3;

/// Milliseconds a task without a deadline may wait: one hour.
pub const DEFAULT_DEADLINE_MS: u64 = 3600000;

impl Task {
    /// A task created at `now` with a fresh random id and no retries; a
    /// deadline given as a delay is counted from `now`.
    pub fn new(priority: TaskPriority, payload: Vec<u8>, deadline: Option<u64>, now: u64) -> (t: Self)
        requires
            deadline matches Some(d) ==> now + d <= u64::MAX,
        ensures
            t.id@.len() == 36,
            t.priority == priority,
            t.payload@ == payload@,
            t.created_at == now,
            t.deadline == match deadline {
                Some(d) => Some((now + d) as u64),
                None => None::<u64>,
            },
            t.retries == 0,
    {
        let deadline = match deadline {
            Some(d) => Some(now + d),
            None => None,
        };
        Task { id: new_uuid_text(), priority, payload, created_at: now, deadline, retries: 0 }
    }

    /// The queue deadline of the task: its own, or one hour after `now`.
    pub fn queue_deadline(&self, now: u64) -> (d: u64)
        requires
            self.deadline is None ==> now + DEFAULT_DEADLINE_MS <= u64::MAX,
        ensures
            d == match self.deadline {
                Some(x) => x,
                None => (now + DEFAULT_DEADLINE_MS) as u64,
            },
    {
        match self.deadline {
            Some(x) => x,
            None => now + DEFAULT_DEADLINE_MS,
        }
    }

    /// After a failed hand-off: the task with one more retry while it has
    /// had fewer than `MAX_TASK_RETRIES`, otherwise `None` (it is dropped).
    pub fn retried(self) -> (r: Option<Task>)
        ensures
            self.retries < MAX_TASK_RETRIES <==> r is Some,
            r matches Some(t) ==> t.retries == self.retries + 1 && t.id@ == self.id@ && t.priority
                == self.priority && t.payload@ == self.payload@ && t.created_at == self.created_at
                && t.deadline == self.deadline,
    {
        if self.retries < MAX_TASK_RETRIES {
            let mut t = self;
            t.retries = t.retries + 1;
            Some(t)
        } else {
            None
        }
    }
}

/// Queue position of a priority: high first.
pub open spec fn rank(p: TaskPriority) -> int {
    match p {
        TaskPriority::High => 0,
        TaskPriority::Normal => 1,
        TaskPriority::Low => 2,
    }
}

/// A queue entry: deadline, then task id.
pub type QueueKey = (u64, Seq<char>);

/// `a` is served before `b`: earlier deadline, then smaller id.
pub open spec fn key_lt(a: QueueKey, b: QueueKey) -> bool {
    a.0 < b.0 || (a.0 == b.0 && text_lt(a.1, b.1))
}

/// The entry at `k` is one that no entry of `q` precedes.
pub open spec fn is_min_at(q: Seq<QueueKey>, k: int) -> bool {
    0 <= k < q.len() && forall|j: int| 0 <= j < q.len() ==> !key_lt(#[trigger] q[j], q[k])
}

/// Some stored task has the id `id`.
pub open spec fn has_id<T>(ts: Seq<(Seq<char>, T)>, id: Seq<char>) -> bool {
    exists|i: int| 0 <= i < ts.len() && (#[trigger] ts[i]).0 == id
}

/// The position of the stored task with id `id`.
pub open spec fn id_pos<T>(ts: Seq<(Seq<char>, T)>, id: Seq<char>) -> int {
    choose|i: int| 0 <= i < ts.len() && (#[trigger] ts[i]).0 == id
}

/// Stored ids are unique.
pub open spec fn ids_unique<T>(ts: Seq<(Seq<char>, T)>) -> bool {
    forall|i: int, j: int|
        0 <= i < ts.len() && 0 <= j < ts.len() && i != j ==> (#[trigger] ts[i]).0 != (#[trigger] ts[j]).0
}

/// The queue went from `q0` to `q1` by losing its first entry in serving
/// order, which was past its deadline at `now` or had no stored task; or it
/// was empty and stayed so.
pub open spec fn popped_unserved<T>(q0: Seq<QueueKey>, q1: Seq<QueueKey>, now: u64, ts: Seq<(Seq<char>, T)>) -> bool {
    (q0.len() == 0 && q1 == q0) || exists|k: int|
        #[trigger] is_min_at(q0, k) && q1 == q0.remove(k) && (now > q0[k].0 || !has_id(ts, q0[k].1))
}

/// The queue went from `q0` to `q1` by losing its first entry in serving
/// order, which was within its deadline at `now` and whose task `t` left the
/// store `ts0`, leaving `ts1`.
pub open spec fn popped_served<T>(
    q0: Seq<QueueKey>,
    q1: Seq<QueueKey>,
    now: u64,
    ts0: Seq<(Seq<char>, T)>,
    ts1: Seq<(Seq<char>, T)>,
    t: T,
) -> bool {
    exists|k: int|
        #[trigger] is_min_at(q0, k) && q1 == q0.remove(k) && now <= q0[k].0 && has_id(ts0, q0[k].1)
            && t == ts0[id_pos(ts0, q0[k].1)].1 && ts1 == ts0.remove(id_pos(ts0, q0[k].1))
}

/// The keys of queue entries.
pub open spec fn keys_of(v: Seq<(u64, String)>) -> Seq<QueueKey> {
    v.map_values(|x: (u64, String)| (x.0, x.1@))
}

/// Removes and returns an entry that no other entry precedes.
fn pop_min(q: &mut Vec<(u64, String)>) -> (r: Option<(u64, String)>)
    ensures
        old(q)@.len() == 0 <==> r is None,
        r matches Some(e) ==> exists|k: int|
            #[trigger] is_min_at(keys_of(old(q)@), k) && (e.0, e.1@)
                == keys_of(old(q)@)[k] && keys_of(final(q)@) == keys_of(old(q)@).remove(k),
        r is None ==> final(q)@ == old(q)@,
{
    let ghost qv = keys_of(q@);
    if q.len() == 0 {
        return None;
    }
    let mut best: usize = 0;
    let mut j: usize = 1;
    proof {
        lemma_text_irreflexive(qv[0].1);
    }
    while j < q.len()
        invariant
            qv == keys_of(q@),
            1 <= j <= q@.len(),
            best < j,
            forall|m: int| 0 <= m < j ==> !key_lt(#[trigger] qv[m], qv[best as int]),
        decreases q.len() - j,
    {
        let earlier = q[j].0 < q[best].0 || (q[j].0 == q[best].0 && text_less(q[j].1.as_str(), q[best].1.as_str()));
        assert(earlier == key_lt(qv[j as int], qv[best as int]));
        if earlier {
            proof {
                assert forall|m: int| 0 <= m < j + 1 implies !key_lt(#[trigger] qv[m], qv[j as int]) by {
                    lemma_text_transitive(qv[m].1, qv[j as int].1, qv[best as int].1);
                    lemma_text_total(qv[j as int].1, qv[best as int].1);
                    lemma_text_irreflexive(qv[j as int].1);
                }
            }
            best = j;
        } else {
            proof {
                assert(!key_lt(qv[j as int], qv[best as int]));
            }
        }
        j = j + 1;
    }
    let e = q.remove(best);
    assert(keys_of(q@) =~= qv.remove(best as int));
    assert(is_min_at(qv, best as int));
    Some(e)
}

/// Deadline-ordered task queues, one per priority, and the tasks they hold.
/// Deadlines are clock readings turned into numbers that keep their order.
pub struct Scheduler<T> {
    queues: Vec<Vec<(u64, String)>>,
    tasks: Vec<(String, T)>,
}

impl<T> Scheduler<T> {
    /// The queue of the priority of rank `p`, as (deadline, id) entries.
    pub closed spec fn queue(&self, p: int) -> Seq<QueueKey> {
        keys_of(self.queues@[p]@)
    }

    /// The stored tasks, by id.
    pub closed spec fn tasks(&self) -> Seq<(Seq<char>, T)> {
        self.tasks@.map_values(|x: (String, T)| (x.0@, x.1))
    }

    /// Going from `self` to `next` at `now`, the queues before the one of
    /// rank `p` gave up their first entry without serving it, the queue of
    /// rank `p` served task `t`, and the queues after it were not visited.
    pub open spec fn served_from(&self, next: Self, now: u64, t: T, p: int) -> bool {
        &&& 0 <= p < 3
        &&& forall|q: int|
            0 <= q < p ==> popped_unserved(self.queue(q), #[trigger] next.queue(q), now, self.tasks())
        &&& popped_served(self.queue(p), next.queue(p), now, self.tasks(), next.tasks(), t)
        &&& forall|q: int| p < q < 3 ==> #[trigger] next.queue(q) == self.queue(q)
    }

    /// Well-formedness: three queues, unique stored ids.
    pub closed spec fn wf(&self) -> bool {
        self.queues@.len() == 3 && ids_unique(self.tasks())
    }

    /// Empty queues and no tasks.
    pub fn new() -> (s: Self)
        ensures
            s.wf(),
            forall|p: int| 0 <= p < 3 ==> #[trigger] s.queue(p).len() == 0,
            s.tasks().len() == 0,
    {
        let mut queues: Vec<Vec<(u64, String)>> = Vec::new();
        queues.push(Vec::new());
        queues.push(Vec::new());
        queues.push(Vec::new());
        let s = Scheduler { queues, tasks: Vec::new() };
        assert(s.tasks() =~= Seq::<(Seq<char>, T)>::empty());
        assert forall|p: int| 0 <= p < 3 implies #[trigger] s.queue(p).len() == 0 by {
            assert(s.queues@[p]@.len() == 0);
        }
        s
    }

    fn find(&self, id: &str) -> (r: Option<usize>)
        requires
            self.wf(),
        ensures
            match r {
                Some(i) => i < self.tasks().len() && self.tasks()[i as int].0 == id@ && has_id(self.tasks(), id@)
                    && id_pos(self.tasks(), id@) == i,
                None => !has_id(self.tasks(), id@),
            },
    {
        let mut i: usize = 0;
        while i < self.tasks.len()
            invariant
                self.wf(),
                i <= self.tasks@.len(),
                forall|j: int| 0 <= j < i ==> (#[trigger] self.tasks()[j]).0 != id@,
            decreases self.tasks.len() - i,
        {
            assert(self.tasks()[i as int].0 == self.tasks@[i as int].0@);
            if text_eq(self.tasks[i].0.as_str(), id) {
                proof {
                    let ts = self.tasks();
                    let k = id_pos(ts, id@);
                    if k != i {
                        assert(ts[k].0 != ts[i as int].0);
                    }
                }
                return Some(i);
            }
            i = i + 1;
        }
        None
    }

    /// Queues task `task_id` with priority `priority` and deadline
    /// `deadline`, and stores `task` under its id (replacing a task with the
    /// same id).
    pub fn submit_task(&mut self, priority: TaskPriority, task_id: String, deadline: u64, task: T) -> (r: Result<(), String>)
        requires
            old(self).wf(),
        ensures
            r is Ok,
            final(self).wf(),
            forall|p: int| 0 <= p < 3 ==> #[trigger] final(self).queue(p) == if p == rank(priority) {
                old(self).queue(p).push((deadline, task_id@))
            } else {
                old(self).queue(p)
            },
            if has_id(old(self).tasks(), task_id@) {
                final(self).tasks() == old(self).tasks().update(id_pos(old(self).tasks(), task_id@), (task_id@, task))
            } else {
                final(self).tasks() == old(self).tasks().push((task_id@, task))
            },
    {
        let p: usize = match priority {
            TaskPriority::High => 0,
            TaskPriority::Normal => 1,
            TaskPriority::Low => 2,
        };
        let ghost old_qs = self.queues@;
        let mut q: Vec<(u64, String)> = Vec::new();
        std::mem::swap(&mut q, &mut self.queues[p]);
        let ghost qv = keys_of(q@);
        q.push((deadline, task_id.clone()));
        assert(keys_of(q@) =~= qv.push((deadline, task_id@)));
        std::mem::swap(&mut q, &mut self.queues[p]);
        assert forall|k: int| 0 <= k < 3 && k != p implies self.queues@[k] == old_qs[k] by {}
        let ghost old_ts = self.tasks();
        match self.find(task_id.as_str()) {
            Some(i) => {
                self.tasks.set(i, (task_id, task));
                proof {
                    let ts = self.tasks();
                    assert(ts =~= old_ts.update(i as int, (ts[i as int].0, task)));
                    assert forall|a: int, b: int|
                        0 <= a < ts.len() && 0 <= b < ts.len() && a != b implies (#[trigger] ts[a]).0 != (#[trigger] ts[b]).0 by {
                        assert(ts[a].0 == old_ts[a].0);
                        assert(ts[b].0 == old_ts[b].0);
                    }
                }
            },
            None => {
                self.tasks.push((task_id, task));
                proof {
                    let ts = self.tasks();
                    assert(ts =~= old_ts.push(ts[old_ts.len() as int]));
                    assert forall|a: int, b: int|
                        0 <= a < ts.len() && 0 <= b < ts.len() && a != b implies (#[trigger] ts[a]).0 != (#[trigger] ts[b]).0 by {
                        if a < old_ts.len() {
                            assert(ts[a] == old_ts[a]);
                        }
                        if b < old_ts.len() {
                            assert(ts[b] == old_ts[b]);
                        }
                    }
                }
            },
        }
        Ok(())
    }

    fn pop_queue(&mut self, p: usize) -> (r: Option<(u64, String)>)
        requires
            old(self).wf(),
            p < 3,
        ensures
            final(self).wf(),
            final(self).tasks() == old(self).tasks(),
            forall|k: int| 0 <= k < 3 && k != p ==> #[trigger] final(self).queue(k) == old(self).queue(k),
            r is None ==> old(self).queue(p as int).len() == 0 && final(self).queue(p as int) == old(self).queue(p as int),
            r matches Some(e) ==> exists|k: int|
                #[trigger] is_min_at(old(self).queue(p as int), k) && (e.0, e.1@) == old(self).queue(p as int)[k]
                    && final(self).queue(p as int) == old(self).queue(p as int).remove(k),
    {
        let ghost before_qs = self.queues@;
        let mut q: Vec<(u64, String)> = Vec::new();
        std::mem::swap(&mut q, &mut self.queues[p]);
        assert(keys_of(q@) == old(self).queue(p as int));
        let ghost q0 = keys_of(q@);
        let popped = pop_min(&mut q);
        let ghost q1 = keys_of(q@);
        std::mem::swap(&mut q, &mut self.queues[p]);
        assert(self.queue(p as int) == q1);
        assert forall|k: int| 0 <= k < 3 && k != p implies #[trigger] self.queue(k) == old(self).queue(k) by {
            assert(self.queues@[k] == before_qs[k]);
        }
        popped
    }

    fn take_task(&mut self, id: &str) -> (r: Option<T>)
        requires
            old(self).wf(),
        ensures
            final(self).wf(),
            forall|k: int| 0 <= k < 3 ==> #[trigger] final(self).queue(k) == old(self).queue(k),
            r is None ==> !has_id(old(self).tasks(), id@) && final(self).tasks() == old(self).tasks(),
            r matches Some(t) ==> has_id(old(self).tasks(), id@) && t == old(self).tasks()[id_pos(old(self).tasks(), id@)].1
                && final(self).tasks() == old(self).tasks().remove(id_pos(old(self).tasks(), id@)),
    {
        match self.find(id) {
            None => None,
            Some(i) => {
                let ghost ts0 = self.tasks();
                let (_, task) = self.tasks.remove(i);
                proof {
                    assert(self.tasks() =~= ts0.remove(i as int));
                    let ts = self.tasks();
                    assert forall|a: int, b: int|
                        0 <= a < ts.len() && 0 <= b < ts.len() && a != b implies (#[trigger] ts[a]).0 != (#[trigger] ts[b]).0 by {
                        let a0 = if a < i { a } else { a + 1 };
                        let b0 = if b < i { b } else { b + 1 };
                        assert(ts[a] == ts0[a0]);
                        assert(ts[b] == ts0[b0]);
                    }
                }
                Some(task)
            },
        }
    }

    /// The next task to run at time `now`: the queues are visited from high
    /// to low priority, and each visited queue gives up its first entry in
    /// deadline order; the first such entry that is within its deadline and
    /// whose task is stored wins, and that task leaves the store. Entries
    /// given up without winning are dropped.
    pub fn get_next_task(&mut self, now: u64) -> (r: Option<T>)
        requires
            old(self).wf(),
        ensures
            final(self).wf(),
            r is None ==> final(self).tasks() == old(self).tasks() && forall|p: int|
                0 <= p < 3 ==> popped_unserved(old(self).queue(p), #[trigger] final(self).queue(p), now, old(self).tasks()),
            r matches Some(t) ==> exists|p: int| #[trigger] old(self).served_from(*final(self), now, t, p),
    {
        let mut p: usize = 0;
        while p < 3
            invariant
                self.wf(),
                p <= 3,
                self.tasks() == old(self).tasks(),
                forall|q: int| 0 <= q < p ==> popped_unserved(old(self).queue(q), #[trigger] self.queue(q), now, old(self).tasks()),
                forall|q: int| p <= q < 3 ==> #[trigger] self.queue(q) == old(self).queue(q),
            decreases 3 - p,
        {
            let ghost prev = Seq::new(3, |k: int| self.queue(k));
            assert(prev[p as int] == old(self).queue(p as int));
            let popped = self.pop_queue(p);
            let ghost mid = Seq::new(3, |k: int| self.queue(k));
            assert forall|k: int| 0 <= k < p implies popped_unserved(old(self).queue(k), #[trigger] self.queue(k), now, old(self).tasks()) by {
                assert(self.queue(k) == prev[k]);
            }
            let candidate = match popped {
                Some(entry) => if now <= entry.0 { Some(entry) } else { None },
                None => None,
            };
            if let Some(entry) = candidate {
                let served = self.take_task(entry.1.as_str());
                if let Some(task) = served {
                    proof {
                        assert forall|k: int| 0 <= k < 3 implies #[trigger] self.queue(k) == mid[k] by {}
                        let pp = p as int;
                        assert(popped_served(old(self).queue(pp), self.queue(pp), now, old(self).tasks(), self.tasks(), task));
                        assert(old(self).served_from(*self, now, task, pp));
                    }
                    return Some(task);
                }
            }
            assert(popped_unserved(old(self).queue(p as int), self.queue(p as int), now, old(self).tasks()));
            p = p + 1;
        }
        None
    }
}

} // verus!
