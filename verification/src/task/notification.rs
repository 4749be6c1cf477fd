//! Task event notification: the registry of subscribers and its limits.
use vstd::prelude::*;
use crate::common::{TaskResult, TaskStatus};
use crate::text::text_eq;

verus! {

/// An event in the life of a task.
#[derive(Debug, Clone)]
pub enum TaskEvent {
    /// The task was created.
    Created { task_id: String, owner: String },
    /// A worker started the task.
    Started { task_id: String, worker_id: String },
    /// The task finished.
    Completed { task_id: String, result: TaskResult },
    /// The task failed.
    Failed { task_id: String, error: String },
    /// The task was cancelled.
    Cancelled { task_id: String, reason: String },
    /// The task changed status.
    StatusChanged { task_id: String, old_status: TaskStatus, new_status: TaskStatus },
    /// Resources were allocated to the task.
    ResourcesAllocated { task_id: String, worker_id: String },
    /// The task's resources were released.
    ResourcesReleased { task_id: String, worker_id: String },
}

/// Some subscriber has the id `id`.
pub open spec fn has_subscriber(ids: Seq<Seq<char>>, id: Seq<char>) -> bool {
    exists|i: int| 0 <= i < ids.len() && ids[i] == id
}

/// Subscriber ids are unique.
pub open spec fn subscribers_unique(ids: Seq<Seq<char>>) -> bool {
    forall|i: int, j: int| 0 <= i < ids.len() && 0 <= j < ids.len() && i != j ==> ids[i] != ids[j]
}

/// The subscriber registry. Each subscriber has an id and a handle through
/// which events reach it; channels of `channel_size` events are opened for
/// subscribers.
pub struct TaskNotificationSystem<H> {
    subscribers: Vec<(String, H)>,
    max_subscribers: usize,
    channel_size: usize,
}

impl<H> TaskNotificationSystem<H> {
    /// The subscriber ids, in subscription order.
    pub closed spec fn subscriber_ids(&self) -> Seq<Seq<char>> {
        self.subscribers@.map_values(|e: (String, H)| e.0@)
    }

    /// The handles, in subscription order.
    pub closed spec fn handles(&self) -> Seq<H> {
        self.subscribers@.map_values(|e: (String, H)| e.1)
    }

    /// The subscriber limit.
    pub closed spec fn max_subscribers(&self) -> usize {
        self.max_subscribers
    }

    /// Capacity of each subscriber's channel.
    pub closed spec fn spec_channel_size(&self) -> usize {
        self.channel_size
    }

    /// Well-formedness: subscriber ids are unique.
    pub closed spec fn wf(&self) -> bool {
        subscribers_unique(self.subscriber_ids())
    }

    /// An empty registry.
    pub fn new(max_subscribers: usize, channel_size: usize) -> (s: Self)
        ensures
            s.wf(),
            s.subscriber_ids().len() == 0,
            s.max_subscribers() == max_subscribers,
            s.spec_channel_size() == channel_size,
    {
        let s = TaskNotificationSystem { subscribers: Vec::new(), max_subscribers, channel_size };
        assert(s.subscriber_ids() =~= Seq::<Seq<char>>::empty());
        s
    }

    /// Capacity of a subscriber's channel.
    pub fn channel_size(&self) -> (n: usize)
        ensures
            n == self.spec_channel_size(),
    {
        self.channel_size
    }

    fn find(&self, id: &str) -> (r: Option<usize>)
        ensures
            match r {
                Some(i) => i < self.subscriber_ids().len() && self.subscriber_ids()[i as int] == id@,
                None => !has_subscriber(self.subscriber_ids(), id@),
            },
    {
        let mut i: usize = 0;
        while i < self.subscribers.len()
            invariant
                i <= self.subscribers@.len(),
                forall|j: int| 0 <= j < i ==> self.subscriber_ids()[j] != id@,
            decreases self.subscribers.len() - i,
        {
            assert(self.subscriber_ids()[i as int] == self.subscribers@[i as int].0@);
            if text_eq(self.subscribers[i].0.as_str(), id) {
                return Some(i);
            }
            i = i + 1;
        }
        None
    }

    /// Registers subscriber `id` with `handle`. When `max_subscribers`
    /// subscribers are registered the request is refused with "Maximum number
    /// of subscribers reached"; otherwise a subscriber with the same id is
    /// replaced, or the new one is appended.
    pub fn subscribe(&mut self, id: String, handle: H) -> (r: Result<(), String>)
        requires
            old(self).wf(),
        ensures
            final(self).wf(),
            final(self).max_subscribers() == old(self).max_subscribers(),
            old(self).subscriber_ids().len() <= old(self).max_subscribers() ==> final(self).subscriber_ids().len()
                <= final(self).max_subscribers(),
            old(self).subscriber_ids().len() >= old(self).max_subscribers() ==> (r matches Err(m) && m@
                == "Maximum number of subscribers reached"@ && final(self).subscriber_ids() == old(self).subscriber_ids()),
            old(self).subscriber_ids().len() < old(self).max_subscribers() ==> r is Ok && if has_subscriber(
                old(self).subscriber_ids(),
                id@,
            ) {
                final(self).subscriber_ids() == old(self).subscriber_ids()
            } else {
                final(self).subscriber_ids() == old(self).subscriber_ids().push(id@)
            },
    {
        if self.subscribers.len() >= self.max_subscribers {
            return Err(String::from_str("Maximum number of subscribers reached"));
        }
        let ghost old_ids = self.subscriber_ids();
        let ghost idv = id@;
        match self.find(id.as_str()) {
            Some(i) => {
                self.subscribers.set(i, (id, handle));
                proof {
                    assert(self.subscriber_ids() =~= old_ids.update(i as int, idv));
                    assert(old_ids.update(i as int, idv) =~= old_ids);
                }
            },
            None => {
                self.subscribers.push((id, handle));
                proof {
                    let ids = self.subscriber_ids();
                    assert(ids =~= old_ids.push(idv));
                    assert forall|a: int, b: int| 0 <= a < ids.len() && 0 <= b < ids.len() && a != b implies ids[a] != ids[b] by {
                        if a < old_ids.len() && b < old_ids.len() {
                            assert(ids[a] == old_ids[a]);
                            assert(ids[b] == old_ids[b]);
                        } else if a < old_ids.len() {
                            assert(ids[a] == old_ids[a]);
                        } else {
                            assert(ids[b] == old_ids[b]);
                        }
                    }
                }
            },
        }
        Ok(())
    }

    /// Removes subscriber `id`, if registered.
    pub fn unsubscribe(&mut self, id: &str)
        requires
            old(self).wf(),
        ensures
            final(self).wf(),
            final(self).max_subscribers() == old(self).max_subscribers(),
            !has_subscriber(final(self).subscriber_ids(), id@),
            !has_subscriber(old(self).subscriber_ids(), id@) ==> final(self).subscriber_ids() == old(self).subscriber_ids(),
            has_subscriber(old(self).subscriber_ids(), id@) ==> exists|i: int|
                0 <= i < old(self).subscriber_ids().len() && old(self).subscriber_ids()[i] == id@
                    && #[trigger] final(self).subscriber_ids() == old(self).subscriber_ids().remove(i),
    {
        match self.find(id) {
            None => {},
            Some(i) => {
                let ghost old_ids = self.subscriber_ids();
                let _removed = self.subscribers.remove(i);
                proof {
                    let ids = self.subscriber_ids();
                    assert(ids =~= old_ids.remove(i as int));
                    assert forall|a: int, b: int| 0 <= a < ids.len() && 0 <= b < ids.len() && a != b implies ids[a] != ids[b] by {
                        let a0 = if a < i { a } else { a + 1 };
                        let b0 = if b < i { b } else { b + 1 };
                        assert(ids[a] == old_ids[a0]);
                        assert(ids[b] == old_ids[b0]);
                    }
                    assert forall|j: int| 0 <= j < ids.len() implies ids[j] != id@ by {
                        let j0 = if j < i { j } else { j + 1 };
                        assert(ids[j] == old_ids[j0]);
                        assert(old_ids[i as int] == id@);
                    }
                }
            },
        }
    }

    /// The registered subscribers: ids and handles, in subscription order.
    pub fn subscribers(&self) -> (v: &Vec<(String, H)>)
        ensures
            v@.map_values(|e: (String, H)| e.0@) == self.subscriber_ids(),
            v@.map_values(|e: (String, H)| e.1) == self.handles(),
    {
        &self.subscribers
    }

    /// Removes the subscribers whose handles could not take an event.
    pub fn remove_subscribers(&mut self, ids: &Vec<String>)
        requires
            old(self).wf(),
        ensures
            final(self).wf(),
            final(self).max_subscribers() == old(self).max_subscribers(),
            forall|k: int| 0 <= k < ids@.len() ==> !has_subscriber(final(self).subscriber_ids(), #[trigger] ids@[k]@),
            forall|x: Seq<char>| has_subscriber(final(self).subscriber_ids(), x) ==> has_subscriber(old(self).subscriber_ids(), x),
    {
        let mut k: usize = 0;
        while k < ids.len()
            invariant
                self.wf(),
                self.max_subscribers() == old(self).max_subscribers(),
                k <= ids@.len(),
                forall|j: int| 0 <= j < k ==> !has_subscriber(self.subscriber_ids(), #[trigger] ids@[j]@),
                forall|x: Seq<char>| has_subscriber(self.subscriber_ids(), x) ==> has_subscriber(old(self).subscriber_ids(), x),
            decreases ids.len() - k,
        {
            let ghost before = self.subscriber_ids();
            self.unsubscribe(ids[k].as_str());
            proof {
                let now_ids = self.subscriber_ids();
                assert forall|x: Seq<char>| has_subscriber(now_ids, x) implies has_subscriber(before, x) by {
                    let a = choose|a: int| 0 <= a < now_ids.len() && now_ids[a] == x;
                    if has_subscriber(before, ids@[k as int]@) {
                        let i = choose|i: int| 0 <= i < before.len() && before[i] == ids@[k as int]@ && now_ids == before.remove(i);
                        let a0 = if a < i { a } else { a + 1 };
                        assert(before[a0] == x);
                    }
                }
                assert forall|j: int| 0 <= j < k + 1 implies !has_subscriber(now_ids, #[trigger] ids@[j]@) by {
                    if j < k {
                        if has_subscriber(now_ids, ids@[j]@) {
                            assert(has_subscriber(before, ids@[j]@));
                        }
                    }
                }
            }
            k = k + 1;
        }
    }

    /// The number of registered subscribers.
    pub fn get_subscriber_count(&self) -> (n: usize)
        ensures
            n == self.subscriber_ids().len(),
    {
        self.subscribers.len()
    }

    /// Removes every subscriber.
    pub fn clear_subscribers(&mut self)
        ensures
            final(self).wf(),
            final(self).subscriber_ids().len() == 0,
            final(self).max_subscribers() == old(self).max_subscribers(),
    {
        self.subscribers.clear();
        assert(self.subscriber_ids() =~= Seq::<Seq<char>>::empty());
    }
}

} // verus!
