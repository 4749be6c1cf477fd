//! The head node: its configuration and states, its registry of workers
//! (which of them have missed their heartbeat, the cluster counts, the
//! average memory they report), task submission and scheduling rounds.
use vstd::prelude::*;
use crate::common::{new_uuid_value, NodeInfo, NodeType, TaskStatus};
use crate::error::SystemError;
use crate::metrics::{counter_bumped, counter_of};
use crate::scheduler::{LoadBalanceStrategy, NodeHealth};
use crate::scheduler::load_balancer::{with_health, with_registered, LoadBalancer, NodeChoice, NodeEntryView};
use crate::scheduler::task_graph::{is_ready, with_task, GraphTaskView, TaskGraph};
use crate::text::copy_text;

verus! {

/// Head node settings.
#[derive(Debug)]
pub struct HeadNodeConfig {
    /// Listen address.
    pub address: String,
    /// Listen port.
    pub port: u16,
    /// Milliseconds after which a silent worker is dropped.
    pub heartbeat_timeout: u64,
    /// Milliseconds between resource summaries.
    pub resource_monitor_interval: u64,
    /// Strategy used to place tasks.
    pub scheduling_strategy: LoadBalanceStrategy,
}

impl Clone for HeadNodeConfig {
    fn clone(&self) -> (c: Self)
        ensures
            c.address@ == self.address@,
            c.port == self.port,
            c.heartbeat_timeout == self.heartbeat_timeout,
            c.resource_monitor_interval == self.resource_monitor_interval,
            c.scheduling_strategy == self.scheduling_strategy,
    {
        HeadNodeConfig {
            address: self.address.clone(),
            port: self.port,
            heartbeat_timeout: self.heartbeat_timeout,
            resource_monitor_interval: self.resource_monitor_interval,
            scheduling_strategy: self.scheduling_strategy.clone(),
        }
    }
}

/// Lifecycle state of the head node.
#[derive(Debug, PartialEq)]
pub enum HeadNodeState {
    /// Starting.
    Initializing,
    /// Serving.
    Running,
    /// Serving with a problem.
    Degraded(String),
    /// Stopping.
    ShuttingDown,
    /// Stopped.
    Shutdown,
    /// Failed.
    Error(String),
}

impl Clone for HeadNodeState {
    fn clone(&self) -> (c: Self)
        ensures
            c == *self,
    {
        match self {
            HeadNodeState::Initializing => HeadNodeState::Initializing,
            HeadNodeState::Running => HeadNodeState::Running,
            HeadNodeState::Degraded(m) => HeadNodeState::Degraded(m.clone()),
            HeadNodeState::ShuttingDown => HeadNodeState::ShuttingDown,
            HeadNodeState::Shutdown => HeadNodeState::Shutdown,
            HeadNodeState::Error(m) => HeadNodeState::Error(m.clone()),
        }
    }
}

/// The background loops stop once the head node is shutting down.
pub fn should_stop(state: &HeadNodeState) -> (b: bool)
    ensures
        b == (state is ShuttingDown),
{
    match state {
        HeadNodeState::ShuttingDown => true,
        _ => false,
    }
}

/// Workers, given as (id, time since its last heartbeat) pairs, whose
/// silence has reached `timeout`, in the order given.
pub fn expired_workers(workers: &Vec<(u128, u64)>, timeout: u64) -> (r: Vec<u128>)
    ensures
        r@ == workers@.filter(|w: (u128, u64)| w.1 >= timeout).map_values(|w: (u128, u64)| w.0),
{
    let ghost pred = |w: (u128, u64)| w.1 >= timeout;
    let mut r: Vec<u128> = Vec::new();
    let mut i: usize = 0;
    while i < workers.len()
        invariant
            i <= workers@.len(),
            pred == (|w: (u128, u64)| w.1 >= timeout),
            r@ == workers@.take(i as int).filter(pred).map_values(|w: (u128, u64)| w.0),
        decreases workers.len() - i,
    {
        proof {
            reveal_with_fuel(Seq::<(u128, u64)>::filter, 1);
            assert(workers@.take(i + 1).drop_last() =~= workers@.take(i as int));
        }
        if workers[i].1 >= timeout {
            r.push(workers[i].0);
        }
        assert(r@ =~= workers@.take(i + 1).filter(pred).map_values(|w: (u128, u64)| w.0));
        i = i + 1;
    }
    assert(workers@.take(workers@.len() as int) =~= workers@);
    r
}

/// Counts of the cluster.
#[derive(Debug, Clone, Copy, PartialEq, Eq, Structural)]
pub struct ClusterCounts {
    /// Registered workers.
    pub total_nodes: usize,
    /// Workers heard from within the heartbeat timeout.
    pub active_nodes: usize,
    /// Tasks running on all workers.
    pub running_tasks: usize,
}

/// The number of workers heard from within `timeout`.
pub open spec fn count_active(ws: Seq<(u64, usize)>, timeout: u64) -> nat
    decreases ws.len(),
{
    if ws.len() == 0 {
        0
    } else {
        count_active(ws.drop_last(), timeout) + if ws.last().0 < timeout { 1nat } else { 0nat }
    }
}

/// The tasks running on all workers.
pub open spec fn sum_running(ws: Seq<(u64, usize)>) -> nat
    decreases ws.len(),
{
    if ws.len() == 0 {
        0
    } else {
        sum_running(ws.drop_last()) + ws.last().1 as nat
    }
}

proof fn lemma_count_le(ws: Seq<(u64, usize)>, timeout: u64)
    ensures
        count_active(ws, timeout) <= ws.len(),
    decreases ws.len(),
{
    if ws.len() > 0 {
        lemma_count_le(ws.drop_last(), timeout);
    }
}

proof fn lemma_sum_prefix(ws: Seq<(u64, usize)>, i: int)
    requires
        0 <= i <= ws.len(),
    ensures
        sum_running(ws.take(i)) <= sum_running(ws),
    decreases ws.len() - i,
{
    if i < ws.len() {
        lemma_sum_prefix(ws, i + 1);
        assert(ws.take(i + 1).drop_last() =~= ws.take(i));
    } else {
        assert(ws.take(i) =~= ws);
    }
}

/// The cluster counts for workers given as (time since last heartbeat,
/// running tasks) pairs.
pub fn cluster_counts(workers: &Vec<(u64, usize)>, timeout: u64) -> (c: ClusterCounts)
    requires
        sum_running(workers@) <= usize::MAX,
    ensures
        c.total_nodes == workers@.len(),
        c.active_nodes == count_active(workers@, timeout),
        c.running_tasks == sum_running(workers@),
{
    let mut active: usize = 0;
    let mut running: usize = 0;
    let mut i: usize = 0;
    while i < workers.len()
        invariant
            i <= workers@.len(),
            sum_running(workers@) <= usize::MAX,
            active == count_active(workers@.take(i as int), timeout),
            running == sum_running(workers@.take(i as int)),
        decreases workers.len() - i,
    {
        proof {
            assert(workers@.take(i + 1).drop_last() =~= workers@.take(i as int));
            lemma_count_le(workers@.take(i as int), timeout);
            lemma_sum_prefix(workers@, i + 1);
        }
        if workers[i].0 < timeout {
            active = active + 1;
        }
        running = running + workers[i].1;
        i = i + 1;
    }
    assert(workers@.take(workers@.len() as int) =~= workers@);
    ClusterCounts { total_nodes: workers.len(), active_nodes: active, running_tasks: running }
}

/// The memory reported by the workers that report it.
pub open spec fn sum_memory(ms: Seq<Option<usize>>) -> nat
    decreases ms.len(),
{
    if ms.len() == 0 {
        0
    } else {
        sum_memory(ms.drop_last()) + match ms.last() {
            Some(m) => m as nat,
            None => 0nat,
        }
    }
}

proof fn lemma_sum_memory_bound(ms: Seq<Option<usize>>)
    ensures
        sum_memory(ms) <= ms.len() * usize::MAX,
    decreases ms.len(),
{
    if ms.len() > 0 {
        lemma_sum_memory_bound(ms.drop_last());
        assert((ms.len() - 1) * usize::MAX + usize::MAX == ms.len() * usize::MAX) by (nonlinear_arith);
    }
}

/// The average memory over all workers (those that report none count as
/// zero), rounded down; `None` when there are no workers.
pub fn average_memory(memory: &Vec<Option<usize>>) -> (r: Option<usize>)
    ensures
        memory@.len() == 0 <==> r is None,
        r matches Some(a) ==> a == sum_memory(memory@) / (memory@.len() as nat),
{
    let mut total: u128 = 0;
    let mut i: usize = 0;
    while i < memory.len()
        invariant
            i <= memory@.len(),
            total == sum_memory(memory@.take(i as int)),
        decreases memory.len() - i,
    {
        proof {
            assert(memory@.take(i + 1).drop_last() =~= memory@.take(i as int));
            lemma_sum_memory_bound(memory@.take(i + 1));
            assert((i + 1) * usize::MAX <= u64::MAX * usize::MAX) by (nonlinear_arith)
                requires i + 1 <= u64::MAX;
        }
        match memory[i] {
            Some(m) => {
                total = total + m as u128;
            },
            None => {},
        }
        i = i + 1;
    }
    assert(memory@.take(memory@.len() as int) =~= memory@);
    if memory.len() == 0 {
        return None;
    }
    let n = memory.len() as u128;
    proof {
        lemma_sum_memory_bound(memory@);
        assert(total / n <= usize::MAX) by (nonlinear_arith)
            requires total <= n * usize::MAX, n > 0;
    }
    Some((total / n) as usize)
}


/// A registered worker: its node, the time of its last heartbeat (in
/// milliseconds of the caller's monotonic clock), the memory it reported and
/// its running tasks.
#[derive(Debug)]
pub struct WorkerInfo {
    /// The worker node.
    pub node_info: NodeInfo,
    /// Time of the last heartbeat, in milliseconds.
    pub last_heartbeat: u64,
    /// Memory reported with the last heartbeat, if any.
    pub memory: Option<usize>,
    /// Tasks running on the worker.
    pub running_tasks: usize,
}

/// What the head node keeps of a worker.
pub struct WorkerView {
    pub id: u128,
    pub node_type: NodeType,
    pub address: Seq<char>,
    pub port: u16,
    pub last_heartbeat: u64,
    pub memory: Option<usize>,
    pub running_tasks: usize,
}

/// The view of a registered worker.
pub open spec fn worker_view(w: WorkerInfo) -> WorkerView {
    WorkerView {
        id: w.node_info.node_id,
        node_type: w.node_info.node_type,
        address: w.node_info.address@,
        port: w.node_info.port,
        last_heartbeat: w.last_heartbeat,
        memory: w.memory,
        running_tasks: w.running_tasks,
    }
}

/// Some worker has the id `id`.
pub open spec fn has_worker(ws: Seq<WorkerView>, id: u128) -> bool {
    exists|i: int| 0 <= i < ws.len() && (#[trigger] ws[i]).id == id
}

/// Worker ids are unique.
pub open spec fn worker_ids_unique(ws: Seq<WorkerView>) -> bool {
    forall|i: int, j: int|
        0 <= i < ws.len() && 0 <= j < ws.len() && i != j ==> (#[trigger] ws[i]).id != (
        #[trigger] ws[j]).id
}

/// The workers after `w` registers: it takes the place of a worker with the
/// same id, or comes last.
pub open spec fn with_worker(ws: Seq<WorkerView>, w: WorkerView) -> Seq<WorkerView> {
    if has_worker(ws, w.id) {
        ws.map_values(|x: WorkerView| if x.id == w.id { w } else { x })
    } else {
        ws.push(w)
    }
}

/// The workers after worker `id` sent a heartbeat at `now` reporting
/// `memory`.
pub open spec fn with_heartbeat(ws: Seq<WorkerView>, id: u128, memory: Option<usize>, now: u64) -> Seq<WorkerView> {
    ws.map_values(
        |x: WorkerView| if x.id == id { WorkerView { last_heartbeat: now, memory, ..x } } else { x },
    )
}

/// Milliseconds from `last` to `now`; zero if `now` comes first.
pub open spec fn elapsed(now: u64, last: u64) -> u64 {
    if now >= last { (now - last) as u64 } else { 0 }
}

/// A worker whose silence has reached the timeout.
pub open spec fn is_expired(w: WorkerView, now: u64, timeout: u64) -> bool {
    elapsed(now, w.last_heartbeat) >= timeout
}

/// The workers still heard from.
pub open spec fn live_workers(ws: Seq<WorkerView>, now: u64, timeout: u64) -> Seq<WorkerView> {
    ws.filter(|w: WorkerView| !is_expired(w, now, timeout))
}

/// The ids of the workers whose silence has reached the timeout, in order.
pub open spec fn expired_ids(ws: Seq<WorkerView>, now: u64, timeout: u64) -> Seq<u128> {
    ws.filter(|w: WorkerView| is_expired(w, now, timeout)).map_values(|w: WorkerView| w.id)
}

/// Balancer entries with the nodes in `ids` marked unhealthy.
pub open spec fn with_unhealthy(ns: Seq<NodeEntryView>, ids: Seq<u128>) -> Seq<NodeEntryView> {
    ns.map_values(|x: NodeEntryView| if ids.contains(x.id) { NodeEntryView { healthy: false, ..x } } else { x })
}

/// The (silence, running tasks) pairs of the workers at `now`.
pub open spec fn worker_load(ws: Seq<WorkerView>, now: u64) -> Seq<(u64, usize)> {
    ws.map_values(|w: WorkerView| (elapsed(now, w.last_heartbeat), w.running_tasks))
}

/// The memory reported by each worker.
pub open spec fn worker_memory(ws: Seq<WorkerView>) -> Seq<Option<usize>> {
    ws.map_values(|w: WorkerView| w.memory)
}

/// The head node: its registry of workers, its task graph and its load
/// balancer.
pub struct HeadNode {
    node_info: NodeInfo,
    config: HeadNodeConfig,
    state: HeadNodeState,
    workers: Vec<WorkerInfo>,
    task_graph: TaskGraph,
    load_balancer: LoadBalancer,
}

impl HeadNode {
    /// This node.
    pub closed spec fn info(&self) -> NodeInfo {
        self.node_info
    }

    /// This node.
    pub fn node_info(&self) -> (r: &NodeInfo)
        ensures
            *r == self.info(),
    {
        &self.node_info
    }

    /// The registered workers, in registration order.
    pub closed spec fn workers(&self) -> Seq<WorkerView> {
        self.workers@.map_values(|w: WorkerInfo| worker_view(w))
    }

    /// The settings.
    pub closed spec fn config(&self) -> HeadNodeConfig {
        self.config
    }

    /// The lifecycle state.
    pub closed spec fn head_state(&self) -> HeadNodeState {
        self.state
    }

    /// The task graph.
    pub closed spec fn graph(&self) -> TaskGraph {
        self.task_graph
    }

    /// The load balancer.
    pub closed spec fn balancer(&self) -> LoadBalancer {
        self.load_balancer
    }

    /// The load balancer.
    pub fn load_balancer(&self) -> (b: &LoadBalancer)
        ensures
            *b == self.balancer(),
    {
        &self.load_balancer
    }

    /// The task graph.
    pub fn task_graph(&self) -> (g: &TaskGraph)
        ensures
            *g == self.graph(),
    {
        &self.task_graph
    }

    /// Well-formedness: worker ids are unique, and the graph and the balancer
    /// are well formed.
    pub closed spec fn wf(&self) -> bool {
        &&& worker_ids_unique(self.workers())
        &&& self.task_graph.wf()
        &&& self.load_balancer.wf()
    }

    /// A head node with id `node_id`, initializing, with no workers, an
    /// empty task graph and a balancer with the configured strategy.
    pub fn with_node_id(config: HeadNodeConfig, node_id: u128) -> (h: Self)
        ensures
            h.wf(),
            h.info().node_id == node_id,
            h.info().node_type == NodeType::Head,
            h.info().address@ == config.address@,
            h.info().port == config.port,
            h.config() == config,
            h.head_state() == HeadNodeState::Initializing,
            h.workers().len() == 0,
            h.graph().tasks().len() == 0,
            h.balancer().nodes().len() == 0,
            h.balancer().strategy() == config.scheduling_strategy,
            h.balancer().current_round() == 0,
            h.balancer().assigned() == 0,
            forall|k: Seq<char>| #[trigger] counter_of(h.graph().counters(), k) == 0,
    {
        let node_info = NodeInfo {
            node_id,
            node_type: NodeType::Head,
            address: copy_text(config.address.as_str()),
            port: config.port,
        };
        let load_balancer = LoadBalancer::new(config.scheduling_strategy.clone());
        let h = HeadNode {
            node_info,
            config,
            state: HeadNodeState::Initializing,
            workers: Vec::new(),
            task_graph: TaskGraph::new(),
            load_balancer,
        };
        assert(h.workers() =~= Seq::<WorkerView>::empty());
        h
    }

    /// A head node with a fresh random id; otherwise as `with_node_id`.
    pub fn new(config: HeadNodeConfig) -> (h: Self)
        ensures
            h.wf(),
            h.info().node_type == NodeType::Head,
            h.info().address@ == config.address@,
            h.info().port == config.port,
            h.config() == config,
            h.head_state() == HeadNodeState::Initializing,
            h.workers().len() == 0,
            h.graph().tasks().len() == 0,
            h.balancer().nodes().len() == 0,
            h.balancer().strategy() == config.scheduling_strategy,
            h.balancer().assigned() == 0,
            forall|k: Seq<char>| #[trigger] counter_of(h.graph().counters(), k) == 0,
    {
        let id = new_uuid_value();
        Self::with_node_id(config, id)
    }

    /// The settings.
    pub fn settings(&self) -> (c: &HeadNodeConfig)
        ensures
            *c == self.config(),
    {
        &self.config
    }

    /// The lifecycle state.
    pub fn state(&self) -> (s: HeadNodeState)
        ensures
            s == self.head_state(),
    {
        self.state.clone()
    }

    /// Marks the head node as running.
    pub fn start(&mut self)
        requires
            old(self).wf(),
        ensures
            final(self).wf(),
            final(self).head_state() == HeadNodeState::Running,
            final(self).workers() == old(self).workers(),
            final(self).graph() == old(self).graph(),
            final(self).balancer() == old(self).balancer(),
            final(self).config() == old(self).config(),
    {
        self.state = HeadNodeState::Running;
    }

    /// Marks the head node as stopped.
    pub fn stop(&mut self)
        requires
            old(self).wf(),
        ensures
            final(self).wf(),
            final(self).head_state() == HeadNodeState::Shutdown,
            final(self).workers() == old(self).workers(),
            final(self).graph() == old(self).graph(),
            final(self).balancer() == old(self).balancer(),
            final(self).config() == old(self).config(),
    {
        self.state = HeadNodeState::ShuttingDown;
        self.state = HeadNodeState::Shutdown;
    }

    fn find_worker(&self, id: u128) -> (r: Option<usize>)
        requires
            self.wf(),
        ensures
            match r {
                Some(i) => i < self.workers().len() && self.workers()[i as int].id == id,
                None => !has_worker(self.workers(), id),
            },
    {
        let mut i: usize = 0;
        while i < self.workers.len()
            invariant
                i <= self.workers().len(),
                self.workers().len() == self.workers@.len(),
                forall|j: int| 0 <= j < i ==> (#[trigger] self.workers()[j]).id != id,
            decreases self.workers.len() - i,
        {
            if self.workers[i].node_info.node_id == id {
                return Some(i);
            }
            i = i + 1;
        }
        None
    }

    /// Registers `worker` as heard from at `now`, with no reported memory and
    /// no running tasks, replacing a worker with the same id; the balancer
    /// registers it as a healthy node.
    pub fn register_worker(&mut self, worker: NodeInfo, now: u64) -> (r: Result<(), SystemError>)
        requires
            old(self).wf(),
        ensures
            r is Ok,
            final(self).wf(),
            final(self).workers() == with_worker(
                old(self).workers(),
                WorkerView {
                    id: worker.node_id,
                    node_type: worker.node_type,
                    address: worker.address@,
                    port: worker.port,
                    last_heartbeat: now,
                    memory: None,
                    running_tasks: 0,
                },
            ),
            final(self).balancer().nodes() == with_registered(old(self).balancer().nodes(), worker.node_id),
            final(self).balancer().strategy() == old(self).balancer().strategy(),
            final(self).balancer().current_round() == old(self).balancer().current_round(),
            final(self).graph() == old(self).graph(),
            final(self).head_state() == old(self).head_state(),
            final(self).config() == old(self).config(),
    {
        let ghost old_ws = self.workers();
        let id = worker.node_id;
        let ghost w = WorkerView {
            id,
            node_type: worker.node_type,
            address: worker.address@,
            port: worker.port,
            last_heartbeat: now,
            memory: None,
            running_tasks: 0,
        };
        let copy = NodeInfo {
            node_id: worker.node_id,
            node_type: worker.node_type,
            address: copy_text(worker.address.as_str()),
            port: worker.port,
        };
        let info = WorkerInfo { node_info: copy, last_heartbeat: now, memory: None, running_tasks: 0 };
        match self.find_worker(id) {
            Some(i) => {
                self.workers.set(i, info);
                proof {
                    let ws = self.workers();
                    assert(ws =~= old_ws.update(i as int, w));
                    assert forall|j: int| 0 <= j < old_ws.len() && (#[trigger] old_ws[j]).id == id implies j == i by {
                        if j != i {
                            assert(old_ws[j].id != old_ws[i as int].id);
                        }
                    }
                    assert(ws =~= old_ws.map_values(|x: WorkerView| if x.id == id { w } else { x }));
                    assert forall|a: int, b: int|
                        0 <= a < ws.len() && 0 <= b < ws.len() && a != b implies (#[trigger] ws[a]).id
                            != (#[trigger] ws[b]).id by {
                        if a != i {
                            assert(ws[a] == old_ws[a]);
                        }
                        if b != i {
                            assert(ws[b] == old_ws[b]);
                        }
                    }
                }
            },
            None => {
                self.workers.push(info);
                proof {
                    let ws = self.workers();
                    assert(ws =~= old_ws.push(w));
                    assert forall|a: int, b: int|
                        0 <= a < ws.len() && 0 <= b < ws.len() && a != b implies (#[trigger] ws[a]).id
                            != (#[trigger] ws[b]).id by {
                        if a < old_ws.len() {
                            assert(ws[a] == old_ws[a]);
                        }
                        if b < old_ws.len() {
                            assert(ws[b] == old_ws[b]);
                        }
                    }
                }
            },
        }
        let _ = self.load_balancer.register_node(worker);
        Ok(())
    }

    /// Records a heartbeat of worker `worker_id` at `now` with the memory it
    /// reported, and marks it healthy in the balancer. A worker that is not
    /// registered changes nothing.
    pub fn update_worker_heartbeat(&mut self, worker_id: u128, memory: Option<usize>, now: u64) -> (r: Result<(), SystemError>)
        requires
            old(self).wf(),
        ensures
            r is Ok,
            final(self).wf(),
            has_worker(old(self).workers(), worker_id) ==> {
                &&& final(self).workers() == with_heartbeat(old(self).workers(), worker_id, memory, now)
                &&& final(self).balancer().nodes() == with_health(old(self).balancer().nodes(), worker_id, true)
            },
            !has_worker(old(self).workers(), worker_id) ==> {
                &&& final(self).workers() == old(self).workers()
                &&& final(self).balancer().nodes() == old(self).balancer().nodes()
            },
            final(self).balancer().strategy() == old(self).balancer().strategy(),
            final(self).balancer().current_round() == old(self).balancer().current_round(),
            final(self).graph() == old(self).graph(),
            final(self).head_state() == old(self).head_state(),
            final(self).config() == old(self).config(),
    {
        let ghost old_ws = self.workers();
        match self.find_worker(worker_id) {
            Some(i) => {
                self.workers[i].last_heartbeat = now;
                self.workers[i].memory = memory;
                proof {
                    let ws = self.workers();
                    assert forall|j: int| 0 <= j < old_ws.len() && (#[trigger] old_ws[j]).id == worker_id implies j == i by {
                        if j != i {
                            assert(old_ws[j].id != old_ws[i as int].id);
                        }
                    }
                    assert(ws =~= with_heartbeat(old_ws, worker_id, memory, now));
                    assert forall|a: int, b: int|
                        0 <= a < ws.len() && 0 <= b < ws.len() && a != b implies (#[trigger] ws[a]).id
                            != (#[trigger] ws[b]).id by {
                        assert(ws[a].id == old_ws[a].id);
                        assert(ws[b].id == old_ws[b].id);
                    }
                }
                let _ = self.load_balancer.update_node_health(worker_id, NodeHealth::Healthy);
            },
            None => {},
        }
        Ok(())
    }

    /// The heartbeat check at `now`: drops every worker whose silence has
    /// reached the heartbeat timeout, marks each dropped worker unhealthy in
    /// the balancer, and returns their ids in registration order.
    pub fn check_heartbeats(&mut self, now: u64) -> (removed: Vec<u128>)
        requires
            old(self).wf(),
        ensures
            final(self).wf(),
            removed@ == expired_ids(old(self).workers(), now, old(self).config().heartbeat_timeout),
            final(self).workers() == live_workers(old(self).workers(), now, old(self).config().heartbeat_timeout),
            final(self).balancer().nodes() == with_unhealthy(old(self).balancer().nodes(), removed@),
            final(self).balancer().strategy() == old(self).balancer().strategy(),
            final(self).balancer().current_round() == old(self).balancer().current_round(),
            final(self).graph() == old(self).graph(),
            final(self).head_state() == old(self).head_state(),
            final(self).config() == old(self).config(),
    {
        let timeout = self.config.heartbeat_timeout;
        let ghost old_ws = self.workers();
        let ghost expired = |w: WorkerView| is_expired(w, now, timeout);
        let ghost live = |w: WorkerView| !is_expired(w, now, timeout);
        let mut kept: Vec<WorkerInfo> = Vec::new();
        let mut removed: Vec<u128> = Vec::new();
        let mut old_workers: Vec<WorkerInfo> = Vec::new();
        std::mem::swap(&mut old_workers, &mut self.workers);
        proof {
            assert(old_workers@.map_values(|w: WorkerInfo| worker_view(w)) =~= old_ws);
        }
        let n = old_workers.len();
        let mut i: usize = 0;
        while i < n
            invariant
                n == old_ws.len(),
                i <= n,
                old_workers@.len() == n - i,
                old_workers@.map_values(|w: WorkerInfo| worker_view(w)) =~= old_ws.skip(i as int),
                expired == (|w: WorkerView| is_expired(w, now, timeout)),
                live == (|w: WorkerView| !is_expired(w, now, timeout)),
                kept@.map_values(|w: WorkerInfo| worker_view(w)) == old_ws.take(i as int).filter(live),
                removed@ == old_ws.take(i as int).filter(expired).map_values(|w: WorkerView| w.id),
            decreases n - i,
        {
            let ghost pre = old_workers@;
            proof {
                assert(pre.map_values(|w: WorkerInfo| worker_view(w))[0] == old_ws.skip(i as int)[0]);
            }
            let w = old_workers.remove(0);
            proof {
                reveal_with_fuel(Seq::<WorkerView>::filter, 1);
                assert(old_ws.take(i + 1).drop_last() =~= old_ws.take(i as int));
                assert(old_ws.take(i + 1).last() == old_ws[i as int]);
                assert(w == pre[0]);
                assert(worker_view(w) == old_ws[i as int]);
                assert(old_workers@ =~= pre.subrange(1, pre.len() as int));
                assert forall|j: int| 0 <= j < old_workers@.len() implies
                    #[trigger] worker_view(old_workers@[j]) == old_ws.skip(i + 1)[j] by {
                    assert(old_workers@[j] == pre[j + 1]);
                    assert(pre.map_values(|w: WorkerInfo| worker_view(w))[j + 1] == old_ws.skip(i as int)[j + 1]);
                }
                assert(old_workers@.map_values(|w: WorkerInfo| worker_view(w)) =~= old_ws.skip(i + 1));
            }
            let silence: u64 = if now >= w.last_heartbeat { now - w.last_heartbeat } else { 0 };
            if silence >= timeout {
                removed.push(w.node_info.node_id);
                assert(removed@ =~= old_ws.take(i + 1).filter(expired).map_values(|w: WorkerView| w.id));
            } else {
                kept.push(w);
                assert(kept@.map_values(|w: WorkerInfo| worker_view(w)) =~= old_ws.take(i + 1).filter(live));
            }
            i = i + 1;
        }
        proof {
            assert(old_ws.take(n as int) =~= old_ws);
            let ks = kept@.map_values(|w: WorkerInfo| worker_view(w));
            assert forall|a: int, b: int|
                0 <= a < ks.len() && 0 <= b < ks.len() && a != b implies (#[trigger] ks[a]).id
                    != (#[trigger] ks[b]).id by {
                lemma_filter_keeps_unique(old_ws, live, a, b);
            }
        }
        self.workers = kept;
        proof {
            assert(self.workers() =~= live_workers(old_ws, now, timeout));
        }
        let ghost new_ws = self.workers();
        let ghost ns0 = self.load_balancer.nodes();
        let mut k: usize = 0;
        while k < removed.len()
            invariant
                self.workers() == new_ws,
                worker_ids_unique(new_ws),
                new_ws == live_workers(old_ws, now, timeout),
                self.task_graph == old(self).graph(),
                self.task_graph.wf(),
                self.state == old(self).head_state(),
                self.config == old(self).config(),
                k <= removed@.len(),
                self.load_balancer.wf(),
                self.load_balancer.nodes() == with_unhealthy(ns0, removed@.take(k as int)),
                self.load_balancer.strategy() == old(self).balancer().strategy(),
                self.load_balancer.current_round() == old(self).balancer().current_round(),
            decreases removed.len() - k,
        {
            let ghost before = self.load_balancer.nodes();
            let id = removed[k];
            let _ = self.load_balancer.update_node_health(id, NodeHealth::Unhealthy(copy_text("Heartbeat timeout")));
            proof {
                let after = self.load_balancer.nodes();
                let target = with_unhealthy(ns0, removed@.take(k + 1));
                assert(removed@.take(k + 1) =~= removed@.take(k as int).push(id));
                assert forall|j: int| 0 <= j < after.len() implies after[j] == target[j] by {
                    let x = ns0[j].id;
                    let t0 = removed@.take(k as int);
                    let t1 = removed@.take(k + 1);
                    if t0.contains(x) {
                        let m = choose|m: int| 0 <= m < t0.len() && t0[m] == x;
                        assert(t1[m] == x);
                    }
                    if x == id {
                        assert(t1[k as int] == x);
                    }
                    if t1.contains(x) {
                        let m = choose|m: int| 0 <= m < t1.len() && t1[m] == x;
                        if m < k {
                            assert(t0[m] == x);
                        }
                    }
                    assert(t1.contains(x) == (t0.contains(x) || x == id));
                }
                assert(after =~= target);
            }
            k = k + 1;
        }
        proof {
            assert(removed@.take(removed@.len() as int) =~= removed@);
        }
        removed
    }

    /// Whether the running tasks of all workers add up to a `usize`, as
    /// `cluster_status` needs.
    pub fn running_tasks_fit(&self, now: u64) -> (b: bool)
        requires
            self.wf(),
        ensures
            b == (sum_running(worker_load(self.workers(), now)) <= usize::MAX),
    {
        let ghost load = worker_load(self.workers(), now);
        let mut total: usize = 0;
        let mut i: usize = 0;
        while i < self.workers.len()
            invariant
                i <= self.workers@.len(),
                load == worker_load(self.workers(), now),
                total == sum_running(load.take(i as int)),
            decreases self.workers.len() - i,
        {
            proof {
                assert(load.take(i + 1).drop_last() =~= load.take(i as int));
                lemma_sum_prefix(load, i + 1);
            }
            let n = self.workers[i].running_tasks;
            if total > usize::MAX - n {
                proof {
                    lemma_sum_prefix(load, i + 1);
                }
                return false;
            }
            total = total + n;
            i = i + 1;
        }
        assert(load.take(load.len() as int) =~= load);
        true
    }

    /// The cluster counts at `now`: the registered workers, those heard from
    /// within the heartbeat timeout, and their running tasks.
    pub fn cluster_status(&self, now: u64) -> (c: ClusterCounts)
        requires
            self.wf(),
            sum_running(worker_load(self.workers(), now)) <= usize::MAX,
        ensures
            c.total_nodes == self.workers().len(),
            c.active_nodes == count_active(worker_load(self.workers(), now), self.config().heartbeat_timeout),
            c.active_nodes == live_workers(self.workers(), now, self.config().heartbeat_timeout).len(),
            c.running_tasks == sum_running(worker_load(self.workers(), now)),
    {
        let mut load: Vec<(u64, usize)> = Vec::new();
        let mut i: usize = 0;
        while i < self.workers.len()
            invariant
                i <= self.workers@.len(),
                load@ =~= worker_load(self.workers(), now).take(i as int),
            decreases self.workers.len() - i,
        {
            let w = &self.workers[i];
            let silence: u64 = if now >= w.last_heartbeat { now - w.last_heartbeat } else { 0 };
            load.push((silence, w.running_tasks));
            i = i + 1;
        }
        assert(load@ =~= worker_load(self.workers(), now));
        proof {
            law_active_nodes_are_live(self.workers(), now, self.config.heartbeat_timeout);
        }
        cluster_counts(&load, self.config.heartbeat_timeout)
    }

    /// The average memory the workers reported (a worker that reported none
    /// counts as zero), rounded down; `None` without workers.
    pub fn average_worker_memory(&self) -> (r: Option<usize>)
        requires
            self.wf(),
        ensures
            self.workers().len() == 0 <==> r is None,
            r matches Some(a) ==> a == sum_memory(worker_memory(self.workers())) / (self.workers().len() as nat),
    {
        let mut memory: Vec<Option<usize>> = Vec::new();
        let mut i: usize = 0;
        while i < self.workers.len()
            invariant
                i <= self.workers@.len(),
                memory@ =~= worker_memory(self.workers()).take(i as int),
            decreases self.workers.len() - i,
        {
            memory.push(self.workers[i].memory);
            i = i + 1;
        }
        assert(memory@ =~= worker_memory(self.workers()));
        average_memory(&memory)
    }

    /// Adds task `task_id`, with no dependencies, to the task graph and asks
    /// the balancer where it goes; the choice is returned for dispatch.
    pub fn submit_task(&mut self, task_id: u128) -> (r: Result<NodeChoice, SystemError>)
        requires
            old(self).wf(),
            old(self).balancer().assigned() < i64::MAX,
            counter_of(old(self).graph().counters(), "task_graph.tasks.added"@) < i64::MAX,
        ensures
            final(self).wf(),
            counter_bumped(old(self).graph().counters(), final(self).graph().counters(), "task_graph.tasks.added"@),
            r matches Ok(c) && LoadBalancer::is_selection(old(self).balancer(), final(self).balancer(), c),
            final(self).graph().tasks() == with_task(
                old(self).graph().tasks(),
                GraphTaskView { id: task_id, deps: Set::empty(), status: TaskStatus::Pending },
            ),
            final(self).balancer().nodes() == old(self).balancer().nodes(),
            final(self).balancer().strategy() == old(self).balancer().strategy(),
            final(self).workers() == old(self).workers(),
            final(self).head_state() == old(self).head_state(),
            final(self).config() == old(self).config(),
    {
        let deps: Vec<u128> = Vec::new();
        proof {
            assert(deps@.to_set() =~= Set::<u128>::empty());
        }
        let _ = self.task_graph.add_task(task_id, deps);
        let choice = self.load_balancer.select_node();
        Ok(choice)
    }

    /// Counts one task placed by the data-aware scheduler on one of the
    /// nodes of a `DataAware` choice.
    pub fn record_assigned(&mut self)
        requires
            old(self).wf(),
            old(self).balancer().assigned() < i64::MAX,
        ensures
            final(self).wf(),
            final(self).balancer().assigned() == old(self).balancer().assigned() + 1,
            final(self).balancer().nodes() == old(self).balancer().nodes(),
            final(self).balancer().strategy() == old(self).balancer().strategy(),
            final(self).balancer().current_round() == old(self).balancer().current_round(),
            final(self).graph() == old(self).graph(),
            final(self).workers() == old(self).workers(),
            final(self).head_state() == old(self).head_state(),
            final(self).config() == old(self).config(),
    {
        self.load_balancer.record_assigned();
    }

    /// One round of the scheduler: the ready tasks of the graph, in order,
    /// each with the balancer's choice for it; the balancer chooses for them
    /// one after the other. Nothing else changes: the tasks stay ready.
    pub fn schedule_ready(&mut self) -> (r: Vec<(u128, NodeChoice)>)
        requires
            old(self).wf(),
            old(self).balancer().assigned() + old(self).graph().tasks().len() <= i64::MAX,
        ensures
            final(self).wf(),
            r@.map_values(|p: (u128, NodeChoice)| p.0) == old(self).graph().tasks().filter(
                |t: GraphTaskView| is_ready(old(self).graph().tasks(), t),
            ).map_values(|t: GraphTaskView| t.id),
            exists|bs: Seq<LoadBalancer>|
                {
                    &&& bs.len() == r@.len() + 1
                    &&& bs[0] == old(self).balancer()
                    &&& bs.last() == final(self).balancer()
                    &&& forall|i: int|
                        0 <= i < r@.len() ==> LoadBalancer::is_selection(
                            #[trigger] bs[i],
                            bs[i + 1],
                            r@[i].1,
                        )
                },
            final(self).balancer().nodes() == old(self).balancer().nodes(),
            final(self).balancer().strategy() == old(self).balancer().strategy(),
            final(self).graph() == old(self).graph(),
            final(self).workers() == old(self).workers(),
            final(self).head_state() == old(self).head_state(),
            final(self).config() == old(self).config(),
    {
        let ready = match self.task_graph.get_ready_tasks() {
            Ok(v) => v,
            Err(_) => Vec::new(),
        };
        let ghost b0 = self.load_balancer;
        proof {
            let ts = self.task_graph.tasks();
            ts.lemma_filter_len(|t: GraphTaskView| is_ready(ts, t));
        }
        let ghost mut bs: Seq<LoadBalancer> = seq![b0];
        let mut r: Vec<(u128, NodeChoice)> = Vec::new();
        let mut i: usize = 0;
        while i < ready.len()
            invariant
                i <= ready@.len(),
                r@.len() == i,
                forall|k: int| 0 <= k < i ==> (#[trigger] r@[k]).0 == ready@[k],
                bs.len() == i + 1,
                bs[0] == b0,
                bs.last() == self.load_balancer,
                self.load_balancer.assigned() <= b0.assigned() + i,
                b0.assigned() + ready@.len() <= i64::MAX,
                forall|k: int| 0 <= k < i ==> LoadBalancer::is_selection(#[trigger] bs[k], bs[k + 1], r@[k].1),
                self.load_balancer.wf(),
                self.load_balancer.nodes() == b0.nodes(),
                self.load_balancer.strategy() == b0.strategy(),
                self.task_graph == old(self).task_graph,
                self.workers == old(self).workers,
                self.state == old(self).state,
                self.config == old(self).config,
                self.task_graph.wf(),
                worker_ids_unique(self.workers()),
            decreases ready.len() - i,
        {
            let ghost before = self.load_balancer;
            let choice = self.load_balancer.select_node();
            proof {
                bs = bs.push(self.load_balancer);
                assert(bs[i as int] == before);
            }
            r.push((ready[i], choice));
            i = i + 1;
        }
        proof {
            assert(r@.map_values(|p: (u128, NodeChoice)| p.0) =~= ready@);
        }
        r
    }
}

/// Keeping the elements that satisfy `p` keeps distinct ids distinct.
proof fn lemma_filter_keeps_unique(ws: Seq<WorkerView>, p: spec_fn(WorkerView) -> bool, a: int, b: int)
    requires
        worker_ids_unique(ws),
        0 <= a < ws.filter(p).len(),
        0 <= b < ws.filter(p).len(),
        a != b,
    ensures
        ws.filter(p)[a].id != ws.filter(p)[b].id,
    decreases ws.len(),
{
    reveal_with_fuel(Seq::<WorkerView>::filter, 1);
    if ws.len() > 0 {
        let rest = ws.drop_last();
        assert(worker_ids_unique(rest)) by {
            assert forall|i: int, j: int|
                0 <= i < rest.len() && 0 <= j < rest.len() && i != j implies (#[trigger] rest[i]).id != (
                #[trigger] rest[j]).id by {
                assert(rest[i] == ws[i] && rest[j] == ws[j]);
            }
        }
        let fr = rest.filter(p);
        if p(ws.last()) {
            assert(ws.filter(p) == fr.push(ws.last()));
            let n = fr.len() as int;
            if a < n && b < n {
                lemma_filter_keeps_unique(rest, p, a, b);
            } else {
                let other = if a < n { a } else { b };
                assert(0 <= other < n);
                assert(fr.contains(fr[other]));
                rest.lemma_filter_contains_rev(p, fr[other]);
                let k = choose|k: int| 0 <= k < rest.len() && rest[k] == fr[other];
                assert(ws[k] == rest[k]);
                assert(ws[k].id != ws[ws.len() - 1].id);
            }
        } else {
            assert(ws.filter(p) == fr);
            lemma_filter_keeps_unique(rest, p, a, b);
        }
    }
}

/// Filtering by a predicate and by its negation splits a sequence.
proof fn lemma_filter_split(ws: Seq<WorkerView>, now: u64, timeout: u64)
    ensures
        live_workers(ws, now, timeout).len() + ws.filter(|w: WorkerView| is_expired(w, now, timeout)).len()
            == ws.len(),
    decreases ws.len(),
{
    reveal_with_fuel(Seq::<WorkerView>::filter, 1);
    if ws.len() > 0 {
        lemma_filter_split(ws.drop_last(), now, timeout);
    }
}

/// The heartbeat check splits the workers in two: each worker is either kept
/// or reported as dropped, never both, and it is dropped exactly when its
/// silence has reached the timeout.
pub proof fn law_heartbeat_check_partitions(ws: Seq<WorkerView>, now: u64, timeout: u64)
    requires
        worker_ids_unique(ws),
    ensures
        live_workers(ws, now, timeout).len() + expired_ids(ws, now, timeout).len() == ws.len(),
        forall|i: int|
            0 <= i < ws.len() ==> (#[trigger] expired_ids(ws, now, timeout).contains(ws[i].id) <==> is_expired(
                ws[i],
                now,
                timeout,
            )),
        forall|i: int|
            0 <= i < ws.len() ==> (#[trigger] live_workers(ws, now, timeout).contains(ws[i]) <==> !is_expired(
                ws[i],
                now,
                timeout,
            )),
{
    let p = |w: WorkerView| is_expired(w, now, timeout);
    let q = |w: WorkerView| !is_expired(w, now, timeout);
    lemma_filter_split(ws, now, timeout);
    let ex = ws.filter(p);
    assert forall|i: int| 0 <= i < ws.len() implies (#[trigger] expired_ids(ws, now, timeout).contains(ws[i].id)
        <==> is_expired(ws[i], now, timeout)) by {
        let ids = expired_ids(ws, now, timeout);
        if is_expired(ws[i], now, timeout) {
            ws.lemma_filter_contains(p, i);
            let k = choose|k: int| 0 <= k < ex.len() && ex[k] == ws[i];
            assert(ids[k] == ws[i].id);
        }
        if ids.contains(ws[i].id) {
            let k = choose|k: int| 0 <= k < ids.len() && ids[k] == ws[i].id;
            ws.lemma_filter_pred(p, k);
            assert(ex.contains(ex[k]));
            ws.lemma_filter_contains_rev(p, ex[k]);
            let j = choose|j: int| 0 <= j < ws.len() && ws[j] == ex[k];
            if j != i {
                assert(ws[j].id != ws[i].id);
            }
        }
    }
    assert forall|i: int| 0 <= i < ws.len() implies (#[trigger] live_workers(ws, now, timeout).contains(ws[i])
        <==> !is_expired(ws[i], now, timeout)) by {
        if !is_expired(ws[i], now, timeout) {
            ws.lemma_filter_contains(q, i);
        }
        if live_workers(ws, now, timeout).contains(ws[i]) {
            let lv = ws.filter(q);
            let k = choose|k: int| 0 <= k < lv.len() && lv[k] == ws[i];
            ws.lemma_filter_pred(q, k);
        }
    }
}

/// A worker registered (or registered again) at `at` is kept by a heartbeat
/// check at `t` exactly when less than the timeout has passed since `at`.
pub proof fn law_registered_worker_kept_until_timeout(
    ws: Seq<WorkerView>,
    w: WorkerView,
    t: u64,
    timeout: u64,
)
    requires
        worker_ids_unique(ws),
    ensures
        has_worker(live_workers(with_worker(ws, w), t, timeout), w.id) <==> elapsed(t, w.last_heartbeat)
            < timeout,
{
    let q = |x: WorkerView| !is_expired(x, t, timeout);
    let ws2 = with_worker(ws, w);
    let lv = ws2.filter(q);
    let k: int = if has_worker(ws, w.id) {
        let i = choose|i: int| 0 <= i < ws.len() && (#[trigger] ws[i]).id == w.id;
        assert(ws2[i] == w);
        i
    } else {
        assert(ws2[ws.len() as int] == w);
        ws.len() as int
    };
    assert(0 <= k < ws2.len() && ws2[k] == w);
    assert forall|j: int| 0 <= j < ws2.len() && (#[trigger] ws2[j]).id == w.id implies ws2[j] == w by {
        if has_worker(ws, w.id) {
            assert(ws2[j] == (if ws[j].id == w.id { w } else { ws[j] }));
        } else if j < ws.len() {
            assert(ws2[j] == ws[j]);
            assert(has_worker(ws, w.id));
        }
    }
    if elapsed(t, w.last_heartbeat) < timeout {
        ws2.lemma_filter_contains(q, k);
        let m = choose|m: int| 0 <= m < lv.len() && lv[m] == w;
        assert(lv[m].id == w.id);
    }
    if has_worker(lv, w.id) {
        let m = choose|m: int| 0 <= m < lv.len() && (#[trigger] lv[m]).id == w.id;
        ws2.lemma_filter_pred(q, m);
        assert(lv.contains(lv[m]));
        ws2.lemma_filter_contains_rev(q, lv[m]);
        let j = choose|j: int| 0 <= j < ws2.len() && ws2[j] == lv[m];
        assert(ws2[j].id == w.id);
    }
}

/// A worker counts as active in the cluster status at `now` exactly when the
/// heartbeat check at `now` keeps it: the active count is the number of
/// workers whose silence since their last heartbeat (`now` minus that time)
/// is below the timeout.
pub proof fn law_active_nodes_are_live(ws: Seq<WorkerView>, now: u64, timeout: u64)
    ensures
        count_active(worker_load(ws, now), timeout) == live_workers(ws, now, timeout).len(),
        forall|w: WorkerView|
            #[trigger] live_workers(ws, now, timeout).contains(w) ==> ws.contains(w) && (now
                >= w.last_heartbeat ==> now - w.last_heartbeat < timeout),
    decreases ws.len(),
{
    let p = |w: WorkerView| !is_expired(w, now, timeout);
    reveal_with_fuel(Seq::<WorkerView>::filter, 1);
    if ws.len() > 0 {
        let rest = ws.drop_last();
        law_active_nodes_are_live(rest, now, timeout);
        assert(worker_load(ws, now).drop_last() =~= worker_load(rest, now));
        assert(worker_load(ws, now).last() == (elapsed(now, ws.last().last_heartbeat), ws.last().running_tasks));
    }
    assert forall|w: WorkerView| #[trigger] live_workers(ws, now, timeout).contains(w) implies ws.contains(w) && (
    now >= w.last_heartbeat ==> now - w.last_heartbeat < timeout) by {
        ws.lemma_filter_contains_rev(p, w);
        let k = choose|k: int| 0 <= k < ws.filter(p).len() && ws.filter(p)[k] == w;
        ws.lemma_filter_pred(p, k);
    }
}

} // verus!
