//! The load balancer: registered nodes, their health and load, and the
//! choice of a node for the next task.
use vstd::prelude::*;
use crate::common::NodeInfo;
use crate::metrics::{counter_of, MetricsCollector};
use super::{LoadBalanceStrategy, NodeHealth};

verus! {

/// What the balancer knows of a node.
pub struct NodeEntry {
    /// The node.
    pub info: NodeInfo,
    /// Its health.
    pub health: NodeHealth,
    /// Tasks assigned to it.
    pub tasks: usize,
}

/// The contents of a [`NodeEntry`] that the choice depends on.
pub struct NodeEntryView {
    pub id: u128,
    pub healthy: bool,
    pub tasks: usize,
}

/// The balancer's choice.
#[derive(Debug, Clone)]
pub enum NodeChoice {
    /// This node.
    Node(u128),
    /// No node is healthy.
    NoHealthyNode,
    /// The data-aware scheduler picks among these healthy nodes.
    DataAware(Vec<u128>),
}

/// The healthy entries, in registration order.
pub open spec fn healthy_entries(ns: Seq<NodeEntryView>) -> Seq<NodeEntryView> {
    ns.filter(|e: NodeEntryView| e.healthy)
}

/// Some entry has the id `id`.
pub open spec fn has_node(ns: Seq<NodeEntryView>, id: u128) -> bool {
    exists|i: int| 0 <= i < ns.len() && (#[trigger] ns[i]).id == id
}

/// Node ids are unique.
pub open spec fn node_ids_unique(ns: Seq<NodeEntryView>) -> bool {
    forall|i: int, j: int|
        0 <= i < ns.len() && 0 <= j < ns.len() && i != j ==> (#[trigger] ns[i]).id != (
        #[trigger] ns[j]).id
}

/// The position of the first entry of `hs` with the fewest tasks.
pub open spec fn is_first_least_loaded(hs: Seq<NodeEntryView>, k: int) -> bool {
    &&& 0 <= k < hs.len()
    &&& forall|j: int| 0 <= j < hs.len() ==> hs[k].tasks <= (#[trigger] hs[j]).tasks
    &&& forall|j: int| 0 <= j < k ==> hs[k].tasks < (#[trigger] hs[j]).tasks
}

/// The entries after node `id` registers: its entry, healthy with no
/// tasks, takes the place of one with the same id or comes last.
pub open spec fn with_registered(ns: Seq<NodeEntryView>, id: u128) -> Seq<NodeEntryView> {
    let e = NodeEntryView { id, healthy: true, tasks: 0 };
    if has_node(ns, id) {
        ns.map_values(|x: NodeEntryView| if x.id == id { e } else { x })
    } else {
        ns.push(e)
    }
}

/// The entries after the health of node `id` is recorded.
pub open spec fn with_health(ns: Seq<NodeEntryView>, id: u128, healthy: bool) -> Seq<NodeEntryView> {
    ns.map_values(|x: NodeEntryView| if x.id == id { NodeEntryView { healthy, ..x } } else { x })
}

/// The load balancer.
pub struct LoadBalancer {
    strategy: LoadBalanceStrategy,
    nodes: Vec<NodeEntry>,
    current_round: usize,
    metrics: MetricsCollector,
}

impl LoadBalancer {
    /// The registered nodes, in registration order.
    pub closed spec fn nodes(&self) -> Seq<NodeEntryView> {
        self.nodes@.map_values(
            |e: NodeEntry| NodeEntryView { id: e.info.node_id, healthy: e.health is Healthy, tasks: e.tasks },
        )
    }

    /// The round-robin position.
    pub closed spec fn current_round(&self) -> usize {
        self.current_round
    }

    /// The strategy.
    pub closed spec fn strategy(&self) -> LoadBalanceStrategy {
        self.strategy
    }

    /// The counter "scheduler.tasks.assigned": how many tasks were given a
    /// node.
    pub closed spec fn assigned(&self) -> i64 {
        counter_of(self.metrics.counters(), "scheduler.tasks.assigned"@)
    }

    /// Well-formedness: node ids are unique.
    pub closed spec fn wf(&self) -> bool {
        node_ids_unique(self.nodes()) && self.current_round < usize::MAX && self.metrics.wf()
    }

    /// The balancer's metrics.
    pub fn metrics(&self) -> (m: &MetricsCollector)
        ensures
            counter_of(m.counters(), "scheduler.tasks.assigned"@) == self.assigned(),
    {
        &self.metrics
    }

    /// The value of the counter "scheduler.tasks.assigned".
    pub fn assigned_count(&self) -> (n: i64)
        requires
            self.wf(),
        ensures
            n == self.assigned(),
    {
        match self.metrics.get_counter("scheduler.tasks.assigned") {
            Ok(n) => n,
            Err(_) => 0,
        }
    }

    /// Counts one task given a node by a choice made outside the balancer
    /// (the data-aware strategy).
    pub fn record_assigned(&mut self)
        requires
            old(self).wf(),
            old(self).assigned() < i64::MAX,
        ensures
            final(self).wf(),
            final(self).nodes() == old(self).nodes(),
            final(self).strategy() == old(self).strategy(),
            final(self).current_round() == old(self).current_round(),
            final(self).assigned() == old(self).assigned() + 1,
    {
        let _ = self.metrics.increment_counter("scheduler.tasks.assigned", 1);
    }

    /// A balancer with no nodes.
    pub fn new(strategy: LoadBalanceStrategy) -> (b: Self)
        ensures
            b.wf(),
            b.nodes().len() == 0,
            b.current_round() == 0,
            b.strategy() == strategy,
            b.assigned() == 0,
    {
        let b = LoadBalancer { strategy, nodes: Vec::new(), current_round: 0, metrics: MetricsCollector::new() };
        assert(b.nodes() =~= Seq::<NodeEntryView>::empty());
        b
    }

    fn find(&self, id: u128) -> (r: Option<usize>)
        ensures
            match r {
                Some(i) => i < self.nodes().len() && self.nodes()[i as int].id == id,
                None => !has_node(self.nodes(), id),
            },
    {
        let mut i: usize = 0;
        while i < self.nodes.len()
            invariant
                i <= self.nodes@.len(),
                forall|j: int| 0 <= j < i ==> (#[trigger] self.nodes@[j]).info.node_id != id,
            decreases self.nodes.len() - i,
        {
            if self.nodes[i].info.node_id == id {
                return Some(i);
            }
            i = i + 1;
        }
        assert forall|j: int| 0 <= j < self.nodes().len() implies (#[trigger] self.nodes()[j]).id != id by {
            assert(self.nodes@[j].info.node_id != id);
        }
        None
    }

    /// Registers `node` as healthy with no tasks, replacing a node with the
    /// same id.
    pub fn register_node(&mut self, node: NodeInfo) -> (r: Result<(), String>)
        requires
            old(self).wf(),
        ensures
            final(self).assigned() == old(self).assigned(),
            r is Ok,
            final(self).wf(),
            final(self).current_round() == old(self).current_round(),
            final(self).strategy() == old(self).strategy(),
            ({
                let e = NodeEntryView { id: node.node_id, healthy: true, tasks: 0 };
                if has_node(old(self).nodes(), node.node_id) {
                    exists|i: int|
                        0 <= i < old(self).nodes().len() && (#[trigger] old(self).nodes()[i]).id
                            == node.node_id && final(self).nodes() == old(self).nodes().update(i, e)
                } else {
                    final(self).nodes() == old(self).nodes().push(e)
                }
            }),
            final(self).nodes() == with_registered(old(self).nodes(), node.node_id),
    {
        let ghost old_ns = self.nodes();
        let ghost e = NodeEntryView { id: node.node_id, healthy: true, tasks: 0 };
        let id = node.node_id;
        let entry = NodeEntry { info: node, health: NodeHealth::Healthy, tasks: 0 };
        match self.find(id) {
            Some(i) => {
                self.nodes.set(i, entry);
                proof {
                    let ns = self.nodes();
                    assert(ns =~= old_ns.update(i as int, e));
                    assert forall|j: int| 0 <= j < old_ns.len() && (#[trigger] old_ns[j]).id == id implies j == i by {
                        if j != i {
                            assert(old_ns[j].id != old_ns[i as int].id);
                        }
                    }
                    assert(ns =~= old_ns.map_values(|x: NodeEntryView| if x.id == id { e } else { x }));
                    assert forall|a: int, b: int|
                        0 <= a < ns.len() && 0 <= b < ns.len() && a != b implies (#[trigger] ns[a]).id
                            != (#[trigger] ns[b]).id by {
                        if a != i {
                            assert(ns[a] == old_ns[a]);
                        }
                        if b != i {
                            assert(ns[b] == old_ns[b]);
                        }
                    }
                }
            },
            None => {
                self.nodes.push(entry);
                proof {
                    let ns = self.nodes();
                    assert(ns =~= old_ns.push(e));
                    assert forall|a: int, b: int|
                        0 <= a < ns.len() && 0 <= b < ns.len() && a != b implies (#[trigger] ns[a]).id
                            != (#[trigger] ns[b]).id by {
                        if a < old_ns.len() {
                            assert(ns[a] == old_ns[a]);
                        }
                        if b < old_ns.len() {
                            assert(ns[b] == old_ns[b]);
                        }
                    }
                }
            },
        }
        Ok(())
    }

    /// Records that node `node_id` has `task_count` tasks. Counts of nodes
    /// that are not registered are not kept: registering a node starts it at
    /// zero tasks.
    pub fn update_node_tasks(&mut self, node_id: u128, task_count: usize) -> (r: Result<(), String>)
        requires
            old(self).wf(),
        ensures
            final(self).assigned() == old(self).assigned(),
            r is Ok,
            final(self).wf(),
            final(self).current_round() == old(self).current_round(),
            final(self).strategy() == old(self).strategy(),
            !has_node(old(self).nodes(), node_id) ==> final(self).nodes() == old(self).nodes(),
            forall|i: int|
                0 <= i < old(self).nodes().len() && (#[trigger] old(self).nodes()[i]).id == node_id
                    ==> final(self).nodes() == old(self).nodes().update(
                    i,
                    NodeEntryView { tasks: task_count, ..old(self).nodes()[i] },
                ),
    {
        let ghost old_ns = self.nodes();
        match self.find(node_id) {
            Some(i) => {
                self.nodes[i].tasks = task_count;
                proof {
                    let ns = self.nodes();
                    assert(ns =~= old_ns.update(i as int, NodeEntryView { tasks: task_count, ..old_ns[i as int] }));
                    assert forall|j: int| 0 <= j < old_ns.len() && (#[trigger] old_ns[j]).id == node_id implies j == i by {
                        if j != i {
                            assert(old_ns[j].id != old_ns[i as int].id);
                        }
                    }
                    assert forall|a: int, b: int|
                        0 <= a < ns.len() && 0 <= b < ns.len() && a != b implies (#[trigger] ns[a]).id
                            != (#[trigger] ns[b]).id by {
                        assert(ns[a].id == old_ns[a].id);
                        assert(ns[b].id == old_ns[b].id);
                    }
                }
            },
            None => {},
        }
        Ok(())
    }

    /// Records the health of node `node_id`; unregistered nodes are not kept
    /// (registering a node marks it healthy).
    pub fn update_node_health(&mut self, node_id: u128, health: NodeHealth) -> (r: Result<(), String>)
        requires
            old(self).wf(),
        ensures
            final(self).assigned() == old(self).assigned(),
            r is Ok,
            final(self).wf(),
            final(self).current_round() == old(self).current_round(),
            final(self).strategy() == old(self).strategy(),
            !has_node(old(self).nodes(), node_id) ==> final(self).nodes() == old(self).nodes(),
            forall|i: int|
                0 <= i < old(self).nodes().len() && (#[trigger] old(self).nodes()[i]).id == node_id
                    ==> final(self).nodes() == old(self).nodes().update(
                    i,
                    NodeEntryView { healthy: health is Healthy, ..old(self).nodes()[i] },
                ),
            final(self).nodes() == with_health(old(self).nodes(), node_id, health is Healthy),
    {
        let ghost old_ns = self.nodes();
        let ghost h = health is Healthy;
        match self.find(node_id) {
            Some(i) => {
                self.nodes[i].health = health;
                proof {
                    let ns = self.nodes();
                    assert(ns =~= old_ns.update(i as int, NodeEntryView { healthy: h, ..old_ns[i as int] }));
                    assert forall|j: int| 0 <= j < old_ns.len() && (#[trigger] old_ns[j]).id == node_id implies j == i by {
                        if j != i {
                            assert(old_ns[j].id != old_ns[i as int].id);
                        }
                    }
                    assert(ns =~= with_health(old_ns, node_id, h));
                    assert forall|a: int, b: int|
                        0 <= a < ns.len() && 0 <= b < ns.len() && a != b implies (#[trigger] ns[a]).id
                            != (#[trigger] ns[b]).id by {
                        assert(ns[a].id == old_ns[a].id);
                        assert(ns[b].id == old_ns[b].id);
                    }
                }
            },
            None => {
                assert(self.nodes() =~= with_health(old_ns, node_id, h));
            },
        }
        Ok(())
    }

    fn healthy_nodes(&self) -> (r: Vec<(u128, usize)>)
        ensures
            r@.len() == healthy_entries(self.nodes()).len(),
            forall|k: int| 0 <= k < r@.len() ==> (#[trigger] r@[k]).0 == healthy_entries(self.nodes())[k].id
                && r@[k].1 == healthy_entries(self.nodes())[k].tasks,
    {
        let ghost ns = self.nodes();
        let ghost pred = |e: NodeEntryView| e.healthy;
        let mut r: Vec<(u128, usize)> = Vec::new();
        let mut i: usize = 0;
        while i < self.nodes.len()
            invariant
                ns == self.nodes(),
                pred == (|e: NodeEntryView| e.healthy),
                i <= ns.len(),
                r@.len() == ns.take(i as int).filter(pred).len(),
                forall|k: int| 0 <= k < r@.len() ==> (#[trigger] r@[k]).0 == ns.take(i as int).filter(pred)[k].id
                    && r@[k].1 == ns.take(i as int).filter(pred)[k].tasks,
            decreases self.nodes.len() - i,
        {
            proof {
                reveal_with_fuel(Seq::<NodeEntryView>::filter, 1);
                assert(ns.take(i + 1).drop_last() =~= ns.take(i as int));
                assert(ns.take(i + 1).last() == ns[i as int]);
            }
            let healthy = match &self.nodes[i].health {
                NodeHealth::Healthy => true,
                NodeHealth::Unhealthy(_) => false,
            };
            assert(healthy == ns[i as int].healthy);
            if healthy {
                r.push((self.nodes[i].info.node_id, self.nodes[i].tasks));
            }
            i = i + 1;
        }
        assert(ns.take(ns.len() as int) =~= ns);
        r
    }

    /// What a selection from `before` chooses, and the balancer it leaves:
    /// see `select_node`.
    pub open spec fn is_selection(before: LoadBalancer, after: LoadBalancer, c: NodeChoice) -> bool {
        let hs = healthy_entries(before.nodes());
        let n = hs.len();
        &&& after.assigned() == before.assigned() + if c is Node { 1int } else { 0int }
        &&& if n == 0 {
            c is NoHealthyNode && after.current_round() == before.current_round()
        } else {
            match before.strategy() {
                LoadBalanceStrategy::RoundRobin => {
                    let k = (before.current_round() + 1) % (n as int);
                    after.current_round() == k && c == NodeChoice::Node(hs[k].id)
                },
                LoadBalanceStrategy::LeastLoaded => {
                    after.current_round() == before.current_round() && exists|k: int|
                        #[trigger] is_first_least_loaded(hs, k) && c == NodeChoice::Node(hs[k].id)
                },
                LoadBalanceStrategy::DataAware => {
                    after.current_round() == before.current_round() && (c matches NodeChoice::DataAware(v)
                        && v@ == hs.map_values(|e: NodeEntryView| e.id))
                },
                LoadBalanceStrategy::Custom(_) => {
                    after.current_round() == before.current_round() && c == NodeChoice::Node(hs[0].id)
                },
            }
        }
    }

    /// Chooses a node among the healthy ones, in registration order. With
    /// none healthy the answer is `NoHealthyNode`. Round robin advances the
    /// round to the next position (modulo the number of healthy nodes) and
    /// picks the node there; least-loaded picks the first node with the
    /// fewest tasks; a custom strategy picks the first healthy node; the
    /// data-aware strategy hands the healthy nodes to the data-aware
    /// scheduler.
    pub fn select_node(&mut self) -> (c: NodeChoice)
        requires
            old(self).wf(),
            old(self).assigned() < i64::MAX,
        ensures
            final(self).wf(),
            final(self).nodes() == old(self).nodes(),
            final(self).strategy() == old(self).strategy(),
            Self::is_selection(*old(self), *final(self), c),
    {
        let healthy = self.healthy_nodes();
        let ghost hs = healthy_entries(self.nodes());
        let n = healthy.len();
        if n == 0 {
            return NodeChoice::NoHealthyNode;
        }
        let c = match &self.strategy {
            LoadBalanceStrategy::RoundRobin => {
                let k = (self.current_round + 1) % n;
                self.current_round = k;
                NodeChoice::Node(healthy[k].0)
            },
            LoadBalanceStrategy::LeastLoaded => {
                let mut best: usize = 0;
                let mut j: usize = 1;
                while j < n
                    invariant
                        n == healthy@.len(),
                        n == hs.len(),
                        forall|k: int| 0 <= k < n ==> (#[trigger] healthy@[k]).0 == hs[k].id && healthy@[k].1 == hs[k].tasks,
                        1 <= j <= n,
                        best < j,
                        forall|m: int| 0 <= m < j ==> hs[best as int].tasks <= (#[trigger] hs[m]).tasks,
                        forall|m: int| 0 <= m < best ==> hs[best as int].tasks < (#[trigger] hs[m]).tasks,
                    decreases n - j,
                {
                    if healthy[j].1 < healthy[best].1 {
                        best = j;
                    }
                    j = j + 1;
                }
                assert(is_first_least_loaded(hs, best as int));
                NodeChoice::Node(healthy[best].0)
            },
            LoadBalanceStrategy::DataAware => {
                let mut ids: Vec<u128> = Vec::new();
                let mut j: usize = 0;
                while j < n
                    invariant
                        n == healthy@.len(),
                        n == hs.len(),
                        forall|k: int| 0 <= k < n ==> (#[trigger] healthy@[k]).0 == hs[k].id,
                        j <= n,
                        ids@ == hs.take(j as int).map_values(|e: NodeEntryView| e.id),
                    decreases n - j,
                {
                    ids.push(healthy[j].0);
                    assert(ids@ =~= hs.take(j + 1).map_values(|e: NodeEntryView| e.id));
                    j = j + 1;
                }
                assert(hs.take(n as int) =~= hs);
                NodeChoice::DataAware(ids)
            },
            LoadBalanceStrategy::Custom(_) => NodeChoice::Node(healthy[0].0),
        };
        if let NodeChoice::Node(_) = &c {
            let _ = self.metrics.increment_counter("scheduler.tasks.assigned", 1);
        }
        c
    }
}

/// Under round robin the round advances by one (modulo the healthy nodes)
/// at each selection, and the node chosen is the one at the new round.
proof fn lemma_round_robin_rounds(bs: Seq<LoadBalancer>, cs: Seq<NodeChoice>, i: int)
    requires
        bs.len() == cs.len() + 1,
        healthy_entries(bs[0].nodes()).len() > 0,
        bs[0].strategy() is RoundRobin,
        forall|j: int| 0 <= j < bs.len() ==> (#[trigger] bs[j]).nodes() == bs[0].nodes() && bs[j].strategy() == bs[0].strategy(),
        forall|j: int| 0 <= j < cs.len() ==> LoadBalancer::is_selection(#[trigger] bs[j], bs[j + 1], cs[j]),
        0 <= i < cs.len(),
    ensures
        ({
            let hs = healthy_entries(bs[0].nodes());
            let n = hs.len() as int;
            let k = (bs[0].current_round() + i + 1) % n;
            &&& bs[i + 1].current_round() == k
            &&& cs[i] == NodeChoice::Node(hs[k].id)
        }),
    decreases i,
{
    let hs = healthy_entries(bs[0].nodes());
    let n = hs.len() as int;
    let r0 = bs[0].current_round() as int;
    assert(LoadBalancer::is_selection(bs[i], bs[i + 1], cs[i]));
    assert(bs[i].nodes() == bs[0].nodes());
    if i > 0 {
        lemma_round_robin_rounds(bs, cs, i - 1);
        vstd::arithmetic::div_mod::lemma_add_mod_noop_right(1, r0 + i, n);
        assert((1 + (r0 + i) % n) % n == (r0 + i + 1) % n);
    }
}

/// Round robin gives every healthy node a turn: `n` selections in a row, with
/// `n` healthy nodes and the registry unchanged meanwhile, choose each
/// healthy node.
pub proof fn law_round_robin_covers(bs: Seq<LoadBalancer>, cs: Seq<NodeChoice>)
    requires
        bs.len() == cs.len() + 1,
        cs.len() == healthy_entries(bs[0].nodes()).len(),
        cs.len() > 0,
        bs[0].strategy() is RoundRobin,
        forall|j: int| 0 <= j < bs.len() ==> (#[trigger] bs[j]).nodes() == bs[0].nodes() && bs[j].strategy() == bs[0].strategy(),
        forall|j: int| 0 <= j < cs.len() ==> LoadBalancer::is_selection(#[trigger] bs[j], bs[j + 1], cs[j]),
    ensures
        forall|k: int|
            #![trigger healthy_entries(bs[0].nodes())[k]]
            0 <= k < cs.len() ==> exists|i: int|
                0 <= i < cs.len() && #[trigger] cs[i] == NodeChoice::Node(healthy_entries(bs[0].nodes())[k].id),
{
    let hs = healthy_entries(bs[0].nodes());
    let n = hs.len() as int;
    let r0 = bs[0].current_round() as int;
    assert forall|k: int| #![trigger hs[k]] 0 <= k < cs.len() implies exists|i: int|
        0 <= i < cs.len() && #[trigger] cs[i] == NodeChoice::Node(hs[k].id) by {
        let d = k - r0 - 1;
        let i = d % n;
        vstd::arithmetic::div_mod::lemma_fundamental_div_mod(d, n);
        assert(0 <= i < n);
        assert(r0 + i + 1 == n * (-(d / n)) + k) by (nonlinear_arith)
            requires d == n * (d / n) + i, d == k - r0 - 1;
        vstd::arithmetic::div_mod::lemma_mod_multiples_vanish(-(d / n), k, n);
        vstd::arithmetic::div_mod::lemma_small_mod(k as nat, n as nat);
        lemma_round_robin_rounds(bs, cs, i);
        assert(cs[i] == NodeChoice::Node(hs[k].id));
    }
}

} // verus!
