use rustray::common::{NodeInfo, NodeType, TaskStatus};
use rustray::error::SystemError;
use rustray::scheduler::load_balancer::{LoadBalancer, NodeChoice};
use rustray::scheduler::task_graph::TaskGraph;
use rustray::scheduler::{LoadBalanceStrategy, NodeHealth, Scheduler, Task, TaskPriority};

fn node(id: u128) -> NodeInfo {
    NodeInfo { node_id: id, node_type: NodeType::Worker, address: "h".to_string(), port: 1 }
}

fn chosen(c: NodeChoice) -> u128 {
    match c {
        NodeChoice::Node(id) => id,
        other => panic!("no single node: {:?}", other),
    }
}

#[test]
fn default_strategy_is_least_loaded() {
    assert!(matches!(LoadBalanceStrategy::default(), LoadBalanceStrategy::LeastLoaded));
}

#[test]
fn round_robin_gives_each_node_a_turn() {
    let mut lb = LoadBalancer::new(LoadBalanceStrategy::RoundRobin);
    for id in [1u128, 2, 3] {
        lb.register_node(node(id)).unwrap();
    }
    let picks: Vec<u128> = (0..3).map(|_| chosen(lb.select_node())).collect();
    assert_eq!(picks, vec![2, 3, 1]);
    let mut sorted = picks.clone();
    sorted.sort();
    assert_eq!(sorted, vec![1, 2, 3]);
}

#[test]
fn unhealthy_nodes_are_skipped() {
    let mut lb = LoadBalancer::new(LoadBalanceStrategy::Custom("first".to_string()));
    lb.register_node(node(1)).unwrap();
    lb.register_node(node(2)).unwrap();
    lb.update_node_health(1, NodeHealth::Unhealthy("down".to_string())).unwrap();
    assert_eq!(chosen(lb.select_node()), 2);
    lb.update_node_health(2, NodeHealth::Unhealthy("down".to_string())).unwrap();
    assert!(matches!(lb.select_node(), NodeChoice::NoHealthyNode));
    // Registering again makes a node healthy with no tasks.
    lb.register_node(node(1)).unwrap();
    assert_eq!(chosen(lb.select_node()), 1);
}

#[test]
fn least_loaded_picks_first_minimum() {
    let mut lb = LoadBalancer::new(LoadBalanceStrategy::LeastLoaded);
    for id in [1u128, 2, 3] {
        lb.register_node(node(id)).unwrap();
    }
    lb.update_node_tasks(1, 5).unwrap();
    lb.update_node_tasks(2, 2).unwrap();
    lb.update_node_tasks(3, 2).unwrap();
    assert_eq!(chosen(lb.select_node()), 2);
    // Counts of unknown nodes are not kept.
    lb.update_node_tasks(9, 0).unwrap();
    assert_eq!(chosen(lb.select_node()), 2);
}

#[test]
fn data_aware_hands_over_healthy_nodes() {
    let mut lb = LoadBalancer::new(LoadBalanceStrategy::DataAware);
    lb.register_node(node(4)).unwrap();
    lb.register_node(node(5)).unwrap();
    lb.update_node_health(4, NodeHealth::Unhealthy("x".to_string())).unwrap();
    match lb.select_node() {
        NodeChoice::DataAware(v) => assert_eq!(v, vec![5]),
        other => panic!("unexpected {:?}", other),
    }
    assert_eq!(lb.assigned_count(), 0);
    lb.record_assigned();
    assert_eq!(lb.assigned_count(), 1);
}

#[test]
fn assigned_counter_counts_chosen_nodes() {
    let mut lb = LoadBalancer::new(LoadBalanceStrategy::Custom("first".to_string()));
    assert!(matches!(lb.select_node(), NodeChoice::NoHealthyNode));
    assert_eq!(lb.assigned_count(), 0);
    lb.register_node(node(1)).unwrap();
    lb.select_node();
    lb.select_node();
    assert_eq!(lb.assigned_count(), 2);
    assert_eq!(lb.metrics().get_counter("scheduler.tasks.assigned").unwrap(), 2);
}

#[test]
fn task_graph_readiness() {
    let mut g = TaskGraph::new();
    g.add_task(1, vec![]).unwrap();
    g.add_task(2, vec![1]).unwrap();
    g.add_task(3, vec![1, 9]).unwrap();
    assert_eq!(g.get_ready_tasks().unwrap(), vec![1]);
    g.update_task_status(1, TaskStatus::Completed).unwrap();
    // Task 3 waits on 9, which is not in the graph.
    assert_eq!(g.get_ready_tasks().unwrap(), vec![2]);
    assert_eq!(g.get_task_status(1).unwrap(), TaskStatus::Completed);
    assert_eq!(g.get_task_status(2).unwrap(), TaskStatus::Pending);
}

#[test]
fn task_graph_missing_task() {
    let mut g = TaskGraph::new();
    match g.get_task_status(0x1234) {
        Err(SystemError::TaskError(m)) => {
            assert_eq!(m, "Task 00000000-0000-0000-0000-000000001234 not found")
        }
        other => panic!("unexpected {:?}", other),
    }
    assert!(g.update_task_status(5, TaskStatus::Running).is_err());
    assert_eq!(g.metrics().get_counter("task_graph.status.Running").unwrap(), 0);
}

#[test]
fn task_graph_counters() {
    let mut g = TaskGraph::new();
    g.add_task(1, vec![]).unwrap();
    g.add_task(1, vec![]).unwrap();
    g.update_task_status(1, TaskStatus::Running).unwrap();
    g.update_task_status(1, TaskStatus::Completed).unwrap();
    g.update_task_status(1, TaskStatus::Completed).unwrap();
    let m = g.metrics();
    assert_eq!(m.get_counter("task_graph.tasks.added").unwrap(), 2);
    assert_eq!(m.get_counter("task_graph.status.Running").unwrap(), 1);
    assert_eq!(m.get_counter("task_graph.status.Completed").unwrap(), 2);
    assert_eq!(m.get_counter("task_graph.status.Failed").unwrap(), 0);
}

#[test]
fn status_read_back() {
    let mut g = TaskGraph::new();
    g.add_task(7, vec![]).unwrap();
    g.update_task_status(7, TaskStatus::Running).unwrap();
    assert_eq!(g.get_task_status(7).unwrap(), TaskStatus::Running);
    // Adding it again resets it to pending.
    g.add_task(7, vec![]).unwrap();
    assert_eq!(g.get_task_status(7).unwrap(), TaskStatus::Pending);
}

#[test]
fn scheduler_serves_higher_priority_first() {
    let mut s: Scheduler<&str> = Scheduler::new();
    s.submit_task(TaskPriority::Low, "low".to_string(), 100, "L").unwrap();
    s.submit_task(TaskPriority::High, "high".to_string(), 100, "H").unwrap();
    s.submit_task(TaskPriority::Normal, "mid".to_string(), 100, "N").unwrap();
    assert_eq!(s.get_next_task(10), Some("H"));
    assert_eq!(s.get_next_task(10), Some("N"));
    assert_eq!(s.get_next_task(10), Some("L"));
    assert_eq!(s.get_next_task(10), None);
}

#[test]
fn scheduler_orders_by_deadline_then_id() {
    let mut s: Scheduler<u32> = Scheduler::new();
    s.submit_task(TaskPriority::Normal, "b".to_string(), 50, 2).unwrap();
    s.submit_task(TaskPriority::Normal, "a".to_string(), 50, 1).unwrap();
    s.submit_task(TaskPriority::Normal, "c".to_string(), 20, 3).unwrap();
    assert_eq!(s.get_next_task(0), Some(3));
    assert_eq!(s.get_next_task(0), Some(1));
    assert_eq!(s.get_next_task(0), Some(2));
}

#[test]
fn scheduler_drops_overdue_entries() {
    let mut s: Scheduler<u32> = Scheduler::new();
    s.submit_task(TaskPriority::High, "late".to_string(), 5, 1).unwrap();
    s.submit_task(TaskPriority::Low, "ok".to_string(), 50, 2).unwrap();
    // The overdue high-priority entry is given up; the low one is served.
    assert_eq!(s.get_next_task(10), Some(2));
    assert_eq!(s.get_next_task(10), None);
}

#[test]
fn task_creation_and_deadline() {
    let t = Task::new(TaskPriority::High, vec![1, 2, 3], Some(500), 1000);
    assert_eq!(t.id.len(), 36);
    assert_eq!(t.payload, vec![1, 2, 3]);
    assert_eq!(t.created_at, 1000);
    assert_eq!(t.deadline, Some(1500));
    assert_eq!(t.retries, 0);
    assert_eq!(t.queue_deadline(2000), 1500);
    let open = Task::new(TaskPriority::Low, vec![], None, 1000);
    assert_eq!(open.deadline, None);
    assert_eq!(open.queue_deadline(1000), 3_601_000);
}

#[test]
fn failed_hand_offs_are_retried_three_times() {
    let mut t = Task::new(TaskPriority::Normal, vec![], None, 0);
    let id = t.id.clone();
    for expected in 1..=3u32 {
        t = t.retried().expect("retried");
        assert_eq!(t.retries, expected);
        assert_eq!(t.id, id);
    }
    assert!(t.retried().is_none());
}
