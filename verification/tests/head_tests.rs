use rustray::common::{NodeInfo, NodeType};
use rustray::head::{
    average_memory, cluster_counts, expired_workers, should_stop, HeadNode, HeadNodeConfig, HeadNodeState,
};
use rustray::scheduler::load_balancer::NodeChoice;
use rustray::scheduler::{LoadBalanceStrategy, NodeHealth};

fn create_test_config() -> HeadNodeConfig {
    HeadNodeConfig {
        address: "localhost".to_string(),
        port: 8000,
        heartbeat_timeout: 5000,
        resource_monitor_interval: 1000,
        scheduling_strategy: LoadBalanceStrategy::RoundRobin,
    }
}

fn worker(id: u128, port: u16) -> NodeInfo {
    NodeInfo { node_id: id, node_type: NodeType::Worker, address: "localhost".to_string(), port }
}

#[test]
fn test_head_node_creation() {
    let head = HeadNode::new(create_test_config());
    assert_eq!(head.state(), HeadNodeState::Initializing);
    assert_eq!(head.node_info().node_type, NodeType::Head);
    assert_eq!(head.node_info().port, 8000);
}

#[test]
fn test_worker_registration() {
    let mut head = HeadNode::with_node_id(create_test_config(), 1);
    let w = worker(42, 8001);
    let result = head.register_worker(w, 0);
    assert!(result.is_ok());
    let status = head.cluster_status(0);
    assert_eq!(status.total_nodes, 1);
    assert_eq!(status.active_nodes, 1);
}

#[test]
fn test_task_submission() {
    let mut head = HeadNode::with_node_id(create_test_config(), 1);
    let result = head.submit_task(7);
    assert!(result.is_ok());
}

#[test]
fn start_and_stop() {
    let mut head = HeadNode::with_node_id(create_test_config(), 1);
    head.start();
    assert_eq!(head.state(), HeadNodeState::Running);
    assert!(!should_stop(&head.state()));
    head.stop();
    assert_eq!(head.state(), HeadNodeState::Shutdown);
    assert!(should_stop(&HeadNodeState::ShuttingDown));
}

#[test]
fn submitted_task_goes_to_a_registered_worker() {
    let mut head = HeadNode::with_node_id(create_test_config(), 1);
    head.register_worker(worker(10, 9000), 0).unwrap();
    head.register_worker(worker(20, 9001), 0).unwrap();
    // Round robin: the round advances to 1 first.
    match head.submit_task(100).unwrap() {
        NodeChoice::Node(id) => assert_eq!(id, 20),
        other => panic!("unexpected choice {:?}", other),
    }
    match head.submit_task(101).unwrap() {
        NodeChoice::Node(id) => assert_eq!(id, 10),
        other => panic!("unexpected choice {:?}", other),
    }
}

#[test]
fn no_worker_no_node() {
    let mut head = HeadNode::with_node_id(create_test_config(), 1);
    assert!(matches!(head.submit_task(5).unwrap(), NodeChoice::NoHealthyNode));
}

#[test]
fn heartbeat_check_drops_silent_workers() {
    let mut head = HeadNode::with_node_id(create_test_config(), 1);
    head.register_worker(worker(1, 1), 0).unwrap();
    head.register_worker(worker(2, 2), 0).unwrap();
    head.update_worker_heartbeat(2, Some(512), 3000).unwrap();
    // At 5000 worker 1 has been silent for the full timeout; worker 2 for 2000.
    let removed = head.check_heartbeats(5000);
    assert_eq!(removed, vec![1]);
    let status = head.cluster_status(5000);
    assert_eq!(status.total_nodes, 1);
    assert_eq!(status.active_nodes, 1);
    // The balancer now only offers worker 2.
    match head.submit_task(9).unwrap() {
        NodeChoice::Node(id) => assert_eq!(id, 2),
        other => panic!("unexpected choice {:?}", other),
    }
}

#[test]
fn registered_worker_kept_until_timeout() {
    let mut head = HeadNode::with_node_id(create_test_config(), 1);
    head.register_worker(worker(3, 1), 1000).unwrap();
    assert!(head.check_heartbeats(5999).is_empty());
    assert_eq!(head.check_heartbeats(6000), vec![3]);
}

#[test]
fn heartbeat_of_unknown_worker_changes_nothing() {
    let mut head = HeadNode::with_node_id(create_test_config(), 1);
    head.register_worker(worker(1, 1), 0).unwrap();
    assert!(head.update_worker_heartbeat(99, Some(1), 10).is_ok());
    assert_eq!(head.cluster_status(10).total_nodes, 1);
}

#[test]
fn average_memory_over_workers() {
    let mut head = HeadNode::with_node_id(create_test_config(), 1);
    assert_eq!(head.average_worker_memory(), None);
    head.register_worker(worker(1, 1), 0).unwrap();
    head.register_worker(worker(2, 2), 0).unwrap();
    head.register_worker(worker(3, 3), 0).unwrap();
    head.update_worker_heartbeat(1, Some(100), 1).unwrap();
    head.update_worker_heartbeat(2, Some(201), 1).unwrap();
    // Worker 3 reported nothing and counts as zero: (100 + 201) / 3 = 100.
    assert_eq!(head.average_worker_memory(), Some(100));
}

#[test]
fn scheduler_round_assigns_each_ready_task() {
    let mut head = HeadNode::with_node_id(create_test_config(), 1);
    head.register_worker(worker(10, 1), 0).unwrap();
    head.register_worker(worker(20, 2), 0).unwrap();
    head.submit_task(1).unwrap();
    head.submit_task(2).unwrap();
    let round = head.schedule_ready();
    let ids: Vec<u128> = round.iter().map(|(t, _)| *t).collect();
    assert_eq!(ids, vec![1, 2]);
    for (_, c) in round.iter() {
        assert!(matches!(c, NodeChoice::Node(_)));
    }
}

#[test]
fn free_functions() {
    assert_eq!(expired_workers(&vec![(1, 10), (2, 3), (3, 5)], 5), vec![1, 3]);
    let c = cluster_counts(&vec![(1, 2), (9, 3), (4, 0)], 5);
    assert_eq!((c.total_nodes, c.active_nodes, c.running_tasks), (3, 2, 5));
    assert_eq!(average_memory(&vec![Some(10), None, Some(20)]), Some(10));
    assert_eq!(average_memory(&vec![]), None);
    let _ = NodeHealth::Healthy;
}

#[test]
fn running_tasks_fit_for_fresh_workers() {
    let mut head = HeadNode::with_node_id(create_test_config(), 1);
    assert!(head.running_tasks_fit(0));
    head.register_worker(worker(1, 1), 0).unwrap();
    assert!(head.running_tasks_fit(0));
    assert_eq!(head.cluster_status(0).running_tasks, 0);
}
