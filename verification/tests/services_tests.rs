use rustray::api::tasks::{plan_task_action, StampChange, TaskActionPlan};
use rustray::cache::MultiLevelCache;
use rustray::common::object_store::{bytes_eq, ObjectStore, RaftCommand, RaftNode, StorageEngine};
use rustray::common::{TaskResult, TaskStatus as CoreStatus};
use rustray::connection::{
    check_qos_compatibility, ConnectionAction, ConnectionManager, Durability, History, HistoryKind, Message,
    PublisherConfig, QosConfig, Reliability, Router, SubscriberConfig,
};
use rustray::error::{monotonic_now, retry_step, time_within, with_circuit_breaker, AppError, CircuitBreaker, SystemError};
use rustray::grpc::{check_execute_request, Code, ExecuteTaskRequest, HeadServiceImpl};
use rustray::head::{HeadNode, HeadNodeConfig};
use rustray::metrics::TraceLog;
use rustray::models::{Settings, TaskStatus};
use rustray::scheduler::LoadBalanceStrategy;
use rustray::system::SystemMonitor;
use rustray::task::TaskManager;
use rustray::worker::reconnect::{HeartbeatRequest, RegisterWorkerRequest};

#[test]
fn task_actions() {
    match plan_task_action(TaskStatus::Pending, "start") {
        Ok(TaskActionPlan::Update { status, started_at, completed_at, reset_progress }) => {
            assert_eq!(status, TaskStatus::Running);
            assert_eq!(started_at, StampChange::SetNow);
            assert_eq!(completed_at, StampChange::Keep);
            assert!(!reset_progress);
        }
        other => panic!("unexpected {:?}", other),
    }
    match plan_task_action(TaskStatus::Failed, "retry") {
        Ok(TaskActionPlan::Update { status, started_at, completed_at, reset_progress }) => {
            assert_eq!(status, TaskStatus::Pending);
            assert_eq!(started_at, StampChange::Clear);
            assert_eq!(completed_at, StampChange::Clear);
            assert!(reset_progress);
        }
        other => panic!("unexpected {:?}", other),
    }
    assert!(matches!(plan_task_action(TaskStatus::Completed, "delete"), Ok(TaskActionPlan::Delete)));
    assert!(matches!(plan_task_action(TaskStatus::Running, "delete"), Err(AppError::Task(_))));
    assert!(matches!(plan_task_action(TaskStatus::Running, "start"), Err(AppError::Task(_))));
    match plan_task_action(TaskStatus::Running, "jump") {
        Err(AppError::BadRequest(m)) => assert_eq!(m, "Invalid action"),
        other => panic!("unexpected {:?}", other),
    }
}

#[test]
fn error_responses() {
    assert_eq!(AppError::Database("x".to_string()).response_parts(), (500, "Internal server error".to_string()));
    assert_eq!(AppError::System("s".to_string()).response_parts(), (500, "s".to_string()));
    assert_eq!(AppError::Task("t".to_string()).response_parts(), (400, "t".to_string()));
    assert_eq!(AppError::NotFound("n".to_string()).response_parts(), (404, "n".to_string()));
    assert_eq!(AppError::BadRequest("b".to_string()).response_parts(), (400, "b".to_string()));
}

#[test]
fn retry_decisions() {
    assert_eq!(retry_step(0, 3), Some(1));
    assert_eq!(retry_step(2, 3), Some(3));
    assert_eq!(retry_step(3, 3), None);
}

#[test]
fn circuit_breaker_opens_at_threshold() {
    let mut b = CircuitBreaker::new(2, std::time::Duration::from_secs(60));
    assert!(!b.is_open());
    b.record_failure();
    assert!(!b.is_open());
    b.record_failure();
    assert!(b.is_open());
    assert!(b.is_open_given(true));
    assert!(!b.is_open_given(false));
    match b.check_closed() {
        Err(SystemError::Overload(m)) => assert_eq!(m, "Circuit breaker is open"),
        other => panic!("unexpected {:?}", other),
    }
    b.record_success();
    assert!(!b.is_open());
    assert!(b.check_closed().is_ok());
}

#[test]
fn circuit_breaker_closes_after_timeout() {
    let mut b = CircuitBreaker::new(1, std::time::Duration::from_millis(0));
    b.record_failure();
    assert!(!b.is_open());
}

#[test]
fn record_outcome_passes_results_through() {
    let mut b = CircuitBreaker::new(1, std::time::Duration::from_secs(60));
    let r: Result<u32, SystemError> = b.record_outcome(Ok(5));
    assert_eq!(r.unwrap(), 5);
    let e: Result<u32, SystemError> = b.record_outcome(Err(SystemError::Timeout("t".to_string())));
    assert!(e.is_err());
    assert!(b.is_open());
    let again: Result<u32, SystemError> = b.record_outcome(Ok(6));
    assert_eq!(again.unwrap(), 6);
    assert!(!b.is_open());
    assert_eq!(b.failures(), 0);
}

#[test]
fn failure_below_threshold_keeps_breaker_closed() {
    let mut b = CircuitBreaker::new(3, std::time::Duration::from_secs(60));
    let _: Result<u32, SystemError> = b.record_outcome(Err(SystemError::Timeout("t".to_string())));
    let _: Result<u32, SystemError> = b.record_outcome(Err(SystemError::Timeout("t".to_string())));
    assert_eq!(b.failures(), 2);
    assert!(!b.is_open());
    let _: Result<u32, SystemError> = b.record_outcome(Err(SystemError::Timeout("t".to_string())));
    assert!(b.is_open());
}

#[test]
fn cache_reads_back_until_expiry() {
    let mut c: MultiLevelCache<u32> = MultiLevelCache::new();
    assert_eq!(c.get("k", 0), None);
    c.set("k".to_string(), 7, 100, 1000);
    assert_eq!(c.get("k", 1000), Some(7));
    assert_eq!(c.get("k", 1099), Some(7));
    assert_eq!(c.get("k", 1100), None);
    c.set("k".to_string(), 8, 10, 2000);
    assert_eq!(c.get("k", 2005), Some(8));
    assert_eq!(c.get("other", 2005), None);
}

#[test]
fn traces_keep_spans_in_order() {
    let mut t = TraceLog::new();
    assert!(t.get_trace("t1").is_none());
    let a = t.start_span("t1", None);
    let b = t.start_span("t1", Some(a.span_id.clone()));
    let _c = t.start_span("t2", None);
    assert_eq!(a.span_id.len(), 36);
    assert_ne!(a.span_id, b.span_id);
    let spans = t.get_trace("t1").unwrap();
    assert_eq!(spans.len(), 2);
    assert_eq!(spans[0].span_id, a.span_id);
    assert_eq!(spans[1].parent_id, Some(a.span_id.clone()));
    assert_eq!(t.get_trace("t2").unwrap().len(), 1);
}

#[test]
fn network_status_speeds() {
    let mut m = SystemMonitor::new();
    let first = m.network_status(&vec![(100, 50), (10, 5)]);
    assert_eq!((first.upload_speed, first.download_speed, first.total_traffic, first.connections), (0, 0, 165, 100));
    let second = m.network_status(&vec![(150, 70), (10, 5)]);
    assert_eq!((second.upload_speed, second.download_speed), (20, 50));
    let third = m.network_status(&vec![(1, 1)]);
    assert_eq!((third.upload_speed, third.download_speed), (0, 0));
    assert_eq!(m.last_network_stats, Some((1, 1)));
}

fn head_service() -> HeadServiceImpl {
    let config = HeadNodeConfig {
        address: "localhost".to_string(),
        port: 8000,
        heartbeat_timeout: 5000,
        resource_monitor_interval: 1000,
        scheduling_strategy: LoadBalanceStrategy::RoundRobin,
    };
    HeadServiceImpl { head: HeadNode::with_node_id(config, 1) }
}

#[test]
fn grpc_registration() {
    let mut svc = head_service();
    let ok = svc
        .register_worker(
            RegisterWorkerRequest {
                worker_id: "550e8400-e29b-41d4-a716-446655440000".to_string(),
                address: "10.0.0.5".to_string(),
                port: 70000,
            },
            0,
        )
        .unwrap();
    assert!(ok.success);
    assert_eq!(ok.message, "Worker registered successfully");
    assert_eq!(svc.head.cluster_status(0).total_nodes, 1);

    let bad = svc
        .register_worker(
            RegisterWorkerRequest { worker_id: "nope".to_string(), address: "a".to_string(), port: 1 },
            0,
        )
        .unwrap_err();
    assert_eq!(bad.code, Code::InvalidArgument);
    assert!(bad.message.starts_with("Invalid UUID: "));

    let empty = svc
        .register_worker(
            RegisterWorkerRequest {
                worker_id: "550e8400-e29b-41d4-a716-446655440001".to_string(),
                address: String::new(),
                port: 1,
            },
            0,
        )
        .unwrap_err();
    assert_eq!(empty.message, "Worker address cannot be empty");
    assert_eq!(svc.head.cluster_status(0).total_nodes, 1);
}

#[test]
fn grpc_heartbeat_and_execute() {
    let svc = head_service();
    let ok = svc.heartbeat(HeartbeatRequest {
        worker_id: "550e8400-e29b-41d4-a716-446655440000".to_string(),
        status: None,
    });
    assert!(ok.unwrap().success);
    assert!(svc.heartbeat(HeartbeatRequest { worker_id: "x".to_string(), status: None }).is_err());

    let req = ExecuteTaskRequest {
        task_id: "00000000-0000-0000-0000-00000000002a".to_string(),
        function_name: "f".to_string(),
        args: vec![],
        kwargs: vec![],
    };
    assert_eq!(check_execute_request(&req).unwrap(), 42);
    let no_fn = ExecuteTaskRequest { function_name: String::new(), ..req.clone() };
    assert_eq!(check_execute_request(&no_fn).unwrap_err().message, "Function name cannot be empty");
    let bad_id = ExecuteTaskRequest { task_id: "zz".to_string(), ..req };
    assert!(check_execute_request(&bad_id).unwrap_err().message.starts_with("Invalid task ID: "));
}

#[test]
fn task_manager_lifecycle() {
    let mut m = TaskManager::new();
    assert_eq!(m.submit_task(1).unwrap(), 1);
    assert!(m.submit_task(1).is_err());
    assert_eq!(m.get_task_status(1).unwrap(), rustray::task::TaskStatus::Pending);
    m.update_task_status(1, rustray::task::TaskStatus::Running).unwrap();
    assert_eq!(m.get_task_status(1).unwrap(), rustray::task::TaskStatus::Running);
    m.set_task_result(1, TaskResult::Completed(vec![1, 2])).unwrap();
    assert_eq!(m.get_task_status(1).unwrap(), rustray::task::TaskStatus::Completed);
    match m.get_task_result(1).unwrap() {
        Some(TaskResult::Completed(v)) => assert_eq!(v, vec![1, 2]),
        other => panic!("unexpected {:?}", other),
    }
    assert!(m.get_task_result(2).unwrap().is_none());
    assert!(m.set_task_result(2, TaskResult::Pending).is_err());
    let _ = CoreStatus::Pending;
}

struct MemEngine {
    data: Vec<(Vec<u8>, Vec<u8>)>,
}

impl StorageEngine for MemEngine {
    fn get(&self, key: &[u8]) -> Result<Option<Vec<u8>>, String> {
        Ok(self.data.iter().find(|(k, _)| k.as_slice() == key).map(|(_, v)| v.clone()))
    }
    fn put(&mut self, key: &[u8], value: Vec<u8>) -> Result<(), String> {
        self.data.retain(|(k, _)| k.as_slice() != key);
        self.data.push((key.to_vec(), value));
        Ok(())
    }
    fn delete(&mut self, key: &[u8]) -> Result<(), String> {
        self.data.retain(|(k, _)| k.as_slice() != key);
        Ok(())
    }
    fn scan(&self, _start: &[u8], _end: &[u8]) -> Result<Vec<(Vec<u8>, Vec<u8>)>, String> {
        Ok(self.data.clone())
    }
}

#[test]
fn object_store_transactions() {
    let mut store = ObjectStore::new(MemEngine { data: vec![] });
    let t1 = store.begin_transaction().unwrap();
    assert_eq!(t1.id().len(), 36);
    assert!(store.rollback_transaction(t1.id()).is_ok());
    assert_eq!(store.rollback_transaction(t1.id()).unwrap_err(), "Transaction not found");
    let t2 = store.begin_transaction().unwrap();
    assert!(store.commit_transaction(t2.id()).is_ok());
    assert_eq!(store.commit_transaction(t2.id()).unwrap_err(), "Transaction not found");
    assert_eq!(store.get_version(b"missing", 10).unwrap(), None);
    assert_eq!(store.cleanup_versions_before(5), 0);
    assert_eq!(store.cleanup_versions(0).unwrap(), 0);
    assert!(store.cleanup_versions(u64::MAX).is_err());
    assert!(bytes_eq(b"ab", b"ab"));
    assert!(!bytes_eq(b"ab", b"ac"));
    assert!(RaftNode {}.propose(RaftCommand::Delete { key: vec![1], version: 1 }).is_ok());
}

fn qos(reliability: Reliability, durability: Durability) -> QosConfig {
    QosConfig {
        reliability,
        durability,
        deadline: None,
        lifespan: None,
        history: History { kind: HistoryKind::KeepLast, depth: 2 },
    }
}

#[test]
fn qos_rules() {
    let strong = qos(Reliability::Reliable, Durability::Persistent);
    let weak = qos(Reliability::BestEffort, Durability::Volatile);
    assert!(check_qos_compatibility(&strong, &weak));
    assert!(!check_qos_compatibility(&weak, &strong));
    assert!(!check_qos_compatibility(
        &qos(Reliability::Reliable, Durability::Transient),
        &qos(Reliability::Reliable, Durability::Persistent)
    ));
}

#[test]
fn router_delivers_by_topic_and_qos() {
    let mut r: Router<u8> = Router::new();
    let sub = |topic: &str, q: QosConfig| SubscriberConfig {
        topic: topic.to_string(),
        data_type: "bytes".to_string(),
        qos: q,
        partition: None,
        content_filter: None,
    };
    r.add_subscription("n1".to_string(), sub("a", qos(Reliability::BestEffort, Durability::Volatile)), 1).unwrap();
    r.add_subscription("n2".to_string(), sub("a", qos(Reliability::Reliable, Durability::Volatile)), 2).unwrap();
    r.add_subscription("n3".to_string(), sub("b", qos(Reliability::BestEffort, Durability::Volatile)), 3).unwrap();
    let publisher = PublisherConfig {
        topic: "a".to_string(),
        data_type: "bytes".to_string(),
        qos: qos(Reliability::BestEffort, Durability::Volatile),
        partition: None,
    };
    let msg: Message = publisher.make_message(vec![9], 100);
    assert_eq!(msg.sequence_number, 0);
    assert_eq!(msg.source_node, "");
    let to = r.route_message_at(msg, 100);
    assert_eq!(to, vec![0]);
    assert_eq!(r.subscriber(0).tx, 1);
    assert_eq!(r.metrics().get_counter("router.subscriptions.added").unwrap(), 3);
    r.remove_subscription("n1", "a").unwrap();
    assert_eq!(r.metrics().get_counter("router.subscriptions.removed").unwrap(), 1);
    r.record_routed();
    assert_eq!(r.metrics().get_counter("router.messages.routed").unwrap(), 1);
    let msg2 = publisher.make_message(vec![1], 101);
    assert!(r.route_message_at(msg2, 101).is_empty());
}

#[test]
fn connection_keeper_steps() {
    let m = ConnectionManager::new("127.0.0.1:1".to_string(), "me".to_string());
    assert_eq!(m.next_step(2, true), (0, ConnectionAction::WaitSecs(5)));
    assert_eq!(m.next_step(0, false), (1, ConnectionAction::WaitSecs(1)));
    assert_eq!(m.next_step(3, false), (3, ConnectionAction::GiveUp));
}

#[test]
fn default_settings() {
    let s = Settings::default();
    assert_eq!(s.max_workers, 4);
    assert_eq!(s.task_timeout, 30);
    assert_eq!(s.log_level, "info");
    assert_eq!(s.api_port, 3000);
    assert_eq!(s.data_dir, "/data");
    assert!(s.enable_gpu && !s.enable_ssl && s.enable_compression);
}

#[test]
fn counters_accumulate() {
    let mut m = rustray::metrics::MetricsCollector::new();
    assert_eq!(m.get_counter("jobs").unwrap(), 0);
    m.increment_counter("jobs", 3).unwrap();
    m.increment_counter("jobs", -1).unwrap();
    m.increment_counter("errors", 1).unwrap();
    assert_eq!(m.get_counter("jobs").unwrap(), 2);
    assert_eq!(m.get_counter("errors").unwrap(), 1);
}

#[test]
fn timers_run_until_stopped() {
    let mut m = rustray::metrics::MetricsCollector::new();
    assert_eq!(m.stop_timer("t").unwrap_err(), "Timer t not found");
    m.start_timer("t").unwrap();
    assert!(m.stop_timer("t").is_ok());
    assert_eq!(m.stop_timer("t").unwrap_err(), "Timer t not found");
}

#[test]
fn worker_status_reply_is_zero() {
    let r = rustray::grpc::get_status_response();
    assert_eq!(
        r.status,
        Some(rustray::worker::reconnect::WorkerStatus { cpu_usage: 0, memory_usage: 0, task_count: 0 })
    );
}

#[test]
fn route_message_always_succeeds() {
    let mut r: Router<u8> = Router::new();
    let q = qos(Reliability::BestEffort, Durability::Volatile);
    r.add_subscription(
        "n".to_string(),
        SubscriberConfig { topic: "t".to_string(), data_type: "d".to_string(), qos: q, partition: None, content_filter: None },
        0,
    )
    .unwrap();
    let publisher = PublisherConfig { topic: "t".to_string(), data_type: "d".to_string(), qos: q, partition: None };
    assert_eq!(r.route_message(publisher.make_message(vec![1], 5)).unwrap(), vec![0]);
    let other = PublisherConfig { topic: "u".to_string(), ..publisher };
    assert!(r.route_message(other.make_message(vec![], 5)).unwrap().is_empty());
}

#[test]
fn with_circuit_breaker_guards_calls() {
    let mut b = CircuitBreaker::new(1, std::time::Duration::from_secs(60));
    let ok: Result<u32, SystemError> = with_circuit_breaker(&mut b, || Ok(3));
    assert_eq!(ok.unwrap(), 3);
    assert_eq!(b.failures(), 0);
    let failed: Result<u32, SystemError> = with_circuit_breaker(&mut b, || Err(SystemError::Timeout("t".to_string())));
    assert!(matches!(failed, Err(SystemError::Timeout(_))));
    assert_eq!(b.failures(), 1);
    let mut ran = false;
    let refused: Result<u32, SystemError> = with_circuit_breaker(&mut b, || {
        ran = true;
        Ok(4)
    });
    assert!(!ran);
    match refused {
        Err(SystemError::Overload(m)) => assert_eq!(m, "Circuit breaker is open"),
        other => panic!("unexpected {:?}", other),
    }
    assert_eq!(b.failures(), 1);
}

#[test]
fn breaker_closes_after_reset_timeout() {
    let mut b = CircuitBreaker::new(1, std::time::Duration::from_millis(50));
    let long_ago = monotonic_now() - std::time::Duration::from_secs(10);
    b.record_failure_at(long_ago);
    assert!(!time_within(&long_ago, &std::time::Duration::from_millis(50)));
    assert!(!b.is_open());
    assert!(b.check_closed().is_ok());
    b.record_failure_at(monotonic_now());
    assert!(b.is_open());
    b.record_success();
    assert_eq!(b.failures(), 0);
    assert!(!b.is_open());
}
