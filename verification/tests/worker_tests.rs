use rustray::worker::metrics::{network_totals, storage_totals, InterfaceCounters};
use rustray::worker::reconnect::{
    ConnectionManager, ExponentialBackoff, LinkAction, LinkEvent, LinkState, WorkerStatsProvider, WorkerStatus,
};

struct FixedStats;

impl WorkerStatsProvider for FixedStats {
    fn get_current_stats(&self) -> WorkerStatus {
        WorkerStatus { cpu_usage: 7, memory_usage: 1024, task_count: 2 }
    }
}

#[test]
fn backoff_doubles_up_to_a_minute() {
    let mut b = ExponentialBackoff::new();
    let delays: Vec<u64> = (0..9).map(|_| b.next_backoff()).collect();
    assert_eq!(delays, vec![1000, 2000, 4000, 8000, 16000, 32000, 60000, 60000, 60000]);
    b.reset();
    assert_eq!(b.next_backoff(), 1000);
}

#[test]
fn new_manager_settings() {
    let m = ConnectionManager::new("head:50051".to_string(), "w-1".to_string(), FixedStats);
    assert_eq!(m.retry_interval, 5);
    assert_eq!(m.max_retries, 10);
    assert!(m.is_running);
    assert_eq!(m.endpoint(), "http://head:50051");
    let reg = m.register_request();
    assert_eq!(reg.worker_id, "w-1");
    assert_eq!(reg.address, "head:50051");
    assert_eq!(reg.port, 0);
    let hb = m.heartbeat_request();
    assert_eq!(hb.worker_id, "w-1");
    assert_eq!(hb.status, Some(WorkerStatus { cpu_usage: 7, memory_usage: 1024, task_count: 2 }));
}

#[test]
fn link_connects_then_heartbeats() {
    let m = ConnectionManager::new("h".to_string(), "w".to_string(), FixedStats);
    let mut s = LinkState::new();
    assert_eq!(m.step(&mut s, LinkEvent::Tick), LinkAction::Connect);
    assert_eq!(m.step(&mut s, LinkEvent::ConnectSucceeded), LinkAction::SendHeartbeat);
    assert_eq!(m.step(&mut s, LinkEvent::HeartbeatSent), LinkAction::Wait(5000));
    assert_eq!(m.step(&mut s, LinkEvent::Tick), LinkAction::SendHeartbeat);
    assert_eq!(m.step(&mut s, LinkEvent::HeartbeatFailed), LinkAction::Connect);
    assert!(!s.connected);
}

#[test]
fn link_backs_off_and_gives_up() {
    let m = ConnectionManager::new("h".to_string(), "w".to_string(), FixedStats);
    let mut s = LinkState::new();
    let mut waits = Vec::new();
    for _ in 0..9 {
        match m.step(&mut s, LinkEvent::ConnectFailed) {
            LinkAction::Wait(d) => waits.push(d),
            other => panic!("unexpected {:?}", other),
        }
    }
    assert_eq!(waits, vec![1000, 2000, 4000, 8000, 16000, 32000, 60000, 60000, 60000]);
    assert_eq!(m.step(&mut s, LinkEvent::ConnectFailed), LinkAction::GiveUp);
    assert_eq!(s.retries, 10);
}

#[test]
fn success_clears_failures() {
    let m = ConnectionManager::new("h".to_string(), "w".to_string(), FixedStats);
    let mut s = LinkState::new();
    m.step(&mut s, LinkEvent::ConnectFailed);
    m.step(&mut s, LinkEvent::ConnectFailed);
    assert_eq!(s.retries, 2);
    m.step(&mut s, LinkEvent::ConnectSucceeded);
    assert_eq!(s.retries, 0);
    assert_eq!(m.step(&mut s, LinkEvent::ConnectFailed), LinkAction::Wait(1000));
}

#[test]
fn shutdown_stops_the_link() {
    let mut m = ConnectionManager::new("h".to_string(), "w".to_string(), FixedStats);
    m.shutdown();
    let mut s = LinkState::new();
    assert_eq!(m.step(&mut s, LinkEvent::Tick), LinkAction::Stop);
    assert_eq!(m.step(&mut s, LinkEvent::ConnectSucceeded), LinkAction::Stop);
    assert_eq!(m.step(&mut s, LinkEvent::HeartbeatFailed), LinkAction::Stop);
}

#[test]
fn network_totals_sum_interfaces() {
    let ifaces = vec![
        InterfaceCounters { transmitted: 10, received: 20, packets_transmitted: 1, packets_received: 2 },
        InterfaceCounters { transmitted: 5, received: 7, packets_transmitted: 3, packets_received: 4 },
    ];
    let m = network_totals(&ifaces);
    assert_eq!((m.bytes_sent, m.bytes_recv, m.packets_sent, m.packets_recv), (15, 27, 4, 6));
    let empty = network_totals(&vec![]);
    assert_eq!(empty.bytes_sent, 0);
}

#[test]
fn storage_totals_sum_disks() {
    assert_eq!(storage_totals(&vec![(100, 40), (50, 10)]), (150, 100, 50));
    assert_eq!(storage_totals(&vec![]), (0, 0, 0));
}
