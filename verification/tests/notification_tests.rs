use rustray::task::notification::{TaskEvent, TaskNotificationSystem};
use std::sync::mpsc;

#[test]
fn test_subscribe_and_publish() {
    let mut system: TaskNotificationSystem<mpsc::Sender<TaskEvent>> = TaskNotificationSystem::new(10, 100);
    let (tx, rx) = mpsc::channel();
    system.subscribe("test-subscriber".to_string(), tx).expect("Failed to subscribe");

    let event = TaskEvent::Created { task_id: "task-1".to_string(), owner: "test-owner".to_string() };
    for (_, sender) in system.subscribers().iter() {
        sender.send(event.clone()).unwrap();
    }

    let received = rx.recv_timeout(std::time::Duration::from_secs(1)).expect("Failed to receive event");
    match (event, received) {
        (
            TaskEvent::Created { task_id: id1, owner: owner1 },
            TaskEvent::Created { task_id: id2, owner: owner2 },
        ) => {
            assert_eq!(id1, id2);
            assert_eq!(owner1, owner2);
        }
        _ => panic!("Event type mismatch"),
    }
}

#[test]
fn test_max_subscribers() {
    let mut system: TaskNotificationSystem<u32> = TaskNotificationSystem::new(2, 100);
    assert!(system.subscribe("subscriber-1".to_string(), 1).is_ok());
    assert!(system.subscribe("subscriber-2".to_string(), 2).is_ok());
    assert!(system.subscribe("subscriber-3".to_string(), 3).is_err());
}

#[test]
fn test_unsubscribe() {
    let mut system: TaskNotificationSystem<u32> = TaskNotificationSystem::new(10, 100);
    assert!(system.subscribe("test-subscriber".to_string(), 0).is_ok());
    assert_eq!(system.get_subscriber_count(), 1);
    system.unsubscribe("test-subscriber");
    assert_eq!(system.get_subscriber_count(), 0);
}

#[test]
fn limit_error_message_and_count() {
    let mut system: TaskNotificationSystem<u32> = TaskNotificationSystem::new(1, 8);
    assert_eq!(system.channel_size(), 8);
    system.subscribe("a".to_string(), 1).unwrap();
    assert_eq!(
        system.subscribe("b".to_string(), 2).unwrap_err(),
        "Maximum number of subscribers reached"
    );
    assert_eq!(system.get_subscriber_count(), 1);
}

#[test]
fn resubscribing_keeps_one_entry() {
    let mut system: TaskNotificationSystem<u32> = TaskNotificationSystem::new(5, 8);
    system.subscribe("a".to_string(), 1).unwrap();
    system.subscribe("a".to_string(), 2).unwrap();
    assert_eq!(system.get_subscriber_count(), 1);
    assert_eq!(system.subscribers()[0].1, 2);
}

#[test]
fn failed_subscribers_are_removed() {
    let mut system: TaskNotificationSystem<u32> = TaskNotificationSystem::new(5, 8);
    system.subscribe("a".to_string(), 1).unwrap();
    system.subscribe("b".to_string(), 2).unwrap();
    system.subscribe("c".to_string(), 3).unwrap();
    system.remove_subscribers(&vec!["b".to_string(), "zz".to_string()]);
    let ids: Vec<String> = system.subscribers().iter().map(|(id, _)| id.clone()).collect();
    assert_eq!(ids, vec!["a".to_string(), "c".to_string()]);
    system.clear_subscribers();
    assert_eq!(system.get_subscriber_count(), 0);
}

#[test]
fn unsubscribing_an_unknown_id_changes_nothing() {
    let mut system: TaskNotificationSystem<u32> = TaskNotificationSystem::new(5, 8);
    system.subscribe("a".to_string(), 1).unwrap();
    system.unsubscribe("b");
    assert_eq!(system.get_subscriber_count(), 1);
}
