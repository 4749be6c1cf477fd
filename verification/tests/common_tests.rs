use rustray::common::{TaskPriority, TaskStatus};

#[test]
fn test_task_priority_default() {
    assert_eq!(TaskPriority::default(), TaskPriority::Normal);
}

#[test]
fn task_status_values_are_distinct() {
    assert_ne!(TaskStatus::Pending, TaskStatus::Completed);
    assert_eq!(TaskStatus::Failed, TaskStatus::Failed);
}
