//! The task API: creation requests and the lifecycle actions on a task.
use vstd::prelude::*;
use crate::error::AppError;
use crate::models::{TaskConfig, TaskPriority, TaskStatus};
use crate::text::text_eq;

verus! {

/// Body of a task creation request.
#[derive(Debug, Clone)]
pub struct CreateTaskRequest {
    /// Task name.
    pub name: String,
    /// Task type.
    pub task_type: String,
    /// Priority.
    pub priority: TaskPriority,
    /// Description.
    pub description: Option<String>,
    /// Execution settings.
    pub config: TaskConfig,
}

/// What happens to a timestamp of the task record.
#[derive(Debug, Clone, Copy, PartialEq, Eq, Structural)]
pub enum StampChange {
    /// Left as it is.
    Keep,
    /// Set to the current time.
    SetNow,
    /// Cleared.
    Clear,
}

/// What an accepted action does to the task record.
#[derive(Debug, Clone, Copy, PartialEq, Eq, Structural)]
pub enum TaskActionPlan {
    /// The record is updated and sent back.
    Update {
        /// New status.
        status: TaskStatus,
        /// Change of the start time.
        started_at: StampChange,
        /// Change of the completion time.
        completed_at: StampChange,
        /// Whether progress goes back to zero.
        reset_progress: bool,
    },
    /// The record is deleted.
    Delete,
}

/// The action names, as they stand in the request path.
pub open spec fn is_start(a: Seq<char>) -> bool { a == "start"@ }
pub open spec fn is_pause(a: Seq<char>) -> bool { a == "pause"@ }
pub open spec fn is_stop(a: Seq<char>) -> bool { a == "stop"@ }
pub open spec fn is_retry(a: Seq<char>) -> bool { a == "retry"@ }
pub open spec fn is_delete(a: Seq<char>) -> bool { a == "delete"@ }

/// The message of a task error, or `None` for any other result.
pub open spec fn task_error_message<T>(r: Result<T, AppError>) -> Option<Seq<char>> {
    match r {
        Err(AppError::Task(m)) => Some(m@),
        _ => None,
    }
}

/// Decides what the action named `action` does to a task in state `status`:
/// "start" takes a pending task to running and stamps its start; "pause"
/// takes a running task back to pending; "stop" takes a running task to
/// failed and stamps its completion; "retry" takes a failed task back to
/// pending, clears both stamps and resets its progress; "delete" deletes a
/// completed or failed task. An action in the wrong state is a task error;
/// any other action name is a bad request ("Invalid action").
pub fn plan_task_action(status: TaskStatus, action: &str) -> (r: Result<TaskActionPlan, AppError>)
    ensures
        is_start(action@) ==> if status == TaskStatus::Pending {
            r == Ok::<TaskActionPlan, AppError>(
                TaskActionPlan::Update {
                    status: TaskStatus::Running,
                    started_at: StampChange::SetNow,
                    completed_at: StampChange::Keep,
                    reset_progress: false,
                },
            )
        } else {
            task_error_message(r) == Some("Task is not in pending state"@)
        },
        !is_start(action@) && is_pause(action@) ==> if status == TaskStatus::Running {
            r == Ok::<TaskActionPlan, AppError>(
                TaskActionPlan::Update {
                    status: TaskStatus::Pending,
                    started_at: StampChange::Keep,
                    completed_at: StampChange::Keep,
                    reset_progress: false,
                },
            )
        } else {
            task_error_message(r) == Some("Task is not running"@)
        },
        !is_start(action@) && !is_pause(action@) && is_stop(action@) ==> if status
            == TaskStatus::Running {
            r == Ok::<TaskActionPlan, AppError>(
                TaskActionPlan::Update {
                    status: TaskStatus::Failed,
                    started_at: StampChange::Keep,
                    completed_at: StampChange::SetNow,
                    reset_progress: false,
                },
            )
        } else {
            task_error_message(r) == Some("Task is not running"@)
        },
        !is_start(action@) && !is_pause(action@) && !is_stop(action@) && is_retry(action@) ==> if status
            == TaskStatus::Failed {
            r == Ok::<TaskActionPlan, AppError>(
                TaskActionPlan::Update {
                    status: TaskStatus::Pending,
                    started_at: StampChange::Clear,
                    completed_at: StampChange::Clear,
                    reset_progress: true,
                },
            )
        } else {
            task_error_message(r) == Some("Task is not failed"@)
        },
        !is_start(action@) && !is_pause(action@) && !is_stop(action@) && !is_retry(action@)
            && is_delete(action@) ==> if status == TaskStatus::Completed || status
            == TaskStatus::Failed {
            r == Ok::<TaskActionPlan, AppError>(TaskActionPlan::Delete)
        } else {
            task_error_message(r) == Some("Can only delete completed or failed tasks"@)
        },
        !is_start(action@) && !is_pause(action@) && !is_stop(action@) && !is_retry(action@)
            && !is_delete(action@) ==> (r matches Err(AppError::BadRequest(m)) && m@
            == "Invalid action"@),
{
    if text_eq(action, "start") {
        if status != TaskStatus::Pending {
            return Err(AppError::Task(String::from_str("Task is not in pending state")));
        }
        Ok(
            TaskActionPlan::Update {
                status: TaskStatus::Running,
                started_at: StampChange::SetNow,
                completed_at: StampChange::Keep,
                reset_progress: false,
            },
        )
    } else if text_eq(action, "pause") {
        if status != TaskStatus::Running {
            return Err(AppError::Task(String::from_str("Task is not running")));
        }
        Ok(
            TaskActionPlan::Update {
                status: TaskStatus::Pending,
                started_at: StampChange::Keep,
                completed_at: StampChange::Keep,
                reset_progress: false,
            },
        )
    } else if text_eq(action, "stop") {
        if status != TaskStatus::Running {
            return Err(AppError::Task(String::from_str("Task is not running")));
        }
        Ok(
            TaskActionPlan::Update {
                status: TaskStatus::Failed,
                started_at: StampChange::Keep,
                completed_at: StampChange::SetNow,
                reset_progress: false,
            },
        )
    } else if text_eq(action, "retry") {
        if status != TaskStatus::Failed {
            return Err(AppError::Task(String::from_str("Task is not failed")));
        }
        Ok(
            TaskActionPlan::Update {
                status: TaskStatus::Pending,
                started_at: StampChange::Clear,
                completed_at: StampChange::Clear,
                reset_progress: true,
            },
        )
    } else if text_eq(action, "delete") {
        if !(status == TaskStatus::Completed || status == TaskStatus::Failed) {
            return Err(AppError::Task(String::from_str("Can only delete completed or failed tasks")));
        }
        Ok(TaskActionPlan::Delete)
    } else {
        Err(AppError::BadRequest(String::from_str("Invalid action")))
    }
}

} // verus!
