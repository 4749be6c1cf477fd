//! Records of the HTTP API: task settings and status, network status and the
//! server settings.
use vstd::prelude::*;

verus! {

/// Execution settings of a task.
#[derive(Debug, Clone, Copy, PartialEq, Eq, Structural)]
pub struct TaskConfig {
    /// Maximum number of workers.
    pub max_workers: u32,
    /// Timeout in seconds.
    pub timeout: u32,
    /// Retries allowed.
    pub retry_count: u32,
    /// Whether the task uses a GPU.
    pub use_gpu: bool,
}

/// Lifecycle state of a task record.
#[derive(Debug, Clone, Copy, PartialEq, Eq, Structural)]
pub enum TaskStatus {
    /// Created, not running.
    Pending,
    /// Running.
    Running,
    /// Finished.
    Completed,
    /// Failed or stopped.
    Failed,
}

/// Priority of a task record.
#[derive(Debug, Clone, Copy, PartialEq, Eq, Structural)]
pub enum TaskPriority {
    /// Low.
    Low,
    /// Medium.
    Medium,
    /// High.
    High,
}

/// Network throughput and connection count.
#[derive(Debug, Clone, Copy, PartialEq, Eq, Structural)]
pub struct NetworkStatus {
    /// Bytes sent since the previous reading.
    pub upload_speed: u64,
    /// Bytes received since the previous reading.
    pub download_speed: u64,
    /// Bytes sent and received in all.
    pub total_traffic: u64,
    /// Open connections.
    pub connections: u32,
}

/// Server settings.
#[derive(Debug, Clone)]
pub struct Settings {
    /// Maximum number of workers.
    pub max_workers: u32,
    /// Task timeout.
    pub task_timeout: u32,
    /// Log level.
    pub log_level: String,
    /// Memory limit.
    pub max_memory: u32,
    /// CPU priority.
    pub cpu_priority: String,
    /// Whether GPUs are used.
    pub enable_gpu: bool,
    /// API port.
    pub api_port: u16,
    /// Maximum number of connections.
    pub max_connections: u32,
    /// Whether SSL is on.
    pub enable_ssl: bool,
    /// Data directory.
    pub data_dir: String,
    /// Backup interval.
    pub backup_interval: u32,
    /// Whether compression is on.
    pub enable_compression: bool,
}

impl Default for Settings {
    fn default() -> (s: Self)
        ensures
            s.max_workers == 4,
            s.task_timeout == 30,
            s.log_level@ == "info"@,
            s.max_memory == 8,
            s.cpu_priority@ == "normal"@,
            s.enable_gpu,
            s.api_port == 3000,
            s.max_connections == 100,
            !s.enable_ssl,
            s.data_dir@ == "/data"@,
            s.backup_interval == 24,
            s.enable_compression,
    {
        Settings {
            max_workers: 4,
            task_timeout: 30,
            log_level: String::from_str("info"),
            max_memory: 8,
            cpu_priority: String::from_str("normal"),
            enable_gpu: true,
            api_port: 3000,
            max_connections: 100,
            enable_ssl: false,
            data_dir: String::from_str("/data"),
            backup_interval: 24,
            enable_compression: true,
        }
    }
}

} // verus!
