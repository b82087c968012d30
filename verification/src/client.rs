//! What the runner says about its processes.
use crate::config::copy_text;
use vstd::prelude::*;

verus! {

/// Where a service is in its life.
#[derive(Debug, Clone, Copy, PartialEq, Eq, Structural)]
pub enum ServiceState {
    Pending,
    Building,
    Starting,
    Running,
    Ready,
    Unhealthy,
    Stopping,
    Stopped,
    Failed,
    /// Never started, because something it needs failed.
    DependencyFailed,
    /// Started by its first connection.
    Lazy,
}

/// Where a task is in its life.
#[derive(Debug, Clone, Copy, PartialEq, Eq, Structural)]
pub enum TaskState {
    Pending,
    /// Waiting for the user to run it.
    PendingRun,
    Running,
    Building,
    Completed,
    Failed,
    DependencyFailed,
    Skipped,
}

/// How a task's last run went.
#[derive(Debug)]
pub struct TaskRunInfo {
    pub finished_at_unix_secs: u64,
    pub duration_ms: Option<u64>,
    pub success: bool,
    pub exit_code: Option<i32>,
    pub message: Option<String>,
}

impl TaskRunInfo {
    /// The same record again.
    pub fn copy(&self) -> (r: TaskRunInfo)
        ensures
            r == *self,
    {
        TaskRunInfo {
            finished_at_unix_secs: self.finished_at_unix_secs,
            duration_ms: self.duration_ms,
            success: self.success,
            exit_code: self.exit_code,
            message: copy_text(&self.message),
        }
    }
}

/// Why the candidates for a parameter could not be listed.
#[derive(Debug)]
pub struct CompletionError {
    pub message: String,
    /// Where the command's output was kept.
    pub log_path: Option<String>,
}

/// A service's local process.
#[derive(Debug, Clone, Copy, PartialEq, Eq, Structural)]
pub struct ServiceRuntime {
    pub pid: Option<i32>,
}

/// One process in a snapshot.
#[derive(Debug)]
pub enum ProcessStatus {
    Service {
        name: String,
        state: ServiceState,
        failed_dependencies: Vec<String>,
        /// Absent when there is no local process.
        runtime: Option<ServiceRuntime>,
    },
    Task {
        name: String,
        state: TaskState,
        failed_dependencies: Vec<String>,
        last_run: Option<TaskRunInfo>,
    },
}

/// Everything the runner knows at one moment.
#[derive(Debug)]
pub struct StateSnapshot {
    pub processes: Vec<ProcessStatus>,
    pub startup_complete: bool,
}

/// A change the runner announces.
#[derive(Debug)]
pub enum RunnerEvent {
    ServiceStateChanged {
        name: String,
        state: ServiceState,
        pid: Option<i32>,
        failed_dependencies: Vec<String>,
    },
    TaskStateChanged {
        name: String,
        state: TaskState,
        last_run: Option<TaskRunInfo>,
        failed_dependencies: Vec<String>,
    },
    UpdateCheck { current_version: String, latest_version: Option<String> },
    StartupSettled,
    ShutdownStarted,
    ShutdownComplete,
}

/// A record of the runner's event stream.
#[derive(Debug)]
pub enum EventStreamItem {
    Event(RunnerEvent),
    /// The opening record: the state at the time of connecting.
    Snapshot(StateSnapshot),
    /// Some events were dropped.
    Lagged(u64),
}

} // verus!
