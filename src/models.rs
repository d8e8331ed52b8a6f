//! The records held by the store and the requests that drive it.
//! Instants are milliseconds since the Unix epoch (UTC).
use vstd::prelude::*;

verus! {

/// A named collection of related tasks.
#[derive(Debug)]
pub struct TaskGroup {
    pub id: String,
    pub name: String,
    pub description: Option<String>,
    pub created_at: i64,
    pub updated_at: i64,
}

/// A unit of trackable work. With `duration_minutes` set the task has a
/// fixed duration; without it the task is timed like a stopwatch.
#[derive(Debug)]
pub struct Task {
    pub id: String,
    pub task_group_id: String,
    pub name: String,
    pub description: Option<String>,
    pub duration_minutes: Option<i32>,
    pub created_at: i64,
    pub updated_at: i64,
}

/// One timed occurrence of work on a task.
#[derive(Debug)]
pub struct TaskSession {
    pub id: String,
    pub task_id: String,
    pub start_time: i64,
    pub end_time: Option<i64>,
    pub duration_minutes: Option<i32>,
    pub completed: bool,
    pub is_paused: bool,
    pub paused_at: Option<i64>,
    pub total_paused_duration_ms: i64,
    pub created_at: i64,
}

#[derive(Debug)]
pub struct CreateTaskGroupRequest {
    pub name: String,
    pub description: Option<String>,
}

#[derive(Debug)]
pub struct UpdateTaskGroupRequest {
    pub name: Option<String>,
    pub description: Option<String>,
}

#[derive(Debug)]
pub struct CreateTaskRequest {
    pub task_group_id: String,
    pub name: String,
    pub description: Option<String>,
    pub duration_minutes: Option<i32>,
}

#[derive(Debug)]
pub struct UpdateTaskRequest {
    pub name: Option<String>,
    pub description: Option<String>,
    pub duration_minutes: Option<i32>,
}

#[derive(Debug)]
pub struct StartSessionRequest {
    pub task_id: String,
}

#[derive(Debug)]
pub struct EndSessionRequest {
    pub session_id: String,
    pub duration_minutes: Option<i32>,
}

#[derive(Debug)]
pub struct PauseSessionRequest {
    pub session_id: String,
}

#[derive(Debug)]
pub struct ResumeSessionRequest {
    pub session_id: String,
}

/// A time range for statistics, as RFC 3339 date-time texts, both ends included.
/// Both the per-task and the per-group lists are always produced, whatever `group_by` says.
#[derive(Debug)]
pub struct StatisticsRequest {
    pub start_date: String,
    pub end_date: String,
    pub group_by: StatisticsGroupBy,
}

#[derive(Debug, Clone, Copy, PartialEq, Eq, Structural)]
pub enum StatisticsGroupBy {
    Task,
    TaskGroup,
}

/// Aggregates of one task over a time range.
/// `completion_rate_bp` is the completion rate in basis points
/// (completed sessions per ten thousand sessions, rounded down; 0 without sessions).
#[derive(Debug)]
pub struct TaskStatistics {
    pub task_id: String,
    pub task_name: String,
    pub task_group_name: String,
    pub total_sessions: u64,
    pub total_duration_minutes: i128,
    pub completed_sessions: u64,
    pub completion_rate_bp: u64,
}

/// Aggregates of one task group over a time range; `total_tasks` counts
/// every task of the group, with or without sessions in the range.
#[derive(Debug)]
pub struct TaskGroupStatistics {
    pub task_group_id: String,
    pub task_group_name: String,
    pub total_tasks: u64,
    pub total_sessions: u64,
    pub total_duration_minutes: i128,
    pub completed_sessions: u64,
    pub completion_rate_bp: u64,
}

#[derive(Debug)]
pub struct StatisticsResponse {
    pub task_statistics: Vec<TaskStatistics>,
    pub task_group_statistics: Vec<TaskGroupStatistics>,
}

/// The open session with the task and the group it belongs to.
#[derive(Debug)]
pub struct ActiveSession {
    pub session: TaskSession,
    pub task: Task,
    pub task_group: TaskGroup,
}

/// Why an operation on the store was refused.
#[derive(Debug, Clone, Copy, PartialEq, Eq, Structural)]
pub enum StoreError {
    /// A referenced group, task or session does not exist.
    NotFound,
    /// A session is already open, or a session is not in the state the operation needs.
    Conflict,
    /// Empty required text, or an unreadable date-range bound.
    Validation,
    /// The stored records break the store's invariants, or an identifier is taken.
    Storage,
}

impl StoreError {
    /// A human-readable description of the error.
    pub fn message(&self) -> (r: String)
        ensures
            r@ == match self {
                StoreError::NotFound => "not found"@,
                StoreError::Conflict => "conflict with the current session state"@,
                StoreError::Validation => "invalid input"@,
                StoreError::Storage => "storage error"@,
            },
            r@.len() > 0,
    {
        proof {
            reveal_strlit("not found");
            reveal_strlit("conflict with the current session state");
            reveal_strlit("invalid input");
            reveal_strlit("storage error");
        }
        match self {
            StoreError::NotFound => String::from_str("not found"),
            StoreError::Conflict => String::from_str("conflict with the current session state"),
            StoreError::Validation => String::from_str("invalid input"),
            StoreError::Storage => String::from_str("storage error"),
        }
    }
}

pub fn copy_text(s: &Option<String>) -> (r: Option<String>)
    ensures
        r == *s,
{
    match s {
        Some(t) => Some(t.clone()),
        None => None,
    }
}

impl TaskGroup {
    pub fn copy(&self) -> (r: TaskGroup)
        ensures
            r == *self,
    {
        TaskGroup {
            id: self.id.clone(),
            name: self.name.clone(),
            description: copy_text(&self.description),
            created_at: self.created_at,
            updated_at: self.updated_at,
        }
    }
}

impl Task {
    pub fn copy(&self) -> (r: Task)
        ensures
            r == *self,
    {
        Task {
            id: self.id.clone(),
            task_group_id: self.task_group_id.clone(),
            name: self.name.clone(),
            description: copy_text(&self.description),
            duration_minutes: self.duration_minutes,
            created_at: self.created_at,
            updated_at: self.updated_at,
        }
    }
}

impl TaskSession {
    pub fn copy(&self) -> (r: TaskSession)
        ensures
            r == *self,
    {
        TaskSession {
            id: self.id.clone(),
            task_id: self.task_id.clone(),
            start_time: self.start_time,
            end_time: self.end_time,
            duration_minutes: self.duration_minutes,
            completed: self.completed,
            is_paused: self.is_paused,
            paused_at: self.paused_at,
            total_paused_duration_ms: self.total_paused_duration_ms,
            created_at: self.created_at,
        }
    }
}

impl TaskStatistics {
    pub fn copy(&self) -> (r: TaskStatistics)
        ensures
            r == *self,
    {
        TaskStatistics {
            task_id: self.task_id.clone(),
            task_name: self.task_name.clone(),
            task_group_name: self.task_group_name.clone(),
            total_sessions: self.total_sessions,
            total_duration_minutes: self.total_duration_minutes,
            completed_sessions: self.completed_sessions,
            completion_rate_bp: self.completion_rate_bp,
        }
    }
}

impl TaskGroupStatistics {
    pub fn copy(&self) -> (r: TaskGroupStatistics)
        ensures
            r == *self,
    {
        TaskGroupStatistics {
            task_group_id: self.task_group_id.clone(),
            task_group_name: self.task_group_name.clone(),
            total_tasks: self.total_tasks,
            total_sessions: self.total_sessions,
            total_duration_minutes: self.total_duration_minutes,
            completed_sessions: self.completed_sessions,
            completion_rate_bp: self.completion_rate_bp,
        }
    }
}

} // verus!
