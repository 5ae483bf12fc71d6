//! Tasks: their records, their status, and the payloads of the task API.

pub mod db;
pub mod routers;
pub mod routes;
pub mod usecases;

use vstd::prelude::*;

pub use crate::block_task::{ConnectBlockTask, ReconnectBlockTask};
pub use crate::sub_task::ReconnectSubTask;

verus! {

/// Whether a task is finished.
#[derive(Debug, Clone, Copy, PartialEq, Eq, Structural)]
pub enum TaskStatus {
    Todo,
    Done,
}

impl Default for TaskStatus {
    fn default() -> (s: Self)
        ensures
            s == TaskStatus::Todo,
    {
        TaskStatus::Todo
    }
}

/// The status a stored status name stands for: `"Done"` is done, any other
/// name (`"Todo"` among them) is to do.
pub open spec fn status_from_name(name: Seq<char>) -> TaskStatus {
    if name == "Done"@ {
        TaskStatus::Done
    } else {
        TaskStatus::Todo
    }
}

impl From<String> for TaskStatus {
    fn from(value: String) -> (s: Self) {
        let done = "Done".to_owned();
        if value == done {
            TaskStatus::Done
        } else {
            TaskStatus::Todo
        }
    }
}

impl vstd::std_specs::convert::FromSpecImpl<String> for TaskStatus {
    open spec fn obeys_from_spec() -> bool {
        true
    }

    open spec fn from_spec(v: String) -> TaskStatus {
        status_from_name(v@)
    }
}

/// A task as the API returns it: its record, the identifiers of its direct
/// sub tasks and of the tasks it blocks, each list sorted and without
/// duplicates.
pub struct Task {
    pub id: String,
    pub status: TaskStatus,
    pub title: String,
    pub description: String,
    pub user_id: String,
    pub sub_task_ids: Vec<String>,
    pub blocked_task_ids: Vec<String>,
    pub created_at: String,
    pub updated_at: String,
}

/// Mathematical value of a [`Task`].
pub struct TaskView {
    pub id: Seq<char>,
    pub status: TaskStatus,
    pub title: Seq<char>,
    pub description: Seq<char>,
    pub user_id: Seq<char>,
    pub sub_task_ids: Seq<Seq<char>>,
    pub blocked_task_ids: Seq<Seq<char>>,
    pub created_at: Seq<char>,
    pub updated_at: Seq<char>,
}

impl View for Task {
    type V = TaskView;

    open spec fn view(&self) -> TaskView {
        TaskView {
            id: self.id@,
            status: self.status,
            title: self.title@,
            description: self.description@,
            user_id: self.user_id@,
            sub_task_ids: crate::graph::ids_view(self.sub_task_ids@),
            blocked_task_ids: crate::graph::ids_view(self.blocked_task_ids@),
            created_at: self.created_at@,
            updated_at: self.updated_at@,
        }
    }
}

/// Whether a string's UTF-8 length lies in `[min, max]`.
pub open spec fn byte_len_within(s: Seq<char>, min: int, max: int) -> bool {
    min <= vstd::utf8::encode_utf8(s).len() <= max
}

pub(crate) fn byte_len_between(s: &String, min: usize, max: usize) -> (r: bool)
    ensures
        r == byte_len_within(s@, min as int, max as int),
{
    let n = s.as_str().as_bytes().len();
    min <= n && n <= max
}

/// Payload that makes `subtask_id` a sub task of `parent_task_id` (older
/// naming of [`crate::sub_task::ConnectSubTask`]).
pub struct ConnectSubtask {
    pub parent_task_id: String,
    pub subtask_id: String,
}

/// Payload that moves a sub-task link (older naming).
pub struct ReconnectSubtask {
    pub old_parent_task_id: String,
    pub old_subtask_id: String,
    pub new_parent_task_id: String,
    pub new_subtask_id: String,
}

/// Payload that removes a sub-task link (older naming).
pub struct DisconnectSubtask {
    pub parent_task_id: String,
    pub subtask_id: String,
}

/// Payload that makes `subtask_id` a sub task of `parent_task_id`, with
/// the ownership check only.
pub struct CreateSubtask {
    pub parent_task_id: String,
    pub subtask_id: String,
}

/// Payload that creates a task.
pub struct CreateTask {
    pub title: String,
}

impl CreateTask {
    /// The title holds between 1 and 100 bytes.
    pub open spec fn is_valid(&self) -> bool {
        byte_len_within(self.title@, 1, 100)
    }

    /// Checks the payload's rules.
    pub fn validate(&self) -> (r: bool)
        ensures
            r == self.is_valid(),
    {
        byte_len_between(&self.title, 1, 100)
    }
}

/// Payload that changes a task: its title, its status and, when given,
/// its description.
pub struct UpdateTask {
    pub title: String,
    /// The new description; `None` keeps the stored one.
    pub description: Option<String>,
    pub status: TaskStatus,
}

impl UpdateTask {
    /// The description given, as a mathematical value.
    pub open spec fn description_view(&self) -> Option<Seq<char>> {
        match self.description {
            Some(d) => Some(d@),
            None => None,
        }
    }

    /// The title holds between 1 and 100 bytes, a given description at most
    /// 2000.
    pub open spec fn is_valid(&self) -> bool {
        &&& byte_len_within(self.title@, 1, 100)
        &&& (self.description matches Some(d) ==> byte_len_within(d@, 0, 2000))
    }

    /// Checks the payload's rules.
    pub fn validate(&self) -> (r: bool)
        ensures
            r == self.is_valid(),
    {
        byte_len_between(&self.title, 1, 100) && match &self.description {
            Some(d) => byte_len_between(d, 0, 2000),
            None => true,
        }
    }
}

/// Payload that changes a task's status.
pub struct UpdateTaskStatus {
    pub status: TaskStatus,
}

/// Answer to the deletion of a task.
pub struct DeleteTaskResponse {
    pub task_id: String,
}

} // verus!
