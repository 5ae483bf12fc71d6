//! The task endpoints: their paths and, in submodules, what each answers.

pub mod connect_block_task;
pub mod connect_subtask;
pub mod disconnect_subtask;
pub mod reconnect_block_task;
pub mod reconnect_sub_task;
pub mod reconnect_subtask;
pub mod create_subtask;
pub mod create_task;
pub mod delete_task;
pub mod get_task;
pub mod get_tasks;
pub mod update_task;
pub mod update_task_status;

use vstd::prelude::*;
use vstd::string::*;

verus! {

/// Route paths of the task endpoints.
pub struct TaskPaths;

impl TaskPaths {
    /// `/tasks`
    pub fn tasks() -> (s: String)
        ensures
            s@ == "/tasks"@,
    {
        "/tasks".to_owned()
    }

    /// `/tasks/:id`
    pub fn task() -> (s: String)
        ensures
            s@ == "/tasks/:id"@,
    {
        let s = Self::tasks().concat("/:id");
        proof {
            reveal_strlit("/tasks");
            reveal_strlit("/:id");
            reveal_strlit("/tasks/:id");
        }
        s
    }

    /// `/tasks/{id}`, as the API description writes it.
    pub fn task_open_api() -> (s: String)
        ensures
            s@ == "/tasks/{id}"@,
    {
        let s = Self::tasks().concat("/{id}");
        proof {
            reveal_strlit("/tasks");
            reveal_strlit("/{id}");
            reveal_strlit("/tasks/{id}");
        }
        s
    }

    /// `/update-status`
    pub fn update_task_status_base() -> (s: String)
        ensures
            s@ == "/update-status"@,
    {
        "/update-status".to_owned()
    }

    /// `/tasks/:id/update-status`
    pub fn update_task_status() -> (s: String)
        ensures
            s@ == "/tasks/:id/update-status"@,
    {
        let base = Self::update_task_status_base();
        let s = Self::task().concat(base.as_str());
        proof {
            reveal_strlit("/tasks/:id");
            reveal_strlit("/update-status");
            reveal_strlit("/tasks/:id/update-status");
        }
        s
    }

    /// `/tasks/{id}/update-status`
    pub fn update_task_status_open_api() -> (s: String)
        ensures
            s@ == "/tasks/{id}/update-status"@,
    {
        let base = Self::update_task_status_base();
        let s = Self::task_open_api().concat(base.as_str());
        proof {
            reveal_strlit("/tasks/{id}");
            reveal_strlit("/update-status");
            reveal_strlit("/tasks/{id}/update-status");
        }
        s
    }

    /// `/subtask`
    pub fn subtask() -> (s: String)
        ensures
            s@ == "/subtask"@,
    {
        "/subtask".to_owned()
    }

    /// `/subtask/connect`
    pub fn connect_subtask() -> (s: String)
        ensures
            s@ == "/subtask/connect"@,
    {
        let s = Self::subtask().concat("/connect");
        proof {
            reveal_strlit("/subtask");
            reveal_strlit("/connect");
            reveal_strlit("/subtask/connect");
        }
        s
    }

    /// `/subtask/reconnect`
    pub fn reconnect_subtask() -> (s: String)
        ensures
            s@ == "/subtask/reconnect"@,
    {
        let s = Self::subtask().concat("/reconnect");
        proof {
            reveal_strlit("/subtask");
            reveal_strlit("/reconnect");
            reveal_strlit("/subtask/reconnect");
        }
        s
    }

    /// `/subtask/disconnect`
    pub fn disconnect_subtask() -> (s: String)
        ensures
            s@ == "/subtask/disconnect"@,
    {
        let s = Self::subtask().concat("/disconnect");
        proof {
            reveal_strlit("/subtask");
            reveal_strlit("/disconnect");
            reveal_strlit("/subtask/disconnect");
        }
        s
    }

    /// `/block-task`
    pub fn block_task() -> (s: String)
        ensures
            s@ == "/block-task"@,
    {
        "/block-task".to_owned()
    }

    /// `/block-task/connect`
    pub fn connect_block_task() -> (s: String)
        ensures
            s@ == "/block-task/connect"@,
    {
        let s = Self::block_task().concat("/connect");
        proof {
            reveal_strlit("/block-task");
            reveal_strlit("/connect");
            reveal_strlit("/block-task/connect");
        }
        s
    }

    /// `/block-task/reconnect`
    pub fn reconnect_block_task() -> (s: String)
        ensures
            s@ == "/block-task/reconnect"@,
    {
        let s = Self::block_task().concat("/reconnect");
        proof {
            reveal_strlit("/block-task");
            reveal_strlit("/reconnect");
            reveal_strlit("/block-task/reconnect");
        }
        s
    }

    /// `/block-task/disconnect`
    pub fn disconnect_block_task() -> (s: String)
        ensures
            s@ == "/block-task/disconnect"@,
    {
        let s = Self::block_task().concat("/disconnect");
        proof {
            reveal_strlit("/block-task");
            reveal_strlit("/disconnect");
            reveal_strlit("/block-task/disconnect");
        }
        s
    }

    /// The path of one task: `/tasks/` and its identifier.
    pub fn one_task(id: &str) -> (s: String)
        ensures
            s@ == "/tasks/"@ + id@,
    {
        let s = Self::tasks().concat("/").concat(id);
        proof {
            reveal_strlit("/tasks");
            reveal_strlit("/");
            reveal_strlit("/tasks/");
            assert("/tasks"@ + "/"@ + id@ =~= "/tasks/"@ + id@);
        }
        s
    }

    /// The path that changes the status of one task.
    pub fn one_update_task_status(id: &str) -> (s: String)
        ensures
            s@ == "/tasks/"@ + id@ + "/update-status"@,
    {
        let base = Self::update_task_status_base();
        Self::one_task(id).concat(base.as_str())
    }
}

} // verus!
