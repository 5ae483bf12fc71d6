//! The blocking relation: a task cannot be done before the tasks that
//! block it.

pub mod db;
pub mod routes;

use vstd::prelude::*;

verus! {

/// Payload that makes `blocking_task_id` block `blocked_task_id`.
pub struct ConnectBlockTask {
    pub blocking_task_id: String,
    pub blocked_task_id: String,
}

/// Payload that removes a blocking link.
pub struct DisconnectBlockTask {
    pub blocking_task_id: String,
    pub blocked_task_id: String,
}

/// Payload that moves a blocking link.
pub struct ReconnectBlockTask {
    pub old_blocking_task_id: String,
    pub old_blocked_task_id: String,
    pub new_blocking_task_id: String,
    pub new_blocked_task_id: String,
}

} // verus!
