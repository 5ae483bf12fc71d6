//! The sub-task relation: a task may be split into sub tasks; a main task
//! is done exactly when all its sub tasks are.

pub mod db;
pub mod routes;

use vstd::prelude::*;

verus! {

/// Payload that makes `sub_task_id` a sub task of `main_task_id`.
pub struct ConnectSubTask {
    pub main_task_id: String,
    pub sub_task_id: String,
}

/// Payload that moves a sub-task link.
pub struct ReconnectSubTask {
    pub old_main_task_id: String,
    pub old_sub_task_id: String,
    pub new_main_task_id: String,
    pub new_sub_task_id: String,
}

/// Payload that removes a sub-task link.
pub struct DisconnectSubTask {
    pub main_task_id: String,
    pub sub_task_id: String,
}

} // verus!
