//! The operations on links between tasks, each run as one unit.

pub mod connect_block_task;
pub mod connect_sub_task;
pub mod connect_subtask;
pub mod disconnect_block_task;
pub mod disconnect_sub_task;
pub mod disconnect_subtask;
pub mod reconnect_block_task;
pub mod reconnect_sub_task;
pub mod reconnect_subtask;
