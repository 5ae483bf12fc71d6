//! Task management core: task records, sub-task and blocking relations,
//! the rules that keep the relations consistent, and status propagation.

pub mod auth;
pub mod block_task;
pub mod changes;
pub mod error;
pub mod graph;
pub mod ids;
pub mod integrity;
pub mod laws;
pub mod store;
pub mod sub_task;
pub mod task;
pub mod user;
