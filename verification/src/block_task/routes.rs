//! The blocking-link endpoints: their paths and, in submodules, what each
//! answers.

pub mod disconnect_block_task;

use vstd::prelude::*;
use vstd::string::*;

verus! {

/// Route paths of the blocking-link endpoints.
pub struct BlockTaskPaths;

impl BlockTaskPaths {
    /// `/block-task`
    pub fn block_task() -> (s: String)
        ensures
            s@ == "/block-task"@,
    {
        "/block-task".to_owned()
    }

    /// `/block-task/connect`
    pub fn connect_block_task() -> (s: String)
        ensures
            s@ == "/block-task/connect"@,
    {
        let s = Self::block_task().concat("/connect");
        proof {
            reveal_strlit("/block-task");
            reveal_strlit("/connect");
            reveal_strlit("/block-task/connect");
        }
        s
    }

    /// `/block-task/reconnect`
    pub fn reconnect_block_task() -> (s: String)
        ensures
            s@ == "/block-task/reconnect"@,
    {
        let s = Self::block_task().concat("/reconnect");
        proof {
            reveal_strlit("/block-task");
            reveal_strlit("/reconnect");
            reveal_strlit("/block-task/reconnect");
        }
        s
    }

    /// `/block-task/disconnect`
    pub fn disconnect_block_task() -> (s: String)
        ensures
            s@ == "/block-task/disconnect"@,
    {
        let s = Self::block_task().concat("/disconnect");
        proof {
            reveal_strlit("/block-task");
            reveal_strlit("/disconnect");
            reveal_strlit("/block-task/disconnect");
        }
        s
    }
}

} // verus!
