//! The sub-task endpoints: their paths and, in submodules, what each
//! answers.

pub mod connect_sub_task;

use vstd::prelude::*;
use vstd::string::*;

verus! {

/// Route paths of the sub-task endpoints.
pub struct SubTaskPaths;

impl SubTaskPaths {
    /// `/sub-task`
    pub fn sub_task() -> (s: String)
        ensures
            s@ == "/sub-task"@,
    {
        "/sub-task".to_owned()
    }

    /// `/sub-task/connect`
    pub fn connect_sub_task() -> (s: String)
        ensures
            s@ == "/sub-task/connect"@,
    {
        let s = Self::sub_task().concat("/connect");
        proof {
            reveal_strlit("/sub-task");
            reveal_strlit("/connect");
            reveal_strlit("/sub-task/connect");
        }
        s
    }

    /// `/sub-task/reconnect`
    pub fn reconnect_sub_task() -> (s: String)
        ensures
            s@ == "/sub-task/reconnect"@,
    {
        let s = Self::sub_task().concat("/reconnect");
        proof {
            reveal_strlit("/sub-task");
            reveal_strlit("/reconnect");
            reveal_strlit("/sub-task/reconnect");
        }
        s
    }

    /// `/sub-task/disconnect`
    pub fn disconnect_sub_task() -> (s: String)
        ensures
            s@ == "/sub-task/disconnect"@,
    {
        let s = Self::sub_task().concat("/disconnect");
        proof {
            reveal_strlit("/sub-task");
            reveal_strlit("/disconnect");
            reveal_strlit("/sub-task/disconnect");
        }
        s
    }
}

} // verus!
