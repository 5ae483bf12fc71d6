//! Route paths of the task endpoints (older naming).

use vstd::prelude::*;
use vstd::string::*;

verus! {

/// Route paths of the task endpoints.
pub struct Paths;

impl Paths {
    /// `/tasks`
    pub fn tasks() -> (s: String)
        ensures
            s@ == "/tasks"@,
    {
        "/tasks".to_owned()
    }

    /// `/tasks/:id`
    pub fn task() -> (s: String)
        ensures
            s@ == "/tasks/:id"@,
    {
        let s = Paths::tasks().concat("/:id");
        proof {
            reveal_strlit("/tasks");
            reveal_strlit("/:id");
            reveal_strlit("/tasks/:id");
        }
        s
    }

    /// `/tasks/{id}`, as the API description writes it.
    pub fn oas_task() -> (s: String)
        ensures
            s@ == "/tasks/{id}"@,
    {
        let s = Paths::tasks().concat("/{id}");
        proof {
            reveal_strlit("/tasks");
            reveal_strlit("/{id}");
            reveal_strlit("/tasks/{id}");
        }
        s
    }
}

} // verus!
