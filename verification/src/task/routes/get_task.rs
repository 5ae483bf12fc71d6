use vstd::prelude::*;
use crate::error::AppError;
use crate::store::TaskStore;
use crate::user::User;
use crate::task::Task;
use crate::task::db::{find_task, FindTaskArgs};

verus! {

/// Reads a task of the logged-in user; answers `500` when there is none.
pub fn handler(db: &TaskStore, user: Option<&User>, id: &str) -> (r: Result<Task, AppError>)
    ensures
        user is None ==> r == Err::<Task, AppError>(AppError::unauthorized_spec()),
        user matches Some(u) ==> match r {
            Ok(t) => db@.found(id@, u.id@, t@),
            Err(e) => e == AppError::internal_spec() && !db@.has_task(id@, u.id@),
        },
{
    let user = match user {
        Some(u) => u,
        None => {
            return Err(AppError::unauthorized());
        },
    };
    match find_task(db, FindTaskArgs { user_id: user.id.as_str(), task_id: id }) {
        Ok(t) => Ok(t),
        Err(_) => Err(AppError::internal()),
    }
}

} // verus!
