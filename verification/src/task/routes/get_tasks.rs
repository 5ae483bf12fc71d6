use vstd::prelude::*;
use crate::error::AppError;
use crate::store::TaskStore;
use crate::user::User;
use crate::task::Task;
use crate::task::db::{find_tasks, user_positions};

verus! {

/// Reads every task of the logged-in user, in table order, one per
/// identifier (the first record of the identifier stands for it).
pub fn handler(db: &TaskStore, user: Option<&User>) -> (r: Result<Vec<Task>, AppError>)
    ensures
        user is None ==> r == Err::<Vec<Task>, AppError>(AppError::unauthorized_spec()),
        user matches Some(u) ==> (r matches Ok(ts) && ts@.len() == user_positions(
            db@.tasks,
            u.id@,
        ).len() && forall|k: int|
            0 <= k < ts@.len() ==> db@.describes(
                #[trigger] user_positions(db@.tasks, u.id@)[k],
                ts@[k]@,
            ) && (forall|a: int, b: int|
            0 <= a < b < ts@.len() ==> #[trigger] ts@[a]@.id != #[trigger] ts@[b]@.id) && (forall|j: int|
            0 <= j < db@.tasks.len() && #[trigger] db@.tasks[j].user_id == u.id@ ==> exists|k: int|
                0 <= k < ts@.len() && #[trigger] ts@[k]@.id == db@.tasks[j].id) && forall|k: int|
            0 <= k < ts@.len() ==> #[trigger] ts@[k]@.user_id == u.id@),
{
    let user = match user {
        Some(u) => u,
        None => {
            return Err(AppError::unauthorized());
        },
    };
    Ok(find_tasks(db, user.id.as_str()))
}

} // verus!
