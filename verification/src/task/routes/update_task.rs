use vstd::prelude::*;
use crate::error::{AppError, UNPROCESSABLE_ENTITY};
use crate::store::TaskStore;
use crate::user::User;
use crate::task::{Task, UpdateTask};
use crate::task::db::{update_task, with_task_fields, fields_setter, UpdateTaskArgs};
use crate::laws::law_map_records_keeps_wf;

verus! {

/// Changes the title, the status and, when the payload gives one, the
/// description of a task of the logged-in user.
/// Answers `422` when the payload breaks its rules and `500` when there is
/// no such task; then nothing changes.
pub fn handler(db: &mut TaskStore, user: Option<&User>, id: &str, payload: &UpdateTask) -> (r: Result<
    Task,
    AppError,
>)
    ensures
        user is None ==> r == Err::<Task, AppError>(AppError::unauthorized_spec()) && final(db)@
            == old(db)@,
        user matches Some(u) ==> ({
            if !payload.is_valid() {
                r == Err::<Task, AppError>(AppError { code: UNPROCESSABLE_ENTITY, body: None })
                    && final(db)@ == old(db)@
            } else if !old(db)@.has_task(id@, u.id@) {
                r == Err::<Task, AppError>(AppError::internal_spec()) && final(db)@ == old(db)@
            } else {
                final(db)@ == with_task_fields(
                    old(db)@,
                    id@,
                    u.id@,
                    payload.title@,
                    payload.description_view(),
                    payload.status,
                ) && (r matches Ok(t) && final(db)@.found(id@, u.id@, t@))
            }
        }),
        old(db)@.wf() ==> final(db)@.wf(),
{
    let user = match user {
        Some(u) => u,
        None => {
            return Err(AppError::unauthorized());
        },
    };
    if !payload.validate() {
        return Err(AppError::new(UNPROCESSABLE_ENTITY));
    }
    proof {
        if old(db)@.wf() {
            law_map_records_keeps_wf(
                old(db)@,
                fields_setter(id@, user.id@, payload.title@, payload.description_view(), payload.status),
            );
        }
    }
    match update_task(
        db,
        UpdateTaskArgs {
            id,
            title: payload.title.as_str(),
            description: match &payload.description {
                Some(d) => Some(d.as_str()),
                None => None,
            },
            status: &payload.status,
            user_id: user.id.as_str(),
        },
    ) {
        Ok(t) => Ok(t),
        Err(_) => Err(AppError::internal()),
    }
}

} // verus!
