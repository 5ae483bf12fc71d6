use vstd::prelude::*;
use crate::error::{AppError, BAD_REQUEST};
use crate::store::{TaskStore, StoreView};
use crate::user::User;
use crate::task::{Task, TaskStatus, UpdateTaskStatus};
use crate::task::db::{update_task_status, UpdateTaskStatusArgs, with_task_status, status_setter};
use crate::block_task::db::{
    is_all_blocking_tasks_done, update_all_unblocked_descendant_sub_tasks, with_descendants_status,
    descendant_status_setter,
};
use crate::sub_task::db::{update_task_and_all_ancestor_main_tasks_status, propagate, TaskAndUser};
use crate::graph::reaches;
use crate::laws::{law_todo_blocker_above_blocks_done, law_map_records_keeps_wf, lemma_propagate_shape, same_shape};

verus! {

/// The answer when a task would become done before the tasks that block
/// it, or block one of its main tasks.
pub open spec fn blocked_answer() -> AppError {
    AppError { code: BAD_REQUEST, body: None }
}

/// The store after the status change of the task `id` of `user`: the task
/// takes `status`, its descendants that follow it take it too, then the
/// task and its main tasks are brought up to date from their sub tasks.
pub open spec fn status_change_outcome(
    db: StoreView,
    id: Seq<char>,
    user: Seq<char>,
    status: TaskStatus,
) -> (StoreView, Result<(), crate::store::DbError>) {
    let s1 = with_task_status(db, id, user, status);
    let s2 = with_descendants_status(s1, id, user, status);
    propagate(s2, id, user, s2.subs.len())
}

/// Changes the status of a task of the logged-in user. Refuses (`400`) to
/// make a task done while a task that blocks it, or blocks one of its main
/// tasks, is not done; answers `500` when there is no such task. Returns
/// the task as it was right after its own status changed. A refused
/// request changes nothing.
pub fn handler(db: &mut TaskStore, user: Option<&User>, id: &str, payload: &UpdateTaskStatus) -> (r:
    Result<Task, AppError>)
    ensures
        user is None ==> r == Err::<Task, AppError>(AppError::unauthorized_spec()) && final(db)@
            == old(db)@,
        user matches Some(u) ==> ({
            if payload.status == TaskStatus::Done && !old(db)@.blockers_done(id@) {
                r == Err::<Task, AppError>(blocked_answer()) && final(db)@ == old(db)@
            } else if !old(db)@.has_task(id@, u.id@) {
                r == Err::<Task, AppError>(AppError::internal_spec()) && final(db)@ == old(db)@
            } else {
                let (s, o) = status_change_outcome(old(db)@, id@, u.id@, payload.status);
                match o {
                    Ok(()) => final(db)@ == s && (r matches Ok(t) && with_task_status(
                        old(db)@,
                        id@,
                        u.id@,
                        payload.status,
                    ).found(id@, u.id@, t@)),
                    Err(_) => r == Err::<Task, AppError>(AppError::internal_spec()) && final(db)@
                        == old(db)@,
                }
            }
        }),
        old(db)@.wf() ==> final(db)@.wf(),
        user is Some && payload.status == TaskStatus::Done && (exists|k: int, j: int|
            0 <= k < old(db)@.blocks.len() && 0 <= j < old(db)@.tasks.len() && reaches(
                old(db)@.all_links(),
                true,
                id@,
                #[trigger] old(db)@.blocks[k].child,
            ) && #[trigger] old(db)@.tasks[j].id == old(db)@.blocks[k].parent && old(db)@.tasks[j].status
                == TaskStatus::Todo) ==> r == Err::<Task, AppError>(blocked_answer()) && final(db)@ == old(db)@,
{
    proof {
        if exists|k: int, j: int|
            0 <= k < old(db)@.blocks.len() && 0 <= j < old(db)@.tasks.len() && reaches(
                old(db)@.all_links(),
                true,
                id@,
                #[trigger] old(db)@.blocks[k].child,
            ) && #[trigger] old(db)@.tasks[j].id == old(db)@.blocks[k].parent && old(db)@.tasks[j].status
                == TaskStatus::Todo {
            let (k, j) = choose|k: int, j: int|
                0 <= k < old(db)@.blocks.len() && 0 <= j < old(db)@.tasks.len() && reaches(
                    old(db)@.all_links(),
                    true,
                    id@,
                    #[trigger] old(db)@.blocks[k].child,
                ) && #[trigger] old(db)@.tasks[j].id == old(db)@.blocks[k].parent && old(db)@.tasks[j].status
                    == TaskStatus::Todo;
            law_todo_blocker_above_blocks_done(old(db)@, id@, k, j);
        }
    }
    let user = match user {
        Some(u) => u,
        None => {
            return Err(AppError::unauthorized());
        },
    };
    if !is_all_blocking_tasks_done(&*db, id) && payload.status == TaskStatus::Done {
        return Err(AppError::new(BAD_REQUEST));
    }
    let saved = db.snapshot();
    let ghost s0 = db@;
    let updated = match update_task_status(
        db,
        UpdateTaskStatusArgs { id, status: &payload.status, user_id: user.id.as_str() },
    ) {
        Ok(t) => t,
        Err(_) => {
            *db = saved;
            return Err(AppError::internal());
        },
    };
    let ghost s1 = db@;
    proof {
        let i = choose|i: int| #[trigger] s1.is_first_task(id@, user.id@, i) && s1.describes(i, updated@);
        assert(updated@.id == id@);
    }
    update_all_unblocked_descendant_sub_tasks(
        db,
        UpdateTaskStatusArgs {
            id: updated.id.as_str(),
            status: &payload.status,
            user_id: user.id.as_str(),
        },
    );
    let ghost s2 = db@;
    let r = update_task_and_all_ancestor_main_tasks_status(
        db,
        TaskAndUser { task_id: updated.id.as_str(), user_id: user.id.as_str() },
    );
    proof {
        if s0.wf() {
            law_map_records_keeps_wf(s0, status_setter(id@, user.id@, payload.status));
            law_map_records_keeps_wf(
                s1,
                descendant_status_setter(s1, id@, user.id@, payload.status),
            );
            lemma_propagate_shape(s2, id@, user.id@, s2.subs.len());
            crate::laws::lemma_shape_keeps_wf(s2, db@);
        }
    }
    match r {
        Ok(()) => Ok(updated),
        Err(_) => {
            *db = saved;
            Err(AppError::internal())
        },
    }
}

} // verus!
