use vstd::prelude::*;
use crate::error::{AppError, BAD_REQUEST};
use crate::store::{TaskStore, StoreView, DbError};
use crate::user::User;
use crate::task::ReconnectSubtask;
use crate::task::db::{detect_circular_connection, DetectCircularConnectionArgs};
use crate::sub_task::db::{
    delete_sub_task_connection, insert_sub_task_connection, has_pair, link_of, without_link,
    DeleteSubTaskConnectionArgs, InsertSubTaskConnectionArgs,
};

verus! {

/// The answer to a move that would close a cycle.
pub open spec fn circular_answer() -> AppError {
    AppError { code: BAD_REQUEST, body: None }
}

/// The store and answer of moving `old_parent -> old_sub` to
/// `new_parent -> new_sub`, with the cycle check only: the old link goes,
/// the move is refused when the new link would close a cycle, and the new
/// link is recorded when both its ends are stored tasks and the pair is
/// new.
pub open spec fn reconnect_subtask_outcome(
    db: StoreView,
    old_parent: Seq<char>,
    old_sub: Seq<char>,
    new_parent: Seq<char>,
    new_sub: Seq<char>,
    user: Seq<char>,
) -> (StoreView, Result<(), AppError>) {
    let target = link_of(old_parent, old_sub, user);
    if !db.subs.contains(target) {
        (db, Err(AppError::internal_spec()))
    } else {
        let s1 = StoreView { subs: without_link(db.subs, target), ..db };
        if s1.closes_cycle(new_parent, new_sub, user) {
            (db, Err(circular_answer()))
        } else if !s1.has_id(new_parent) || !s1.has_id(new_sub) || has_pair(
            s1.subs,
            new_parent,
            new_sub,
        ) {
            (db, Err(AppError::internal_spec()))
        } else {
            (StoreView { subs: s1.subs.push(link_of(new_parent, new_sub, user)), ..s1 }, Ok(()))
        }
    }
}

/// Moves a sub-task link of the logged-in user, checking only that the new
/// link closes no cycle, as one transaction: a refused request changes
/// nothing.
pub fn handler(db: &mut TaskStore, user: Option<&User>, payload: &ReconnectSubtask) -> (r: Result<
    (),
    AppError,
>)
    ensures
        user is None ==> r == Err::<(), AppError>(AppError::unauthorized_spec()) && final(db)@
            == old(db)@,
        user matches Some(u) ==> (final(db)@, r) == reconnect_subtask_outcome(
            old(db)@,
            payload.old_parent_task_id@,
            payload.old_subtask_id@,
            payload.new_parent_task_id@,
            payload.new_subtask_id@,
            u.id@,
        ),
{
    let user = match user {
        Some(u) => u,
        None => {
            return Err(AppError::unauthorized());
        },
    };
    let saved = db.snapshot();
    if delete_sub_task_connection(
        db,
        DeleteSubTaskConnectionArgs {
            main_task_id: payload.old_parent_task_id.as_str(),
            sub_task_id: payload.old_subtask_id.as_str(),
            user_id: user.id.as_str(),
        },
    ).is_err() {
        *db = saved;
        return Err(AppError::internal());
    }
    if detect_circular_connection(
        &*db,
        DetectCircularConnectionArgs {
            parent_task_id: payload.new_parent_task_id.as_str(),
            child_task_id: payload.new_subtask_id.as_str(),
            user_id: user.id.as_str(),
        },
    ) {
        *db = saved;
        return Err(AppError::new(BAD_REQUEST));
    }
    if insert_sub_task_connection(
        db,
        InsertSubTaskConnectionArgs {
            main_task_id: payload.new_parent_task_id.as_str(),
            sub_task_id: payload.new_subtask_id.as_str(),
            user_id: user.id.as_str(),
        },
    ).is_err() {
        *db = saved;
        return Err(AppError::internal());
    }
    Ok(())
}

} // verus!
