use vstd::prelude::*;
use crate::store::{TaskStore, StoreView, DbError};
use crate::sub_task::db::{
    delete_sub_task_connection, find_main_task_id, update_task_and_all_ancestor_main_tasks_status,
    link_of, without_link, main_task_of, propagate, DeleteSubTaskConnectionArgs, FindMainTaskIdsArgs, TaskAndUser,
};

verus! {

/// The sub-task link to remove.
pub struct DisconnectSubTaskArgs<'a> {
    pub main_task_id: &'a str,
    pub sub_task_id: &'a str,
    pub user_id: &'a str,
}

/// The store and outcome of [`action`]: the link goes, then the main task
/// that the sub task had before and that task's main tasks are brought up
/// to date.
pub open spec fn disconnect_sub_task_outcome(
    db: StoreView,
    main: Seq<char>,
    sub: Seq<char>,
    user: Seq<char>,
) -> (StoreView, Result<(), DbError>) {
    let target = link_of(main, sub, user);
    if !db.subs.contains(target) {
        (db, Err(DbError::NotFound))
    } else {
        let removed = StoreView { subs: without_link(db.subs, target), ..db };
        match main_task_of(db, sub, user) {
            None => (removed, Ok(())),
            Some(m) => propagate(removed, m, user, removed.subs.len()),
        }
    }
}

/// Removes the sub-task link and brings the former main tasks up to date.
pub fn action<'a>(db: &mut TaskStore, args: DisconnectSubTaskArgs<'a>) -> (r: Result<(), DbError>)
    ensures
        (final(db)@, r) == disconnect_sub_task_outcome(
            old(db)@,
            args.main_task_id@,
            args.sub_task_id@,
            args.user_id@,
        ),
{
    let main_id = find_main_task_id(
        &*db,
        FindMainTaskIdsArgs { sub_task_id: args.sub_task_id, user_id: args.user_id },
    );
    match delete_sub_task_connection(
        db,
        DeleteSubTaskConnectionArgs {
            main_task_id: args.main_task_id,
            sub_task_id: args.sub_task_id,
            user_id: args.user_id,
        },
    ) {
        Err(e) => {
            return Err(e);
        },
        Ok(()) => {},
    }
    match main_id {
        None => Ok(()),
        Some(m) => update_task_and_all_ancestor_main_tasks_status(
            db,
            TaskAndUser { task_id: m.as_str(), user_id: args.user_id },
        ),
    }
}

} // verus!
