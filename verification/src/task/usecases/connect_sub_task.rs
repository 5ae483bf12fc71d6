use vstd::prelude::*;
use crate::store::{TaskStore, StoreView, DbError};
use crate::sub_task::db::{
    check_sub_task_connection, insert_sub_task_connection, update_all_ancestor_main_tasks_status,
    sub_task_check, has_pair, link_of, main_task_of, propagate, InsertSubTaskConnectionArgs,
    SubTaskConnectionError, TaskAndUser,
};

verus! {

/// The link to add: `sub_task_id` becomes a sub task of `main_task_id`.
pub struct ConnectSubTaskArgs<'a> {
    pub main_task_id: &'a str,
    pub sub_task_id: &'a str,
    pub user_id: &'a str,
}

/// Why the link was not added.
#[derive(Debug, Clone, Copy, PartialEq, Eq, Structural)]
pub enum ConnectSubTaskError {
    CheckError(SubTaskConnectionError),
    Unknown(DbError),
}

/// The store and outcome of bringing the main tasks of `sub` up to date.
pub open spec fn ancestors_outcome(db: StoreView, sub: Seq<char>, user: Seq<char>) -> (
    StoreView,
    Result<(), DbError>,
) {
    match main_task_of(db, sub, user) {
        None => (db, Ok(())),
        Some(m) => propagate(db, m, user, db.subs.len()),
    }
}

/// The store and outcome of [`action`].
pub open spec fn connect_sub_task_outcome(
    db: StoreView,
    main: Seq<char>,
    sub: Seq<char>,
    user: Seq<char>,
) -> (StoreView, Result<(), ConnectSubTaskError>) {
    match sub_task_check(db, main, sub, user) {
        Err(e) => (db, Err(ConnectSubTaskError::CheckError(e))),
        Ok(()) => if !db.has_id(main) || !db.has_id(sub) {
            (db, Err(ConnectSubTaskError::Unknown(DbError::MissingReference)))
        } else if has_pair(db.subs, main, sub) {
            (db, Err(ConnectSubTaskError::Unknown(DbError::Conflict)))
        } else {
            let inserted = StoreView { subs: db.subs.push(link_of(main, sub, user)), ..db };
            let (s, r) = ancestors_outcome(inserted, sub, user);
            (
                s,
                match r {
                    Ok(()) => Ok(()),
                    Err(e) => Err(ConnectSubTaskError::Unknown(e)),
                },
            )
        },
    }
}

/// Checks the rules on a new sub-task link, records it, and brings the new
/// main task and its own main tasks up to date.
pub fn action<'a>(db: &mut TaskStore, args: ConnectSubTaskArgs<'a>) -> (r: Result<
    (),
    ConnectSubTaskError,
>)
    ensures
        (final(db)@, r) == connect_sub_task_outcome(
            old(db)@,
            args.main_task_id@,
            args.sub_task_id@,
            args.user_id@,
        ),
{
    let insert_args = InsertSubTaskConnectionArgs {
        main_task_id: args.main_task_id,
        sub_task_id: args.sub_task_id,
        user_id: args.user_id,
    };
    match check_sub_task_connection(&*db, &insert_args) {
        Err(e) => {
            return Err(ConnectSubTaskError::CheckError(e));
        },
        Ok(()) => {},
    }
    match insert_sub_task_connection(db, insert_args) {
        Err(e) => {
            return Err(ConnectSubTaskError::Unknown(e));
        },
        Ok(()) => {},
    }
    match update_all_ancestor_main_tasks_status(
        db,
        TaskAndUser { task_id: args.sub_task_id, user_id: args.user_id },
    ) {
        Err(e) => Err(ConnectSubTaskError::Unknown(e)),
        Ok(()) => Ok(()),
    }
}

} // verus!
