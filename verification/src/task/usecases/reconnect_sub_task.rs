use vstd::prelude::*;
use crate::store::{TaskStore, StoreView, DbError};
use crate::sub_task::db::SubTaskConnectionError;
use super::connect_sub_task::{self, ConnectSubTaskArgs, ConnectSubTaskError, connect_sub_task_outcome};
use super::disconnect_sub_task::{self, DisconnectSubTaskArgs, disconnect_sub_task_outcome};

verus! {

/// The sub-task link to move.
pub struct ReconnectSubTaskArgs<'a> {
    pub old_parent_task_id: &'a str,
    pub old_sub_task_id: &'a str,
    pub new_parent_task_id: &'a str,
    pub new_sub_task_id: &'a str,
    pub user_id: &'a str,
}

/// Why the link was not moved.
#[derive(Debug, Clone, Copy, PartialEq, Eq, Structural)]
pub enum ReconnectSubTaskError {
    Connect(SubTaskConnectionError),
    Unknown(DbError),
}

/// The store and outcome of removing `old_main -> old_sub` and then adding
/// `new_main -> new_sub`.
pub open spec fn reconnect_outcome(
    db: StoreView,
    old_main: Seq<char>,
    old_sub: Seq<char>,
    new_main: Seq<char>,
    new_sub: Seq<char>,
    user: Seq<char>,
) -> (StoreView, Result<(), ReconnectSubTaskError>) {
    let (d1, r1) = disconnect_sub_task_outcome(db, old_main, old_sub, user);
    match r1 {
        Err(e) => (d1, Err(ReconnectSubTaskError::Unknown(e))),
        Ok(()) => {
            let (d2, r2) = connect_sub_task_outcome(d1, new_main, new_sub, user);
            (
                d2,
                match r2 {
                    Ok(()) => Ok(()),
                    Err(ConnectSubTaskError::CheckError(e)) => Err(ReconnectSubTaskError::Connect(e)),
                    Err(ConnectSubTaskError::Unknown(e)) => Err(ReconnectSubTaskError::Unknown(e)),
                },
            )
        },
    }
}

/// Removes the old sub-task link, then adds the new one.
pub fn action<'a>(db: &mut TaskStore, args: ReconnectSubTaskArgs<'a>) -> (r: Result<
    (),
    ReconnectSubTaskError,
>)
    ensures
        (final(db)@, r) == reconnect_outcome(
            old(db)@,
            args.old_parent_task_id@,
            args.old_sub_task_id@,
            args.new_parent_task_id@,
            args.new_sub_task_id@,
            args.user_id@,
        ),
{
    match disconnect_sub_task::action(
        db,
        DisconnectSubTaskArgs {
            main_task_id: args.old_parent_task_id,
            sub_task_id: args.old_sub_task_id,
            user_id: args.user_id,
        },
    ) {
        Err(e) => {
            return Err(ReconnectSubTaskError::Unknown(e));
        },
        Ok(()) => {},
    }
    match connect_sub_task::action(
        db,
        ConnectSubTaskArgs {
            main_task_id: args.new_parent_task_id,
            sub_task_id: args.new_sub_task_id,
            user_id: args.user_id,
        },
    ) {
        Ok(()) => Ok(()),
        Err(ConnectSubTaskError::CheckError(e)) => Err(ReconnectSubTaskError::Connect(e)),
        Err(ConnectSubTaskError::Unknown(e)) => Err(ReconnectSubTaskError::Unknown(e)),
    }
}

} // verus!
