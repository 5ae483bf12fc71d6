//! What every operation keeps, and what the operations promise together.

use vstd::prelude::*;
use crate::graph::{
    LinkView, acyclic, reaches, walk, from_of, to_of, reached_after_step, links_within,
    lemma_acyclic_within, lemma_push_keeps_acyclic,
};
use crate::store::{StoreView, TaskRecordView, DbError, is_task_of, children_of};
use crate::task::db::all_tasks_exist;
use crate::sub_task::db::{link_of, has_main};
use crate::block_task::db::block_task_check;
use crate::task::usecases::connect_block_task::{connect_block_task_outcome, ConnectBlockTaskError};
use crate::task::usecases::connect_sub_task::{connect_sub_task_outcome, ancestors_outcome};
use crate::sub_task::db::{
    sub_task_check, refreshed, propagate, main_task_of, has_pair, is_first_main_link,
    status_from_subs,
};
use crate::graph::{lemma_walk_snoc, lemma_walk_trans, lemma_walk_within, is_ancestor};
use vstd::set_lib::{set_int_range, lemma_int_range};
use crate::task::db::{with_status, not_task_of, not_touching, with_task_status, status_setter};
use crate::task::{TaskStatus, TaskView};
use crate::ids::lemma_sorted_unique;
use crate::block_task::db::{with_descendants_status, descendant_status_setter};
use crate::task::routes::update_task_status::status_change_outcome;
use crate::task::routes::reconnect_subtask::reconnect_subtask_outcome;
use crate::task::routes::delete_task::{delete_outcome, without_task};
use crate::sub_task::db::{without_link, other_than};
use crate::task::usecases::disconnect_block_task::disconnect_block_task_outcome;
use crate::task::usecases::disconnect_sub_task::disconnect_sub_task_outcome;
use crate::task::usecases::reconnect_block_task::reconnect_block_task_outcome;
use crate::task::usecases::reconnect_sub_task::reconnect_outcome;

verus! {

/// Stores with the same task records have the same tasks.
proof fn lemma_same_tasks(a: StoreView, b: StoreView)
    requires
        a.tasks == b.tasks,
    ensures
        forall|x: Seq<char>, u: Seq<char>| #[trigger] a.has_task(x, u) == b.has_task(x, u),
        forall|x: Seq<char>| #[trigger] a.has_id(x) == b.has_id(x),
{
    assert forall|x: Seq<char>, u: Seq<char>| #[trigger] a.has_task(x, u) implies b.has_task(x, u) by {
        let i = choose|i: int| 0 <= i < a.tasks.len() && is_task_of(#[trigger] a.tasks[i], x, u);
        assert(is_task_of(b.tasks[i], x, u));
    }
    assert forall|x: Seq<char>| #[trigger] a.has_id(x) implies b.has_id(x) by {
        let i = choose|i: int| 0 <= i < a.tasks.len() && #[trigger] a.tasks[i].id == x;
        assert(b.tasks[i].id == x);
    }
}

/// Every link of both relations is a sub-task link or a blocking link.
proof fn lemma_all_links_member(db: StoreView, k: int)
    requires
        0 <= k < db.all_links().len(),
    ensures
        db.subs.contains(db.all_links()[k]) || db.blocks.contains(db.all_links()[k]),
{
    if k < db.subs.len() {
        assert(db.all_links()[k] == db.subs[k]);
    } else {
        assert(db.all_links()[k] == db.blocks[k - db.subs.len()]);
    }
}

/// In a well-formed store, a task of `user` that reaches `c` upwards (and
/// is not `c`) closes a cycle when linked above `c`: the user filter on
/// the first link changes nothing.
proof fn lemma_reaches_closes_cycle(db: StoreView, p: Seq<char>, c: Seq<char>, user: Seq<char>)
    requires
        db.wf(),
        db.has_task(p, user),
        p != c,
        reaches(db.all_links(), true, p, c),
    ensures
        db.closes_cycle(p, c, user),
{
    let all = db.all_links();
    let n = choose|n: nat| #[trigger] walk(all, true, p, c, n);
    if n == 0 {
        assert(p == c);
    } else {
        let k = choose|k: int|
            0 <= k < all.len() && from_of(#[trigger] all[k], true) == p && walk(
                all,
                true,
                to_of(all[k], true),
                c,
                (n - 1) as nat,
            );
        lemma_all_links_member(db, k);
        let l = all[k];
        assert(db.has_task(p, l.user_id));
        let i = choose|i: int| 0 <= i < db.tasks.len() && is_task_of(#[trigger] db.tasks[i], p, user);
        let j = choose|j: int| 0 <= j < db.tasks.len() && is_task_of(#[trigger] db.tasks[j], p, l.user_id);
        assert(db.tasks.contains(db.tasks[i]));
        assert(db.tasks.contains(db.tasks[j]));
        assert(l.user_id == user);
        assert(reaches(all, true, to_of(all[k], true), c));
    }
}

/// The two ends of a link that passed the existence check are tasks of
/// the user, and differ.
proof fn lemma_checked_pair(db: StoreView, a: Seq<char>, b: Seq<char>, user: Seq<char>)
    requires
        all_tasks_exist(db, seq![a, b], user),
    ensures
        db.has_task(a, user),
        db.has_task(b, user),
        a != b,
{
    let s = seq![a, b];
    assert(s[0] == a);
    assert(s[1] == b);
}

/// Adding a link with both ends tasks of its user keeps links joining
/// tasks of their user.
proof fn lemma_links_ok_after_push(db: StoreView, l: LinkView, to_subs: bool)
    requires
        db.links_name_tasks(),
        db.has_task(l.parent, l.user_id),
        db.has_task(l.child, l.user_id),
    ensures
        to_subs ==> (StoreView { subs: db.subs.push(l), ..db }).links_name_tasks(),
        !to_subs ==> (StoreView { blocks: db.blocks.push(l), ..db }).links_name_tasks(),
{
    let n1 = StoreView { subs: db.subs.push(l), ..db };
    let n2 = StoreView { blocks: db.blocks.push(l), ..db };
    lemma_same_tasks(db, n1);
    lemma_same_tasks(db, n2);
    assert forall|x: LinkView| n1.subs.contains(x) implies n1.has_task(x.parent, x.user_id)
        && n1.has_task(x.child, x.user_id) by {
        let k = choose|k: int| 0 <= k < n1.subs.len() && n1.subs[k] == x;
        if k < db.subs.len() {
            assert(db.subs[k] == x);
            assert(db.subs.contains(x));
        }
        assert(db.has_task(x.parent, x.user_id));
        assert(db.has_task(x.child, x.user_id));
    }
    assert forall|x: LinkView| n2.blocks.contains(x) implies n2.has_task(x.parent, x.user_id)
        && n2.has_task(x.child, x.user_id) by {
        let k = choose|k: int| 0 <= k < n2.blocks.len() && n2.blocks[k] == x;
        if k < db.blocks.len() {
            assert(db.blocks[k] == x);
            assert(db.blocks.contains(x));
        }
        assert(db.has_task(x.parent, x.user_id));
        assert(db.has_task(x.child, x.user_id));
    }
}

/// Connecting a blocking task keeps a well-formed store well formed.
pub proof fn law_connect_block_task_keeps_wf(
    db: StoreView,
    blocking: Seq<char>,
    blocked: Seq<char>,
    user: Seq<char>,
)
    requires
        db.wf(),
    ensures
        connect_block_task_outcome(db, blocking, blocked, user).0.wf(),
{
    let out = connect_block_task_outcome(db, blocking, blocked, user).0;
    if block_task_check(db, blocking, blocked, user) is Ok && out != db {
        lemma_checked_pair(db, blocking, blocked, user);
        let l = link_of(blocking, blocked, user);
        assert(out == (StoreView { blocks: db.blocks.push(l), ..db }));
        lemma_links_ok_after_push(db, l, false);
        if reaches(db.all_links(), true, blocking, blocked) {
            lemma_reaches_closes_cycle(db, blocking, blocked, user);
        }
        lemma_push_keeps_acyclic(db.all_links(), l);
        assert(out.all_links() =~= db.all_links().push(l));
    }
}

/// `b` differs from `a` at most in the status, title, description and
/// timestamps of its task records.
pub open spec fn same_shape(a: StoreView, b: StoreView) -> bool {
    &&& a.subs == b.subs
    &&& a.blocks == b.blocks
    &&& a.tasks.len() == b.tasks.len()
    &&& forall|k: int|
        0 <= k < a.tasks.len() ==> (#[trigger] a.tasks[k]).id == b.tasks[k].id && a.tasks[k].user_id
            == b.tasks[k].user_id
}

/// Stores of the same shape have the same tasks.
proof fn lemma_shape_has_task(a: StoreView, b: StoreView)
    requires
        same_shape(a, b),
    ensures
        forall|x: Seq<char>, u: Seq<char>| #[trigger] a.has_task(x, u) == b.has_task(x, u),
        forall|x: Seq<char>| #[trigger] a.has_id(x) == b.has_id(x),
{
    assert forall|x: Seq<char>, u: Seq<char>| #[trigger] a.has_task(x, u) == b.has_task(x, u) by {
        if a.has_task(x, u) {
            let i = choose|i: int| 0 <= i < a.tasks.len() && is_task_of(#[trigger] a.tasks[i], x, u);
            assert(is_task_of(b.tasks[i], x, u));
        }
        if b.has_task(x, u) {
            let i = choose|i: int| 0 <= i < b.tasks.len() && is_task_of(#[trigger] b.tasks[i], x, u);
            assert(is_task_of(a.tasks[i], x, u));
        }
    }
    assert forall|x: Seq<char>| #[trigger] a.has_id(x) == b.has_id(x) by {
        if a.has_id(x) {
            let i = choose|i: int| 0 <= i < a.tasks.len() && #[trigger] a.tasks[i].id == x;
            assert(b.tasks[i].id == x);
        }
        if b.has_id(x) {
            let i = choose|i: int| 0 <= i < b.tasks.len() && #[trigger] b.tasks[i].id == x;
            assert(a.tasks[i].id == x);
        }
    }
}

/// The rules hold of a store of the same shape as a well-formed one.
pub proof fn lemma_shape_keeps_wf(a: StoreView, b: StoreView)
    requires
        same_shape(a, b),
        a.wf(),
    ensures
        b.wf(),
{
    lemma_shape_has_task(a, b);
    assert forall|i: int, j: int|
        0 <= i < b.tasks.len() && 0 <= j < b.tasks.len() && i != j implies #[trigger] b.tasks[i].id
        != #[trigger] b.tasks[j].id by {
        assert(a.tasks[i].id == b.tasks[i].id);
        assert(a.tasks[j].id == b.tasks[j].id);
    }
    assert forall|r1: TaskRecordView, r2: TaskRecordView|
        b.tasks.contains(r1) && b.tasks.contains(r2) && r1.id == r2.id implies r1.user_id
        == r2.user_id by {
        let i = choose|i: int| 0 <= i < b.tasks.len() && b.tasks[i] == r1;
        let j = choose|j: int| 0 <= j < b.tasks.len() && b.tasks[j] == r2;
        assert(a.tasks.contains(a.tasks[i]));
        assert(a.tasks.contains(a.tasks[j]));
        assert(a.tasks[i].id == a.tasks[j].id);
    }
    assert(a.all_links() == b.all_links());
}

proof fn lemma_same_shape_trans(a: StoreView, b: StoreView, c: StoreView)
    requires
        same_shape(a, b),
        same_shape(b, c),
    ensures
        same_shape(a, c),
{
    assert forall|k: int| 0 <= k < a.tasks.len() implies (#[trigger] a.tasks[k]).id == c.tasks[k].id
        && a.tasks[k].user_id == c.tasks[k].user_id by {
        assert(a.tasks[k].id == b.tasks[k].id);
        assert(b.tasks[k].id == c.tasks[k].id);
    }
}

/// Bringing a task up to date changes statuses only.
proof fn lemma_refreshed_shape(db: StoreView, id: Seq<char>, user: Seq<char>)
    ensures
        same_shape(db, refreshed(db, id, user)),
{
    let r = refreshed(db, id, user);
    assert forall|k: int| 0 <= k < db.tasks.len() implies (#[trigger] db.tasks[k]).id == r.tasks[k].id
        && db.tasks[k].user_id == r.tasks[k].user_id by {}
}

/// Propagating status to main tasks changes statuses only.
pub proof fn lemma_propagate_shape(db: StoreView, id: Seq<char>, user: Seq<char>, fuel: nat)
    ensures
        same_shape(db, propagate(db, id, user, fuel).0),
    decreases fuel,
{
    if db.has_task(id, user) {
        let next = refreshed(db, id, user);
        lemma_refreshed_shape(db, id, user);
        match main_task_of(next, id, user) {
            None => {},
            Some(m) => if fuel > 0 {
                lemma_propagate_shape(next, m, user, (fuel - 1) as nat);
                lemma_same_shape_trans(db, next, propagate(next, m, user, (fuel - 1) as nat).0);
            },
        }
    } else {
        assert forall|k: int| 0 <= k < db.tasks.len() implies (#[trigger] db.tasks[k]).id == db.tasks[k].id
            && db.tasks[k].user_id == db.tasks[k].user_id by {}
    }
}

/// Bringing the main tasks of `sub` up to date keeps a well-formed store
/// well formed.
pub proof fn law_ancestors_keep_wf(db: StoreView, sub: Seq<char>, user: Seq<char>)
    requires
        db.wf(),
    ensures
        ancestors_outcome(db, sub, user).0.wf(),
{
    match main_task_of(db, sub, user) {
        None => {},
        Some(m) => {
            lemma_propagate_shape(db, m, user, db.subs.len());
            lemma_shape_keeps_wf(db, propagate(db, m, user, db.subs.len()).0);
        },
    }
}

/// Adding a sub-task link between two distinct tasks of its user, above a
/// task without a main task and closing no cycle, keeps a well-formed
/// store well formed.
proof fn lemma_push_sub_keeps_wf(db: StoreView, l: LinkView)
    requires
        db.wf(),
        db.has_task(l.parent, l.user_id),
        db.has_task(l.child, l.user_id),
        l.parent != l.child,
        !has_main(db.subs, l.child),
        !db.closes_cycle(l.parent, l.child, l.user_id),
    ensures
        (StoreView { subs: db.subs.push(l), ..db }).wf(),
{
    let inserted = StoreView { subs: db.subs.push(l), ..db };
    lemma_links_ok_after_push(db, l, true);
    lemma_same_tasks(db, inserted);
    assert forall|a: LinkView, b: LinkView|
        inserted.subs.contains(a) && inserted.subs.contains(b) && a.child == b.child implies a.parent
        == b.parent by {
        let i = choose|i: int| 0 <= i < inserted.subs.len() && inserted.subs[i] == a;
        let j = choose|j: int| 0 <= j < inserted.subs.len() && inserted.subs[j] == b;
        if i < db.subs.len() {
            assert(db.subs[i] == a);
            assert(db.subs.contains(a));
        }
        if j < db.subs.len() {
            assert(db.subs[j] == b);
            assert(db.subs.contains(b));
        }
        if i < db.subs.len() && j == db.subs.len() {
            assert(has_main(db.subs, l.child));
        }
        if j < db.subs.len() && i == db.subs.len() {
            assert(has_main(db.subs, l.child));
        }
    }
    assert forall|r1: TaskRecordView, r2: TaskRecordView|
        inserted.tasks.contains(r1) && inserted.tasks.contains(r2) && r1.id == r2.id implies r1.user_id
        == r2.user_id by {}
    if reaches(db.all_links(), true, l.parent, l.child) {
        lemma_reaches_closes_cycle(db, l.parent, l.child, l.user_id);
    }
    lemma_push_keeps_acyclic(db.all_links(), l);
    let big = db.all_links().push(l);
    assert forall|k: int| 0 <= k < inserted.all_links().len() implies big.contains(
        #[trigger] inserted.all_links()[k],
    ) by {
        if k < db.subs.len() {
            assert(inserted.all_links()[k] == big[k]);
        } else if k == db.subs.len() {
            assert(inserted.all_links()[k] == big[big.len() - 1]);
        } else {
            assert(inserted.all_links()[k] == big[k - 1]);
        }
    }
    assert(links_within(inserted.all_links(), big));
    lemma_acyclic_within(inserted.all_links(), big);
}

/// Connecting a sub task keeps a well-formed store well formed.
pub proof fn law_connect_sub_task_keeps_wf(
    db: StoreView,
    main: Seq<char>,
    sub: Seq<char>,
    user: Seq<char>,
)
    requires
        db.wf(),
    ensures
        connect_sub_task_outcome(db, main, sub, user).0.wf(),
{
    if sub_task_check(db, main, sub, user) is Ok && db.has_id(main) && db.has_id(sub) && !has_pair(
        db.subs,
        main,
        sub,
    ) {
        lemma_checked_pair(db, main, sub, user);
        let l = link_of(main, sub, user);
        let inserted = StoreView { subs: db.subs.push(l), ..db };
        lemma_push_sub_keeps_wf(db, l);
        law_ancestors_keep_wf(inserted, sub, user);
    }
}

/// Moving a sub-task link with the older route, which checks only for
/// cycles, keeps a well-formed store well formed when the new link joins
/// two distinct tasks of the user and its sub task has no main task but,
/// perhaps, through the link that is moved.
pub proof fn law_reconnect_subtask_keeps_wf(
    db: StoreView,
    old_parent: Seq<char>,
    old_sub: Seq<char>,
    new_parent: Seq<char>,
    new_sub: Seq<char>,
    user: Seq<char>,
)
    requires
        db.wf(),
        db.has_task(new_parent, user),
        db.has_task(new_sub, user),
        new_parent != new_sub,
        forall|k: int|
            0 <= k < db.subs.len() && #[trigger] db.subs[k].child == new_sub ==> db.subs[k] == link_of(
                old_parent,
                old_sub,
                user,
            ),
    ensures
        reconnect_subtask_outcome(db, old_parent, old_sub, new_parent, new_sub, user).0.wf(),
{
    let target = link_of(old_parent, old_sub, user);
    if db.subs.contains(target) {
        let s1 = StoreView { subs: without_link(db.subs, target), ..db };
        lemma_without_link_within(db.subs, target);
        lemma_fewer_links_keep_wf(db, s1);
        lemma_same_tasks(db, s1);
        if has_main(s1.subs, new_sub) {
            let k = choose|k: int| 0 <= k < s1.subs.len() && #[trigger] s1.subs[k].child == new_sub;
            db.subs.lemma_filter_pred(other_than(target), k);
            assert(s1.subs.contains(s1.subs[k]));
            let j = choose|j: int| 0 <= j < db.subs.len() && db.subs[j] == s1.subs[k];
            assert(db.subs[j].child == new_sub);
        }
        if !s1.closes_cycle(new_parent, new_sub, user) {
            lemma_push_sub_keeps_wf(s1, link_of(new_parent, new_sub, user));
        }
    }
}

/// Removing links leaves links of the old relation.
proof fn lemma_without_link_within(links: Seq<LinkView>, target: LinkView)
    ensures
        forall|x: LinkView| #[trigger] without_link(links, target).contains(x) ==> links.contains(x),
{
    assert forall|x: LinkView| #[trigger] without_link(links, target).contains(x) implies links.contains(x) by {
        links.lemma_filter_contains_rev(other_than(target), x);
    }
}

/// A store whose links are some of the links of a well-formed store, with
/// the same task records, is well formed.
proof fn lemma_fewer_links_keep_wf(db: StoreView, smaller: StoreView)
    requires
        db.wf(),
        smaller.tasks == db.tasks,
        forall|x: LinkView| #[trigger] smaller.subs.contains(x) ==> db.subs.contains(x),
        forall|x: LinkView| #[trigger] smaller.blocks.contains(x) ==> db.blocks.contains(x),
    ensures
        smaller.wf(),
{
    lemma_same_tasks(db, smaller);
    assert forall|k: int| 0 <= k < smaller.all_links().len() implies db.all_links().contains(
        #[trigger] smaller.all_links()[k],
    ) by {
        lemma_all_links_member(smaller, k);
        let x = smaller.all_links()[k];
        if smaller.subs.contains(x) {
            let i = choose|i: int| 0 <= i < db.subs.len() && db.subs[i] == x;
            assert(db.all_links()[i] == x);
        } else {
            let i = choose|i: int| 0 <= i < db.blocks.len() && db.blocks[i] == x;
            assert(db.all_links()[db.subs.len() + i] == x);
        }
    }
    assert(links_within(smaller.all_links(), db.all_links()));
    lemma_acyclic_within(smaller.all_links(), db.all_links());
    assert forall|r1: TaskRecordView, r2: TaskRecordView|
        smaller.tasks.contains(r1) && smaller.tasks.contains(r2) && r1.id == r2.id implies r1.user_id
        == r2.user_id by {}
}

/// Disconnecting a blocking task keeps a well-formed store well formed.
pub proof fn law_disconnect_block_task_keeps_wf(
    db: StoreView,
    blocking: Seq<char>,
    blocked: Seq<char>,
    user: Seq<char>,
)
    requires
        db.wf(),
    ensures
        disconnect_block_task_outcome(db, blocking, blocked, user).0.wf(),
{
    let target = link_of(blocking, blocked, user);
    lemma_without_link_within(db.blocks, target);
    if db.blocks.contains(target) {
        lemma_fewer_links_keep_wf(
            db,
            StoreView { blocks: without_link(db.blocks, target), ..db },
        );
    }
}

/// Disconnecting a sub task keeps a well-formed store well formed.
pub proof fn law_disconnect_sub_task_keeps_wf(
    db: StoreView,
    main: Seq<char>,
    sub: Seq<char>,
    user: Seq<char>,
)
    requires
        db.wf(),
    ensures
        disconnect_sub_task_outcome(db, main, sub, user).0.wf(),
{
    let target = link_of(main, sub, user);
    lemma_without_link_within(db.subs, target);
    if db.subs.contains(target) {
        let removed = StoreView { subs: without_link(db.subs, target), ..db };
        lemma_fewer_links_keep_wf(db, removed);
        match main_task_of(db, sub, user) {
            None => {},
            Some(m) => {
                lemma_propagate_shape(removed, m, user, removed.subs.len());
                lemma_shape_keeps_wf(removed, propagate(removed, m, user, removed.subs.len()).0);
            },
        }
    }
}

/// Moving a blocking link keeps a well-formed store well formed.
pub proof fn law_reconnect_block_task_keeps_wf(
    db: StoreView,
    old_blocking: Seq<char>,
    old_blocked: Seq<char>,
    new_blocking: Seq<char>,
    new_blocked: Seq<char>,
    user: Seq<char>,
)
    requires
        db.wf(),
    ensures
        reconnect_block_task_outcome(db, old_blocking, old_blocked, new_blocking, new_blocked, user).0.wf(),
{
    law_disconnect_block_task_keeps_wf(db, old_blocking, old_blocked, user);
    let d1 = disconnect_block_task_outcome(db, old_blocking, old_blocked, user).0;
    law_connect_block_task_keeps_wf(d1, new_blocking, new_blocked, user);
}

/// Moving a sub-task link keeps a well-formed store well formed.
pub proof fn law_reconnect_sub_task_keeps_wf(
    db: StoreView,
    old_main: Seq<char>,
    old_sub: Seq<char>,
    new_main: Seq<char>,
    new_sub: Seq<char>,
    user: Seq<char>,
)
    requires
        db.wf(),
    ensures
        reconnect_outcome(db, old_main, old_sub, new_main, new_sub, user).0.wf(),
{
    law_disconnect_sub_task_keeps_wf(db, old_main, old_sub, user);
    let d1 = disconnect_sub_task_outcome(db, old_main, old_sub, user).0;
    law_connect_sub_task_keeps_wf(d1, new_main, new_sub, user);
}

/// Changing task records without changing their identifier or user keeps
/// the shape of the store.
pub proof fn lemma_map_records_shape(db: StoreView, f: spec_fn(TaskRecordView) -> TaskRecordView)
    requires
        forall|t: TaskRecordView| #[trigger] f(t).id == t.id && f(t).user_id == t.user_id,
    ensures
        same_shape(db, StoreView { tasks: db.tasks.map_values(f), ..db }),
{
    let n = StoreView { tasks: db.tasks.map_values(f), ..db };
    assert forall|k: int| 0 <= k < db.tasks.len() implies (#[trigger] db.tasks[k]).id == n.tasks[k].id
        && db.tasks[k].user_id == n.tasks[k].user_id by {
        assert(n.tasks[k] == f(db.tasks[k]));
    }
}

/// Changing task records without changing their identifier or user keeps
/// a well-formed store well formed.
pub proof fn law_map_records_keeps_wf(db: StoreView, f: spec_fn(TaskRecordView) -> TaskRecordView)
    requires
        db.wf(),
        forall|t: TaskRecordView| #[trigger] f(t).id == t.id && f(t).user_id == t.user_id,
    ensures
        (StoreView { tasks: db.tasks.map_values(f), ..db }).wf(),
{
    lemma_map_records_shape(db, f);
    lemma_shape_keeps_wf(db, StoreView { tasks: db.tasks.map_values(f), ..db });
}

/// Storing a task under a new identifier keeps a well-formed store well
/// formed.
pub proof fn law_insert_task_keeps_wf(db: StoreView, r: TaskRecordView)
    requires
        db.wf(),
        !db.has_id(r.id),
    ensures
        (StoreView { tasks: db.tasks.push(r), ..db }).wf(),
{
    let n = StoreView { tasks: db.tasks.push(r), ..db };
    assert forall|x: Seq<char>, u: Seq<char>| db.has_task(x, u) implies #[trigger] n.has_task(x, u) by {
        let i = choose|i: int| 0 <= i < db.tasks.len() && is_task_of(#[trigger] db.tasks[i], x, u);
        assert(is_task_of(n.tasks[i], x, u));
    }
    assert forall|r1: TaskRecordView, r2: TaskRecordView|
        n.tasks.contains(r1) && n.tasks.contains(r2) && r1.id == r2.id implies r1.user_id
        == r2.user_id by {
        let i = choose|i: int| 0 <= i < n.tasks.len() && n.tasks[i] == r1;
        let j = choose|j: int| 0 <= j < n.tasks.len() && n.tasks[j] == r2;
        if i < db.tasks.len() {
            assert(db.tasks[i] == r1);
            assert(db.tasks.contains(r1));
        }
        if j < db.tasks.len() {
            assert(db.tasks[j] == r2);
            assert(db.tasks.contains(r2));
        }
        if i < db.tasks.len() && j == db.tasks.len() {
            assert(db.tasks[i].id == r.id);
        }
        if j < db.tasks.len() && i == db.tasks.len() {
            assert(db.tasks[j].id == r.id);
        }
    }
    assert(n.all_links() == db.all_links());
}

/// Leaving records out keeps identifiers distinct.
proof fn lemma_filter_ids_unique(s: Seq<TaskRecordView>, p: spec_fn(TaskRecordView) -> bool)
    requires
        (StoreView { tasks: s, subs: Seq::empty(), blocks: Seq::empty() }).ids_unique(),
    ensures
        (StoreView { tasks: s.filter(p), subs: Seq::empty(), blocks: Seq::empty() }).ids_unique(),
    decreases s.len(),
{
    reveal(Seq::filter);
    if s.len() > 0 {
        let d = s.drop_last();
        assert forall|i: int, j: int| 0 <= i < d.len() && 0 <= j < d.len() && i != j implies #[trigger] d[i].id
            != #[trigger] d[j].id by {
            assert(s[i].id != s[j].id);
        }
        lemma_filter_ids_unique(d, p);
        let f = d.filter(p);
        if p(s.last()) {
            let g = f.push(s.last());
            assert forall|i: int, j: int| 0 <= i < g.len() && 0 <= j < g.len() && i != j implies #[trigger] g[i].id
                != #[trigger] g[j].id by {
                if i < f.len() && j < f.len() {
                    assert(g[i] == f[i] && g[j] == f[j]);
                } else {
                    let k = if i < f.len() { i } else { j };
                    assert(f.contains(f[k]));
                    d.lemma_filter_contains_rev(p, f[k]);
                    let m = choose|m: int| 0 <= m < d.len() && d[m] == f[k];
                    assert(s[m] == d[m]);
                    assert(s[m].id != s[s.len() - 1].id);
                }
            }
        }
    }
}

/// Deleting a task, with every link that names it, keeps a well-formed
/// store well formed, and the task is gone.
pub proof fn law_delete_task_keeps_wf(db: StoreView, id: Seq<char>, user: Seq<char>)
    requires
        db.wf(),
    ensures
        ({
            let n = StoreView {
                tasks: db.tasks.filter(not_task_of(id, user)),
                subs: db.subs.filter(not_touching(id)),
                blocks: db.blocks.filter(not_touching(id)),
            };
            n.wf() && !n.has_task(id, user)
        }),
{
    let n = StoreView {
        tasks: db.tasks.filter(not_task_of(id, user)),
        subs: db.subs.filter(not_touching(id)),
        blocks: db.blocks.filter(not_touching(id)),
    };
    lemma_filter_ids_unique(db.tasks, not_task_of(id, user));
    assert(n.ids_unique());
    assert forall|r: TaskRecordView| #[trigger] n.tasks.contains(r) implies db.tasks.contains(r)
        && !is_task_of(r, id, user) by {
        db.tasks.lemma_filter_contains_rev(not_task_of(id, user), r);
        let k = choose|k: int| 0 <= k < n.tasks.len() && n.tasks[k] == r;
        db.tasks.lemma_filter_pred(not_task_of(id, user), k);
    }
    assert forall|x: LinkView| #[trigger] n.subs.contains(x) implies db.subs.contains(x)
        && x.parent != id && x.child != id by {
        db.subs.lemma_filter_contains_rev(not_touching(id), x);
        let k = choose|k: int| 0 <= k < n.subs.len() && n.subs[k] == x;
        db.subs.lemma_filter_pred(not_touching(id), k);
    }
    assert forall|x: LinkView| #[trigger] n.blocks.contains(x) implies db.blocks.contains(x)
        && x.parent != id && x.child != id by {
        db.blocks.lemma_filter_contains_rev(not_touching(id), x);
        let k = choose|k: int| 0 <= k < n.blocks.len() && n.blocks[k] == x;
        db.blocks.lemma_filter_pred(not_touching(id), k);
    }
    // A task other than `id` keeps its record.
    assert forall|x: Seq<char>, u: Seq<char>| x != id && db.has_task(x, u) implies #[trigger] n.has_task(
        x,
        u,
    ) by {
        let i = choose|i: int| 0 <= i < db.tasks.len() && is_task_of(#[trigger] db.tasks[i], x, u);
        db.tasks.lemma_filter_contains(not_task_of(id, user), i);
        let j = choose|j: int| 0 <= j < n.tasks.len() && n.tasks[j] == db.tasks[i];
        assert(is_task_of(n.tasks[j], x, u));
    }
    assert forall|x: LinkView| n.subs.contains(x) implies n.has_task(x.parent, x.user_id)
        && n.has_task(x.child, x.user_id) by {
        assert(db.has_task(x.parent, x.user_id));
        assert(db.has_task(x.child, x.user_id));
    }
    assert forall|x: LinkView| n.blocks.contains(x) implies n.has_task(x.parent, x.user_id)
        && n.has_task(x.child, x.user_id) by {
        assert(db.has_task(x.parent, x.user_id));
        assert(db.has_task(x.child, x.user_id));
    }
    assert forall|r1: TaskRecordView, r2: TaskRecordView|
        n.tasks.contains(r1) && n.tasks.contains(r2) && r1.id == r2.id implies r1.user_id
        == r2.user_id by {}
    assert forall|a: LinkView, b: LinkView|
        n.subs.contains(a) && n.subs.contains(b) && a.child == b.child implies a.parent
        == b.parent by {}
    lemma_fewer_links_keep_wf(db, StoreView { tasks: db.tasks, ..n });
    assert forall|k: int| 0 <= k < n.all_links().len() implies db.all_links().contains(
        #[trigger] n.all_links()[k],
    ) by {
        lemma_all_links_member(n, k);
        let x = n.all_links()[k];
        if n.subs.contains(x) {
            let i = choose|i: int| 0 <= i < db.subs.len() && db.subs[i] == x;
            assert(db.all_links()[i] == x);
        } else {
            let i = choose|i: int| 0 <= i < db.blocks.len() && db.blocks[i] == x;
            assert(db.all_links()[db.subs.len() + i] == x);
        }
    }
    lemma_acyclic_within(n.all_links(), db.all_links());
    if n.has_task(id, user) {
        let i = choose|i: int| 0 <= i < n.tasks.len() && is_task_of(#[trigger] n.tasks[i], id, user);
        assert(n.tasks.contains(n.tasks[i]));
    }
}

/// The task reached from `id` by following main tasks `i` times, if the
/// chain is that long.
pub open spec fn main_chain(db: StoreView, id: Seq<char>, user: Seq<char>, i: nat) -> Option<
    Seq<char>,
>
    decreases i,
{
    if i == 0 {
        Some(id)
    } else {
        match main_task_of(db, id, user) {
            None => None,
            Some(m) => main_chain(db, m, user, (i - 1) as nat),
        }
    }
}

/// The link index that leads from `x` to its main task.
spec fn main_link(db: StoreView, x: Seq<char>, user: Seq<char>) -> int {
    choose|k: int| is_first_main_link(db.subs, x, user, k)
}

/// The chain one step further, read from its end.
proof fn lemma_chain_snoc(db: StoreView, id: Seq<char>, user: Seq<char>, i: nat)
    requires
        main_chain(db, id, user, i) is Some,
    ensures
        main_chain(db, id, user, i + 1) == main_task_of(db, main_chain(db, id, user, i)->Some_0, user),
    decreases i,
{
    if i > 0 {
        let m = main_task_of(db, id, user)->Some_0;
        lemma_chain_snoc(db, m, user, (i - 1) as nat);
    } else {
        match main_task_of(db, id, user) {
            None => {},
            Some(m) => {
                assert(main_chain(db, m, user, 0) == Some(m));
            },
        }
    }
}

/// The tasks of a chain are joined by sub-task links, upwards.
proof fn lemma_chain_walk(db: StoreView, id: Seq<char>, user: Seq<char>, i: nat, j: nat)
    requires
        i <= j,
        main_chain(db, id, user, j) is Some,
    ensures
        main_chain(db, id, user, i) is Some,
        walk(
            db.subs,
            true,
            main_chain(db, id, user, i)->Some_0,
            main_chain(db, id, user, j)->Some_0,
            (j - i) as nat,
        ),
    decreases j - i,
{
    if i == j {
        lemma_chain_prefix(db, id, user, i, j);
    } else {
        lemma_chain_prefix(db, id, user, (j - 1) as nat, j);
        lemma_chain_walk(db, id, user, i, (j - 1) as nat);
        let x = main_chain(db, id, user, (j - 1) as nat)->Some_0;
        lemma_chain_snoc(db, id, user, (j - 1) as nat);
        let k = main_link(db, x, user);
        assert(is_first_main_link(db.subs, x, user, k));
        lemma_walk_snoc(
            db.subs,
            true,
            main_chain(db, id, user, i)->Some_0,
            x,
            (j - 1 - i) as nat,
            k,
        );
    }
}

/// A chain that reaches step `j` reaches every earlier step.
proof fn lemma_chain_prefix(db: StoreView, id: Seq<char>, user: Seq<char>, i: nat, j: nat)
    requires
        i <= j,
        main_chain(db, id, user, j) is Some,
    ensures
        main_chain(db, id, user, i) is Some,
    decreases j,
{
    if i < j && j > 0 {
        if i > 0 {
            let m = main_task_of(db, id, user)->Some_0;
            lemma_chain_prefix(db, m, user, (i - 1) as nat, (j - 1) as nat);
        }
    }
}

/// A sequence of distinct integers in `[0, n)` has at most `n` elements.
proof fn lemma_distinct_in_range(ks: Seq<int>, n: int)
    requires
        ks.no_duplicates(),
        forall|i: int| 0 <= i < ks.len() ==> 0 <= #[trigger] ks[i] < n,
        0 <= n,
    ensures
        ks.len() <= n,
{
    ks.unique_seq_to_set();
    lemma_int_range(0, n);
    assert(ks.to_set().subset_of(set_int_range(0, n)));
    vstd::set_lib::lemma_len_subset(ks.to_set(), set_int_range(0, n));
}

/// In a well-formed store, fewer main tasks than sub-task links lie above
/// any task.
proof fn lemma_chain_bounded(db: StoreView, id: Seq<char>, user: Seq<char>)
    requires
        db.wf(),
    ensures
        main_chain(db, id, user, db.subs.len() + 1) is None,
{
    let n = db.subs.len();
    if main_chain(db, id, user, n + 1) is Some {
        let ks = Seq::new(
            (n + 1) as nat,
            |i: int| main_link(db, main_chain(db, id, user, i as nat)->Some_0, user),
        );
        assert forall|i: int| 0 <= i < ks.len() implies 0 <= #[trigger] ks[i] < n && db.subs[ks[i]].child
            == main_chain(db, id, user, i as nat)->Some_0 by {
            lemma_chain_prefix(db, id, user, (i + 1) as nat, n + 1);
            lemma_chain_prefix(db, id, user, i as nat, n + 1);
            lemma_chain_snoc(db, id, user, i as nat);
        }
        assert forall|i: int, j: int| 0 <= i < ks.len() && 0 <= j < ks.len() && i != j implies ks[i]
            != ks[j] by {
            if ks[i] == ks[j] {
                let (a, b) = if i < j {
                    (i, j)
                } else {
                    (j, i)
                };
                lemma_chain_prefix(db, id, user, b as nat, n + 1);
                lemma_chain_walk(db, id, user, a as nat, b as nat);
                let x = main_chain(db, id, user, a as nat)->Some_0;
                assert(db.subs[ks[a]].child == x);
                assert(main_chain(db, id, user, b as nat)->Some_0 == x);
                let big = db.all_links();
                assert forall|k: int| 0 <= k < db.subs.len() implies big.contains(#[trigger] db.subs[k]) by {
                    assert(big[k] == db.subs[k]);
                }
                lemma_walk_within(db.subs, big, true, x, x, (b - a) as nat);
                assert(is_ancestor(big, x, x));
            }
        }
        lemma_distinct_in_range(ks, n as int);
    }
}

/// Following main tasks changes nothing of where the chain goes when the
/// statuses change.
proof fn lemma_chain_same_subs(a: StoreView, b: StoreView, id: Seq<char>, user: Seq<char>, i: nat)
    requires
        a.subs == b.subs,
    ensures
        main_chain(a, id, user, i) == main_chain(b, id, user, i),
    decreases i,
{
    assert(main_task_of(a, id, user) == main_task_of(b, id, user));
    if i > 0 {
        match main_task_of(a, id, user) {
            None => {},
            Some(m) => lemma_chain_same_subs(a, b, m, user, (i - 1) as nat),
        }
    }
}

/// When the chain above `x` ends within `f` steps, more fuel changes
/// nothing.
proof fn lemma_propagate_fuel(db: StoreView, x: Seq<char>, user: Seq<char>, f: nat, extra: nat)
    requires
        main_chain(db, x, user, f + 1) is None,
    ensures
        propagate(db, x, user, f) == propagate(db, x, user, f + extra),
    decreases f,
{
    if db.has_task(x, user) {
        let next = refreshed(db, x, user);
        assert(next.subs == db.subs);
        assert(main_task_of(next, x, user) == main_task_of(db, x, user));
        match main_task_of(next, x, user) {
            None => {},
            Some(m) => {
                if f == 0 {
                    assert(main_chain(db, x, user, 1) == main_chain(db, m, user, 0));
                } else {
                    assert(main_chain(db, x, user, f + 1) == main_chain(db, m, user, f));
                    lemma_chain_same_subs(db, next, m, user, f);
                    lemma_propagate_fuel(next, m, user, (f - 1) as nat, extra);
                    assert((f + extra - 1) as nat == (f - 1) as nat + extra);
                }
            },
        }
    }
}

/// In a well-formed store, bringing main tasks up to date goes all the way
/// up: the bound on the steps it takes is never what stops it.
pub proof fn law_propagation_reaches_top(db: StoreView, id: Seq<char>, user: Seq<char>, extra: nat)
    requires
        db.wf(),
    ensures
        propagate(db, id, user, db.subs.len()) == propagate(db, id, user, db.subs.len() + extra),
{
    lemma_chain_bounded(db, id, user);
    lemma_propagate_fuel(db, id, user, db.subs.len(), extra);
}

/// A task that has sub tasks is settled when each of its records is done
/// exactly when all its sub tasks are.
pub open spec fn settled(db: StoreView, x: Seq<char>, user: Seq<char>) -> bool {
    children_of(db.subs, x, user) != Set::<Seq<char>>::empty() ==> forall|k: int|
        0 <= k < db.tasks.len() && #[trigger] is_task_of(db.tasks[k], x, user)
            ==> db.tasks[k].status == status_from_subs(db, x, user)
}

/// No task lies above itself through sub-task links alone.
proof fn lemma_no_sub_cycle(db: StoreView, x: Seq<char>, n: nat)
    requires
        db.wf(),
        n > 0,
    ensures
        !walk(db.subs, true, x, x, n),
{
    if walk(db.subs, true, x, x, n) {
        let big = db.all_links();
        assert forall|k: int| 0 <= k < db.subs.len() implies big.contains(#[trigger] db.subs[k]) by {
            assert(big[k] == db.subs[k]);
        }
        lemma_walk_within(db.subs, big, true, x, x, n);
        assert(is_ancestor(big, x, x));
    }
}

/// A sub task `c` of `id` lies one link below it.
proof fn lemma_child_walk(db: StoreView, id: Seq<char>, user: Seq<char>, c: Seq<char>)
    requires
        children_of(db.subs, id, user).contains(c),
    ensures
        walk(db.subs, true, c, id, 1),
{
    let k = choose|k: int|
        0 <= k < db.subs.len() && #[trigger] db.subs[k].parent == id && db.subs[k].user_id == user
            && db.subs[k].child == c;
    assert(from_of(db.subs[k], true) == c);
    assert(walk(db.subs, true, to_of(db.subs[k], true), id, 0));
}

/// The main-task chain above a task never comes back to it, nor to one of
/// its sub tasks.
proof fn lemma_chain_above(db: StoreView, id: Seq<char>, user: Seq<char>, j: nat)
    requires
        db.wf(),
        main_chain(db, id, user, j) is Some,
    ensures
        j > 0 ==> main_chain(db, id, user, j)->Some_0 != id,
        !children_of(db.subs, id, user).contains(main_chain(db, id, user, j)->Some_0),
{
    lemma_chain_walk(db, id, user, 0, j);
    assert(main_chain(db, id, user, 0) == Some(id));
    let c = main_chain(db, id, user, j)->Some_0;
    if j > 0 && c == id {
        lemma_no_sub_cycle(db, id, j);
    }
    if children_of(db.subs, id, user).contains(c) {
        lemma_child_walk(db, id, user, c);
        lemma_walk_trans(db.subs, true, c, id, c, 1, j);
        lemma_no_sub_cycle(db, c, 1 + j);
    }
}

/// The status of a task's sub tasks reads only the records of its sub tasks.
proof fn lemma_status_from_subs_same(a: StoreView, b: StoreView, x: Seq<char>, user: Seq<char>)
    requires
        a.subs == b.subs,
        a.tasks.len() == b.tasks.len(),
        forall|k: int| 0 <= k < a.tasks.len() ==> #[trigger] b.tasks[k].id == a.tasks[k].id,
        forall|k: int|
            0 <= k < a.tasks.len() && children_of(a.subs, x, user).contains(#[trigger] a.tasks[k].id)
                ==> b.tasks[k] == a.tasks[k],
    ensures
        status_from_subs(a, x, user) == status_from_subs(b, x, user),
{
    let ca = children_of(a.subs, x, user);
    assert forall|k: int| 0 <= k < a.tasks.len() && ca.contains(#[trigger] a.tasks[k].id) implies a.tasks[k].status
        == b.tasks[k].status by {}
    assert forall|k: int| 0 <= k < b.tasks.len() && ca.contains(#[trigger] b.tasks[k].id) implies a.tasks[k].status
        == b.tasks[k].status by {
        assert(a.tasks[k].id == b.tasks[k].id);
    }
}

/// Bringing a task up to date settles it.
proof fn lemma_refreshed_settles(db: StoreView, id: Seq<char>, user: Seq<char>)
    requires
        db.wf(),
    ensures
        settled(refreshed(db, id, user), id, user),
{
    let next = refreshed(db, id, user);
    if children_of(db.subs, id, user) != Set::<Seq<char>>::empty() {
        assert forall|k: int| 0 <= k < db.tasks.len() implies #[trigger] next.tasks[k].id == db.tasks[k].id by {}
        assert forall|k: int|
            0 <= k < db.tasks.len() && children_of(db.subs, id, user).contains(#[trigger] db.tasks[k].id)
                implies next.tasks[k] == db.tasks[k] by {
            if db.tasks[k].id == id {
                lemma_child_walk(db, id, user, id);
                lemma_no_sub_cycle(db, id, 1);
            }
        }
        lemma_status_from_subs_same(db, next, id, user);
    }
}

/// Bringing main tasks up to date leaves every record of a task off the
/// chain as it was.
proof fn lemma_propagate_off_chain(db: StoreView, x: Seq<char>, user: Seq<char>, f: nat, k: int)
    requires
        0 <= k < db.tasks.len(),
        forall|j: nat| j <= f ==> #[trigger] main_chain(db, x, user, j) != Some(db.tasks[k].id),
    ensures
        propagate(db, x, user, f).0.tasks.len() == db.tasks.len(),
        propagate(db, x, user, f).0.tasks[k] == db.tasks[k],
    decreases f,
{
    if db.has_task(x, user) {
        let next = refreshed(db, x, user);
        lemma_refreshed_shape(db, x, user);
        assert(main_chain(db, x, user, 0) == Some(x));
        assert(next.tasks[k] == db.tasks[k]);
        assert(main_task_of(next, x, user) == main_task_of(db, x, user));
        match main_task_of(next, x, user) {
            None => {},
            Some(m) => if f > 0 {
                assert forall|j: nat| j <= (f - 1) as nat implies #[trigger] main_chain(next, m, user, j)
                    != Some(next.tasks[k].id) by {
                    lemma_chain_same_subs(next, db, m, user, j);
                    assert(main_chain(db, x, user, j + 1) == main_chain(db, m, user, j));
                }
                lemma_propagate_off_chain(next, m, user, (f - 1) as nat, k);
            },
        }
    }
}

/// Bringing main tasks up to date settles every task of the chain it goes
/// through.
proof fn lemma_propagate_settles(db: StoreView, id: Seq<char>, user: Seq<char>, f: nat, i: nat)
    requires
        db.wf(),
        db.has_task(id, user),
        i <= f,
        main_chain(db, id, user, i) is Some,
    ensures
        settled(propagate(db, id, user, f).0, main_chain(db, id, user, i)->Some_0, user),
    decreases f,
{
    let next = refreshed(db, id, user);
    lemma_refreshed_shape(db, id, user);
    lemma_shape_keeps_wf(db, next);
    lemma_refreshed_settles(db, id, user);
    assert(main_task_of(next, id, user) == main_task_of(db, id, user));
    assert(main_chain(db, id, user, 0) == Some(id));
    match main_task_of(next, id, user) {
        None => {},
        Some(m) => {
            if f > 0 {
                let fin = propagate(next, m, user, (f - 1) as nat).0;
                assert(fin == propagate(db, id, user, f).0);
                lemma_propagate_shape(next, m, user, (f - 1) as nat);
                if i == 0 {
                    if children_of(next.subs, id, user) != Set::<Seq<char>>::empty() {
                        assert forall|k: int|
                            0 <= k < next.tasks.len() && (is_task_of(next.tasks[k], id, user)
                                || children_of(next.subs, id, user).contains(next.tasks[k].id))
                                implies #[trigger] fin.tasks[k] == next.tasks[k] by {
                            assert forall|j: nat| j <= (f - 1) as nat implies #[trigger] main_chain(
                                next,
                                m,
                                user,
                                j,
                            ) != Some(next.tasks[k].id) by {
                                lemma_chain_same_subs(next, db, m, user, j);
                                assert(main_chain(db, id, user, j + 1) == main_chain(db, m, user, j));
                                if main_chain(db, m, user, j) is Some {
                                    lemma_chain_above(db, id, user, j + 1);
                                }
                            }
                            lemma_propagate_off_chain(next, m, user, (f - 1) as nat, k);
                        }
                        assert forall|k: int| 0 <= k < next.tasks.len() implies #[trigger] fin.tasks[k].id
                            == next.tasks[k].id by {}
                        lemma_status_from_subs_same(next, fin, id, user);
                    }
                } else {
                    let l = choose|l: int| is_first_main_link(db.subs, id, user, l);
                    assert(db.subs.contains(db.subs[l]));
                    lemma_shape_has_task(db, next);
                    lemma_chain_same_subs(next, db, m, user, (i - 1) as nat);
                    assert(main_chain(db, id, user, i) == main_chain(db, m, user, (i - 1) as nat));
                    lemma_propagate_settles(next, m, user, (f - 1) as nat, (i - 1) as nat);
                }
            }
        },
    }
}

/// In a well-formed store, once a task and its main tasks are brought up to
/// date, the task and every task above it that has sub tasks is done
/// exactly when all its sub tasks are.
pub proof fn law_propagation_settles_chain(db: StoreView, id: Seq<char>, user: Seq<char>, i: nat)
    requires
        db.wf(),
        db.has_task(id, user),
        main_chain(db, id, user, i) is Some,
    ensures
        settled(propagate(db, id, user, db.subs.len()).0, main_chain(db, id, user, i)->Some_0, user),
{
    lemma_chain_bounded(db, id, user);
    if i > db.subs.len() {
        lemma_chain_prefix(db, id, user, db.subs.len() + 1, i);
    }
    lemma_propagate_settles(db, id, user, db.subs.len(), i);
}

/// A sequence whose elements all pass a filter passes through it unchanged.
proof fn lemma_filter_keeps_all(s: Seq<LinkView>, p: spec_fn(LinkView) -> bool)
    requires
        forall|i: int| 0 <= i < s.len() ==> p(#[trigger] s[i]),
    ensures
        s.filter(p) == s,
    decreases s.len(),
{
    reveal(Seq::filter);
    if s.len() > 0 {
        lemma_filter_keeps_all(s.drop_last(), p);
        assert(s.drop_last().push(s.last()) =~= s);
    }
}

/// Removing a link that was just pushed onto links that held no link
/// between the same two tasks gives back those links.
proof fn lemma_remove_pushed(links: Seq<LinkView>, parent: Seq<char>, child: Seq<char>, user: Seq<char>)
    requires
        !has_pair(links, parent, child),
    ensures
        links.push(link_of(parent, child, user)).contains(link_of(parent, child, user)),
        without_link(links.push(link_of(parent, child, user)), link_of(parent, child, user)) == links,
{
    let t = link_of(parent, child, user);
    let grown = links.push(t);
    assert(grown[links.len() as int] == t);
    assert forall|i: int| 0 <= i < links.len() implies other_than(t)(#[trigger] links[i]) by {
        if links[i] == t {
            assert(links[i].parent == parent && links[i].child == child);
        }
    }
    lemma_filter_keeps_all(links, other_than(t));
    reveal(Seq::filter);
    assert(grown.drop_last() =~= links);
}

/// Removing a blocking link right after recording it gives back the store
/// it was recorded in.
pub proof fn law_disconnect_undoes_connect_block_task(
    db: StoreView,
    blocking: Seq<char>,
    blocked: Seq<char>,
    user: Seq<char>,
)
    requires
        connect_block_task_outcome(db, blocking, blocked, user).1 is Ok,
    ensures
        disconnect_block_task_outcome(
            connect_block_task_outcome(db, blocking, blocked, user).0,
            blocking,
            blocked,
            user,
        ) == (db, Ok::<(), DbError>(())),
{
    lemma_remove_pushed(db.blocks, blocking, blocked, user);
}

/// Under the rules, bringing a task and its main tasks up to date succeeds.
proof fn lemma_propagate_ok(db: StoreView, id: Seq<char>, user: Seq<char>, f: nat)
    requires
        db.wf(),
        db.has_task(id, user),
    ensures
        propagate(db, id, user, f).1 is Ok,
    decreases f,
{
    let next = refreshed(db, id, user);
    lemma_refreshed_shape(db, id, user);
    lemma_shape_keeps_wf(db, next);
    assert(main_task_of(next, id, user) == main_task_of(db, id, user));
    match main_task_of(next, id, user) {
        None => {},
        Some(m) => if f > 0 {
            let l = choose|l: int| is_first_main_link(db.subs, id, user, l);
            assert(db.subs.contains(db.subs[l]));
            lemma_shape_has_task(db, next);
            lemma_propagate_ok(next, m, user, (f - 1) as nat);
        },
    }
}

/// Removing a sub-task link right after recording it succeeds, and gives
/// back the links and tasks of the store it was recorded in; only statuses
/// brought up to date on the way may differ.
pub proof fn law_disconnect_undoes_connect_sub_task(
    db: StoreView,
    main: Seq<char>,
    sub: Seq<char>,
    user: Seq<char>,
)
    requires
        db.wf(),
        connect_sub_task_outcome(db, main, sub, user).1 is Ok,
    ensures
        disconnect_sub_task_outcome(connect_sub_task_outcome(db, main, sub, user).0, main, sub, user).1
            is Ok,
        same_shape(
            db,
            disconnect_sub_task_outcome(connect_sub_task_outcome(db, main, sub, user).0, main, sub, user).0,
        ),
{
    let t = link_of(main, sub, user);
    let inserted = StoreView { subs: db.subs.push(t), ..db };
    let out = connect_sub_task_outcome(db, main, sub, user).0;
    law_connect_sub_task_keeps_wf(db, main, sub, user);
    lemma_remove_pushed(db.subs, main, sub, user);
    match main_task_of(inserted, sub, user) {
        None => {
            assert(out == inserted);
        },
        Some(m) => {
            lemma_propagate_shape(inserted, m, user, inserted.subs.len());
        },
    }
    assert(same_shape(inserted, out));
    assert(out.subs.contains(t));
    let removed = StoreView { subs: without_link(out.subs, t), ..out };
    assert(removed.subs == db.subs);
    assert(same_shape(db, removed));
    lemma_without_link_within(out.subs, t);
    lemma_fewer_links_keep_wf(out, removed);
    let fin = disconnect_sub_task_outcome(out, main, sub, user);
    match main_task_of(out, sub, user) {
        None => {
            assert(fin.0 == removed);
        },
        Some(m) => {
            let l = choose|l: int| is_first_main_link(out.subs, sub, user, l);
            assert(out.subs.contains(out.subs[l]));
            assert(out.has_task(m, user));
            lemma_same_tasks(out, removed);
            lemma_propagate_ok(removed, m, user, removed.subs.len());
            lemma_propagate_shape(removed, m, user, removed.subs.len());
            lemma_same_shape_trans(db, removed, fin.0);
        },
    }
}

/// A walk down the links, read backwards, is a walk up.
proof fn lemma_walk_reverse(links: Seq<LinkView>, a: Seq<char>, b: Seq<char>, n: nat)
    requires
        walk(links, false, a, b, n),
    ensures
        walk(links, true, b, a, n),
    decreases n,
{
    if n > 0 {
        let i = choose|i: int|
            0 <= i < links.len() && from_of(#[trigger] links[i], false) == a && walk(
                links,
                false,
                to_of(links[i], false),
                b,
                (n - 1) as nat,
            );
        lemma_walk_reverse(links, to_of(links[i], false), b, (n - 1) as nat);
        lemma_walk_snoc(links, true, b, links[i].child, (n - 1) as nat, i);
    }
}

/// A task below `id` is not on the main-task chain above `id`.
proof fn lemma_below_off_chain(db: StoreView, id: Seq<char>, user: Seq<char>, x: Seq<char>, j: nat)
    requires
        db.wf(),
        reached_after_step(db.subs, false, id, user, x),
    ensures
        main_chain(db, id, user, j) != Some(x),
{
    if main_chain(db, id, user, j) == Some(x) {
        let l = choose|l: int|
            0 <= l < db.subs.len() && from_of(#[trigger] db.subs[l], false) == id && db.subs[l].user_id
                == user && reaches(db.subs, false, to_of(db.subs[l], false), x);
        let c = db.subs[l].child;
        let n = choose|n: nat| #[trigger] walk(db.subs, false, c, x, n);
        lemma_walk_reverse(db.subs, c, x, n);
        assert(children_of(db.subs, id, user).contains(c));
        lemma_child_walk(db, id, user, c);
        lemma_walk_trans(db.subs, true, x, c, id, n, 1);
        lemma_chain_walk(db, id, user, 0, j);
        assert(main_chain(db, id, user, 0) == Some(id));
        lemma_walk_trans(db.subs, true, x, id, x, n + 1, j);
        lemma_no_sub_cycle(db, x, n + 1 + j);
    }
}

/// In a well-formed store, once the status of a task has changed, every
/// task of its user that follows it (a task below it; towards done only
/// one that no task to do blocks, directly or from above) has the new
/// status: bringing the main tasks up to date afterwards leaves it alone.
pub proof fn law_status_change_reaches_descendants(
    db: StoreView,
    id: Seq<char>,
    user: Seq<char>,
    status: TaskStatus,
    k: int,
)
    requires
        db.wf(),
        0 <= k < db.tasks.len(),
        db.tasks[k].user_id == user,
        with_task_status(db, id, user, status).follows_status(id, user, status, db.tasks[k].id),
    ensures
        status_change_outcome(db, id, user, status).0.tasks.len() == db.tasks.len(),
        status_change_outcome(db, id, user, status).0.tasks[k].status == status,
{
    let s1 = with_task_status(db, id, user, status);
    let s2 = with_descendants_status(s1, id, user, status);
    lemma_map_records_shape(db, status_setter(id, user, status));
    lemma_map_records_shape(s1, descendant_status_setter(s1, id, user, status));
    lemma_shape_keeps_wf(db, s1);
    lemma_shape_keeps_wf(s1, s2);
    assert(s1.tasks[k].id == db.tasks[k].id && s1.tasks[k].user_id == user);
    assert(s2.tasks[k] == descendant_status_setter(s1, id, user, status)(s1.tasks[k]));
    assert(s2.tasks[k].status == status);
    let x = s2.tasks[k].id;
    assert(x == db.tasks[k].id);
    assert(s1.subs == s2.subs);
    assert forall|j: nat| j <= s2.subs.len() implies #[trigger] main_chain(s2, id, user, j) != Some(
        s2.tasks[k].id,
    ) by {
        lemma_below_off_chain(s2, id, user, x, j);
    }
    lemma_propagate_off_chain(s2, id, user, s2.subs.len(), k);
}

/// The older route that records a sub task checks only that both tasks
/// are distinct tasks of the user; the link it records keeps a well-formed
/// store well formed when the sub task has no main task yet and the link
/// closes no cycle.
pub proof fn law_create_subtask_keeps_wf(db: StoreView, parent: Seq<char>, sub: Seq<char>, user: Seq<char>)
    requires
        db.wf(),
        all_tasks_exist(db, seq![parent, sub], user),
        !has_main(db.subs, sub),
        !db.closes_cycle(parent, sub, user),
    ensures
        (StoreView { subs: db.subs.push(link_of(parent, sub, user)), ..db }).wf(),
{
    lemma_checked_pair(db, parent, sub, user);
    lemma_push_sub_keeps_wf(db, link_of(parent, sub, user));
}

/// A task reads one way only: two answers that both describe the task
/// `id` of `user` in the same store are equal. So what a write answers
/// (which describes the stored task) is what a later read answers.
pub proof fn law_found_unique(db: StoreView, id: Seq<char>, user: Seq<char>, t1: TaskView, t2: TaskView)
    requires
        db.found(id, user, t1),
        db.found(id, user, t2),
    ensures
        t1 == t2,
{
    let i = choose|i: int| #[trigger] db.is_first_task(id, user, i) && db.describes(i, t1);
    let j = choose|j: int| #[trigger] db.is_first_task(id, user, j) && db.describes(j, t2);
    if i < j {
        assert(is_task_of(db.tasks[i], id, user));
    }
    if j < i {
        assert(is_task_of(db.tasks[j], id, user));
    }
    assert(i == j);
    lemma_sorted_unique(t1.sub_task_ids, t2.sub_task_ids);
    lemma_sorted_unique(t1.blocked_task_ids, t2.blocked_task_ids);
}

/// Bringing a task and its main tasks up to date changes statuses only:
/// links stay, each record differs at most in its status, and a record
/// keeps even its status when its task is off the main-task chain, belongs
/// to another user, or has no sub tasks.
pub proof fn law_propagation_touches_only_the_chain(
    db: StoreView,
    x: Seq<char>,
    user: Seq<char>,
    f: nat,
    k: int,
)
    requires
        0 <= k < db.tasks.len(),
    ensures
        propagate(db, x, user, f).0.subs == db.subs,
        propagate(db, x, user, f).0.blocks == db.blocks,
        propagate(db, x, user, f).0.tasks.len() == db.tasks.len(),
        propagate(db, x, user, f).0.tasks[k] == with_status(
            db.tasks[k],
            propagate(db, x, user, f).0.tasks[k].status,
        ),
        (forall|j: nat| j <= f ==> #[trigger] main_chain(db, x, user, j) != Some(db.tasks[k].id))
            || db.tasks[k].user_id != user || children_of(db.subs, db.tasks[k].id, user)
            == Set::<Seq<char>>::empty() ==> propagate(db, x, user, f).0.tasks[k] == db.tasks[k],
    decreases f,
{
    let fin = propagate(db, x, user, f).0;
    lemma_propagate_shape(db, x, user, f);
    if db.has_task(x, user) {
        let next = refreshed(db, x, user);
        lemma_refreshed_shape(db, x, user);
        assert(main_chain(db, x, user, 0) == Some(x));
        assert(main_task_of(next, x, user) == main_task_of(db, x, user));
        assert(next.tasks[k] == db.tasks[k] || next.tasks[k] == with_status(db.tasks[k], next.tasks[k].status));
        if db.tasks[k].user_id != user || children_of(db.subs, db.tasks[k].id, user) == Set::<Seq<char>>::empty()
            || db.tasks[k].id != x {
            assert(next.tasks[k] == db.tasks[k]);
        }
        match main_task_of(next, x, user) {
            None => {},
            Some(m) => if f > 0 {
                law_propagation_touches_only_the_chain(next, m, user, (f - 1) as nat, k);
                if forall|j: nat| j <= f ==> #[trigger] main_chain(db, x, user, j) != Some(db.tasks[k].id) {
                    assert forall|j: nat| j <= (f - 1) as nat implies #[trigger] main_chain(next, m, user, j)
                        != Some(next.tasks[k].id) by {
                        lemma_chain_same_subs(next, db, m, user, j);
                        assert(main_chain(db, x, user, j + 1) == main_chain(db, m, user, j));
                    }
                }
            },
        }
    }
}

/// In a well-formed store, a status change of a task (that passed the
/// blocking check) succeeds, and afterwards the task and every task above
/// it that has sub tasks is done exactly when all its sub tasks are.
pub proof fn law_status_change_settles_chain(
    db: StoreView,
    id: Seq<char>,
    user: Seq<char>,
    status: TaskStatus,
    i: nat,
)
    requires
        db.wf(),
        db.has_task(id, user),
        main_chain(db, id, user, i) is Some,
    ensures
        status_change_outcome(db, id, user, status).1 is Ok,
        settled(status_change_outcome(db, id, user, status).0, main_chain(db, id, user, i)->Some_0, user),
{
    let s1 = with_task_status(db, id, user, status);
    let s2 = with_descendants_status(s1, id, user, status);
    lemma_map_records_shape(db, status_setter(id, user, status));
    lemma_map_records_shape(s1, descendant_status_setter(s1, id, user, status));
    lemma_shape_keeps_wf(db, s1);
    lemma_shape_keeps_wf(s1, s2);
    lemma_same_shape_trans(db, s1, s2);
    lemma_shape_has_task(db, s2);
    lemma_chain_same_subs(db, s2, id, user, i);
    law_propagation_settles_chain(s2, id, user, i);
    lemma_propagate_ok(s2, id, user, s2.subs.len());
}

/// In a well-formed store, a sub-task link that passes the rules succeeds:
/// it is recorded, and then the new main task and every task above it that
/// has sub tasks is done exactly when all its sub tasks are.
pub proof fn law_connect_sub_task_settles_chain(
    db: StoreView,
    main: Seq<char>,
    sub: Seq<char>,
    user: Seq<char>,
    i: nat,
)
    requires
        db.wf(),
        sub_task_check(db, main, sub, user) is Ok,
        db.has_id(main),
        db.has_id(sub),
        !has_pair(db.subs, main, sub),
        main_chain(StoreView { subs: db.subs.push(link_of(main, sub, user)), ..db }, main, user, i) is Some,
    ensures
        connect_sub_task_outcome(db, main, sub, user).1 is Ok,
        connect_sub_task_outcome(db, main, sub, user).0.subs == db.subs.push(link_of(main, sub, user)),
        settled(
            connect_sub_task_outcome(db, main, sub, user).0,
            main_chain(StoreView { subs: db.subs.push(link_of(main, sub, user)), ..db }, main, user, i)->Some_0,
            user,
        ),
{
    let l = link_of(main, sub, user);
    let inserted = StoreView { subs: db.subs.push(l), ..db };
    lemma_checked_pair(db, main, sub, user);
    lemma_push_sub_keeps_wf(db, l);
    lemma_same_tasks(db, inserted);
    let n = db.subs.len() as int;
    assert(inserted.subs[n] == l);
    assert(is_first_main_link(inserted.subs, sub, user, n)) by {
        assert forall|j: int| 0 <= j < n implies !(#[trigger] inserted.subs[j].child == sub
            && inserted.subs[j].user_id == user) by {
            assert(inserted.subs[j] == db.subs[j]);
            if db.subs[j].child == sub {
                assert(has_main(db.subs, sub));
            }
        }
    }
    let kk = choose|k: int| is_first_main_link(inserted.subs, sub, user, k);
    if kk < n {
        assert(inserted.subs[kk] == db.subs[kk]);
        assert(has_main(db.subs, sub));
    }
    assert(main_task_of(inserted, sub, user) == Some(main));
    lemma_propagate_ok(inserted, main, user, inserted.subs.len());
    lemma_propagate_shape(inserted, main, user, inserted.subs.len());
    law_propagation_settles_chain(inserted, main, user, i);
}

/// In a well-formed store, moving a recorded sub-task link to a new one
/// that passes the rules once the old one is gone succeeds: the old link
/// is gone (unless it is the new one) and the new link is recorded.
pub proof fn law_reconnect_sub_task_succeeds(
    db: StoreView,
    old_main: Seq<char>,
    old_sub: Seq<char>,
    new_main: Seq<char>,
    new_sub: Seq<char>,
    user: Seq<char>,
)
    requires
        db.wf(),
        db.subs.contains(link_of(old_main, old_sub, user)),
        sub_task_check(disconnect_sub_task_outcome(db, old_main, old_sub, user).0, new_main, new_sub, user)
            is Ok,
        disconnect_sub_task_outcome(db, old_main, old_sub, user).0.has_id(new_main),
        disconnect_sub_task_outcome(db, old_main, old_sub, user).0.has_id(new_sub),
        !has_pair(disconnect_sub_task_outcome(db, old_main, old_sub, user).0.subs, new_main, new_sub),
    ensures
        reconnect_outcome(db, old_main, old_sub, new_main, new_sub, user).1 is Ok,
        reconnect_outcome(db, old_main, old_sub, new_main, new_sub, user).0.subs == without_link(
            db.subs,
            link_of(old_main, old_sub, user),
        ).push(link_of(new_main, new_sub, user)),
        reconnect_outcome(db, old_main, old_sub, new_main, new_sub, user).0.subs.contains(
            link_of(new_main, new_sub, user),
        ),
        link_of(new_main, new_sub, user) != link_of(old_main, old_sub, user)
            ==> !reconnect_outcome(db, old_main, old_sub, new_main, new_sub, user).0.subs.contains(
            link_of(old_main, old_sub, user),
        ),
{
    let target = link_of(old_main, old_sub, user);
    let removed = StoreView { subs: without_link(db.subs, target), ..db };
    lemma_without_link_within(db.subs, target);
    lemma_fewer_links_keep_wf(db, removed);
    lemma_same_tasks(db, removed);
    let d1 = disconnect_sub_task_outcome(db, old_main, old_sub, user).0;
    law_disconnect_sub_task_keeps_wf(db, old_main, old_sub, user);
    match main_task_of(db, old_sub, user) {
        None => {
            assert(d1 == removed);
        },
        Some(m) => {
            let l = choose|l: int| is_first_main_link(db.subs, old_sub, user, l);
            assert(db.subs.contains(db.subs[l]));
            assert(db.has_task(m, user));
            lemma_propagate_ok(removed, m, user, removed.subs.len());
            lemma_propagate_shape(removed, m, user, removed.subs.len());
        },
    }
    assert(d1.subs == removed.subs);
    let nl = link_of(new_main, new_sub, user);
    assert(main_chain(StoreView { subs: d1.subs.push(nl), ..d1 }, new_main, user, 0) == Some(new_main));
    law_connect_sub_task_settles_chain(d1, new_main, new_sub, user, 0);
    let fin = reconnect_outcome(db, old_main, old_sub, new_main, new_sub, user).0;
    assert(fin.subs[fin.subs.len() - 1] == nl);
    if nl != target && fin.subs.contains(target) {
        let k = choose|k: int| 0 <= k < fin.subs.len() && fin.subs[k] == target;
        assert(k < removed.subs.len());
        assert(removed.subs[k] == target);
        db.subs.lemma_filter_pred(other_than(target), k);
    }
}

/// In a well-formed store, deleting a sub task succeeds, and afterwards its
/// former main task and every task above it that has sub tasks left is
/// done exactly when all its remaining sub tasks are.
pub proof fn law_delete_task_settles_chain(db: StoreView, id: Seq<char>, user: Seq<char>, i: nat)
    requires
        db.wf(),
        db.has_task(id, user),
        main_task_of(db, id, user) is Some,
        main_chain(without_task(db, id, user), main_task_of(db, id, user)->Some_0, user, i) is Some,
    ensures
        delete_outcome(db, id, user).1 is Ok,
        settled(
            delete_outcome(db, id, user).0,
            main_chain(without_task(db, id, user), main_task_of(db, id, user)->Some_0, user, i)->Some_0,
            user,
        ),
{
    let s1 = without_task(db, id, user);
    let m = main_task_of(db, id, user)->Some_0;
    law_delete_task_keeps_wf(db, id, user);
    let l = choose|l: int| is_first_main_link(db.subs, id, user, l);
    assert(db.subs.contains(db.subs[l]));
    assert(db.has_task(m, user));
    if m == id {
        assert(children_of(db.subs, id, user).contains(id));
        lemma_child_walk(db, id, user, id);
        lemma_no_sub_cycle(db, id, 1);
    }
    let i0 = choose|i0: int| 0 <= i0 < db.tasks.len() && is_task_of(#[trigger] db.tasks[i0], m, user);
    db.tasks.lemma_filter_contains(not_task_of(id, user), i0);
    let j0 = choose|j0: int| 0 <= j0 < s1.tasks.len() && s1.tasks[j0] == db.tasks[i0];
    assert(is_task_of(s1.tasks[j0], m, user));
    assert(s1.has_task(m, user));
    lemma_propagate_ok(s1, m, user, s1.subs.len());
    law_propagation_settles_chain(s1, m, user, i);
}

/// Bringing main tasks up to date stops at step `j`: the chain of main
/// tasks ends there, or reaches an identifier that names no task of
/// `user`.
pub open spec fn chain_ends_at(db: StoreView, id: Seq<char>, user: Seq<char>, j: nat) -> bool {
    main_chain(db, id, user, j) is None || !db.has_task(main_chain(db, id, user, j)->Some_0, user)
}

/// Bringing the task `id` and its main tasks up to date, step after step
/// without bound, comes to an end.
pub open spec fn propagation_ends(db: StoreView, id: Seq<char>, user: Seq<char>) -> bool {
    exists|j: nat| #[trigger] chain_ends_at(db, id, user, j)
}

/// The chain from step `a` on is the chain of the task at step `a`.
proof fn lemma_chain_shift(db: StoreView, id: Seq<char>, user: Seq<char>, a: nat, k: nat)
    requires
        main_chain(db, id, user, a) is Some,
    ensures
        main_chain(db, id, user, a + k) == main_chain(db, main_chain(db, id, user, a)->Some_0, user, k),
    decreases a,
{
    if a > 0 {
        let m = main_task_of(db, id, user)->Some_0;
        lemma_chain_shift(db, m, user, (a - 1) as nat, k);
        assert((a + k - 1) as nat == (a - 1) as nat + k);
    }
}

/// Some step is the first at which the walk stops.
proof fn lemma_first_end(db: StoreView, id: Seq<char>, user: Seq<char>, j: nat)
    requires
        chain_ends_at(db, id, user, j),
    ensures
        exists|j0: nat|
            j0 <= j && #[trigger] chain_ends_at(db, id, user, j0) && forall|k: nat|
                k < j0 ==> !#[trigger] chain_ends_at(db, id, user, k),
    decreases j,
{
    if exists|k: nat| k < j && #[trigger] chain_ends_at(db, id, user, k) {
        let k = choose|k: nat| k < j && #[trigger] chain_ends_at(db, id, user, k);
        lemma_first_end(db, id, user, k);
    } else {
        assert(chain_ends_at(db, id, user, j));
    }
}

/// A chain that comes back to a task before it stops never stops.
proof fn lemma_no_end(db: StoreView, id: Seq<char>, user: Seq<char>, a: nat, b: nat, n: nat)
    requires
        a < b,
        main_chain(db, id, user, a) is Some,
        main_chain(db, id, user, a) == main_chain(db, id, user, b),
        forall|k: nat| k < b ==> !#[trigger] chain_ends_at(db, id, user, k),
    ensures
        !chain_ends_at(db, id, user, n),
    decreases n,
{
    if n >= b {
        let x = main_chain(db, id, user, a)->Some_0;
        let d = (n - b) as nat;
        lemma_chain_shift(db, id, user, b, d);
        lemma_chain_shift(db, id, user, a, d);
        assert(b + d == n);
        lemma_no_end(db, id, user, a, b, a + d);
        assert(main_chain(db, id, user, n) == main_chain(db, id, user, a + d));
    }
}

/// When the chain reaches, within `f` steps, an identifier that names no
/// task of `user`, the walk fails there, whatever more steps it may take.
proof fn lemma_propagate_stops_at_missing(
    db: StoreView,
    x: Seq<char>,
    user: Seq<char>,
    f: nat,
    extra: nat,
    j: nat,
)
    requires
        j <= f,
        main_chain(db, x, user, j) is Some,
        !db.has_task(main_chain(db, x, user, j)->Some_0, user),
    ensures
        propagate(db, x, user, f) == propagate(db, x, user, f + extra),
    decreases j,
{
    if db.has_task(x, user) {
        assert(j > 0);
        let next = refreshed(db, x, user);
        lemma_refreshed_shape(db, x, user);
        lemma_shape_has_task(db, next);
        assert(main_task_of(next, x, user) == main_task_of(db, x, user));
        let m = main_task_of(db, x, user)->Some_0;
        lemma_chain_same_subs(db, next, m, user, (j - 1) as nat);
        lemma_propagate_stops_at_missing(next, m, user, (f - 1) as nat, extra, (j - 1) as nat);
        assert((f + extra - 1) as nat == (f - 1) as nat + extra);
    }
}

/// Wherever bringing a task and its main tasks up to date, step after step
/// without bound, comes to an end, as many steps as there are sub-task
/// links take it there: the bound changes no result.
pub proof fn law_propagation_bound_is_enough(db: StoreView, id: Seq<char>, user: Seq<char>, extra: nat)
    requires
        propagation_ends(db, id, user),
    ensures
        propagate(db, id, user, db.subs.len()) == propagate(db, id, user, db.subs.len() + extra),
{
    let n = db.subs.len();
    let j = choose|j: nat| #[trigger] chain_ends_at(db, id, user, j);
    lemma_first_end(db, id, user, j);
    let j0 = choose|j0: nat|
        j0 <= j && #[trigger] chain_ends_at(db, id, user, j0) && forall|k: nat|
            k < j0 ==> !#[trigger] chain_ends_at(db, id, user, k);
    assert(main_chain(db, id, user, 0) == Some(id));
    assert forall|a: nat, b: nat| a < b < j0 implies #[trigger] main_chain(db, id, user, a)
        != #[trigger] main_chain(db, id, user, b) by {
        assert(!chain_ends_at(db, id, user, a));
        if main_chain(db, id, user, a) == main_chain(db, id, user, b) {
            lemma_no_end(db, id, user, a, b, j0);
        }
    }
    let none_at_end = main_chain(db, id, user, j0) is None;
    if none_at_end {
        assert(j0 > 0) by {
            if j0 == 0 {
                assert(main_chain(db, id, user, 0) is Some);
            }
        }
    }
    let m: nat = if none_at_end {
        (j0 - 1) as nat
    } else {
        j0
    };
    let ks = Seq::new(m, |k: int| main_link(db, main_chain(db, id, user, k as nat)->Some_0, user));
    assert forall|k: int| 0 <= k < ks.len() implies 0 <= #[trigger] ks[k] < n && db.subs[ks[k]].child
        == main_chain(db, id, user, k as nat)->Some_0 by {
        assert(!chain_ends_at(db, id, user, k as nat));
        assert(main_chain(db, id, user, (k + 1) as nat) is Some) by {
            if ((k + 1) as nat) < j0 {
                assert(!chain_ends_at(db, id, user, (k + 1) as nat));
            }
        }
        lemma_chain_snoc(db, id, user, k as nat);
    }
    assert forall|a: int, b: int| 0 <= a < ks.len() && 0 <= b < ks.len() && a != b implies ks[a] != ks[b] by {
        assert(!chain_ends_at(db, id, user, a as nat));
        assert(!chain_ends_at(db, id, user, b as nat));
        if a < b {
            assert(main_chain(db, id, user, a as nat) != main_chain(db, id, user, b as nat));
        } else {
            assert(main_chain(db, id, user, b as nat) != main_chain(db, id, user, a as nat));
        }
        assert(db.subs[ks[a]].child == main_chain(db, id, user, a as nat)->Some_0);
        assert(db.subs[ks[b]].child == main_chain(db, id, user, b as nat)->Some_0);
    }
    lemma_distinct_in_range(ks, n as int);
    if none_at_end {
        if main_chain(db, id, user, n + 1) is Some {
            lemma_chain_prefix(db, id, user, j0, n + 1);
        }
        lemma_propagate_fuel(db, id, user, n, extra);
    } else {
        lemma_propagate_stops_at_missing(db, id, user, n, extra, j0);
    }
}

/// A first step by a link of `user` and then any walk is a walk.
proof fn lemma_step_then_reaches(links: Seq<LinkView>, up: bool, at: Seq<char>, user: Seq<char>, x: Seq<char>)
    requires
        reached_after_step(links, up, at, user, x),
    ensures
        reaches(links, up, at, x),
{
    let k = choose|k: int|
        0 <= k < links.len() && from_of(#[trigger] links[k], up) == at && links[k].user_id == user && reaches(
            links,
            up,
            to_of(links[k], up),
            x,
        );
    let n = choose|n: nat| #[trigger] walk(links, up, to_of(links[k], up), x, n);
    assert(walk(links, up, at, x, n + 1));
}

/// Two distinct tasks of `user` pass the existence check.
proof fn lemma_two_tasks_exist(db: StoreView, a: Seq<char>, b: Seq<char>, user: Seq<char>)
    requires
        db.has_task(a, user),
        db.has_task(b, user),
        a != b,
    ensures
        all_tasks_exist(db, seq![a, b], user),
        db.has_id(a),
        db.has_id(b),
{
    let s = seq![a, b];
    assert(s[0] == a && s[1] == b);
    assert forall|k: int| 0 <= k < s.len() implies db.has_task(#[trigger] s[k], user) by {}
    assert forall|i: int, j: int| 0 <= i < s.len() && 0 <= j < s.len() && i != j implies s[i] != s[j] by {}
    let i = choose|i: int| 0 <= i < db.tasks.len() && is_task_of(#[trigger] db.tasks[i], a, user);
    let j = choose|j: int| 0 <= j < db.tasks.len() && is_task_of(#[trigger] db.tasks[j], b, user);
    assert(db.tasks[i].id == a && db.tasks[j].id == b);
}

/// A task may not be made done while a task to do blocks it, or blocks a
/// task above it through sub-task and blocking links: some task `j` to do
/// that blocks (link `k`) a task reached upwards from `id` leaves the
/// blocking check failed.
pub proof fn law_todo_blocker_above_blocks_done(db: StoreView, id: Seq<char>, k: int, j: int)
    requires
        0 <= k < db.blocks.len(),
        0 <= j < db.tasks.len(),
        reaches(db.all_links(), true, id, db.blocks[k].child),
        db.tasks[j].id == db.blocks[k].parent,
        db.tasks[j].status == TaskStatus::Todo,
    ensures
        !db.blockers_done(id),
{
}

/// A blocking link between two distinct tasks of `user` is recorded when
/// the blocked task does not lie below the blocking one through sub-task
/// links, the link closes no cycle through sub-task and blocking links, and
/// no link joins the two tasks yet: whatever else links them to other
/// tasks (the blocked task may have a main task of its own).
pub proof fn law_connect_block_task_succeeds(
    db: StoreView,
    blocking: Seq<char>,
    blocked: Seq<char>,
    user: Seq<char>,
)
    requires
        db.has_task(blocking, user),
        db.has_task(blocked, user),
        blocking != blocked,
        !reaches(db.subs, false, blocking, blocked),
        !reaches(db.all_links(), true, blocking, blocked),
        !has_pair(db.blocks, blocking, blocked),
    ensures
        connect_block_task_outcome(db, blocking, blocked, user) == (
            StoreView { blocks: db.blocks.push(link_of(blocking, blocked, user)), ..db },
            Ok::<(), ConnectBlockTaskError>(()),
        ),
{
    lemma_two_tasks_exist(db, blocking, blocked, user);
    if reached_after_step(db.subs, false, blocking, user, blocked) {
        lemma_step_then_reaches(db.subs, false, blocking, user, blocked);
    }
    if db.closes_cycle(blocking, blocked, user) {
        lemma_step_then_reaches(db.all_links(), true, blocking, user, blocked);
    }
}

/// In a well-formed store, a sub-task link between two distinct tasks of
/// `user` succeeds and is recorded when it closes no cycle through
/// sub-task and blocking links, the main task does not block the sub task
/// and the sub task has no main task yet: whatever main task the main
/// task itself has.
pub proof fn law_connect_sub_task_succeeds(db: StoreView, main: Seq<char>, sub: Seq<char>, user: Seq<char>)
    requires
        db.wf(),
        db.has_task(main, user),
        db.has_task(sub, user),
        main != sub,
        !reaches(db.all_links(), true, main, sub),
        !has_pair(db.blocks, main, sub),
        forall|k: int| 0 <= k < db.subs.len() ==> #[trigger] db.subs[k].child != sub,
    ensures
        connect_sub_task_outcome(db, main, sub, user).1 is Ok,
        connect_sub_task_outcome(db, main, sub, user).0.subs == db.subs.push(link_of(main, sub, user)),
        connect_sub_task_outcome(db, main, sub, user).0.blocks == db.blocks,
{
    lemma_two_tasks_exist(db, main, sub, user);
    if db.closes_cycle(main, sub, user) {
        lemma_step_then_reaches(db.all_links(), true, main, user, sub);
    }
    if has_main(db.subs, sub) {
        let k = choose|k: int| 0 <= k < db.subs.len() && #[trigger] db.subs[k].child == sub;
        assert(db.subs[k].child != sub);
    }
    if has_pair(db.subs, main, sub) {
        let k = choose|k: int| 0 <= k < db.subs.len() && #[trigger] db.subs[k].parent == main && db.subs[k].child == sub;
        assert(db.subs[k].child != sub);
    }
    let inserted = StoreView { subs: db.subs.push(link_of(main, sub, user)), ..db };
    assert(main_chain(inserted, main, user, 0) == Some(main));
    law_connect_sub_task_settles_chain(db, main, sub, user, 0);
    lemma_propagate_shape(inserted, main, user, inserted.subs.len());
}

/// Moving a recorded blocking link succeeds when the new link would be
/// accepted in the store without the old one: the old link goes first, so
/// it neither closes a cycle nor joins the same tasks. Afterwards the new
/// link is recorded and the old one gone (unless it is the new one).
pub proof fn law_reconnect_block_task_succeeds(
    db: StoreView,
    old_blocking: Seq<char>,
    old_blocked: Seq<char>,
    new_blocking: Seq<char>,
    new_blocked: Seq<char>,
    user: Seq<char>,
)
    requires
        db.blocks.contains(link_of(old_blocking, old_blocked, user)),
        db.has_task(new_blocking, user),
        db.has_task(new_blocked, user),
        new_blocking != new_blocked,
        !reaches(db.subs, false, new_blocking, new_blocked),
        !reaches(
            StoreView { blocks: without_link(db.blocks, link_of(old_blocking, old_blocked, user)), ..db }.all_links(),
            true,
            new_blocking,
            new_blocked,
        ),
        !has_pair(without_link(db.blocks, link_of(old_blocking, old_blocked, user)), new_blocking, new_blocked),
    ensures
        reconnect_block_task_outcome(db, old_blocking, old_blocked, new_blocking, new_blocked, user).1 is Ok,
        reconnect_block_task_outcome(db, old_blocking, old_blocked, new_blocking, new_blocked, user).0 == (
        StoreView {
            blocks: without_link(db.blocks, link_of(old_blocking, old_blocked, user)).push(
                link_of(new_blocking, new_blocked, user),
            ),
            ..db
        }),
        link_of(new_blocking, new_blocked, user) != link_of(old_blocking, old_blocked, user)
            ==> !reconnect_block_task_outcome(db, old_blocking, old_blocked, new_blocking, new_blocked, user).0.blocks.contains(
            link_of(old_blocking, old_blocked, user),
        ),
{
    let target = link_of(old_blocking, old_blocked, user);
    let d = StoreView { blocks: without_link(db.blocks, target), ..db };
    lemma_same_tasks(db, d);
    law_connect_block_task_succeeds(d, new_blocking, new_blocked, user);
    let fin = reconnect_block_task_outcome(db, old_blocking, old_blocked, new_blocking, new_blocked, user).0;
    let nl = link_of(new_blocking, new_blocked, user);
    if nl != target && fin.blocks.contains(target) {
        let k = choose|k: int| 0 <= k < fin.blocks.len() && fin.blocks[k] == target;
        assert(k < d.blocks.len());
        assert(d.blocks[k] == target);
        db.blocks.lemma_filter_pred(other_than(target), k);
    }
}

} // verus!
