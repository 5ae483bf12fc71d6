//! Checking a loaded store against the rules every stored state keeps.

use vstd::prelude::*;
use crate::graph::{
    Link, LinkView, links_view, ids_view, acyclic, reaches, walk, from_of, to_of, is_ancestor,
    in_closure, closure, contains_id, concat_links,
};
use crate::store::{TaskStore, StoreView, TaskRecordView, first_task_index};

verus! {

/// Whether no two records share an identifier.
fn ids_are_unique(db: &TaskStore) -> (r: bool)
    ensures
        r == db@.ids_unique(),
{
    let n = db.tasks.len();
    let mut i: usize = 0;
    while i < n
        invariant
            n == db.tasks.len(),
            i <= n,
            forall|a: int, b: int|
                0 <= a < i && 0 <= b < n && a != b ==> #[trigger] db@.tasks[a].id != #[trigger] db@.tasks[b].id,
        decreases n - i,
    {
        let mut j: usize = 0;
        while j < n
            invariant
                n == db.tasks.len(),
                i < n,
                j <= n,
                forall|a: int, b: int|
                    0 <= a < i && 0 <= b < n && a != b ==> #[trigger] db@.tasks[a].id != #[trigger] db@.tasks[b].id,
                forall|b: int| 0 <= b < j && i != b ==> db@.tasks[i as int].id != #[trigger] db@.tasks[b].id,
            decreases n - j,
        {
            assert(db@.tasks[i as int] == db.tasks@[i as int]@ && db@.tasks[j as int] == db.tasks@[j as int]@);
            if i != j && db.tasks[i].id == db.tasks[j].id {
                assert(db@.tasks[i as int].id == db@.tasks[j as int].id);
                return false;
            }
            j = j + 1;
        }
        i = i + 1;
    }
    true
}

/// Unique identifiers name tasks of one user.
proof fn lemma_unique_ids_one_user(db: StoreView)
    requires
        db.ids_unique(),
    ensures
        db.id_has_one_user(),
{
    assert forall|r1: TaskRecordView, r2: TaskRecordView|
        db.tasks.contains(r1) && db.tasks.contains(r2) && r1.id == r2.id implies r1.user_id == r2.user_id by {
        let i = choose|i: int| 0 <= i < db.tasks.len() && db.tasks[i] == r1;
        let j = choose|j: int| 0 <= j < db.tasks.len() && db.tasks[j] == r2;
        if i != j {
            assert(db.tasks[i].id != db.tasks[j].id);
        }
    }
}

/// Whether both ends of every one of `links` are tasks of the link's user.
fn links_name_tasks_of(db: &TaskStore, links: &Vec<Link>) -> (r: bool)
    ensures
        r == forall|l: LinkView|
            links_view(links@).contains(l) ==> db@.has_task(l.parent, l.user_id) && db@.has_task(
                l.child,
                l.user_id,
            ),
{
    let ghost lv = links_view(links@);
    let mut i: usize = 0;
    while i < links.len()
        invariant
            i <= links.len(),
            lv == links_view(links@),
            forall|k: int|
                0 <= k < i ==> db@.has_task(#[trigger] lv[k].parent, lv[k].user_id) && db@.has_task(
                    lv[k].child,
                    lv[k].user_id,
                ),
        decreases links.len() - i,
    {
        assert(lv[i as int] == links@[i as int]@);
        let p = first_task_index(db, &links[i].parent, &links[i].user_id);
        let c = first_task_index(db, &links[i].child, &links[i].user_id);
        if p.is_none() || c.is_none() {
            assert(lv.contains(lv[i as int]));
            return false;
        }
        proof {
            let pi = p.unwrap() as int;
            let ci = c.unwrap() as int;
            assert(links@[i as int]@.parent == links@[i as int].parent@);
            assert(crate::store::is_task_of(db@.tasks[pi], lv[i as int].parent, lv[i as int].user_id));
            assert(crate::store::is_task_of(db@.tasks[ci], lv[i as int].child, lv[i as int].user_id));
            assert(db@.has_task(lv[i as int].parent, lv[i as int].user_id));
            assert(db@.has_task(lv[i as int].child, lv[i as int].user_id));
            assert forall|k: int| 0 <= k < i + 1 implies db@.has_task(#[trigger] lv[k].parent, lv[k].user_id)
                && db@.has_task(lv[k].child, lv[k].user_id) by {
                if k == i {
                } else {
                }
            }
        }
        i = i + 1;
    }
    assert forall|l: LinkView| lv.contains(l) implies db@.has_task(l.parent, l.user_id) && db@.has_task(
        l.child,
        l.user_id,
    ) by {
        let k = choose|k: int| 0 <= k < lv.len() && lv[k] == l;
    }
    true
}

/// Whether every task has at most one main task.
fn one_main_each(db: &TaskStore) -> (r: bool)
    ensures
        r == db@.one_main_task(),
{
    let ghost s = db@.subs;
    let n = db.sub_tasks.len();
    let mut i: usize = 0;
    while i < n
        invariant
            n == db.sub_tasks.len(),
            s == db@.subs,
            i <= n,
            forall|a: int, b: int|
                0 <= a < i && 0 <= b < n && #[trigger] s[a].child == #[trigger] s[b].child ==> s[a].parent
                    == s[b].parent,
        decreases n - i,
    {
        let mut j: usize = 0;
        while j < n
            invariant
                n == db.sub_tasks.len(),
                s == db@.subs,
                i < n,
                j <= n,
                forall|a: int, b: int|
                    0 <= a < i && 0 <= b < n && #[trigger] s[a].child == #[trigger] s[b].child ==> s[a].parent
                        == s[b].parent,
                forall|b: int| 0 <= b < j && s[i as int].child == #[trigger] s[b].child ==> s[i as int].parent == s[b].parent,
            decreases n - j,
        {
            assert(s[i as int] == db.sub_tasks@[i as int]@ && s[j as int] == db.sub_tasks@[j as int]@);
            if db.sub_tasks[i].child == db.sub_tasks[j].child && db.sub_tasks[i].parent != db.sub_tasks[j].parent {
                assert(s.contains(s[i as int]) && s.contains(s[j as int]));
                return false;
            }
            j = j + 1;
        }
        i = i + 1;
    }
    assert forall|x: LinkView, y: LinkView| s.contains(x) && s.contains(y) && x.child == y.child implies x.parent
        == y.parent by {
        let a = choose|a: int| 0 <= a < s.len() && s[a] == x;
        let b = choose|b: int| 0 <= b < s.len() && s[b] == y;
        assert(s[a].child == s[b].child);
    }
    true
}

/// A task above itself is above itself through some link whose parent
/// reaches its child, and such a link puts its child above itself.
proof fn lemma_acyclic_by_links(links: Seq<LinkView>)
    ensures
        acyclic(links) <==> forall|k: int|
            0 <= k < links.len() ==> !reaches(links, true, #[trigger] links[k].parent, links[k].child),
{
    if !acyclic(links) {
        let x = choose|x: Seq<char>| #[trigger] is_ancestor(links, x, x);
        let n = choose|n: nat| n > 0 && #[trigger] walk(links, true, x, x, n);
        let k = choose|k: int|
            0 <= k < links.len() && from_of(#[trigger] links[k], true) == x && walk(
                links,
                true,
                to_of(links[k], true),
                x,
                (n - 1) as nat,
            );
        assert(walk(links, true, links[k].parent, links[k].child, (n - 1) as nat));
        assert(reaches(links, true, links[k].parent, links[k].child));
    }
    assert forall|k: int| 0 <= k < links.len() && reaches(links, true, #[trigger] links[k].parent, links[k].child)
        implies !acyclic(links) by {
        let x = links[k].child;
        let n = choose|n: nat| #[trigger] walk(links, true, links[k].parent, x, n);
        assert(from_of(links[k], true) == x);
        assert(walk(links, true, x, x, n + 1));
        assert(is_ancestor(links, x, x));
    }
}

/// Whether no task is above itself through sub-task and blocking links.
fn no_cycle(db: &TaskStore) -> (r: bool)
    ensures
        r == acyclic(db@.all_links()),
{
    let all = concat_links(&db.sub_tasks, &db.blocking_tasks);
    let ghost lv = links_view(all@);
    assert(lv == db@.all_links());
    let mut i: usize = 0;
    while i < all.len()
        invariant
            i <= all.len(),
            lv == links_view(all@),
            lv == db@.all_links(),
            forall|k: int| 0 <= k < i ==> !reaches(lv, true, #[trigger] lv[k].parent, lv[k].child),
        decreases all.len() - i,
    {
        assert(lv[i as int] == all@[i as int]@);
        let mut start: Vec<String> = Vec::new();
        start.push(all[i].parent.clone());
        let ghost sv = ids_view(start@);
        assert(start@.len() == 1);
        assert(sv[0] == start@[0]@);
        assert(start@[0]@ == lv[i as int].parent);
        assert(sv =~= seq![lv[i as int].parent]);
        let above = closure(&all, start, true);
        let hit = contains_id(&above, &all[i].child);
        proof {
            if reaches(lv, true, lv[i as int].parent, lv[i as int].child) {
                assert(sv.contains(lv[i as int].parent));
                assert(in_closure(lv, true, sv, lv[i as int].child));
            }
            if hit {
                let st = choose|st: Seq<char>| sv.contains(st) && #[trigger] reaches(lv, true, st, lv[i as int].child);
                assert(st == lv[i as int].parent);
            }
        }
        if hit {
            proof {
                lemma_acyclic_by_links(lv);
            }
            return false;
        }
        i = i + 1;
    }
    proof {
        lemma_acyclic_by_links(lv);
    }
    true
}

/// Whether `db` keeps the rules every stored state keeps, as a store read
/// from elsewhere must be checked before the operations, whose laws rest
/// on them, work on it.
pub fn is_well_formed(db: &TaskStore) -> (r: bool)
    ensures
        r == db@.wf(),
{
    if !ids_are_unique(db) {
        return false;
    }
    proof {
        lemma_unique_ids_one_user(db@);
    }
    let subs_ok = links_name_tasks_of(db, &db.sub_tasks);
    let blocks_ok = links_name_tasks_of(db, &db.blocking_tasks);
    subs_ok && blocks_ok && one_main_each(db) && no_cycle(db)
}

} // verus!
