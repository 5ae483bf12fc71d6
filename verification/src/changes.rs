//! What a change did to the stored state, row by row: the rows to delete,
//! insert and update so that the tables hold the store after the change.

use vstd::prelude::*;
use crate::graph::{Link, LinkView, links_view, lemma_links_view_push};
use crate::store::{TaskRecord, TaskRecordView, TaskStore, records_view, lemma_records_view_push};

verus! {

/// Holds of the links that `s` does not hold.
pub open spec fn link_absent_from(s: Seq<LinkView>) -> spec_fn(LinkView) -> bool {
    |l: LinkView| !s.contains(l)
}

/// Some record of `s` has the identifier `id`.
pub open spec fn names_id(s: Seq<TaskRecordView>, id: Seq<char>) -> bool {
    exists|j: int| 0 <= j < s.len() && #[trigger] s[j].id == id
}

/// Holds of the records whose identifier no record of `s` has.
pub open spec fn id_absent_from(s: Seq<TaskRecordView>) -> spec_fn(TaskRecordView) -> bool {
    |t: TaskRecordView| !names_id(s, t.id)
}

/// Holds of the records whose identifier `s` has, but not with these
/// values.
pub open spec fn changed_from(s: Seq<TaskRecordView>) -> spec_fn(TaskRecordView) -> bool {
    |t: TaskRecordView| names_id(s, t.id) && !s.contains(t)
}

/// The rows that turn the tables of one store into those of another.
pub struct StoreChanges {
    pub removed_sub_tasks: Vec<Link>,
    pub added_sub_tasks: Vec<Link>,
    pub removed_blocking_tasks: Vec<Link>,
    pub added_blocking_tasks: Vec<Link>,
    pub removed_tasks: Vec<TaskRecord>,
    pub added_tasks: Vec<TaskRecord>,
    pub changed_tasks: Vec<TaskRecord>,
}

fn same_link(a: &Link, b: &Link) -> (r: bool)
    ensures
        r == (a@ == b@),
{
    a.parent == b.parent && a.child == b.child && a.user_id == b.user_id
}

fn same_record(a: &TaskRecord, b: &TaskRecord) -> (r: bool)
    ensures
        r == (a@ == b@),
{
    a.id == b.id && a.title == b.title && a.description == b.description && a.user_id == b.user_id
        && a.status == b.status && a.created_at == b.created_at && a.updated_at == b.updated_at
}

fn holds_link(links: &Vec<Link>, l: &Link) -> (r: bool)
    ensures
        r == links_view(links@).contains(l@),
{
    let mut i: usize = 0;
    while i < links.len()
        invariant
            i <= links.len(),
            forall|k: int| 0 <= k < i ==> links_view(links@)[k] != l@,
        decreases links.len() - i,
    {
        assert(links_view(links@)[i as int] == links@[i as int]@);
        if same_link(&links[i], l) {
            return true;
        }
        i = i + 1;
    }
    false
}

fn holds_record(tasks: &Vec<TaskRecord>, t: &TaskRecord) -> (r: bool)
    ensures
        r == records_view(tasks@).contains(t@),
{
    let mut i: usize = 0;
    while i < tasks.len()
        invariant
            i <= tasks.len(),
            forall|k: int| 0 <= k < i ==> records_view(tasks@)[k] != t@,
        decreases tasks.len() - i,
    {
        assert(records_view(tasks@)[i as int] == tasks@[i as int]@);
        if same_record(&tasks[i], t) {
            return true;
        }
        i = i + 1;
    }
    false
}

fn holds_id(tasks: &Vec<TaskRecord>, id: &String) -> (r: bool)
    ensures
        r == names_id(records_view(tasks@), id@),
{
    let ghost s = records_view(tasks@);
    let mut i: usize = 0;
    while i < tasks.len()
        invariant
            i <= tasks.len(),
            s == records_view(tasks@),
            forall|k: int| 0 <= k < i ==> #[trigger] s[k].id != id@,
        decreases tasks.len() - i,
    {
        assert(s[i as int] == tasks@[i as int]@);
        if tasks[i].id == *id {
            assert(s[i as int].id == id@);
            return true;
        }
        i = i + 1;
    }
    false
}

/// The links of `a` that `b` does not hold, in the order of `a`.
fn missing_links(a: &Vec<Link>, b: &Vec<Link>) -> (r: Vec<Link>)
    ensures
        links_view(r@) == links_view(a@).filter(link_absent_from(links_view(b@))),
{
    let ghost pred = link_absent_from(links_view(b@));
    let mut r: Vec<Link> = Vec::new();
    let mut i: usize = 0;
    while i < a.len()
        invariant
            i <= a.len(),
            pred == link_absent_from(links_view(b@)),
            links_view(r@) == links_view(a@).take(i as int).filter(pred),
        decreases a.len() - i,
    {
        proof {
            let s = links_view(a@).take(i + 1);
            assert(s.drop_last() =~= links_view(a@).take(i as int));
            assert(s.last() == a@[i as int]@);
        }
        if !holds_link(b, &a[i]) {
            let c = a[i].copy();
            proof {
                lemma_links_view_push(r@, c);
            }
            r.push(c);
        }
        proof {
            reveal(Seq::filter);
            let s = links_view(a@).take(i + 1);
            assert(s.filter(pred) == if pred(s.last()) {
                s.drop_last().filter(pred).push(s.last())
            } else {
                s.drop_last().filter(pred)
            });
        }
        i = i + 1;
    }
    assert(links_view(a@).take(i as int) =~= links_view(a@));
    r
}

/// The records of `a` that pass `keep` as it reads `b`: those whose
/// identifier `b` lacks (`changed` false), or those whose identifier `b`
/// has with other values (`changed` true).
fn select_records(a: &Vec<TaskRecord>, b: &Vec<TaskRecord>, changed: bool) -> (r: Vec<TaskRecord>)
    ensures
        !changed ==> records_view(r@) == records_view(a@).filter(id_absent_from(records_view(b@))),
        changed ==> records_view(r@) == records_view(a@).filter(changed_from(records_view(b@))),
{
    let ghost pred = if changed {
        changed_from(records_view(b@))
    } else {
        id_absent_from(records_view(b@))
    };
    let mut r: Vec<TaskRecord> = Vec::new();
    let mut i: usize = 0;
    while i < a.len()
        invariant
            i <= a.len(),
            pred == (if changed {
                changed_from(records_view(b@))
            } else {
                id_absent_from(records_view(b@))
            }),
            records_view(r@) == records_view(a@).take(i as int).filter(pred),
        decreases a.len() - i,
    {
        proof {
            let s = records_view(a@).take(i + 1);
            assert(s.drop_last() =~= records_view(a@).take(i as int));
            assert(s.last() == a@[i as int]@);
        }
        let named = holds_id(b, &a[i].id);
        let keep = if changed {
            named && !holds_record(b, &a[i])
        } else {
            !named
        };
        if keep {
            let c = a[i].copy();
            proof {
                lemma_records_view_push(r@, c);
            }
            r.push(c);
        }
        proof {
            reveal(Seq::filter);
            let s = records_view(a@).take(i + 1);
            assert(keep == pred(s.last()));
            assert(s.filter(pred) == if pred(s.last()) {
                s.drop_last().filter(pred).push(s.last())
            } else {
                s.drop_last().filter(pred)
            });
        }
        i = i + 1;
    }
    assert(records_view(a@).take(i as int) =~= records_view(a@));
    r
}

/// The rows that turn the tables holding `before` into tables holding
/// `after`: links of either relation that `after` no longer holds or newly
/// holds; records whose identifier `after` no longer has, records whose
/// identifier `before` did not have, and records of `after` whose
/// identifier `before` has with other values.
pub fn changes(before: &TaskStore, after: &TaskStore) -> (c: StoreChanges)
    ensures
        links_view(c.removed_sub_tasks@) == before@.subs.filter(link_absent_from(after@.subs)),
        links_view(c.added_sub_tasks@) == after@.subs.filter(link_absent_from(before@.subs)),
        links_view(c.removed_blocking_tasks@) == before@.blocks.filter(link_absent_from(after@.blocks)),
        links_view(c.added_blocking_tasks@) == after@.blocks.filter(link_absent_from(before@.blocks)),
        records_view(c.removed_tasks@) == before@.tasks.filter(id_absent_from(after@.tasks)),
        records_view(c.added_tasks@) == after@.tasks.filter(id_absent_from(before@.tasks)),
        records_view(c.changed_tasks@) == after@.tasks.filter(changed_from(before@.tasks)),
{
    StoreChanges {
        removed_sub_tasks: missing_links(&before.sub_tasks, &after.sub_tasks),
        added_sub_tasks: missing_links(&after.sub_tasks, &before.sub_tasks),
        removed_blocking_tasks: missing_links(&before.blocking_tasks, &after.blocking_tasks),
        added_blocking_tasks: missing_links(&after.blocking_tasks, &before.blocking_tasks),
        removed_tasks: select_records(&before.tasks, &after.tasks, false),
        added_tasks: select_records(&after.tasks, &before.tasks, false),
        changed_tasks: select_records(&after.tasks, &before.tasks, true),
    }
}

} // verus!
