//! Relations between tasks (sub-task and blocking links) and their
//! transitive closures.

use vstd::prelude::*;

verus! {

/// One row of a relation table. For the sub-task relation `parent` is the
/// main task and `child` the sub task; for the blocking relation `parent`
/// is the blocking task and `child` the blocked task.
pub struct Link {
    pub parent: String,
    pub child: String,
    pub user_id: String,
}

/// Mathematical value of a [`Link`].
pub struct LinkView {
    pub parent: Seq<char>,
    pub child: Seq<char>,
    pub user_id: Seq<char>,
}

impl View for Link {
    type V = LinkView;

    open spec fn view(&self) -> LinkView {
        LinkView { parent: self.parent@, child: self.child@, user_id: self.user_id@ }
    }
}

/// The values of a sequence of links.
pub open spec fn links_view(links: Seq<Link>) -> Seq<LinkView> {
    links.map_values(|l: Link| l@)
}

/// The values of a sequence of identifiers.
pub open spec fn ids_view(ids: Seq<String>) -> Seq<Seq<char>> {
    ids.map_values(|s: String| s@)
}

/// Viewing commutes with pushing.
pub proof fn lemma_links_view_push(s: Seq<Link>, x: Link)
    ensures
        links_view(s.push(x)) == links_view(s).push(x@),
{
    assert forall|k: int| 0 <= k < s.len() + 1 implies #[trigger] links_view(s.push(x))[k]
        == links_view(s).push(x@)[k] by {
        if k < s.len() {
            assert(links_view(s)[k] == s[k]@);
        }
    }
    assert(links_view(s.push(x)) =~= links_view(s).push(x@));
}

/// Viewing commutes with pushing.
pub proof fn lemma_ids_view_push(s: Seq<String>, x: String)
    ensures
        ids_view(s.push(x)) == ids_view(s).push(x@),
{
    assert forall|k: int| 0 <= k < s.len() + 1 implies #[trigger] ids_view(s.push(x))[k]
        == ids_view(s).push(x@)[k] by {
        if k < s.len() {
            assert(ids_view(s)[k] == s[k]@);
        }
    }
    assert(ids_view(s.push(x)) =~= ids_view(s).push(x@));
}

/// The end a walk leaves a link from: upwards (`up`) a walk goes from the
/// child to the parent, downwards from the parent to the child.
pub open spec fn from_of(l: LinkView, up: bool) -> Seq<char> {
    if up {
        l.child
    } else {
        l.parent
    }
}

/// The end a walk arrives at when it follows a link.
pub open spec fn to_of(l: LinkView, up: bool) -> Seq<char> {
    if up {
        l.parent
    } else {
        l.child
    }
}

/// `b` is reached from `a` by following exactly `n` links in direction `up`.
pub open spec fn walk(links: Seq<LinkView>, up: bool, a: Seq<char>, b: Seq<char>, n: nat) -> bool
    decreases n,
{
    if n == 0 {
        a == b
    } else {
        exists|i: int|
            0 <= i < links.len() && from_of(#[trigger] links[i], up) == a && walk(
                links,
                up,
                to_of(links[i], up),
                b,
                (n - 1) as nat,
            )
    }
}

/// `b` is reached from `a` by following zero or more links.
pub open spec fn reaches(links: Seq<LinkView>, up: bool, a: Seq<char>, b: Seq<char>) -> bool {
    exists|n: nat| #[trigger] walk(links, up, a, b, n)
}

/// `x` is reached from some element of `start`.
pub open spec fn in_closure(
    links: Seq<LinkView>,
    up: bool,
    start: Seq<Seq<char>>,
    x: Seq<char>,
) -> bool {
    exists|s: Seq<char>| start.contains(s) && #[trigger] reaches(links, up, s, x)
}

/// `b` is a strict ancestor of `a`: reached upwards by at least one link.
pub open spec fn is_ancestor(links: Seq<LinkView>, a: Seq<char>, b: Seq<char>) -> bool {
    exists|n: nat| n > 0 && #[trigger] walk(links, true, a, b, n)
}

/// No task is its own strict ancestor.
pub open spec fn acyclic(links: Seq<LinkView>) -> bool {
    forall|x: Seq<char>| !#[trigger] is_ancestor(links, x, x)
}

/// A walk can be extended by one more link at its end.
pub proof fn lemma_walk_snoc(
    links: Seq<LinkView>,
    up: bool,
    a: Seq<char>,
    b: Seq<char>,
    n: nat,
    i: int,
)
    requires
        walk(links, up, a, b, n),
        0 <= i < links.len(),
        from_of(links[i], up) == b,
    ensures
        walk(links, up, a, to_of(links[i], up), n + 1),
    decreases n,
{
    if n == 0 {
        assert(walk(links, up, to_of(links[i], up), to_of(links[i], up), 0));
    } else {
        let j = choose|j: int|
            0 <= j < links.len() && from_of(#[trigger] links[j], up) == a && walk(
                links,
                up,
                to_of(links[j], up),
                b,
                (n - 1) as nat,
            );
        lemma_walk_snoc(links, up, to_of(links[j], up), b, (n - 1) as nat, i);
    }
}

/// Two walks compose.
pub proof fn lemma_walk_trans(
    links: Seq<LinkView>,
    up: bool,
    a: Seq<char>,
    b: Seq<char>,
    c: Seq<char>,
    n: nat,
    m: nat,
)
    requires
        walk(links, up, a, b, n),
        walk(links, up, b, c, m),
    ensures
        walk(links, up, a, c, n + m),
    decreases n,
{
    if n > 0 {
        let j = choose|j: int|
            0 <= j < links.len() && from_of(#[trigger] links[j], up) == a && walk(
                links,
                up,
                to_of(links[j], up),
                b,
                (n - 1) as nat,
            );
        lemma_walk_trans(links, up, to_of(links[j], up), b, c, (n - 1) as nat, m);
        assert(walk(links, up, a, c, n + m));
    }
}

/// A set of identifiers that holds `a` and is closed under following links
/// holds every identifier reached from `a`.
pub proof fn lemma_closed_holds_walk(
    links: Seq<LinkView>,
    up: bool,
    set: Seq<Seq<char>>,
    a: Seq<char>,
    b: Seq<char>,
    n: nat,
)
    requires
        set.contains(a),
        walk(links, up, a, b, n),
        forall|i: int|
            0 <= i < links.len() && set.contains(from_of(#[trigger] links[i], up)) ==> set.contains(
                to_of(links[i], up),
            ),
    ensures
        set.contains(b),
    decreases n,
{
    if n > 0 {
        let j = choose|j: int|
            0 <= j < links.len() && from_of(#[trigger] links[j], up) == a && walk(
                links,
                up,
                to_of(links[j], up),
                b,
                (n - 1) as nat,
            );
        lemma_closed_holds_walk(links, up, set, to_of(links[j], up), b, (n - 1) as nat);
    }
}

/// A walk in the relation extended by the link `p -> c` either avoids the
/// new link, or reaches `c` in the old relation and then goes on from `p`.
proof fn lemma_walk_after_push(
    links: Seq<LinkView>,
    new: LinkView,
    a: Seq<char>,
    b: Seq<char>,
    n: nat,
)
    requires
        walk(links.push(new), true, a, b, n),
    ensures
        walk(links, true, a, b, n) || (reaches(links, true, a, new.child) && reaches(
            links.push(new),
            true,
            new.parent,
            b,
        )),
    decreases n,
{
    let ext = links.push(new);
    if n > 0 {
        let j = choose|j: int|
            0 <= j < ext.len() && from_of(#[trigger] ext[j], true) == a && walk(
                ext,
                true,
                to_of(ext[j], true),
                b,
                (n - 1) as nat,
            );
        if j == links.len() {
            assert(walk(links, true, a, new.child, 0));
            assert(reaches(ext, true, new.parent, b));
        } else {
            assert(ext[j] == links[j]);
            let mid = to_of(links[j], true);
            lemma_walk_after_push(links, new, mid, b, (n - 1) as nat);
            if walk(links, true, mid, b, (n - 1) as nat) {
                assert(walk(links, true, a, b, n));
            } else {
                let m = choose|m: nat| #[trigger] walk(links, true, mid, new.child, m);
                assert(walk(links, true, a, new.child, m + 1));
            }
        }
    }
}

/// When `c` is not reached from `p`, nothing reached from `p` gets a new
/// way up through the link `p -> c`.
proof fn lemma_walk_from_parent_after_push(
    links: Seq<LinkView>,
    new: LinkView,
    a: Seq<char>,
    b: Seq<char>,
    n: nat,
)
    requires
        reaches(links, true, new.parent, a),
        !reaches(links, true, new.parent, new.child),
        walk(links.push(new), true, a, b, n),
    ensures
        reaches(links, true, a, b),
    decreases n,
{
    let ext = links.push(new);
    if n == 0 {
        assert(walk(links, true, a, b, 0));
    } else {
        let j = choose|j: int|
            0 <= j < ext.len() && from_of(#[trigger] ext[j], true) == a && walk(
                ext,
                true,
                to_of(ext[j], true),
                b,
                (n - 1) as nat,
            );
        if j == links.len() {
            assert(reaches(links, true, new.parent, new.child));
        } else {
            assert(ext[j] == links[j]);
            let mid = to_of(links[j], true);
            let k = choose|k: nat| #[trigger] walk(links, true, new.parent, a, k);
            lemma_walk_snoc(links, true, new.parent, a, k, j);
            assert(reaches(links, true, new.parent, mid));
            lemma_walk_from_parent_after_push(links, new, mid, b, (n - 1) as nat);
            let m = choose|m: nat| #[trigger] walk(links, true, mid, b, m);
            assert(walk(links, true, a, b, m + 1));
        }
    }
}

/// Adding the link `p -> c` (`p` the parent) to an acyclic relation keeps
/// it acyclic when `c` is neither `p` nor an ancestor of `p`.
pub proof fn lemma_push_keeps_acyclic(links: Seq<LinkView>, new: LinkView)
    requires
        acyclic(links),
        !reaches(links, true, new.parent, new.child),
    ensures
        acyclic(links.push(new)),
{
    let ext = links.push(new);
    assert forall|x: Seq<char>| !#[trigger] is_ancestor(ext, x, x) by {
        if is_ancestor(ext, x, x) {
            let n = choose|n: nat| n > 0 && #[trigger] walk(ext, true, x, x, n);
            lemma_walk_after_push(links, new, x, x, n);
            if walk(links, true, x, x, n) {
                assert(is_ancestor(links, x, x));
            } else {
                assert(walk(links, true, new.parent, new.parent, 0));
                let m = choose|m: nat| #[trigger] walk(ext, true, new.parent, x, m);
                lemma_walk_from_parent_after_push(links, new, new.parent, x, m);
                let k1 = choose|k: nat| #[trigger] walk(links, true, new.parent, x, k);
                let k2 = choose|k: nat| #[trigger] walk(links, true, x, new.child, k);
                lemma_walk_trans(links, true, new.parent, x, new.child, k1, k2);
            }
        }
    }
}

/// Every link of `small` is a link of `big`.
pub open spec fn links_within(small: Seq<LinkView>, big: Seq<LinkView>) -> bool {
    forall|k: int| 0 <= k < small.len() ==> big.contains(#[trigger] small[k])
}

/// A walk through some of the links of `big` is a walk through `big`.
pub proof fn lemma_walk_within(
    small: Seq<LinkView>,
    big: Seq<LinkView>,
    up: bool,
    a: Seq<char>,
    b: Seq<char>,
    n: nat,
)
    requires
        links_within(small, big),
        walk(small, up, a, b, n),
    ensures
        walk(big, up, a, b, n),
    decreases n,
{
    if n > 0 {
        let k = choose|k: int|
            0 <= k < small.len() && from_of(#[trigger] small[k], up) == a && walk(
                small,
                up,
                to_of(small[k], up),
                b,
                (n - 1) as nat,
            );
        assert(big.contains(small[k]));
        let j = choose|j: int| 0 <= j < big.len() && big[j] == small[k];
        lemma_walk_within(small, big, up, to_of(small[k], up), b, (n - 1) as nat);
        assert(from_of(big[j], up) == a);
    }
}

/// Some of the links of an acyclic relation are acyclic.
pub proof fn lemma_acyclic_within(small: Seq<LinkView>, big: Seq<LinkView>)
    requires
        links_within(small, big),
        acyclic(big),
    ensures
        acyclic(small),
{
    assert forall|x: Seq<char>| !#[trigger] is_ancestor(small, x, x) by {
        if is_ancestor(small, x, x) {
            let n = choose|n: nat| n > 0 && #[trigger] walk(small, true, x, x, n);
            lemma_walk_within(small, big, true, x, x, n);
            assert(is_ancestor(big, x, x));
        }
    }
}

/// Number of `false` entries.
pub open spec fn count_false(s: Seq<bool>) -> nat
    decreases s.len(),
{
    if s.len() == 0 {
        0
    } else {
        count_false(s.drop_last()) + if s.last() {
            0nat
        } else {
            1nat
        }
    }
}

proof fn lemma_count_false_set(s: Seq<bool>, j: int)
    requires
        0 <= j < s.len(),
        !s[j],
    ensures
        count_false(s.update(j, true)) + 1 == count_false(s),
    decreases s.len(),
{
    let t = s.update(j, true);
    if j == s.len() - 1 {
        assert(t.drop_last() =~= s.drop_last());
    } else {
        assert(t.drop_last() =~= s.drop_last().update(j, true));
        lemma_count_false_set(s.drop_last(), j);
    }
}

/// Whether `ids` holds an identifier equal to `id`.
pub fn contains_id(ids: &Vec<String>, id: &String) -> (r: bool)
    ensures
        r == ids_view(ids@).contains(id@),
{
    let mut i: usize = 0;
    while i < ids.len()
        invariant
            i <= ids.len(),
            forall|k: int| 0 <= k < i ==> ids@[k]@ != id@,
        decreases ids.len() - i,
    {
        if ids[i] == *id {
            assert(ids_view(ids@)[i as int] == id@);
            return true;
        }
        i = i + 1;
    }
    proof {
        if ids_view(ids@).contains(id@) {
            let k = choose|k: int| 0 <= k < ids_view(ids@).len() && ids_view(ids@)[k] == id@;
            assert(ids@[k]@ == id@);
        }
    }
    false
}

fn link_from(l: &Link, up: bool) -> (r: String)
    ensures
        r@ == from_of(l@, up),
{
    if up {
        l.child.clone()
    } else {
        l.parent.clone()
    }
}

fn link_to(l: &Link, up: bool) -> (r: String)
    ensures
        r@ == to_of(l@, up),
{
    if up {
        l.parent.clone()
    } else {
        l.child.clone()
    }
}

/// The index of a link not yet followed whose start end is already reached.
fn find_unfollowed(links: &Vec<Link>, used: &Vec<bool>, visited: &Vec<String>, up: bool) -> (r:
    Option<usize>)
    requires
        used@.len() == links@.len(),
    ensures
        match r {
            Some(j) => j < links@.len() && !used@[j as int] && ids_view(visited@).contains(
                from_of(links@[j as int]@, up),
            ),
            None => forall|i: int|
                0 <= i < links@.len() && !used@[i] ==> !ids_view(visited@).contains(
                    from_of(#[trigger] links_view(links@)[i], up),
                ),
        },
{
    let mut j: usize = 0;
    while j < links.len()
        invariant
            j <= links.len(),
            used@.len() == links@.len(),
            forall|i: int|
                0 <= i < j && !used@[i] ==> !ids_view(visited@).contains(
                    from_of(#[trigger] links_view(links@)[i], up),
                ),
        decreases links.len() - j,
    {
        if !used[j] {
            let f = link_from(&links[j], up);
            if contains_id(visited, &f) {
                return Some(j);
            }
        }
        j = j + 1;
    }
    None
}

/// Every identifier reached from an element of `start` by following links
/// in direction `up` (the elements of `start` included).
pub fn closure(links: &Vec<Link>, start: Vec<String>, up: bool) -> (res: Vec<String>)
    ensures
        forall|x: Seq<char>|
            ids_view(res@).contains(x) <==> in_closure(links_view(links@), up, ids_view(start@), x),
{
    let ghost lv = links_view(links@);
    let ghost sv = ids_view(start@);
    let mut visited = start;
    let mut used: Vec<bool> = Vec::new();
    let mut k: usize = 0;
    while k < links.len()
        invariant
            k <= links.len(),
            used@.len() == k,
            forall|j: int| 0 <= j < k ==> !used@[j],
        decreases links.len() - k,
    {
        used.push(false);
        k = k + 1;
    }
    proof {
        assert forall|x: Seq<char>| ids_view(visited@).contains(x) implies in_closure(
            lv,
            up,
            sv,
            x,
        ) by {
            assert(walk(lv, up, x, x, 0));
            assert(reaches(lv, up, x, x));
        }
    }
    loop
        invariant
            lv == links_view(links@),
            sv == ids_view(start@),
            used@.len() == links@.len(),
            forall|x: Seq<char>| sv.contains(x) ==> ids_view(visited@).contains(x),
            forall|x: Seq<char>| ids_view(visited@).contains(x) ==> in_closure(lv, up, sv, x),
            forall|j: int|
                0 <= j < used@.len() && used@[j] ==> ids_view(visited@).contains(
                    from_of(#[trigger] lv[j], up),
                ) && ids_view(visited@).contains(to_of(lv[j], up)),
        decreases count_false(used@),
    {
        let next = find_unfollowed(links, &used, &visited, up);
        if next.is_none() {
            proof {
                assert forall|x: Seq<char>| in_closure(lv, up, sv, x) implies ids_view(
                    visited@,
                ).contains(x) by {
                    let s = choose|s: Seq<char>| sv.contains(s) && #[trigger] reaches(lv, up, s, x);
                    let n = choose|n: nat| #[trigger] walk(lv, up, s, x, n);
                    assert forall|i: int|
                        0 <= i < lv.len() && ids_view(visited@).contains(
                            from_of(#[trigger] lv[i], up),
                        ) implies ids_view(visited@).contains(to_of(lv[i], up)) by {
                        if !used@[i] {
                        }
                    }
                    lemma_closed_holds_walk(lv, up, ids_view(visited@), s, x, n);
                }
            }
            return visited;
        }
        let j = next.unwrap();
        let t = link_to(&links[j], up);
        let ghost old_visited = ids_view(visited@);
        proof {
            let x = from_of(lv[j as int], up);
            assert(in_closure(lv, up, sv, x));
            let s = choose|s: Seq<char>| sv.contains(s) && #[trigger] reaches(lv, up, s, x);
            let n = choose|n: nat| #[trigger] walk(lv, up, s, x, n);
            lemma_walk_snoc(lv, up, s, x, n, j as int);
            assert(reaches(lv, up, s, t@));
            assert(in_closure(lv, up, sv, t@));
            lemma_count_false_set(used@, j as int);
        }
        if !contains_id(&visited, &t) {
            visited.push(t);
            proof {
                assert(ids_view(visited@) =~= old_visited.push(t@));
                assert forall|x: Seq<char>| old_visited.contains(x) implies ids_view(
                    visited@,
                ).contains(x) by {
                    let k = choose|k: int| 0 <= k < old_visited.len() && old_visited[k] == x;
                    assert(ids_view(visited@)[k] == x);
                }
                assert(ids_view(visited@)[ids_view(visited@).len() - 1] == t@);
            }
        }
        assert(ids_view(visited@).contains(t@));
        assert(ids_view(visited@).contains(from_of(lv[j as int], up)));
        used.set(j, true);
    }
}

} // verus!

verus! {

/// `x` is reached by first following a link recorded for `user` that leaves
/// `at`, then zero or more links of any user.
pub open spec fn reached_after_step(
    links: Seq<LinkView>,
    up: bool,
    at: Seq<char>,
    user: Seq<char>,
    x: Seq<char>,
) -> bool {
    exists|k: int|
        0 <= k < links.len() && from_of(#[trigger] links[k], up) == at && links[k].user_id
            == user && reaches(links, up, to_of(links[k], up), x)
}

/// The ends of the links recorded for `user` that leave `at`.
fn first_step(links: &Vec<Link>, at: &String, user: &String, up: bool) -> (r: Vec<String>)
    ensures
        forall|x: Seq<char>|
            ids_view(r@).contains(x) <==> exists|k: int|
                0 <= k < links@.len() && from_of(#[trigger] links_view(links@)[k], up) == at@
                    && links_view(links@)[k].user_id == user@ && to_of(links_view(links@)[k], up)
                    == x,
{
    let ghost lv = links_view(links@);
    let mut r: Vec<String> = Vec::new();
    let mut i: usize = 0;
    while i < links.len()
        invariant
            i <= links.len(),
            lv == links_view(links@),
            forall|x: Seq<char>|
                ids_view(r@).contains(x) <==> exists|k: int|
                    0 <= k < i && from_of(#[trigger] lv[k], up) == at@ && lv[k].user_id == user@
                        && to_of(lv[k], up) == x,
        decreases links.len() - i,
    {
        let ghost before_all = ids_view(r@);
        let f = link_from(&links[i], up);
        assert(links@[i as int]@ == lv[i as int]);
        if f == *at && links[i].user_id == *user {
            let t = link_to(&links[i], up);
            let ghost before = ids_view(r@);
            proof {
                lemma_ids_view_push(r@, t);
            }
            r.push(t);
            proof {
                assert forall|x: Seq<char>| before.contains(x) implies ids_view(r@).contains(x) by {
                    let j = choose|j: int| 0 <= j < before.len() && before[j] == x;
                    assert(ids_view(r@)[j] == x);
                }
                assert(ids_view(r@)[before.len() as int] == t@);
                assert forall|x: Seq<char>| ids_view(r@).contains(x) implies before.contains(x)
                    || x == t@ by {
                    let j = choose|j: int| 0 <= j < ids_view(r@).len() && ids_view(r@)[j] == x;
                    if j < before.len() {
                        assert(before[j] == x);
                    }
                }
            }
        }
        proof {
            assert forall|x: Seq<char>|
                ids_view(r@).contains(x) <==> exists|k: int|
                    0 <= k < i + 1 && from_of(#[trigger] lv[k], up) == at@ && lv[k].user_id
                        == user@ && to_of(lv[k], up) == x by {
                if exists|k: int|
                    0 <= k < i + 1 && from_of(#[trigger] lv[k], up) == at@ && lv[k].user_id
                        == user@ && to_of(lv[k], up) == x {
                    let k = choose|k: int|
                        0 <= k < i + 1 && from_of(#[trigger] lv[k], up) == at@ && lv[k].user_id
                            == user@ && to_of(lv[k], up) == x;
                    if k < i {
                        assert(before_all.contains(x));
                    }
                }
                if ids_view(r@).contains(x) {
                    if before_all.contains(x) {
                        let k = choose|k: int|
                            0 <= k < i && from_of(#[trigger] lv[k], up) == at@ && lv[k].user_id
                                == user@ && to_of(lv[k], up) == x;
                        assert(0 <= k < i + 1);
                    } else {
                        assert(from_of(lv[i as int], up) == at@);
                    }
                }
            }
        }
        i = i + 1;
    }
    r
}

/// Everything [`reached_after_step`] from `at`.
pub fn closure_after_step(links: &Vec<Link>, at: &String, user: &String, up: bool) -> (r: Vec<
    String,
>)
    ensures
        forall|x: Seq<char>|
            ids_view(r@).contains(x) <==> reached_after_step(links_view(links@), up, at@, user@, x),
{
    let ghost lv = links_view(links@);
    let start = first_step(links, at, user, up);
    let ghost sv = ids_view(start@);
    let r = closure(links, start, up);
    proof {
        assert forall|x: Seq<char>| ids_view(r@).contains(x) <==> reached_after_step(
            lv,
            up,
            at@,
            user@,
            x,
        ) by {
            if ids_view(r@).contains(x) {
                let s = choose|s: Seq<char>| sv.contains(s) && #[trigger] reaches(lv, up, s, x);
                let k = choose|k: int|
                    0 <= k < links@.len() && from_of(#[trigger] lv[k], up) == at@ && lv[k].user_id
                        == user@ && to_of(lv[k], up) == s;
            }
            if reached_after_step(lv, up, at@, user@, x) {
                let k = choose|k: int|
                    0 <= k < lv.len() && from_of(#[trigger] lv[k], up) == at@ && lv[k].user_id
                        == user@ && reaches(lv, up, to_of(lv[k], up), x);
                assert(sv.contains(to_of(lv[k], up)));
                assert(in_closure(lv, up, sv, x));
            }
        }
    }
    r
}

/// The links of `a` followed by those of `b`.
pub fn concat_links(a: &Vec<Link>, b: &Vec<Link>) -> (r: Vec<Link>)
    ensures
        links_view(r@) == links_view(a@) + links_view(b@),
{
    let mut r: Vec<Link> = Vec::new();
    let mut i: usize = 0;
    while i < a.len()
        invariant
            i <= a.len(),
            links_view(r@) == links_view(a@).take(i as int),
        decreases a.len() - i,
    {
        let c = a[i].copy();
        assert(c@ == links_view(a@)[i as int]);
        proof {
            lemma_links_view_push(r@, c);
        }
        r.push(c);
        assert(links_view(r@) =~= links_view(a@).take(i + 1));
        i = i + 1;
    }
    let mut j: usize = 0;
    while j < b.len()
        invariant
            j <= b.len(),
            links_view(r@) == links_view(a@) + links_view(b@).take(j as int),
        decreases b.len() - j,
    {
        let c = b[j].copy();
        assert(c@ == links_view(b@)[j as int]);
        proof {
            lemma_links_view_push(r@, c);
        }
        r.push(c);
        assert(links_view(r@) =~= links_view(a@) + links_view(b@).take(j + 1));
        j = j + 1;
    }
    assert(links_view(a@).take(i as int) =~= links_view(a@));
    assert(links_view(b@).take(j as int) =~= links_view(b@));
    r
}

} // verus!
