//! Identifiers as strings: their order (that of `String`, byte by byte on
//! the UTF-8 encoding) and sorted lists of distinct identifiers.

use vstd::prelude::*;
use vstd::utf8::*;
use crate::graph::ids_view;

verus! {

/// Lexicographic order on byte sequences, as `[u8]` orders them.
pub open spec fn bytes_lt(a: Seq<u8>, b: Seq<u8>) -> bool
    decreases a.len(),
{
    if a.len() == 0 {
        b.len() > 0
    } else if b.len() == 0 {
        false
    } else if a[0] < b[0] {
        true
    } else if a[0] > b[0] {
        false
    } else {
        bytes_lt(a.drop_first(), b.drop_first())
    }
}

/// The order of `String`: that of the UTF-8 encodings.
pub open spec fn id_lt(a: Seq<char>, b: Seq<char>) -> bool {
    bytes_lt(encode_utf8(a), encode_utf8(b))
}

/// Strictly increasing, hence free of duplicates.
pub open spec fn strictly_sorted(s: Seq<Seq<char>>) -> bool {
    forall|i: int, j: int| 0 <= i < j < s.len() ==> id_lt(#[trigger] s[i], #[trigger] s[j])
}

proof fn lemma_bytes_lt_irreflexive(a: Seq<u8>)
    ensures
        !bytes_lt(a, a),
    decreases a.len(),
{
    if a.len() > 0 {
        lemma_bytes_lt_irreflexive(a.drop_first());
    }
}

proof fn lemma_bytes_lt_total(a: Seq<u8>, b: Seq<u8>)
    ensures
        a != b ==> bytes_lt(a, b) || bytes_lt(b, a),
    decreases a.len(),
{
    if a.len() > 0 && b.len() > 0 && a[0] == b[0] {
        lemma_bytes_lt_total(a.drop_first(), b.drop_first());
        if a.drop_first() == b.drop_first() {
            assert(a =~= seq![a[0]] + a.drop_first());
            assert(b =~= seq![b[0]] + b.drop_first());
        }
    } else if a.len() == 0 && b.len() == 0 {
        assert(a =~= b);
    }
}

proof fn lemma_bytes_lt_trans(a: Seq<u8>, b: Seq<u8>, c: Seq<u8>)
    requires
        bytes_lt(a, b),
        bytes_lt(b, c),
    ensures
        bytes_lt(a, c),
    decreases a.len(),
{
    if a.len() > 0 && b.len() > 0 && c.len() > 0 && a[0] == b[0] && b[0] == c[0] {
        lemma_bytes_lt_trans(a.drop_first(), b.drop_first(), c.drop_first());
    }
}

/// `id_lt` is a strict total order.
pub proof fn lemma_id_lt_order(a: Seq<char>, b: Seq<char>, c: Seq<char>)
    ensures
        !id_lt(a, a),
        a != b ==> id_lt(a, b) || id_lt(b, a),
        id_lt(a, b) && id_lt(b, c) ==> id_lt(a, c),
        id_lt(a, b) ==> !id_lt(b, a),
{
    lemma_bytes_lt_irreflexive(encode_utf8(a));
    encode_utf8_decode_utf8(a);
    encode_utf8_decode_utf8(b);
    lemma_bytes_lt_total(encode_utf8(a), encode_utf8(b));
    if id_lt(a, b) && id_lt(b, c) {
        lemma_bytes_lt_trans(encode_utf8(a), encode_utf8(b), encode_utf8(c));
    }
    if id_lt(a, b) && id_lt(b, a) {
        lemma_bytes_lt_trans(encode_utf8(a), encode_utf8(b), encode_utf8(a));
    }
}

fn bytes_less(a: &[u8], b: &[u8]) -> (r: bool)
    ensures
        r == bytes_lt(a@, b@),
{
    let mut i: usize = 0;
    assert(a@.skip(0) =~= a@);
    assert(b@.skip(0) =~= b@);
    while i < a.len() && i < b.len()
        invariant
            i <= a@.len(),
            i <= b@.len(),
            forall|k: int| 0 <= k < i ==> a@[k] == b@[k],
            bytes_lt(a@, b@) == bytes_lt(a@.skip(i as int), b@.skip(i as int)),
        decreases a.len() - i,
    {
        if a[i] < b[i] {
            return true;
        }
        if a[i] > b[i] {
            return false;
        }
        assert(a@.skip(i as int).drop_first() =~= a@.skip(i + 1));
        assert(b@.skip(i as int).drop_first() =~= b@.skip(i + 1));
        i = i + 1;
    }
    i < b.len()
}

/// Whether `a` orders before `b` as strings.
pub fn id_less(a: &String, b: &String) -> (r: bool)
    ensures
        r == id_lt(a@, b@),
{
    bytes_less(a.as_str().as_bytes(), b.as_str().as_bytes())
}

/// Inserts `id` into a strictly sorted list unless it is there already.
pub fn insert_sorted(v: &mut Vec<String>, id: String)
    requires
        strictly_sorted(ids_view(old(v)@)),
    ensures
        strictly_sorted(ids_view(final(v)@)),
        ids_view(final(v)@).to_set() == ids_view(old(v)@).to_set().insert(id@),
{
    let ghost old_v = ids_view(v@);
    let mut i: usize = 0;
    while i < v.len() && id_less(&v[i], &id)
        invariant
            i <= v@.len(),
            v@ == old(v)@,
            old_v == ids_view(v@),
            forall|k: int| 0 <= k < i ==> id_lt(#[trigger] old_v[k], id@),
        decreases v.len() - i,
    {
        i = i + 1;
    }
    if i < v.len() && v[i] == id {
        assert(old_v.to_set().insert(id@) =~= old_v.to_set()) by {
            assert(old_v[i as int] == id@);
        }
        return;
    }
    proof {
        if i < v.len() {
            lemma_id_lt_order(old_v[i as int], id@, id@);
        }
    }
    v.insert(i, id);
    proof {
        let nv = ids_view(v@);
        assert(nv =~= old_v.insert(i as int, id@));
        assert forall|a: int, b: int| 0 <= a < b < nv.len() implies id_lt(
            #[trigger] nv[a],
            #[trigger] nv[b],
        ) by {
            if a < i && b == i {
            } else if a < i && b > i {
                lemma_id_lt_order(old_v[a], old_v[b - 1], old_v[b - 1]);
            } else if a == i && b > i {
                lemma_id_lt_order(id@, old_v[i as int], old_v[b - 1]);
                if b - 1 > i {
                } else {
                }
            } else if a > i {
            } else {
            }
        }
        assert(nv.to_set() =~= old_v.to_set().insert(id@)) by {
            assert forall|x: Seq<char>| nv.to_set().contains(x) <==> old_v.to_set().insert(
                id@,
            ).contains(x) by {
                if nv.to_set().contains(x) {
                    let k = choose|k: int| 0 <= k < nv.len() && nv[k] == x;
                    if k < i {
                        assert(old_v[k] == x);
                    } else if k > i {
                        assert(old_v[k - 1] == x);
                    }
                }
                if old_v.to_set().contains(x) {
                    let k = choose|k: int| 0 <= k < old_v.len() && old_v[k] == x;
                    if k < i {
                        assert(nv[k] == x);
                    } else {
                        assert(nv[k + 1] == x);
                    }
                }
                if x == id@ {
                    assert(nv[i as int] == x);
                }
            }
        }
    }
}

/// Two strictly sorted lists of the same elements are the same list.
pub proof fn lemma_sorted_unique(a: Seq<Seq<char>>, b: Seq<Seq<char>>)
    requires
        strictly_sorted(a),
        strictly_sorted(b),
        a.to_set() == b.to_set(),
    ensures
        a == b,
    decreases a.len(),
{
    if a.len() == 0 {
        if b.len() > 0 {
            assert(b.to_set().contains(b[0]));
        }
        assert(a =~= b);
    } else {
        assert(a.to_set().contains(a[0]));
        assert(b.len() > 0) by {
            if b.len() == 0 {
                assert(b.to_set() =~= Set::<Seq<char>>::empty());
            }
        }
        let j = choose|j: int| 0 <= j < b.len() && b[j] == a[0];
        assert(b.to_set().contains(b[0]));
        let i = choose|i: int| 0 <= i < a.len() && a[i] == b[0];
        lemma_id_lt_order(a[0], b[0], a[0]);
        if j > 0 {
            assert(id_lt(b[0], b[j]));
            if i > 0 {
                assert(id_lt(a[0], a[i]));
            }
        }
        assert(a[0] == b[0]);
        let ra = a.drop_first();
        let rb = b.drop_first();
        assert forall|x: Seq<char>| ra.to_set().contains(x) <==> rb.to_set().contains(x) by {
            if ra.to_set().contains(x) {
                let k = choose|k: int| 0 <= k < ra.len() && ra[k] == x;
                assert(a[k + 1] == x);
                assert(id_lt(a[0], a[k + 1]));
                lemma_id_lt_order(a[0], x, a[0]);
                assert(a.to_set().contains(x));
                let m = choose|m: int| 0 <= m < b.len() && b[m] == x;
                assert(m != 0);
                assert(rb[m - 1] == x);
            }
            if rb.to_set().contains(x) {
                let k = choose|k: int| 0 <= k < rb.len() && rb[k] == x;
                assert(b[k + 1] == x);
                assert(id_lt(b[0], b[k + 1]));
                lemma_id_lt_order(b[0], x, b[0]);
                assert(b.to_set().contains(x));
                let m = choose|m: int| 0 <= m < a.len() && a[m] == x;
                assert(m != 0);
                assert(ra[m - 1] == x);
            }
        }
        assert(ra.to_set() =~= rb.to_set());
        assert forall|p: int, q: int| 0 <= p < q < ra.len() implies id_lt(#[trigger] ra[p], #[trigger] ra[q]) by {
            assert(ra[p] == a[p + 1] && ra[q] == a[q + 1]);
        }
        assert forall|p: int, q: int| 0 <= p < q < rb.len() implies id_lt(#[trigger] rb[p], #[trigger] rb[q]) by {
            assert(rb[p] == b[p + 1] && rb[q] == b[q + 1]);
        }
        lemma_sorted_unique(ra, rb);
        assert(a =~= b) by {
            assert forall|k: int| 0 <= k < a.len() implies a[k] == b[k] by {
                if k > 0 {
                    assert(a[k] == ra[k - 1]);
                    assert(b[k] == rb[k - 1]);
                }
            }
        }
    }
}

} // verus!
