//! The deterministic archive-member order: paths are compared by their byte
//! sequences read from the last byte backward, which clusters files sharing
//! a suffix (an extension, or the same name in different directories) next
//! to one another, improving compression locality.

use vstd::prelude::*;
use vstd::relations::{sorted_by, total_ordering};
use vstd::seq_lib::lemma_sorted_unique;

use crate::util::{clone_bytes, views_of};

verus! {

/// Reverse-byte order: `a` precedes `b` when `a`'s bytes, read from the end
/// toward the front, compare lexicographically no greater than `b`'s.
pub open spec fn rev_le(a: Seq<u8>, b: Seq<u8>) -> bool
    decreases a.len() + b.len(),
{
    if a.len() == 0 {
        true
    } else if b.len() == 0 {
        false
    } else if a.last() < b.last() {
        true
    } else if a.last() > b.last() {
        false
    } else {
        rev_le(a.drop_last(), b.drop_last())
    }
}

/// The reverse-byte order as a relation value.
pub open spec fn path_order() -> spec_fn(Seq<u8>, Seq<u8>) -> bool {
    |a: Seq<u8>, b: Seq<u8>| rev_le(a, b)
}

/// Any two byte sequences are comparable.
pub proof fn lemma_rev_le_total(a: Seq<u8>, b: Seq<u8>)
    ensures
        rev_le(a, b) || rev_le(b, a),
    decreases a.len() + b.len(),
{
    if a.len() > 0 && b.len() > 0 && a.last() == b.last() {
        lemma_rev_le_total(a.drop_last(), b.drop_last());
    }
}

/// Two byte sequences each preceding the other are equal.
pub proof fn lemma_rev_le_antisymmetric(a: Seq<u8>, b: Seq<u8>)
    requires
        rev_le(a, b),
        rev_le(b, a),
    ensures
        a == b,
    decreases a.len() + b.len(),
{
    if a.len() > 0 && b.len() > 0 && a.last() == b.last() {
        lemma_rev_le_antisymmetric(a.drop_last(), b.drop_last());
        assert(a =~= a.drop_last().push(a.last()));
        assert(b =~= b.drop_last().push(b.last()));
    }
}

/// The reverse-byte order is transitive.
pub proof fn lemma_rev_le_transitive(a: Seq<u8>, b: Seq<u8>, c: Seq<u8>)
    requires
        rev_le(a, b),
        rev_le(b, c),
    ensures
        rev_le(a, c),
    decreases a.len() + b.len() + c.len(),
{
    if a.len() > 0 {
        if a.last() == b.last() && b.last() == c.last() {
            lemma_rev_le_transitive(a.drop_last(), b.drop_last(), c.drop_last());
        }
    }
}

/// The reverse-byte order is a total order.
pub proof fn lemma_path_order_total()
    ensures
        total_ordering(path_order()),
{
    let leq = path_order();
    assert forall|a: Seq<u8>, b: Seq<u8>| #[trigger] leq(a, b) || #[trigger] leq(b, a) by {
        lemma_rev_le_total(a, b);
    }
    assert forall|a: Seq<u8>, b: Seq<u8>| #[trigger] leq(a, b) && #[trigger] leq(b, a) implies a
        == b by {
        lemma_rev_le_antisymmetric(a, b);
    }
    assert forall|a: Seq<u8>, b: Seq<u8>, c: Seq<u8>|
        #[trigger] leq(a, b) && #[trigger] leq(b, c) implies #[trigger] leq(a, c) by {
        lemma_rev_le_transitive(a, b, c);
    }
}

/// A sorted arrangement of given contents is unique: sortedness and the
/// member multiset pin the order down completely, which is what makes the
/// archive stream reproducible run over run.
pub proof fn lemma_sorted_arrangement_unique(x: Seq<Seq<u8>>, y: Seq<Seq<u8>>)
    requires
        sorted_by(x, path_order()),
        sorted_by(y, path_order()),
        x.to_multiset() == y.to_multiset(),
    ensures
        x == y,
{
    lemma_path_order_total();
    lemma_sorted_unique(x, y, path_order());
    assert(x =~= y);
}

/// Compares two paths in reverse-byte order.
pub fn rev_le_bytes(a: &Vec<u8>, b: &Vec<u8>) -> (r: bool)
    ensures
        r == rev_le(a@, b@),
{
    let mut i: usize = 0;
    proof {
        assert(a@.take(a@.len() as int) =~= a@);
        assert(b@.take(b@.len() as int) =~= b@);
    }
    while i < a.len() && i < b.len()
        invariant
            i <= a@.len(),
            i <= b@.len(),
            rev_le(a@, b@) == rev_le(a@.take(a@.len() - i), b@.take(b@.len() - i)),
        decreases a@.len() - i,
    {
        let ga: Ghost<Seq<u8>> = Ghost(a@.take(a@.len() - i));
        let gb: Ghost<Seq<u8>> = Ghost(b@.take(b@.len() - i));
        proof {
            assert(ga@.last() == a@[a@.len() - i - 1]);
            assert(gb@.last() == b@[b@.len() - i - 1]);
            assert(ga@.drop_last() =~= a@.take(a@.len() - (i + 1)));
            assert(gb@.drop_last() =~= b@.take(b@.len() - (i + 1)));
        }
        let ca = a[a.len() - 1 - i];
        let cb = b[b.len() - 1 - i];
        if ca < cb {
            return true;
        }
        if ca > cb {
            return false;
        }
        i = i + 1;
    }
    proof {
        if i >= a@.len() {
            assert(a@.take(a@.len() - i) =~= Seq::<u8>::empty());
        } else {
            assert(b@.take(b@.len() - i) =~= Seq::<u8>::empty());
            assert(a@.take(a@.len() - i).len() > 0);
        }
    }
    i >= a.len()
}

/// Sorts paths into reverse-byte order.  The result is sorted and holds
/// exactly the given paths; with `lemma_sorted_arrangement_unique` this
/// determines the output completely.
pub fn sort_paths(v: &Vec<Vec<u8>>) -> (r: Vec<Vec<u8>>)
    ensures
        sorted_by(views_of(r@), path_order()),
        views_of(r@).to_multiset() == views_of(v@).to_multiset(),
{
    broadcast use vstd::seq_lib::group_to_multiset_ensures;

    let mut out: Vec<Vec<u8>> = Vec::new();
    let mut k: usize = 0;
    proof {
        assert(views_of(out@) =~~= Seq::<Seq<u8>>::empty());
        assert(views_of(v@.take(0int)) =~~= Seq::<Seq<u8>>::empty());
        assert(views_of(out@).to_multiset() =~= views_of(v@.take(0int)).to_multiset());
    }
    while k < v.len()
        invariant
            k <= v@.len(),
            sorted_by(views_of(out@), path_order()),
            views_of(out@).to_multiset() == views_of(v@.take(k as int)).to_multiset(),
        decreases v@.len() - k,
    {
        let x = clone_bytes(&v[k]);
        let ghost old_views = views_of(out@);
        let mut p: usize = 0;
        while p < out.len() && rev_le_bytes(&out[p], &x)
            invariant
                p <= out@.len(),
                x@ == v@[k as int]@,
                old_views == views_of(out@),
                forall|i: int| 0 <= i < p ==> rev_le(#[trigger] views_of(out@)[i], x@),
            decreases out@.len() - p,
        {
            assert(views_of(out@)[p as int] == out@[p as int]@);
            p = p + 1;
        }
        proof {
            if p < out@.len() {
                lemma_rev_le_total(old_views[p as int], x@);
                assert(rev_le(x@, old_views[p as int]));
            }
            assert forall|j: int| p <= j < old_views.len() implies rev_le(
                x@,
                #[trigger] old_views[j],
            ) by {
                if j > p {
                    assert(path_order()(old_views[p as int], old_views[j]));
                    lemma_rev_le_transitive(x@, old_views[p as int], old_views[j]);
                }
            }
        }
        out.insert(p, x);
        proof {
            assert(views_of(out@) =~~= old_views.insert(p as int, v@[k as int]@));
            let nv = views_of(out@);
            assert forall|i: int, j: int| 0 <= i < j < nv.len() implies #[trigger] path_order()(
                nv[i],
                nv[j],
            ) by {
                if j < p {
                    assert(path_order()(old_views[i], old_views[j]));
                } else if i < p && j == p {
                    assert(rev_le(old_views[i], x@));
                } else if i < p && j > p {
                    assert(path_order()(old_views[i], old_views[j - 1]));
                } else if i == p {
                    assert(rev_le(x@, old_views[j - 1]));
                } else {
                    assert(path_order()(old_views[i - 1], old_views[j - 1]));
                }
            }
            assert(views_of(v@.take(k as int + 1)) =~~= views_of(v@.take(k as int)).push(
                v@[k as int]@,
            ));
            vstd::seq_lib::to_multiset_insert(old_views, p as int, v@[k as int]@);
            vstd::seq_lib::to_multiset_build(views_of(v@.take(k as int)), v@[k as int]@);
            assert(nv.to_multiset() =~= views_of(v@.take(k as int + 1)).to_multiset());
        }
        k = k + 1;
    }
    proof {
        assert(v@.take(v@.len() as int) =~= v@);
        assert(views_of(v@.take(v@.len() as int)) =~~= views_of(v@));
    }
    out
}

} // verus!
