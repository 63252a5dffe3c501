//! Stable ordering of records by a text key. The order of a list of keys is
//! the one permutation of their positions that is sorted by key and keeps
//! equal keys in their given order.

use vstd::prelude::*;
use vstd::relations::{sorted_by, total_ordering};
use vstd::seq_lib::{
    group_to_multiset_ensures, lemma_multiset_commutative, lemma_sorted_unique, to_multiset_build,
};
use crate::text::{
    lemma_lex_asymmetric, lemma_lex_irreflexive, lemma_lex_total, lemma_lex_transitive, lex_lt,
    str_lt,
};

verus! {

/// Whether key `a` comes strictly before key `b` in the chosen direction.
pub open spec fn before(a: Seq<char>, b: Seq<char>, descending: bool) -> bool {
    if descending {
        lex_lt(b, a)
    } else {
        lex_lt(a, b)
    }
}

/// The order on positions: by key, and among equal keys by position.
pub open spec fn position_leq(keys: Seq<Seq<char>>, descending: bool) -> spec_fn(
    usize,
    usize,
) -> bool {
    |x: usize, y: usize|
        before(keys[x as int], keys[y as int], descending) || (keys[x as int] == keys[y as int]
            && x <= y)
}

/// The positions `0, 1, .., n - 1`.
pub open spec fn positions(n: nat) -> Seq<usize> {
    Seq::new(n, |i: int| i as usize)
}

/// The positions of `keys` in sorted order.
pub open spec fn stable_order(keys: Seq<Seq<char>>, descending: bool) -> Seq<usize> {
    positions(keys.len()).sort_by(position_leq(keys, descending))
}

/// The items taken in the given order of positions.
pub open spec fn arranged<T>(items: Seq<T>, order: Seq<usize>) -> Seq<T> {
    Seq::new(order.len(), |i: int| items[order[i] as int])
}

/// The order on positions is total: reflexive, antisymmetric, transitive,
/// and any two positions are comparable.
pub proof fn lemma_position_leq_total(keys: Seq<Seq<char>>, descending: bool)
    ensures
        total_ordering(position_leq(keys, descending)),
{
    let leq = position_leq(keys, descending);
    assert forall|x: usize| #[trigger] leq(x, x) by {}
    assert forall|x: usize, y: usize| #[trigger] leq(x, y) && #[trigger] leq(y, x) implies x
        == y by {
        lemma_lex_asymmetric(keys[x as int], keys[y as int]);
        lemma_lex_irreflexive(keys[x as int]);
    }
    assert forall|x: usize, y: usize, z: usize| #[trigger] leq(x, y) && #[trigger] leq(
        y,
        z,
    ) implies leq(x, z) by {
        let (a, b, c) = (keys[x as int], keys[y as int], keys[z as int]);
        if before(a, b, descending) && before(b, c, descending) {
            if descending {
                lemma_lex_transitive(c, b, a);
            } else {
                lemma_lex_transitive(a, b, c);
            }
        }
    }
    assert forall|x: usize, y: usize| #[trigger] leq(x, y) || #[trigger] leq(y, x) by {
        lemma_lex_total(keys[x as int], keys[y as int]);
    }
}

/// What characterises the sorted order: it holds every position exactly
/// once, keys never decrease along it (never increase, when descending),
/// and positions with equal keys appear in ascending order.
pub proof fn lemma_stable_order(keys: Seq<Seq<char>>, descending: bool)
    requires
        keys.len() <= usize::MAX,
    ensures
        stable_order(keys, descending).len() == keys.len(),
        stable_order(keys, descending).no_duplicates(),
        forall|p: usize|
            stable_order(keys, descending).contains(p) <==> (p as int) < keys.len(),
        forall|i: int, j: int|
            #![trigger stable_order(keys, descending)[i], stable_order(keys, descending)[j]]
            0 <= i < j < keys.len() ==> {
                let x = stable_order(keys, descending)[i];
                let y = stable_order(keys, descending)[j];
                &&& !before(keys[y as int], keys[x as int], descending)
                &&& keys[x as int] == keys[y as int] ==> x < y
            },
{
    broadcast use group_to_multiset_ensures;

    let ident = positions(keys.len());
    let leq = position_leq(keys, descending);
    let order = stable_order(keys, descending);
    lemma_position_leq_total(keys, descending);
    ident.lemma_sort_by_ensures(leq);
    assert(ident.no_duplicates());
    ident.lemma_multiset_has_no_duplicates();
    order.lemma_multiset_has_no_duplicates_conv();
    assert(order.len() == order.to_multiset().len());
    assert(ident.len() == ident.to_multiset().len());
    assert forall|p: usize| order.contains(p) <==> (p as int) < keys.len() by {
        assert(order.to_multiset().count(p) == ident.to_multiset().count(p));
        if (p as int) < keys.len() {
            assert(ident[p as int] == p);
            assert(ident.contains(p));
        }
    }
    assert forall|i: int, j: int|
        #![trigger order[i], order[j]]
        0 <= i < j < keys.len() implies {
        let x = order[i];
        let y = order[j];
        &&& !before(keys[y as int], keys[x as int], descending)
        &&& keys[x as int] == keys[y as int] ==> x < y
    } by {
        let x = order[i];
        let y = order[j];
        assert(leq(x, y));
        lemma_lex_asymmetric(keys[x as int], keys[y as int]);
        lemma_lex_irreflexive(keys[x as int]);
    }
}

/// The sorted order is the only one of its kind: any arrangement of the
/// positions that is sorted by key, with equal keys in ascending position,
/// is the sorted order.
pub proof fn lemma_stable_order_unique(keys: Seq<Seq<char>>, descending: bool, order: Seq<usize>)
    requires
        order.to_multiset() == positions(keys.len()).to_multiset(),
        sorted_by(order, position_leq(keys, descending)),
    ensures
        order == stable_order(keys, descending),
{
    let leq = position_leq(keys, descending);
    lemma_position_leq_total(keys, descending);
    positions(keys.len()).lemma_sort_by_ensures(leq);
    lemma_sorted_unique(order, stable_order(keys, descending), leq);
}

fn position_le(keys: &Vec<String>, descending: bool, x: usize, y: usize) -> (b: bool)
    requires
        x < keys.len(),
        y < keys.len(),
    ensures
        b == position_leq(keys.deep_view(), descending)(x, y),
{
    let forward = str_lt(keys[x].as_str(), keys[y].as_str());
    let backward = str_lt(keys[y].as_str(), keys[x].as_str());
    proof {
        lemma_lex_total(keys[x as int]@, keys[y as int]@);
        lemma_lex_asymmetric(keys[x as int]@, keys[y as int]@);
        lemma_lex_irreflexive(keys[x as int]@);
    }
    if forward {
        !descending
    } else if backward {
        descending
    } else {
        x <= y
    }
}

/// Whether every position in `s` is a position of `keys`.
spec fn in_range(s: Seq<usize>, n: nat) -> bool {
    forall|i: int| 0 <= i < s.len() ==> (#[trigger] s[i] as int) < n
}

fn merge(keys: &Vec<String>, descending: bool, left: &Vec<usize>, right: &Vec<usize>) -> (out:
    Vec<usize>)
    requires
        in_range(left@, keys.len() as nat),
        in_range(right@, keys.len() as nat),
        sorted_by(left@, position_leq(keys.deep_view(), descending)),
        sorted_by(right@, position_leq(keys.deep_view(), descending)),
    ensures
        in_range(out@, keys.len() as nat),
        sorted_by(out@, position_leq(keys.deep_view(), descending)),
        out@.to_multiset() == left@.to_multiset().add(right@.to_multiset()),
{
    broadcast use group_to_multiset_ensures;
    broadcast use vstd::multiset::group_multiset_axioms;

    let ghost leq = position_leq(keys.deep_view(), descending);
    proof {
        lemma_position_leq_total(keys.deep_view(), descending);
    }
    let mut out: Vec<usize> = Vec::new();
    let mut i: usize = 0;
    let mut j: usize = 0;
    while i < left.len() || j < right.len()
        invariant
            i <= left.len(),
            j <= right.len(),
            leq == position_leq(keys.deep_view(), descending),
            total_ordering(leq),
            in_range(left@, keys.len() as nat),
            in_range(right@, keys.len() as nat),
            sorted_by(left@, leq),
            sorted_by(right@, leq),
            in_range(out@, keys.len() as nat),
            sorted_by(out@, leq),
            out@.to_multiset() == left@.take(i as int).to_multiset().add(
                right@.take(j as int).to_multiset(),
            ),
            forall|k: int|
                0 <= k < out.len() && i < left.len() ==> leq(#[trigger] out[k], left[i as int]),
            forall|k: int|
                0 <= k < out.len() && j < right.len() ==> leq(#[trigger] out[k], right[j as int]),
        decreases left.len() - i + right.len() - j,
    {
        let ghost prev = out@;
        let take_left = if j == right.len() {
            true
        } else if i == left.len() {
            false
        } else {
            position_le(keys, descending, left[i], right[j])
        };
        if take_left {
            let x = left[i];
            out.push(x);
            proof {
                let (a, b) = (left@.take(i as int), right@.take(j as int));
                assert(out@ == prev.push(x));
                assert(left@.take(i as int + 1) =~= a.push(x));
                to_multiset_build(prev, x);
                to_multiset_build(a, x);
                assert(a.to_multiset().insert(x).add(b.to_multiset()) =~= a.to_multiset().add(
                    b.to_multiset(),
                ).insert(x));
                assert forall|k: int| 0 <= k < out.len() && i + 1 < left.len() implies leq(
                    #[trigger] out[k],
                    left[i as int + 1],
                ) by {
                    assert(leq(x, left[i as int + 1]));
                    if k < prev.len() {
                        assert(leq(prev[k], x));
                    }
                }
            }
            i += 1;
        } else {
            let y = right[j];
            out.push(y);
            proof {
                let (a, b) = (left@.take(i as int), right@.take(j as int));
                assert(out@ == prev.push(y));
                assert(right@.take(j as int + 1) =~= b.push(y));
                to_multiset_build(prev, y);
                to_multiset_build(b, y);
                assert(a.to_multiset().add(b.to_multiset().insert(y)) =~= a.to_multiset().add(
                    b.to_multiset(),
                ).insert(y));
                if i < left.len() {
                    assert(leq(left[i as int], y) || leq(y, left[i as int]));
                }
                assert forall|k: int| 0 <= k < out.len() && j + 1 < right.len() implies leq(
                    #[trigger] out[k],
                    right[j as int + 1],
                ) by {
                    assert(leq(y, right[j as int + 1]));
                    if k < prev.len() {
                        assert(leq(prev[k], y));
                    }
                }
            }
            j += 1;
        }
    }
    assert(left@.take(i as int) =~= left@);
    assert(right@.take(j as int) =~= right@);
    out
}

fn sort_range(keys: &Vec<String>, descending: bool, items: &Vec<usize>, lo: usize, hi: usize) -> (out:
    Vec<usize>)
    requires
        lo <= hi <= items.len(),
        in_range(items@, keys.len() as nat),
    ensures
        in_range(out@, keys.len() as nat),
        sorted_by(out@, position_leq(keys.deep_view(), descending)),
        out@.to_multiset() == items@.subrange(lo as int, hi as int).to_multiset(),
    decreases hi - lo,
{
    broadcast use group_to_multiset_ensures;

    if hi - lo <= 1 {
        let mut out: Vec<usize> = Vec::new();
        if hi - lo == 1 {
            out.push(items[lo]);
        }
        assert(out@ =~= items@.subrange(lo as int, hi as int));
        out
    } else {
        let mid: usize = lo + (hi - lo) / 2;
        let left = sort_range(keys, descending, items, lo, mid);
        let right = sort_range(keys, descending, items, mid, hi);
        proof {
            let a = items@.subrange(lo as int, mid as int);
            let b = items@.subrange(mid as int, hi as int);
            assert(items@.subrange(lo as int, hi as int) =~= a + b);
            lemma_multiset_commutative(a, b);
        }
        merge(keys, descending, &left, &right)
    }
}

/// Sorts the positions of `keys` by key, ascending or descending, keeping
/// positions with equal keys in ascending order.
pub fn sorted_positions(keys: &Vec<String>, descending: bool) -> (order: Vec<usize>)
    ensures
        order@ == stable_order(keys.deep_view(), descending),
{
    let mut ident: Vec<usize> = Vec::new();
    let mut i: usize = 0;
    while i < keys.len()
        invariant
            i <= keys.len(),
            ident@ == positions(i as nat),
        decreases keys.len() - i,
    {
        ident.push(i);
        assert(ident@ =~= positions((i + 1) as nat));
        i += 1;
    }
    let order = sort_range(keys, descending, &ident, 0, ident.len());
    proof {
        assert(ident@.subrange(0, ident.len() as int) =~= ident@);
        lemma_stable_order_unique(keys.deep_view(), descending, order@);
    }
    order
}

} // verus!
