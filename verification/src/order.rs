//! Stable ordering of a list by a ranking of its items.

use vstd::prelude::*;

verus! {

/// Items with a ranking: some come before others, and items neither of
/// which comes before the other are tied.
pub trait Ranked: Sized {
    /// Whether `self` is ranked strictly ahead of `other`.
    spec fn precedes(&self, other: &Self) -> bool;

    /// The ranking is a strict weak order.
    proof fn ranking_is_consistent(a: &Self, b: &Self, c: &Self)
        ensures
            a.precedes(b) ==> !b.precedes(a),
            !a.precedes(b) && !b.precedes(c) ==> !a.precedes(c),
    ;

    /// Whether `self` is ranked strictly ahead of `other`.
    fn comes_before(&self, other: &Self) -> (r: bool)
        ensures
            r == self.precedes(other),
    ;
}

/// Whether `places` lists every position of `items` once, best ranked
/// first, tied items in the order they came.
pub open spec fn is_ranking<T: Ranked>(items: Seq<T>, places: Seq<int>) -> bool {
    &&& places.len() == items.len()
    &&& places.no_duplicates()
    &&& forall|i: int| 0 <= i < places.len() ==> 0 <= #[trigger] places[i] < items.len()
    &&& forall|i: int, j: int|
        0 <= i < j < places.len() ==> in_order(items, #[trigger] places[i], #[trigger] places[j])
}

/// Whether the item at `x` may stand somewhere ahead of the item at `y`.
pub open spec fn in_order<T: Ranked>(items: Seq<T>, x: int, y: int) -> bool {
    !items[y].precedes(&items[x]) && (!items[x].precedes(&items[y]) ==> x < y)
}

/// The items listed in the order of `places`.
pub open spec fn listed<T>(items: Seq<T>, places: Seq<int>) -> Seq<T> {
    places.map_values(|i: int| items[i])
}

/// Whether `new` is `old` in ranking order.
pub open spec fn sorted_from<T: Ranked>(old: Seq<T>, new: Seq<T>) -> bool {
    exists|places: Seq<int>| #[trigger] is_ranking(old, places) && new == listed(old, places)
}

/// Order a list by its ranking, keeping tied items in the order they came.
pub fn sort<T: Ranked>(v: &mut Vec<T>)
    ensures
        sorted_from(old(v)@, final(v)@),
{
    let ghost start = v@;
    let ghost mut places: Seq<int> = Seq::empty();
    let n: usize = v.len();
    let mut i: usize = 0;
    assert(start.skip(0) =~= start);
    assert(listed(start, places) + start.skip(0) =~= start);
    while i < n
        invariant
            n == start.len(),
            i <= n,
            v@ == listed(start, places) + start.skip(i as int),
            is_ranking(start.take(i as int), places),
        decreases n - i,
    {
        let ghost done = start.take(i as int);
        let ghost sorted = listed(start, places);
        assert(v@[i as int] == start[i as int]);
        let mut at: usize = i;
        while at > 0 && v[i].comes_before(&v[at - 1])
            invariant
                n == start.len(),
                at <= i < n,
                done == start.take(i as int),
                sorted == listed(start, places),
                v@ == sorted + start.skip(i as int),
                is_ranking(done, places),
                v@[i as int] == start[i as int],
                forall|j: int| at <= j < i ==> start[i as int].precedes(&start[#[trigger] places[j]]),
            decreases at,
        {
            assert(v@[at - 1] == start[places[at - 1]]);
            at -= 1;
        }
        proof {
            let new = start[i as int];
            assert forall|j: int| 0 <= j < at implies !new.precedes(&start[#[trigger] places[j]]) by {
                assert(v@[at - 1] == start[places[at - 1]]);
                let last = start[places[at - 1]];
                if j < at - 1 {
                    assert(in_order(done, places[j], places[at - 1]));
                    T::ranking_is_consistent(&new, &last, &start[places[j]]);
                }
            }
        }
        let moved = v.remove(i);
        v.insert(at, moved);
        proof {
            let next = start.take(i + 1);
            let more = places.insert(at as int, i as int);
            assert forall|a: int| 0 <= a < more.len() implies 0 <= #[trigger] more[a] < next.len() by {
                if a < at {
                    assert(more[a] == places[a]);
                } else if a > at {
                    assert(more[a] == places[a - 1]);
                }
            }
            assert(more.no_duplicates()) by {
                assert forall|a: int, b: int| 0 <= a < more.len() && 0 <= b < more.len() && a != b implies more[a] != more[b] by {
                    let pa = if a < at { a } else { a - 1 };
                    let pb = if b < at { b } else { b - 1 };
                    if a != at {
                        assert(more[a] == places[pa]);
                    }
                    if b != at {
                        assert(more[b] == places[pb]);
                    }
                }
            }
            assert forall|a: int, b: int| 0 <= a < b < more.len() implies in_order(
                next,
                #[trigger] more[a],
                #[trigger] more[b],
            ) by {
                let pa = if a < at { a } else { a - 1 };
                let pb = if b < at { b } else { b - 1 };
                if a != at && b != at {
                    assert(more[a] == places[pa]);
                    assert(more[b] == places[pb]);
                    assert(in_order(done, places[pa], places[pb]));
                } else if a == at {
                    assert(more[b] == places[pb]);
                    T::ranking_is_consistent(
                        &start[i as int],
                        &start[places[pb]],
                        &start[i as int],
                    );
                } else {
                    assert(more[a] == places[pa]);
                }
            }
            assert(v@ =~= listed(start, more) + start.skip(i + 1)) by {
                assert(listed(start, more) =~= sorted.insert(at as int, start[i as int]));
            }
            places = more;
        }
        i += 1;
    }
    assert(start.take(n as int) =~= start);
    assert(v@ =~= listed(start, places));
}

/// Whether the item at `k` is ranked first: no other is ahead of it, and it
/// came before those it is tied with.
pub open spec fn is_first<T: Ranked>(items: Seq<T>, k: int) -> bool {
    &&& 0 <= k < items.len()
    &&& forall|j: int| 0 <= j < items.len() && j != k ==> #[trigger] in_order(items, k, j)
}

/// Where the first-ranked item stands.
pub fn first<T: Ranked>(items: &[T]) -> (r: usize)
    requires
        items.len() > 0,
    ensures
        is_first(items@, r as int),
{
    let mut best: usize = 0;
    let mut i: usize = 1;
    while i < items.len()
        invariant
            best < i <= items.len(),
            forall|j: int| 0 <= j < i && j != best ==> #[trigger] in_order(items@, best as int, j),
        decreases items.len() - i,
    {
        if items[i].comes_before(&items[best]) {
            proof {
                let new = items@[i as int];
                let old_best = items@[best as int];
                assert forall|j: int| 0 <= j < i implies #[trigger] in_order(items@, i as int, j) by {
                    T::ranking_is_consistent(&new, &old_best, &new);
                    if j != best {
                        assert(in_order(items@, best as int, j));
                        // Were `j` not behind `new`, the old best would not be either.
                        T::ranking_is_consistent(&new, &items@[j], &old_best);
                        T::ranking_is_consistent(&items@[j], &new, &items@[j]);
                    }
                }
            }
            best = i;
        }
        i += 1;
    }
    best
}

/// A ranking order neither loses nor invents items.
pub proof fn sorting_keeps_every_item<T: Ranked>(old: Seq<T>, new: Seq<T>)
    requires
        sorted_from(old, new),
    ensures
        new.len() == old.len(),
        forall|i: int| 0 <= i < old.len() ==> new.contains(#[trigger] old[i]),
        forall|i: int| 0 <= i < new.len() ==> old.contains(#[trigger] new[i]),
{
    let places = choose|places: Seq<int>| #[trigger]
        is_ranking(old, places) && new == listed(old, places);
    assert forall|i: int| 0 <= i < old.len() implies new.contains(#[trigger] old[i]) by {
        lemma_every_place_is_taken(places, old.len() as int, i);
        let j = choose|j: int| 0 <= j < places.len() && places[j] == i;
        assert(new[j] == old[i]);
    }
    assert forall|i: int| 0 <= i < new.len() implies old.contains(#[trigger] new[i]) by {
        assert(new[i] == old[places[i]]);
    }
}

/// `n` different positions below `n` leave none out.
proof fn lemma_every_place_is_taken(places: Seq<int>, n: int, i: int)
    requires
        places.len() == n,
        places.no_duplicates(),
        forall|j: int| 0 <= j < n ==> 0 <= #[trigger] places[j] < n,
        0 <= i < n,
    ensures
        exists|j: int| 0 <= j < n && places[j] == i,
{
    let all = vstd::set_lib::set_int_range(0, n);
    vstd::set_lib::lemma_int_range(0, n);
    places.unique_seq_to_set();
    assert(places.to_set().subset_of(all));
    vstd::set_lib::lemma_subset_equality(places.to_set(), all);
    assert(places.to_set().contains(i));
}

} // verus!
