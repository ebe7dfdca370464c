//! Sorting that keeps the order of what ranks alike.

use crate::state;
use std::sync::Arc;
use vstd::prelude::*;

verus! {

/// A ranking of values: total and transitive, and two values may rank alike.
pub trait Order: Sized {
    /// Whether this value ranks before the other one, or alike.
    spec fn not_after(self, other: Self) -> bool;

    proof fn lemma_total(a: Self, b: Self)
        ensures
            a.not_after(b) || b.not_after(a),
    ;

    proof fn lemma_transitive(a: Self, b: Self, c: Self)
        requires
            a.not_after(b),
            b.not_after(c),
        ensures
            a.not_after(c),
    ;
}

/// A type whose values are ranked by what they stand for.
pub trait Ranked: View + Sized where Self::V: Order {
    /// Whether this value ranks before the other one, or alike.
    fn is_not_after(&self, other: &Self) -> (r: bool)
        ensures
            r == self@.not_after(other@),
    ;
}

impl<T: Ranked> Ranked for Arc<T> where T::V: Order {
    fn is_not_after(&self, other: &Self) -> (r: bool) {
        (**self).is_not_after(&**other)
    }
}

/// Whether the value at place `a` comes before the one at place `b` once the values are sorted:
/// it ranks before it, or it ranks alike and stood before it.
pub open spec fn precedes<V: Order>(input: Seq<V>, a: int, b: int) -> bool {
    &&& input[a].not_after(input[b])
    &&& input[b].not_after(input[a]) ==> a < b
}

/// `places` lists distinct places of `input`, from `low` on, in sorted order.
pub open spec fn in_order<V: Order>(input: Seq<V>, places: Seq<int>, low: int) -> bool {
    &&& forall|i: int| 0 <= i < places.len() ==> low <= #[trigger] places[i] < input.len()
    &&& forall|i: int, j: int|
        0 <= i < j < places.len() ==> precedes(input, #[trigger] places[i], #[trigger] places[j])
}

/// The values at the places listed.
pub open spec fn gathered<V>(input: Seq<V>, places: Seq<int>) -> Seq<V> {
    places.map_values(|p: int| input[p])
}

/// `output` holds the values of `input`, each once, sorted, those that rank alike in the order
/// in which they stood.
pub open spec fn stable_sort<V: Order>(input: Seq<V>, output: Seq<V>) -> bool {
    exists|places: Seq<int>|
        {
            &&& places.len() == input.len()
            &&& #[trigger] in_order(input, places, 0)
            &&& output == gathered(input, places)
        }
}

/// Sorts the items, those that rank alike keeping their order.
pub fn sort<T: Ranked>(items: Vec<T>) -> (r: Vec<T>) where T::V: Order
    ensures
        stable_sort(state::views(items@), state::views(r@)),
{
    let ghost input = state::views(items@);
    let mut rest = items;
    let mut out: Vec<T> = Vec::new();
    let ghost mut places: Seq<int> = Seq::empty();
    proof {
        assert(state::views(out@) =~= gathered(input, places));
        assert(rest@ =~= items@.take(rest@.len() as int));
    }
    while rest.len() > 0
        invariant
            input == state::views(items@),
            rest@.len() <= items@.len(),
            rest@ == items@.take(rest@.len() as int),
            places.len() == items@.len() - rest@.len(),
            in_order(input, places, rest@.len() as int),
            state::views(out@) == gathered(input, places),
        decreases rest@.len(),
    {
        match rest.pop() {
            Some(item) => {
                let ghost at = rest@.len() as int;
                proof {
                    assert(item@ == input[at]);
                    assert(rest@ =~= items@.take(at));
                }
                let mut k: usize = 0;
                while k < out.len() && !item.is_not_after(&out[k])
                    invariant
                        k <= out@.len(),
                        forall|i: int| 0 <= i < k ==> !item@.not_after(#[trigger] out@[i]@),
                    decreases out@.len() - k,
                {
                    k = k + 1;
                }
                proof {
                    assert(state::views(out@).len() == places.len());
                    let next = places.insert(k as int, at);
                    assert forall|i: int| 0 <= i < places.len() implies state::views(out@)[i]
                        == input[#[trigger] places[i]] && out@[i]@ == input[places[i]] by {
                        assert(gathered(input, places)[i] == input[places[i]]);
                    }
                    assert forall|i: int, j: int| 0 <= i < j < next.len() implies precedes(
                        input,
                        #[trigger] next[i],
                        #[trigger] next[j],
                    ) by {
                        if i < k && j == k {
                            assert(!item@.not_after(out@[i]@));
                            <T::V as Order>::lemma_total(input[places[i]], item@);
                        } else if i == k {
                            assert(next[j] == places[j - 1]);
                            if j - 1 > k {
                                assert(precedes(input, places[k as int], places[j - 1]));
                                <T::V as Order>::lemma_transitive(
                                    item@,
                                    input[places[k as int]],
                                    input[places[j - 1]],
                                );
                            }
                        } else {
                            let a = if i < k { i } else { i - 1 };
                            let b = if j < k { j } else { j - 1 };
                            assert(precedes(input, places[a], places[b]));
                        }
                    }
                    assert(state::views(out@.insert(k as int, item)) =~= gathered(input, next));
                    places = next;
                }
                out.insert(k, item);
            },
            None => {},
        }
    }
    proof {
        assert(in_order(input, places, 0));
    }
    out
}

/// As many distinct places as there are values are all the places.
proof fn lemma_every_place_is_listed<V: Order>(input: Seq<V>, places: Seq<int>, p: int)
    requires
        places.len() == input.len(),
        in_order(input, places, 0),
        0 <= p < input.len(),
    ensures
        exists|i: int| 0 <= i < places.len() && #[trigger] places[i] == p,
{
    assert forall|i: int, j: int| 0 <= i < places.len() && 0 <= j < places.len() && i
        != j implies places[i] != places[j] by {
        if i < j {
            assert(precedes(input, places[i], places[j]));
        } else {
            assert(precedes(input, places[j], places[i]));
        }
    }
    let all = vstd::set_lib::set_int_range(0, input.len() as int);
    places.unique_seq_to_set();
    vstd::set_lib::lemma_int_range(0, input.len() as int);
    assert(places.to_set().subset_of(all)) by {
        assert forall|q: int| places.to_set().contains(q) implies all.contains(q) by {
            let i = choose|i: int| 0 <= i < places.len() && places[i] == q;
            assert(0 <= places[i] < input.len());
        }
    }
    vstd::set_lib::lemma_subset_equality(places.to_set(), all);
    assert(places.to_set().contains(p));
}

proof fn lemma_same_places<V: Order>(input: Seq<V>, a: Seq<int>, b: Seq<int>, i: int)
    requires
        a.len() == input.len(),
        b.len() == input.len(),
        in_order(input, a, 0),
        in_order(input, b, 0),
        0 <= i < input.len(),
    ensures
        a[i] == b[i],
    decreases i,
{
    assert forall|h: int| 0 <= h < i implies a[h] == b[h] by {
        lemma_same_places(input, a, b, h);
    }
    lemma_every_place_is_listed(input, b, a[i]);
    let j = choose|j: int| 0 <= j < b.len() && #[trigger] b[j] == a[i];
    lemma_every_place_is_listed(input, a, b[i]);
    let k = choose|k: int| 0 <= k < a.len() && #[trigger] a[k] == b[i];
    if j < i {
        assert(a[j] == b[j]);
        assert(precedes(input, a[j], a[i]));
    }
    if k < i {
        assert(a[k] == b[k]);
        assert(precedes(input, b[k], b[i]));
    }
    if a[i] != b[i] {
        assert(precedes(input, b[i], b[j]));
        assert(precedes(input, a[i], a[k]));
    }
}

/// There is one stable sort of a sequence: any two results are the same.
pub proof fn law_stable_sort_is_unique<V: Order>(input: Seq<V>, a: Seq<V>, b: Seq<V>)
    requires
        stable_sort(input, a),
        stable_sort(input, b),
    ensures
        a == b,
{
    let pa = choose|places: Seq<int>|
        {
            &&& places.len() == input.len()
            &&& #[trigger] in_order(input, places, 0)
            &&& a == gathered(input, places)
        };
    let pb = choose|places: Seq<int>|
        {
            &&& places.len() == input.len()
            &&& #[trigger] in_order(input, places, 0)
            &&& b == gathered(input, places)
        };
    assert forall|i: int| 0 <= i < a.len() implies a[i] == b[i] by {
        lemma_same_places(input, pa, pb, i);
    }
    assert(a =~= b);
}

/// Sorting loses nothing and adds nothing, and leaves every value at or before those that it
/// ranks before.
pub proof fn law_stable_sort_rearranges<V: Order>(input: Seq<V>, output: Seq<V>)
    requires
        stable_sort(input, output),
    ensures
        output.len() == input.len(),
        forall|v: V| input.contains(v) <==> output.contains(v),
        forall|i: int, j: int|
            0 <= i < j < output.len() ==> (#[trigger] output[i]).not_after(#[trigger] output[j]),
{
    let places = choose|places: Seq<int>|
        {
            &&& places.len() == input.len()
            &&& #[trigger] in_order(input, places, 0)
            &&& output == gathered(input, places)
        };
    assert forall|v: V| input.contains(v) implies output.contains(v) by {
        let p = choose|p: int| 0 <= p < input.len() && input[p] == v;
        lemma_every_place_is_listed(input, places, p);
        let i = choose|i: int| 0 <= i < places.len() && #[trigger] places[i] == p;
        assert(output[i] == v);
    }
    assert forall|v: V| output.contains(v) implies input.contains(v) by {
        let i = choose|i: int| 0 <= i < output.len() && output[i] == v;
        assert(input[places[i]] == v);
    }
    assert forall|i: int, j: int| 0 <= i < j < output.len() implies (
    #[trigger] output[i]).not_after(#[trigger] output[j]) by {
        assert(precedes(input, places[i], places[j]));
    }
}

/// Of two values in sorted order that rank alike, the first stood first.
pub proof fn law_alike_keep_their_order<V: Order>(input: Seq<V>, output: Seq<V>, i: int, j: int)
    requires
        stable_sort(input, output),
        0 <= i < j < output.len(),
        output[j].not_after(output[i]),
    ensures
        exists|a: int, b: int|
            0 <= a < b < input.len() && #[trigger] input[a] == output[i] && #[trigger] input[b]
                == output[j],
{
    let places = choose|places: Seq<int>|
        {
            &&& places.len() == input.len()
            &&& #[trigger] in_order(input, places, 0)
            &&& output == gathered(input, places)
        };
    assert(precedes(input, places[i], places[j]));
    assert(input[places[i]] == output[i] && input[places[j]] == output[j]);
}

/// Sorting changes nothing where the values stand in order already.
pub proof fn law_sorted_stays<V: Order>(input: Seq<V>, output: Seq<V>)
    requires
        forall|i: int, j: int|
            0 <= i < j < input.len() ==> (#[trigger] input[i]).not_after(#[trigger] input[j]),
        stable_sort(input, output),
    ensures
        output == input,
{
    let places = Seq::new(input.len(), |i: int| i);
    assert(in_order(input, places, 0));
    assert(input =~= gathered(input, places));
    law_stable_sort_is_unique(input, input, output);
}

/// A last value that none of the others ranks after is last when they are sorted, too.
pub proof fn law_lowest_stays_last<V: Order>(input: Seq<V>, output: Seq<V>)
    requires
        input.len() > 0,
        forall|i: int| 0 <= i < input.len() ==> (#[trigger] input[i]).not_after(input.last()),
        stable_sort(input, output),
    ensures
        output.len() == input.len(),
        output.last() == input.last(),
{
    let places = choose|places: Seq<int>|
        {
            &&& places.len() == input.len()
            &&& #[trigger] in_order(input, places, 0)
            &&& output == gathered(input, places)
        };
    let n = input.len() as int;
    lemma_every_place_is_listed(input, places, n - 1);
    let i = choose|i: int| 0 <= i < places.len() && #[trigger] places[i] == n - 1;
    if i < n - 1 {
        assert(precedes(input, places[i], places[n - 1]));
    }
}

/// Sorting puts every value in one place and leaves none out: the values come out in the order of
/// their ranks, and where two rank alike, in the order in which they went in.
pub proof fn law_sorting_moves_each_value_once<V: Order>(input: Seq<V>, output: Seq<V>)
    requires
        stable_sort(input, output),
    ensures
        exists|places: Seq<int>|
            {
                &&& places.len() == input.len()
                &&& output.len() == input.len()
                &&& #[trigger] places.no_duplicates()
                &&& forall|i: int|
                    0 <= i < places.len() ==> 0 <= #[trigger] places[i] < input.len() && output[i]
                        == input[places[i]]
                &&& forall|p: int| 0 <= p < input.len() ==> places.contains(p)
                &&& forall|i: int, j: int|
                    0 <= i < j < places.len() ==> input[#[trigger] places[i]].not_after(
                        input[#[trigger] places[j]],
                    )
                &&& forall|i: int, j: int|
                    0 <= i < j < places.len() && input[places[j]].not_after(input[places[i]])
                        ==> #[trigger] places[i] < #[trigger] places[j]
            },
{
    let places = choose|places: Seq<int>|
        {
            &&& places.len() == input.len()
            &&& #[trigger] in_order(input, places, 0)
            &&& output == gathered(input, places)
        };
    assert forall|i: int, j: int| 0 <= i < j < places.len() implies precedes(
        input,
        #[trigger] places[i],
        #[trigger] places[j],
    ) && places[i] != places[j] by {
        assert(precedes(input, places[i], places[j]));
    }
    assert forall|p: int| 0 <= p < input.len() implies places.contains(p) by {
        lemma_every_place_is_listed(input, places, p);
        let i = choose|i: int| 0 <= i < places.len() && #[trigger] places[i] == p;
        assert(places[i] == p);
    }
    assert forall|i: int| 0 <= i < places.len() implies 0 <= #[trigger] places[i] < input.len()
        && output[i] == input[places[i]] by {
        assert(gathered(input, places)[i] == input[places[i]]);
    }
    assert(places.no_duplicates());
}

} // verus!
