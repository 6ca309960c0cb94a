//! Sorting.

use vstd::prelude::*;

verus! {

/// Rising, equal neighbours allowed.
pub open spec fn rising(s: Seq<u64>) -> bool {
    forall|i: int, j: int| 0 <= i <= j < s.len() ==> s[i] <= s[j]
}

/// The same numbers in rising order.
pub open spec fn sorted_form(sorted: Seq<u64>, s: Seq<u64>) -> bool {
    rising(sorted) && sorted.to_multiset() == s.to_multiset()
}

/// The numbers of `values` in rising order.
pub fn sorted(values: &[u64]) -> (sorted: Vec<u64>)
    ensures
        sorted_form(sorted@, values@),
        sorted@.len() == values@.len(),
{
    let mut out: Vec<u64> = Vec::new();
    let mut i: usize = 0;
    assert(values@.take(0) =~= Seq::<u64>::empty());
    while i < values.len()
        invariant
            i <= values@.len(),
            out@.len() == i,
            rising(out@),
            out@.to_multiset() == values@.take(i as int).to_multiset(),
        decreases values.len() - i,
    {
        let v: u64 = values[i];
        let mut at: usize = 0;
        while at < out.len() && out[at] <= v
            invariant
                at <= out@.len(),
                rising(out@),
                forall|j: int| 0 <= j < at ==> out@[j] <= v,
            decreases out.len() - at,
        {
            at = at + 1;
        }
        let ghost before = out@;
        out.insert(at, v);
        proof {
            assert(out@ == before.insert(at as int, v));
            vstd::seq_lib::to_multiset_insert(before, at as int, v);
            vstd::seq_lib::to_multiset_build(values@.take(i as int), v);
            assert(values@.take(i + 1) =~= values@.take(i as int).push(v));
        }
        i = i + 1;
    }
    assert(values@.take(i as int) =~= values@);
    out
}

// --- Any rows ------------------------------------------------------------------------------

/// Something that comes before or after others.
pub trait Ranked: Sized {
    /// It may stand in front of the other.
    spec fn ranks(&self, other: &Self) -> bool;

    fn at_most(&self, other: &Self) -> (yes: bool)
        ensures
            yes == self.ranks(other),
    ;

    proof fn lemma_total(a: &Self, b: &Self)
        ensures
            a.ranks(b) || b.ranks(a),
    ;

    proof fn lemma_chain(a: &Self, b: &Self, c: &Self)
        requires
            a.ranks(b),
            b.ranks(c),
        ensures
            a.ranks(c),
    ;
}

/// The places of rows, each once, in the order of the rows.
pub open spec fn places<R: Ranked>(rows: Seq<R>, order: Seq<usize>) -> bool {
    &&& order.len() == rows.len()
    &&& order.no_duplicates()
    &&& forall|i: int| 0 <= i < order.len() ==> (#[trigger] order[i]) < rows.len()
    &&& forall|i: int, j: int|
        0 <= i < j < order.len() ==> rows[#[trigger] order[i] as int].ranks(
            &rows[#[trigger] order[j] as int],
        )
}

/// Rows in order, as the places where they are.
pub fn in_order<R: Ranked>(rows: &[R]) -> (order: Vec<usize>)
    ensures
        places(rows@, order@),
{
    let mut order: Vec<usize> = Vec::new();
    let mut n: usize = 0;
    while n < rows.len()
        invariant
            n <= rows@.len(),
            order@.len() == n,
            order@.no_duplicates(),
            forall|i: int| 0 <= i < order@.len() ==> (#[trigger] order@[i]) < n,
            forall|i: int, j: int|
                0 <= i < j < order@.len() ==> rows@[#[trigger] order@[i] as int].ranks(
                    &rows@[#[trigger] order@[j] as int],
                ),
        decreases rows.len() - n,
    {
        let mut at: usize = 0;
        while at < order.len() && rows[order[at]].at_most(&rows[n])
            invariant
                n < rows@.len(),
                at <= order@.len(),
                order@.len() == n,
                forall|i: int| 0 <= i < order@.len() ==> (#[trigger] order@[i]) < n,
                forall|i: int|
                    0 <= i < at ==> rows@[#[trigger] order@[i] as int].ranks(&rows@[n as int]),
            decreases order.len() - at,
        {
            at = at + 1;
        }
        let ghost before = order@;
        order.insert(at, n);
        proof {
            let after = order@;
            let new = rows@[n as int];
            assert forall|i: int| at <= i < before.len() implies new.ranks(
                &rows@[#[trigger] before[i] as int],
            ) by {
                R::lemma_total(&rows@[before[at as int] as int], &new);
                if i > at {
                    R::lemma_chain(
                        &new,
                        &rows@[before[at as int] as int],
                        &rows@[before[i] as int],
                    );
                }
            }
            assert forall|i: int| 0 <= i < after.len() implies #[trigger] after[i] == (if i < at {
                before[i]
            } else if i == at {
                n
            } else {
                before[i - 1]
            }) by {}
            assert forall|i: int, j: int| 0 <= i < j < after.len() implies rows@[
                #[trigger] after[i] as int
            ].ranks(&rows@[#[trigger] after[j] as int]) by {
                if i < at && j > at {
                    assert(after[i] == before[i] && after[j] == before[j - 1]);
                }
            }
            assert forall|i: int, j: int| 0 <= i < after.len() && 0 <= j < after.len() && i
                != j implies after[i] != after[j] by {
                assert(after[i] == n || after[i] < n);
                assert(after[j] == n || after[j] < n);
            }
        }
        n = n + 1;
    }
    order
}

/// Every place in an order is a row's.
pub proof fn lemma_places_within<R: Ranked>(rows: Seq<R>, order: Seq<usize>, i: int)
    requires
        places(rows, order),
        0 <= i < order.len(),
    ensures
        order.len() == rows.len(),
        0 <= order[i] < rows.len(),
{
}

/// Of two rows in an order, the first may stand in front of the second, and
/// they are not the same row.
pub proof fn lemma_places_sorted<R: Ranked>(rows: Seq<R>, order: Seq<usize>, i: int, j: int)
    requires
        places(rows, order),
        0 <= i < j < order.len(),
    ensures
        rows[order[i] as int].ranks(&rows[order[j] as int]),
        order[i] != order[j],
{
}

/// Every row has a place in an order.
pub proof fn lemma_places_all<R: Ranked>(rows: Seq<R>, order: Seq<usize>, k: int)
    requires
        places(rows, order),
        0 <= k < rows.len(),
    ensures
        exists|i: int| 0 <= i < order.len() && (#[trigger] order[i]) == k,
{
    let n = rows.len() as int;
    let at = order.map_values(|i: usize| i as int);
    assert(at.no_duplicates()) by {
        assert forall|i: int, j: int| 0 <= i < at.len() && 0 <= j < at.len() && i != j implies at[i]
            != at[j] by {
            assert(order[i] != order[j]);
        }
    }
    at.unique_seq_to_set();
    vstd::set_lib::lemma_int_range(0, n);
    let all = vstd::set_lib::set_int_range(0, n);
    assert(at.to_set().subset_of(all)) by {
        assert forall|v: int| at.to_set().contains(v) implies all.contains(v) by {
            let i = choose|i: int| 0 <= i < at.len() && at[i] == v;
            assert(order[i] < n);
        }
    }
    vstd::set_lib::lemma_subset_equality(at.to_set(), all);
    assert(at.to_set().contains(k));
    let i = choose|i: int| 0 <= i < at.len() && at[i] == k;
    assert(order[i] == k);
}

}
