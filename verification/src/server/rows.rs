//! Tables of numbered rows, as the server keeps them.

use crate::text::{
    chars_of, folded_at_most, in_front, lemma_folded_chain, lemma_folded_total,
};
use vstd::prelude::*;

verus! {

/// A row with a number of its own.
pub trait Row: Sized {
    spec fn key(&self) -> i64;

    fn id(&self) -> (id: i64)
        ensures
            id == self.key(),
    ;
}

/// Where row `id` is; -1 if there is none.
pub open spec fn at<R: Row>(rows: Seq<R>, id: i64) -> int
    decreases rows.len(),
{
    if rows.len() == 0 {
        -1
    } else if rows.last().key() == id {
        rows.len() - 1
    } else {
        at(rows.drop_last(), id)
    }
}

/// No two rows have the same number.
pub open spec fn numbered<R: Row>(rows: Seq<R>) -> bool {
    forall|i: int, j: int|
        0 <= i < j < rows.len() ==> (#[trigger] rows[i]).key() != (#[trigger] rows[j]).key()
}

pub proof fn lemma_at<R: Row>(rows: Seq<R>, id: i64)
    ensures
        -1 <= at(rows, id) < rows.len(),
        at(rows, id) >= 0 ==> rows[at(rows, id)].key() == id,
        at(rows, id) < 0 ==> forall|i: int| 0 <= i < rows.len() ==> (#[trigger] rows[i]).key() != id,
    decreases rows.len(),
{
    if rows.len() > 0 && rows.last().key() != id {
        lemma_at(rows.drop_last(), id);
        assert forall|i: int| at(rows, id) < 0 && 0 <= i < rows.len() implies (
        #[trigger] rows[i]).key() != id by {
            if i < rows.len() - 1 {
                assert(rows.drop_last()[i].key() != id);
            }
        }
    }
}

/// Rows with the same numbers in the same places are found in the same places.
pub proof fn lemma_at_same<R: Row>(rows: Seq<R>, others: Seq<R>, id: i64)
    requires
        rows.len() == others.len(),
        forall|i: int| 0 <= i < rows.len() ==> (#[trigger] rows[i]).key() == others[i].key(),
    ensures
        at(rows, id) == at(others, id),
    decreases rows.len(),
{
    if rows.len() > 0 {
        assert(rows[rows.len() - 1].key() == others[rows.len() - 1].key());
        assert forall|i: int| 0 <= i < rows.len() - 1 implies (
        #[trigger] rows.drop_last()[i]).key() == others.drop_last()[i].key() by {
            assert(rows[i].key() == others[i].key());
        }
        lemma_at_same(rows.drop_last(), others.drop_last(), id);
    }
}

/// Among numbered rows, a row is where its number is looked up.
pub proof fn lemma_at_own<R: Row>(rows: Seq<R>, i: int)
    requires
        numbered(rows),
        0 <= i < rows.len(),
    ensures
        at(rows, rows[i].key()) == i,
{
    lemma_at(rows, rows[i].key());
}

pub fn find<R: Row>(rows: &[R], id: i64) -> (found: Option<usize>)
    ensures
        match found {
            Some(i) => at(rows@, id) == i && i < rows@.len() && rows@[i as int].key() == id,
            None => at(rows@, id) < 0 && forall|i: int|
                0 <= i < rows@.len() ==> (#[trigger] rows@[i]).key() != id,
        },
{
    let mut i: usize = rows.len();
    assert(rows@.take(i as int) =~= rows@);
    while i > 0
        invariant
            i <= rows@.len(),
            at(rows@, id) == at(rows@.take(i as int), id),
        decreases i,
    {
        assert(rows@.take(i as int).drop_last() =~= rows@.take(i - 1));
        i = i - 1;
        if rows[i].id() == id {
            return Some(i);
        }
    }
    proof {
        lemma_at(rows@, id);
    }
    None
}

/// The largest number of a row; zero if there are none.
pub open spec fn top<R: Row>(rows: Seq<R>) -> i64
    decreases rows.len(),
{
    if rows.len() == 0 {
        0
    } else if rows.last().key() > top(rows.drop_last()) {
        rows.last().key()
    } else {
        top(rows.drop_last())
    }
}

proof fn lemma_top<R: Row>(rows: Seq<R>)
    ensures
        top(rows) >= 0,
        forall|i: int| 0 <= i < rows.len() ==> (#[trigger] rows[i]).key() <= top(rows),
    decreases rows.len(),
{
    if rows.len() > 0 {
        lemma_top(rows.drop_last());
        assert forall|i: int| 0 <= i < rows.len() implies (#[trigger] rows[i]).key() <= top(
            rows,
        ) by {
            if i < rows.len() - 1 {
                assert(rows.drop_last()[i].key() <= top(rows.drop_last()));
            }
        }
    }
}

/// The number for the next row: one above all of them, while there is one.
pub open spec fn next_id<R: Row>(rows: Seq<R>) -> Option<i64> {
    if top(rows) < i64::MAX {
        Some((top(rows) + 1) as i64)
    } else {
        None
    }
}

/// That number is above every row's.
pub proof fn lemma_next_is_above<R: Row>(rows: Seq<R>)
    ensures
        next_id(rows) matches Some(id) ==> forall|i: int|
            0 <= i < rows.len() ==> (#[trigger] rows[i]).key() < id,
{
    lemma_top(rows);
}

pub fn fresh_id<R: Row>(rows: &[R]) -> (id: Option<i64>)
    ensures
        id == next_id(rows@),
        id matches Some(id) ==> forall|i: int|
            0 <= i < rows@.len() ==> (#[trigger] rows@[i]).key() < id,
{
    let mut most: i64 = 0;
    let mut i: usize = 0;
    while i < rows.len()
        invariant
            i <= rows@.len(),
            most == top(rows@.take(i as int)),
        decreases rows.len() - i,
    {
        assert(rows@.take(i + 1).drop_last() =~= rows@.take(i as int));
        let id: i64 = rows[i].id();
        if id > most {
            most = id;
        }
        i = i + 1;
    }
    assert(rows@.take(i as int) =~= rows@);
    proof {
        lemma_top(rows@);
    }
    if most < i64::MAX {
        Some(most + 1)
    } else {
        None
    }
}

/// A row with a fresh number leaves a table numbered.
pub proof fn lemma_numbered_push<R: Row>(rows: Seq<R>, row: R)
    requires
        numbered(rows),
        forall|i: int| 0 <= i < rows.len() ==> (#[trigger] rows[i]).key() < row.key(),
    ensures
        numbered(rows.push(row)),
{
}

/// The rows that are kept, in order.
pub(crate) fn keep<T, F: Fn(&T) -> bool>(
    rows: Vec<T>,
    wanted: F,
    Ghost(which): Ghost<spec_fn(T) -> bool>,
) -> (kept: Vec<T>)
    requires
        forall|row: &T| call_requires(wanted, (row,)),
        forall|row: &T, yes: bool| call_ensures(wanted, (row,), yes) ==> yes == which(*row),
    ensures
        kept@ == rows@.filter(which),
{
    let ghost all = rows@;
    let mut rows = rows;
    let mut back: Vec<T> = Vec::new();
    assert(all =~= rows@ + back@.reverse());
    while rows.len() > 0
        invariant
            all == rows@ + back@.reverse(),
        decreases rows.len(),
    {
        let ghost before = rows@;
        let ghost behind = back@;
        match rows.pop() {
            Some(row) => {
                back.push(row);
                assert(back@.reverse() =~= seq![row] + behind.reverse());
                assert(before =~= rows@ + seq![row]);
                assert(all =~= rows@ + back@.reverse());
            },
            None => {},
        }
    }
    let mut kept: Vec<T> = Vec::new();
    let ghost mut done: int = 0;
    assert(all =~= back@.reverse());
    assert(all.take(0).filter(which) =~= Seq::<T>::empty()) by {
        reveal(Seq::filter);
    }
    while back.len() > 0
        invariant
            0 <= done <= all.len(),
            back@.len() == all.len() - done,
            back@.reverse() == all.skip(done),
            kept@ == all.take(done).filter(which),
            forall|row: &T| call_requires(wanted, (row,)),
            forall|row: &T, yes: bool| call_ensures(wanted, (row,), yes) ==> yes == which(*row),
        decreases back.len(),
    {
        let ghost behind = back@;
        match back.pop() {
            Some(row) => {
                proof {
                    assert(row == behind.reverse()[0]);
                    assert(all.skip(done)[0] == all[done]);
                    assert(back@.reverse() =~= behind.reverse().skip(1));
                    assert(all.skip(done).skip(1) =~= all.skip(done + 1));
                    assert(all.take(done + 1).drop_last() =~= all.take(done));
                    reveal(Seq::filter);
                    done = done + 1;
                }
                if wanted(&row) {
                    kept.push(row);
                }
            },
            None => {},
        }
    }
    assert(all.take(done) =~= all);
    kept
}

/// What is kept was there, and is wanted.
pub proof fn lemma_kept<T>(rows: Seq<T>, which: spec_fn(T) -> bool)
    ensures
        forall|i: int|
            0 <= i < rows.filter(which).len() ==> which(#[trigger] rows.filter(which)[i])
                && rows.contains(rows.filter(which)[i]),
        forall|i: int|
            0 <= i < rows.len() && which(#[trigger] rows[i]) ==> rows.filter(which).contains(
                rows[i],
            ),
        rows.filter(which).len() <= rows.len(),
{
    rows.lemma_filter_len(which);
    assert forall|i: int| 0 <= i < rows.filter(which).len() implies which(
        #[trigger] rows.filter(which)[i],
    ) && rows.contains(rows.filter(which)[i]) by {
        rows.lemma_filter_pred(which, i);
        lemma_kept_within(rows, which, i);
    }
    assert forall|i: int| 0 <= i < rows.len() && which(#[trigger] rows[i]) implies rows.filter(
        which,
    ).contains(rows[i]) by {
        rows.lemma_filter_contains(which, i);
    }
}

/// What is kept of rows is what was there and is wanted.
pub proof fn lemma_left<T>(rows: Seq<T>, which: spec_fn(T) -> bool, row: T)
    ensures
        rows.filter(which).contains(row) <==> rows.contains(row) && which(row),
{
    lemma_kept(rows, which);
    if rows.contains(row) && which(row) {
        let i = choose|i: int| 0 <= i < rows.len() && rows[i] == row;
        assert(which(rows[i]));
    }
    if rows.filter(which).contains(row) {
        let i = choose|i: int| 0 <= i < rows.filter(which).len() && rows.filter(which)[i] == row;
        assert(which(rows.filter(which)[i]));
    }
}

proof fn lemma_kept_within<T>(rows: Seq<T>, which: spec_fn(T) -> bool, i: int)
    requires
        0 <= i < rows.filter(which).len(),
    ensures
        rows.contains(rows.filter(which)[i]),
    decreases rows.len(),
{
    reveal(Seq::filter);
    if rows.len() > 0 {
        let less = rows.drop_last();
        if i < less.filter(which).len() {
            lemma_kept_within(less, which, i);
            let j = choose|j: int| 0 <= j < less.len() && less[j] == less.filter(which)[i];
            assert(rows[j] == less.filter(which)[i]);
        } else {
            assert(rows[rows.len() - 1] == rows.filter(which)[i]);
        }
    }
}

/// Keeping some rows leaves a table numbered.
pub proof fn lemma_numbered_kept<R: Row>(rows: Seq<R>, which: spec_fn(R) -> bool)
    requires
        numbered(rows),
    ensures
        numbered(rows.filter(which)),
    decreases rows.len(),
{
    reveal(Seq::filter);
    if rows.len() > 0 {
        let less = rows.drop_last();
        assert forall|i: int, j: int| 0 <= i < j < less.len() implies (#[trigger] less[i]).key()
            != (#[trigger] less[j]).key() by {
            assert(rows[i] == less[i] && rows[j] == less[j]);
        }
        lemma_numbered_kept(less, which);
        if which(rows.last()) {
            let held = less.filter(which);
            assert forall|i: int| 0 <= i < held.len() implies (#[trigger] held[i]).key()
                != rows.last().key() by {
                lemma_kept_within(less, which, i);
                let j = choose|j: int| 0 <= j < less.len() && less[j] == held[i];
                assert(rows[j].key() != rows[rows.len() - 1].key());
            }
        }
    }
}

/// Rows are kept whole just when every one of them is wanted.
pub proof fn lemma_all_or_fewer<T>(rows: Seq<T>, which: spec_fn(T) -> bool)
    ensures
        rows.filter(which).len() == rows.len() <==> forall|i: int|
            0 <= i < rows.len() ==> which(#[trigger] rows[i]),
        rows.filter(which).len() == rows.len() ==> rows.filter(which) == rows,
    decreases rows.len(),
{
    reveal(Seq::filter);
    if rows.len() > 0 {
        let less = rows.drop_last();
        lemma_all_or_fewer(less, which);
        less.lemma_filter_len(which);
        assert(forall|i: int| 0 <= i < less.len() ==> less[i] == #[trigger] rows[i]);
        if forall|i: int| 0 <= i < rows.len() ==> which(#[trigger] rows[i]) {
            assert forall|i: int| 0 <= i < less.len() implies which(#[trigger] less[i]) by {
                assert(which(rows[i]));
            }
            assert(which(rows[rows.len() - 1]));
        }
        if rows.filter(which).len() == rows.len() {
            assert forall|i: int| 0 <= i < rows.len() implies which(#[trigger] rows[i]) by {
                if i < less.len() {
                    assert(which(less[i]));
                }
            }
            assert(rows.filter(which) =~= rows);
        }
    } else {
        assert(rows.filter(which) =~= rows);
    }
}

// --- Listing by name -------------------------------------------------------------------------

/// Rows are listed by name, whatever its case, and by number where the names
/// are the same.
pub open spec fn listed_first(a: Seq<char>, i: i64, b: Seq<char>, j: i64) -> bool {
    if !folded_at_most(b, a) {
        true
    } else if !folded_at_most(a, b) {
        false
    } else {
        i <= j
    }
}

pub fn lists_first(a: &str, i: i64, b: &str, j: i64) -> (yes: bool)
    ensures
        yes == listed_first(a@, i, b@, j),
{
    let x = chars_of(a);
    let y = chars_of(b);
    if !in_front(&y, &x) {
        true
    } else if !in_front(&x, &y) {
        false
    } else {
        i <= j
    }
}

pub proof fn lemma_listed_total(a: Seq<char>, i: i64, b: Seq<char>, j: i64)
    ensures
        listed_first(a, i, b, j) || listed_first(b, j, a, i),
{
    lemma_folded_total(a, b);
}

pub proof fn lemma_listed_chain(
    a: Seq<char>,
    i: i64,
    b: Seq<char>,
    j: i64,
    c: Seq<char>,
    k: i64,
)
    requires
        listed_first(a, i, b, j),
        listed_first(b, j, c, k),
    ensures
        listed_first(a, i, c, k),
{
    lemma_folded_total(a, b);
    lemma_folded_total(b, c);
    lemma_folded_chain(a, b, c);
    if folded_at_most(c, a) {
        lemma_folded_chain(c, a, b);
        lemma_folded_chain(b, c, a);
    }
}

/// Lists go by the first characters in which two names differ, whatever the case
/// of their letters; of two things with one name the older, with the smaller
/// number, comes first.
pub proof fn lemma_lists_go_by_name_then_number(
    a: Seq<char>,
    i: i64,
    b: Seq<char>,
    j: i64,
    k: int,
)
    requires
        0 <= k <= a.len() && k <= b.len(),
        forall|n: int|
            0 <= n < k ==> crate::text::ascii_lower(#[trigger] a[n]) == crate::text::ascii_lower(
                b[n],
            ),
    ensures
        k < a.len() && k < b.len() && crate::text::ascii_lower(a[k]) < crate::text::ascii_lower(
            b[k],
        ) ==> listed_first(a, i, b, j) && !listed_first(b, j, a, i),
        k == a.len() && k < b.len() ==> listed_first(a, i, b, j) && !listed_first(b, j, a, i),
        k == a.len() && k == b.len() ==> (listed_first(a, i, b, j) <==> i <= j),
{
    crate::text::lemma_folded_order(a, b, k);
    assert forall|n: int| 0 <= n < k implies crate::text::ascii_lower(#[trigger] b[n])
        == crate::text::ascii_lower(a[n]) by {
        assert(crate::text::ascii_lower(a[n]) == crate::text::ascii_lower(b[n]));
    }
    crate::text::lemma_folded_order(b, a, k);
}

}
