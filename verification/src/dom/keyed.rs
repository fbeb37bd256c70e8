//! The decision behind a keyed list (`v-for` with `:key`): when the list
//! changes, which old rows the new list reuses, which entries need a new row,
//! and which old rows go. Rows are kept by key, as a map from key to row, so
//! no two old rows share a key.
use vstd::prelude::*;
use crate::text::lemma_filter_take_step;

verus! {

/// What becomes of one entry of the new list.
#[derive(Clone, Copy, Debug, PartialEq, Eq)]
pub enum RowPlan {
    /// Reuse the old row at this index.
    Reuse(usize),
    /// Build a new row.
    Build,
}

/// The plan for the `i`-th new key: the old row under that key when there is
/// one and the key does not occur earlier in the new list (the earlier entry
/// took the row); otherwise a new row.
pub open spec fn plan_of(old: Seq<u64>, next: Seq<u64>, i: int) -> RowPlan {
    match old.index_of_first(next[i]) {
        Some(j) => if next.take(i).contains(next[i]) { RowPlan::Build } else { RowPlan::Reuse(j as usize) },
        None => RowPlan::Build,
    }
}

/// Keeps the old row indices whose key the new list no longer holds.
pub open spec fn gone(old: Seq<u64>, next: Seq<u64>) -> spec_fn(usize) -> bool {
    |j: usize| !next.contains(old[j as int])
}

/// The indices `0..n`.
pub open spec fn indices(n: nat) -> Seq<usize> {
    Seq::new(n, |j: int| j as usize)
}

/// The old rows the new list drops, by index, in their old order.
pub open spec fn removed_of(old: Seq<u64>, next: Seq<u64>) -> Seq<usize> {
    indices(old.len()).filter(gone(old, next))
}

/// The first index of `x` in `v`, or `None`.
fn first_index(v: &Vec<u64>, x: u64) -> (r: Option<usize>)
    ensures
        r == match v@.index_of_first(x) {
            Some(k) => Some(k as usize),
            None => None::<usize>,
        },
{
    proof { v@.index_of_first_ensures(x); }
    let mut i: usize = 0;
    while i < v.len()
        invariant
            i <= v@.len(),
            forall|j: int| 0 <= j < i ==> v@[j] != x,
        decreases v@.len() - i,
    {
        if v[i] == x {
            proof {
                v@.index_of_first_ensures(x);
                assert(v@.contains(x));
                let k = v@.index_of_first(x)->Some_0;
                if k < i { assert(v@[k] != x); }
                if i < k { assert(v@[i as int] != x); }
            }
            return Some(i);
        }
        i += 1;
    }
    proof {
        v@.index_of_first_ensures(x);
        if v@.contains(x) {
            let k = choose|k: int| 0 <= k < v@.len() && v@[k] == x;
            assert(v@[k] != x);
        }
    }
    None
}

/// Whether `x` occurs among the first `n` entries of `v`.
fn occurs_before(v: &Vec<u64>, x: u64, n: usize) -> (b: bool)
    requires
        n <= v@.len(),
    ensures
        b == v@.take(n as int).contains(x),
{
    let mut i: usize = 0;
    while i < n
        invariant
            i <= n <= v@.len(),
            forall|j: int| 0 <= j < i ==> v@[j] != x,
        decreases n - i,
    {
        if v[i] == x {
            assert(v@.take(n as int)[i as int] == x);
            return true;
        }
        i += 1;
    }
    proof {
        if v@.take(n as int).contains(x) {
            let k = choose|k: int| 0 <= k < n && v@.take(n as int)[k] == x;
            assert(v@[k] == x);
        }
    }
    false
}

/// Plan the rows of a keyed list changing from the keys `old` (one row each)
/// to the keys `next`: for each new entry, the old row it reuses or that it
/// needs a new row; and the old rows that go, in their old order.
pub fn plan_rows(old: &Vec<u64>, next: &Vec<u64>) -> (r: (Vec<RowPlan>, Vec<usize>))
    requires
        old@.no_duplicates(),
    ensures
        r.0@.len() == next@.len(),
        forall|i: int| 0 <= i < next@.len() ==> #[trigger] r.0@[i] == plan_of(old@, next@, i),
        r.1@ == removed_of(old@, next@),
{
    let mut plan: Vec<RowPlan> = Vec::new();
    let mut i: usize = 0;
    while i < next.len()
        invariant
            i <= next@.len(),
            plan@.len() == i,
            forall|k: int| 0 <= k < i ==> #[trigger] plan@[k] == plan_of(old@, next@, k),
        decreases next@.len() - i,
    {
        let x = next[i];
        let step = match first_index(old, x) {
            Some(j) => if occurs_before(next, x, i) { RowPlan::Build } else { RowPlan::Reuse(j) },
            None => RowPlan::Build,
        };
        plan.push(step);
        i += 1;
    }
    let ghost ix = indices(old@.len());
    let ghost p = gone(old@, next@);
    let mut removed: Vec<usize> = Vec::new();
    let mut j: usize = 0;
    while j < old.len()
        invariant
            j <= old@.len(),
            ix == indices(old@.len()),
            p == gone(old@, next@),
            removed@ == ix.take(j as int).filter(p),
        decreases old@.len() - j,
    {
        proof { lemma_filter_take_step(ix, j as int, p); }
        let wanted = first_index(next, old[j]);
        proof { next@.index_of_first_ensures(old@[j as int]); }
        if wanted.is_none() {
            removed.push(j);
        }
        j += 1;
    }
    assert(ix.take(old@.len() as int) =~= ix);
    (plan, removed)
}

/// Every old row is accounted for once: a row whose key the new list holds is
/// reused by exactly one entry, the first with that key, and is not dropped;
/// a row whose key it does not hold is dropped and reused by none. No new
/// entry reuses a row under another key.
pub proof fn law_keyed_rows_accounted(old: Seq<u64>, next: Seq<u64>)
    requires
        old.no_duplicates(),
        old.len() <= usize::MAX,
    ensures
        forall|j: int| 0 <= j < old.len() ==> (removed_of(old, next).contains(j as usize) <==> !next.contains(
            #[trigger] old[j],
        )),
        forall|j: int, i: int|
            0 <= j < old.len() && 0 <= i < next.len() ==> (#[trigger] plan_of(old, next, i) == RowPlan::Reuse(j as usize)
                <==> (next[i] == #[trigger] old[j] && !next.take(i).contains(old[j]))),
        forall|i: int|
            0 <= i < next.len() ==> (#[trigger] plan_of(old, next, i) matches RowPlan::Reuse(j) ==> j < old.len()
                && old[j as int] == next[i]),
{
    broadcast use vstd::seq_lib::group_filter_ensures;
    let ix = indices(old.len());
    let p = gone(old, next);
    assert forall|j: int| 0 <= j < old.len() implies (removed_of(old, next).contains(j as usize) <==> !next.contains(
        #[trigger] old[j],
    )) by {
        assert(ix[j] == j as usize);
        if !next.contains(old[j]) {
            assert(p(ix[j]));
            assert(ix.filter(p).contains(ix[j]));
        }
        if removed_of(old, next).contains(j as usize) {
            ix.lemma_filter_contains_rev(p, j as usize);
            assert(p(j as usize));
        }
    }
    assert forall|j: int, i: int| 0 <= j < old.len() && 0 <= i < next.len() implies (#[trigger] plan_of(
        old,
        next,
        i,
    ) == RowPlan::Reuse(j as usize) <==> (next[i] == #[trigger] old[j] && !next.take(i).contains(old[j]))) by {
        old.index_of_first_ensures(next[i]);
        old.index_of_first_ensures(old[j]);
        if next[i] == old[j] {
            let k = old.index_of_first(next[i])->Some_0;
            if k != j {
                assert(old[k] == old[j]);
            }
        }
    }
    assert forall|i: int| 0 <= i < next.len() implies (#[trigger] plan_of(old, next, i) matches RowPlan::Reuse(j)
        ==> j < old.len() && old[j as int] == next[i]) by {
        old.index_of_first_ensures(next[i]);
    }
}

} // verus!
