//! How often rows are present, over many updates.
use crate::json::JsonView;
use crate::selection::select;
use crate::state_update::Diff;
use vstd::prelude::*;

verus! {

/// How often a row is present in all, over every update that speaks of it.
pub open spec fn total(updates: Seq<(JsonView, Diff)>, row: JsonView) -> int
    decreases updates.len(),
{
    if updates.len() == 0 {
        0
    } else if updates.last().0 == row {
        total(updates.drop_last(), row) + updates.last().1
    } else {
        total(updates.drop_last(), row)
    }
}

/// How many updates change a row by `diff`.
pub open spec fn changes_by(updates: Seq<(JsonView, Diff)>, diff: Diff) -> nat
    decreases updates.len(),
{
    if updates.len() == 0 {
        0
    } else if updates.last().1 == diff {
        changes_by(updates.drop_last(), diff) + 1
    } else {
        changes_by(updates.drop_last(), diff)
    }
}

/// No two rows of the snapshot are stored alike.
pub open spec fn consolidated(rows: Seq<(JsonView, Diff)>) -> bool {
    forall|i: int, j: int|
        0 <= i < j < rows.len() ==> (#[trigger] rows[i]).0 != (#[trigger] rows[j]).0
}

/// Totals add up.
pub(crate) proof fn lemma_total_add(
    a: Seq<(JsonView, Diff)>,
    b: Seq<(JsonView, Diff)>,
    row: JsonView,
)
    ensures
        total(a + b, row) == total(a, row) + total(b, row),
    decreases b.len(),
{
    if b.len() == 0 {
        assert(a + b =~= a);
    } else {
        lemma_total_add(a, b.drop_last(), row);
        assert((a + b).drop_last() =~= a + b.drop_last());
        assert((a + b).last() == b.last());
    }
}

/// A row that no update speaks of has no total.
pub(crate) proof fn lemma_total_absent(updates: Seq<(JsonView, Diff)>, row: JsonView)
    requires
        forall|k: int| 0 <= k < updates.len() ==> (#[trigger] updates[k]).0 != row,
    ensures
        total(updates, row) == 0,
    decreases updates.len(),
{
    if updates.len() > 0 {
        assert(updates[updates.len() - 1].0 != row);
        assert forall|k: int| 0 <= k < updates.drop_last().len() implies (
        #[trigger] updates.drop_last()[k]).0 != row by {
            assert(updates[k].0 != row);
        }
        lemma_total_absent(updates.drop_last(), row);
    }
}

/// The total of one update.
pub(crate) proof fn lemma_total_one(update: (JsonView, Diff), row: JsonView)
    ensures
        total(seq![update], row) == if update.0 == row {
            update.1 as int
        } else {
            0
        },
{
    assert(seq![update].drop_last() =~= Seq::<(JsonView, Diff)>::empty());
    assert(total(seq![update].drop_last(), row) == 0);
}

/// Updates that only add have no negative total.
pub(crate) proof fn lemma_total_of_additions(updates: Seq<(JsonView, Diff)>, row: JsonView)
    requires
        forall|k: int| 0 <= k < updates.len() ==> (#[trigger] updates[k]).1 >= 0,
    ensures
        total(updates, row) >= 0,
    decreases updates.len(),
{
    if updates.len() > 0 {
        let rest = updates.drop_last();
        assert(updates[updates.len() - 1].1 >= 0);
        assert forall|k: int| 0 <= k < rest.len() implies (#[trigger] rest[k]).1 >= 0 by {
            assert(updates[k].1 >= 0);
        }
        lemma_total_of_additions(rest, row);
    }
}

/// In a consolidated snapshot a row's total is how often it is present.
pub(crate) proof fn lemma_total_consolidated(rows: Seq<(JsonView, Diff)>, j: int)
    requires
        consolidated(rows),
        0 <= j < rows.len(),
    ensures
        total(rows, rows[j].0) == rows[j].1,
    decreases rows.len(),
{
    let rest = rows.drop_last();
    assert(forall|k: int| 0 <= k < rest.len() ==> rest[k] == rows[k]);
    assert(consolidated(rest));
    if j == rows.len() - 1 {
        assert forall|k: int| 0 <= k < rest.len() implies (#[trigger] rest[k]).0 != rows[j].0 by {
            assert(rows[k].0 != rows[j].0);
        }
        lemma_total_absent(rest, rows[j].0);
    } else {
        assert(rows[j].0 != rows[rows.len() - 1].0);
        lemma_total_consolidated(rest, j);
    }
}

/// The sum of `f` over the positions below `n`.
pub open spec fn sum(f: spec_fn(int) -> int, n: int) -> int
    decreases n,
{
    if n <= 0 {
        0
    } else {
        sum(f, n - 1) + f(n - 1)
    }
}

/// Sums add up.
pub(crate) proof fn lemma_sum_add(
    f: spec_fn(int) -> int,
    g: spec_fn(int) -> int,
    h: spec_fn(int) -> int,
    n: int,
)
    requires
        forall|j: int| 0 <= j < n ==> #[trigger] h(j) == f(j) + g(j),
    ensures
        sum(h, n) == sum(f, n) + sum(g, n),
    decreases n,
{
    if n > 0 {
        lemma_sum_add(f, g, h, n - 1);
        assert(h(n - 1) == f(n - 1) + g(n - 1));
    }
}

/// A sum of which one item alone is not nothing is that item.
pub(crate) proof fn lemma_sum_one(f: spec_fn(int) -> int, i: int, n: int)
    requires
        forall|j: int| 0 <= j < n && j != i ==> #[trigger] f(j) == 0,
    ensures
        sum(f, n) == if 0 <= i < n {
            f(i)
        } else {
            0
        },
    decreases n,
{
    if n > 0 {
        lemma_sum_one(f, i, n - 1);
        if n - 1 != i {
            assert(f(n - 1) == 0);
        }
    }
}

/// What an update made for the position `j` adds to a row, where one is made.
pub open spec fn share(
    pred: spec_fn(int) -> bool,
    update: spec_fn(int) -> (JsonView, Diff),
    row: JsonView,
) -> spec_fn(int) -> int {
    |j: int|
        if pred(j) && update(j).0 == row {
            update(j).1 as int
        } else {
            0
        }
}

/// The total of the updates made for selected positions is the sum of their shares.
pub(crate) proof fn lemma_total_selected(
    pred: spec_fn(int) -> bool,
    update: spec_fn(int) -> (JsonView, Diff),
    row: JsonView,
    n: int,
)
    ensures
        total(select(pred, n).map_values(update), row) == sum(share(pred, update, row), n),
    decreases n,
{
    let made = select(pred, n).map_values(update);
    if n > 0 {
        lemma_total_selected(pred, update, row, n - 1);
        if pred(n - 1) {
            assert(made.drop_last() =~= select(pred, n - 1).map_values(update));
            assert(made.last() == update(n - 1));
        }
    } else {
        assert(made.len() == 0);
    }
}

/// Changes add up.
pub(crate) proof fn lemma_changes_add(
    a: Seq<(JsonView, Diff)>,
    b: Seq<(JsonView, Diff)>,
    diff: Diff,
)
    ensures
        changes_by(a + b, diff) == changes_by(a, diff) + changes_by(b, diff),
    decreases b.len(),
{
    if b.len() == 0 {
        assert(a + b =~= a);
    } else {
        lemma_changes_add(a, b.drop_last(), diff);
        assert((a + b).drop_last() =~= a + b.drop_last());
        assert((a + b).last() == b.last());
    }
}

/// Where every update changes its row alike, all of them are such changes, and none another.
pub(crate) proof fn lemma_changes_uniform(
    updates: Seq<(JsonView, Diff)>,
    each: Diff,
    diff: Diff,
)
    requires
        forall|k: int| 0 <= k < updates.len() ==> (#[trigger] updates[k]).1 == each,
    ensures
        changes_by(updates, diff) == if diff == each {
            updates.len()
        } else {
            0
        },
    decreases updates.len(),
{
    if updates.len() > 0 {
        let rest = updates.drop_last();
        assert(updates[updates.len() - 1].1 == each);
        assert forall|k: int| 0 <= k < rest.len() implies (#[trigger] rest[k]).1 == each by {
            assert(updates[k].1 == each);
        }
        lemma_changes_uniform(rest, each, diff);
    }
}

} // verus!
