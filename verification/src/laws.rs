//! What holds of every repair.
use crate::json::JsonView;
use crate::reading::role_of;
use crate::repair::{
    accounts, count, live, present_role, reads_alike, reads_otherwise, repair_of, repairs,
    retraction, retractions, siblings, stale, unsound, verdict, RepairStats, Verdict,
};
use crate::selection::{
    increasing, lemma_filter_increasing, lemma_increasing_unique, lemma_select, select,
};
use crate::state_update::{Diff, MINUS_ONE, ONE};
use crate::totals::{
    changes_by, consolidated, lemma_changes_add, lemma_changes_uniform, lemma_sum_add,
    lemma_sum_one, lemma_total_absent, lemma_total_add, lemma_total_consolidated,
    lemma_total_of_additions, lemma_total_one, lemma_total_selected, share, sum, total,
};
use vstd::prelude::*;
use vstd::set_lib::{lemma_int_range, set_int_range};

verus! {

/// No two dangling rows that the repair cancels read as the role that `row` reads as.
pub open spec fn cancelled_once(rows: Seq<(JsonView, Diff)>, row: JsonView) -> bool {
    forall|i: int, j: int|
        0 <= i < j < rows.len() && #[trigger] verdict(rows, i) == Verdict::Repairable
            && #[trigger] verdict(rows, j) == Verdict::Repairable && role_of(rows[i].0) == role_of(
            row,
        ) ==> role_of(rows[j].0) != role_of(row)
}

/// The row at `j` is present once and reads as the same role as the row at `i`.
pub open spec fn is_stale(rows: Seq<(JsonView, Diff)>, i: int, j: int) -> bool {
    &&& 0 <= j < rows.len()
    &&& rows[j].1 == ONE
    &&& role_of(rows[i].0) is Some
    &&& role_of(rows[j].0) == role_of(rows[i].0)
}

/// The row at `j` is present once and reads as another state of the role of the row at `i`.
pub open spec fn is_live(rows: Seq<(JsonView, Diff)>, i: int, j: int) -> bool {
    &&& 0 <= j < rows.len()
    &&& rows[j].1 == ONE
    &&& role_of(rows[i].0) is Some
    &&& role_of(rows[j].0) is Some
    &&& role_of(rows[j].0)->0.key == role_of(rows[i].0)->0.key
    &&& role_of(rows[j].0)->0.value != role_of(rows[i].0)->0.value
}

/// The row at `j` is stale beside a dangling row among the first `n` that the repair cancels.
pub open spec fn taken_away(rows: Seq<(JsonView, Diff)>, j: int, n: int) -> bool {
    exists|i: int|
        0 <= i < n && #[trigger] verdict(rows, i) == Verdict::Repairable && is_stale(rows, i, j)
}

/// The repair leaves the row at `j` as it is.
pub open spec fn kept(rows: Seq<(JsonView, Diff)>, j: int) -> bool {
    verdict(rows, j) != Verdict::Repairable && !taken_away(rows, j, rows.len() as int)
}

/// No two dangling rows read as roles of one key.
pub open spec fn one_dangling_per_role(rows: Seq<(JsonView, Diff)>) -> bool {
    forall|i: int, j: int|
        0 <= i < j < rows.len() && #[trigger] rows[i].1 == MINUS_ONE && #[trigger] rows[j].1
            == MINUS_ONE && role_of(rows[i].0) is Some && role_of(rows[j].0) is Some ==> role_of(
            rows[i].0,
        )->0.key != role_of(rows[j].0)->0.key
}

/// The positions among the first `n` whose rows the repair leaves as they are, in order.
pub open spec fn kept_rows(rows: Seq<(JsonView, Diff)>, n: int) -> Seq<int> {
    select(|j: int| kept(rows, j), n)
}

/// The rows that the repair leaves as they are.
pub open spec fn remaining(rows: Seq<(JsonView, Diff)>) -> Seq<(JsonView, Diff)> {
    kept_rows(rows, rows.len() as int).map_values(|j: int| rows[j])
}

/// The stale and the live siblings of a row, told by what they are.
pub(crate) proof fn lemma_siblings_members(rows: Seq<(JsonView, Diff)>, i: int)
    ensures
        increasing(stale(rows, i)),
        increasing(live(rows, i)),
        forall|j: int| #[trigger] stale(rows, i).contains(j) <==> is_stale(rows, i, j),
        forall|j: int| #[trigger] live(rows, i).contains(j) <==> is_live(rows, i, j),
{
    if let Some(role) = role_of(rows[i].0) {
        lemma_select(|j: int| present_role(rows, role.key, j), rows.len() as int);
    }
    lemma_filter_increasing(siblings(rows, i), reads_alike(rows, i));
    lemma_filter_increasing(siblings(rows, i), reads_otherwise(rows, i));
    assert forall|j: int| #[trigger] stale(rows, i).contains(j) <==> is_stale(rows, i, j) by {
        assert(siblings(rows, i).contains(j) && reads_alike(rows, i)(j) <==> is_stale(rows, i, j));
    }
    assert forall|j: int| #[trigger] live(rows, i).contains(j) <==> is_live(rows, i, j) by {
        assert(siblings(rows, i).contains(j) && reads_otherwise(rows, i)(j) <==> is_live(
            rows,
            i,
            j,
        ));
    }
}

/// How many siblings of a row are stale or live, told by what they are.
proof fn lemma_sibling_counts(rows: Seq<(JsonView, Diff)>, i: int)
    ensures
        stale(rows, i).len() > 0 <==> exists|j: int| is_stale(rows, i, j),
        live(rows, i).len() > 1 <==> exists|j: int, k: int|
            j != k && is_live(rows, i, j) && is_live(rows, i, k),
{
    lemma_siblings_members(rows, i);
    let near = stale(rows, i);
    let far = live(rows, i);
    if near.len() > 0 {
        assert(near.contains(near[0]));
        assert(is_stale(rows, i, near[0]));
    }
    if exists|j: int| is_stale(rows, i, j) {
        let j = choose|j: int| is_stale(rows, i, j);
        assert(near.contains(j));
    }
    if far.len() > 1 {
        assert(far.contains(far[0]) && far.contains(far[1]));
        assert(far[0] < far[1]);
        assert(is_live(rows, i, far[0]) && is_live(rows, i, far[1]));
    } else {
        assert forall|j: int, k: int| is_live(rows, i, j) && is_live(rows, i, k) implies j == k by {
            assert(far.contains(j) && far.contains(k));
        }
    }
}

/// The repair cancels exactly the dangling roles beside which at least one row reads the same and
/// at most one row of the role's key reads differently.
pub proof fn law_fingerprint(rows: Seq<(JsonView, Diff)>, i: int)
    requires
        0 <= i < rows.len(),
    ensures
        verdict(rows, i) == Verdict::Repairable <==> {
            &&& rows[i].1 == MINUS_ONE
            &&& role_of(rows[i].0) is Some
            &&& exists|j: int| is_stale(rows, i, j)
            &&& forall|j: int, k: int| is_live(rows, i, j) && is_live(rows, i, k) ==> j == k
        },
{
    lemma_sibling_counts(rows, i);
}

/// What the repair of the first `n` rows adds to the row at `j`.
spec fn effect(rows: Seq<(JsonView, Diff)>, n: int, j: int) -> int {
    if j < n && verdict(rows, j) == Verdict::Repairable {
        1
    } else if taken_away(rows, j, n) {
        -1
    } else {
        0
    }
}

/// What the repair of the first `n` rows adds to `row` at each position that holds it.
spec fn effect_on(rows: Seq<(JsonView, Diff)>, n: int, row: JsonView) -> spec_fn(int) -> int {
    |j: int|
        if rows[j].0 == row {
            effect(rows, n, j)
        } else {
            0
        }
}

/// The repair of one dangling row adds it once, and takes each stale row beside it away once.
proof fn lemma_total_repair_of(rows: Seq<(JsonView, Diff)>, i: int, row: JsonView)
    requires
        0 <= i < rows.len(),
        verdict(rows, i) == Verdict::Repairable,
    ensures
        total(repair_of(rows, i), row) == (if rows[i].0 == row {
            1int
        } else {
            0
        }) + sum(
            share(|j: int| is_stale(rows, i, j), retraction(rows), row),
            rows.len() as int,
        ),
{
    let n = rows.len() as int;
    let pred = |j: int| is_stale(rows, i, j);
    lemma_siblings_members(rows, i);
    lemma_select(pred, n);
    lemma_increasing_unique(stale(rows, i), select(pred, n));
    lemma_total_selected(pred, retraction(rows), row, n);
    lemma_total_one((rows[i].0, ONE), row);
    lemma_total_add(seq![(rows[i].0, ONE)], retractions(rows, stale(rows, i)), row);
}

/// One dangling row more changes what the repair adds to the row at `j`.
proof fn lemma_effect_step(rows: Seq<(JsonView, Diff)>, i: int, j: int)
    requires
        cancelled_once(rows, rows[j].0),
        0 <= i < rows.len(),
        0 <= j < rows.len(),
    ensures
        effect(rows, i + 1, j) == effect(rows, i, j) + (if verdict(rows, i) != Verdict::Repairable {
            0int
        } else if i == j {
            1
        } else if is_stale(rows, i, j) {
            -1
        } else {
            0
        }),
{
    let fits = verdict(rows, i) == Verdict::Repairable;
    if taken_away(rows, j, i) {
        let k = choose|k: int|
            0 <= k < i && #[trigger] verdict(rows, k) == Verdict::Repairable && is_stale(rows, k, j);
        assert(verdict(rows, k) == Verdict::Repairable && k < i + 1);
        assert(taken_away(rows, j, i + 1));
        if fits && is_stale(rows, i, j) {
            assert(role_of(rows[k].0) == role_of(rows[j].0));
            assert(role_of(rows[i].0) == role_of(rows[j].0));
        }
    } else if taken_away(rows, j, i + 1) {
        let k = choose|k: int|
            0 <= k < i + 1 && #[trigger] verdict(rows, k) == Verdict::Repairable && is_stale(
                rows,
                k,
                j,
            );
        if k < i {
            assert(verdict(rows, k) == Verdict::Repairable && is_stale(rows, k, j));
        }
    } else if fits && is_stale(rows, i, j) {
        assert(taken_away(rows, j, i + 1));
    }
}

/// What the repair of the first `n` rows adds to a row, position by position.
proof fn lemma_total_repairs(rows: Seq<(JsonView, Diff)>, n: int, row: JsonView)
    requires
        cancelled_once(rows, row),
        0 <= n <= rows.len(),
    ensures
        total(repairs(rows, n), row) == sum(effect_on(rows, n, row), rows.len() as int),
    decreases n,
{
    let len = rows.len() as int;
    if n == 0 {
        assert forall|j: int| 0 <= j < len && j != -1 implies #[trigger] effect_on(rows, 0, row)(j)
            == 0 by {}
        lemma_sum_one(effect_on(rows, 0, row), -1, len);
    } else {
        let i = n - 1;
        let before = effect_on(rows, i, row);
        let after = effect_on(rows, n, row);
        lemma_total_repairs(rows, i, row);
        lemma_total_add(repairs(rows, i), repair_of(rows, i), row);
        if verdict(rows, i) == Verdict::Repairable {
            let taken = share(|j: int| is_stale(rows, i, j), retraction(rows), row);
            let added = |j: int|
                if j == i && rows[i].0 == row {
                    1int
                } else {
                    0
                };
            let both = |j: int| added(j) + taken(j);
            lemma_total_repair_of(rows, i, row);
            lemma_sum_one(added, i, len);
            lemma_sum_add(added, taken, both, len);
            assert forall|j: int| 0 <= j < len implies #[trigger] after(j) == before(j) + both(
                j,
            ) by {
                if rows[j].0 == row {
                    lemma_effect_step(rows, i, j);
                }
            }
            lemma_sum_add(before, both, after, len);
        } else {
            let nothing = |j: int| 0int;
            assert forall|j: int| 0 <= j < len implies #[trigger] after(j) == before(j) + nothing(
                j,
            ) by {
                if rows[j].0 == row {
                    lemma_effect_step(rows, i, j);
                }
            }
            lemma_sum_add(before, nothing, after, len);
            lemma_sum_one(nothing, -1, len);
        }
    }
}

/// A snapshot is its rows, position by position.
proof fn lemma_all_selected(rows: Seq<(JsonView, Diff)>, n: int)
    requires
        0 <= n <= rows.len(),
    ensures
        select(|j: int| true, n).map_values(|j: int| rows[j]) == rows.take(n),
    decreases n,
{
    let all = select(|j: int| true, n).map_values(|j: int| rows[j]);
    if n > 0 {
        lemma_all_selected(rows, n - 1);
        assert(all =~= select(|j: int| true, n - 1).map_values(|j: int| rows[j]).push(rows[n - 1]));
        assert(rows.take(n) =~= rows.take(n - 1).push(rows[n - 1]));
    } else {
        assert(all =~= rows.take(n));
    }
}

/// Written to a snapshot, the repair makes of it the rows that it leaves alone, each as often as it
/// was, and nothing besides.
pub proof fn law_repair_leaves_the_remaining(rows: Seq<(JsonView, Diff)>, row: JsonView)
    requires
        cancelled_once(rows, row),
    ensures
        total(rows + repairs(rows, rows.len() as int), row) == total(remaining(rows), row),
{
    let n = rows.len() as int;
    let held = |j: int| rows[j];
    let all = share(|j: int| true, held, row);
    let left = share(|j: int| kept(rows, j), held, row);
    let change = effect_on(rows, n, row);
    lemma_total_add(rows, repairs(rows, n), row);
    lemma_all_selected(rows, n);
    assert(rows.take(n) =~= rows);
    lemma_total_selected(|j: int| true, held, row, n);
    lemma_total_repairs(rows, n, row);
    lemma_total_selected(|j: int| kept(rows, j), held, row, n);
    assert forall|j: int| 0 <= j < n implies #[trigger] left(j) == all(j) + change(j) by {}
    lemma_sum_add(all, change, left, n);
}

/// The row at `a` among those that remain is the row at `j`, which is kept.
spec fn remains_from(rows: Seq<(JsonView, Diff)>, a: int, j: int) -> bool {
    0 <= j < rows.len() && kept(rows, j) && remaining(rows)[a] == rows[j]
}

/// The rows that remain are rows of the snapshot that are kept, no two of them the same one.
proof fn lemma_remaining(rows: Seq<(JsonView, Diff)>)
    ensures
        remaining(rows).len() == kept_rows(rows, rows.len() as int).len(),
        increasing(kept_rows(rows, rows.len() as int)),
        forall|j: int| #[trigger]
            kept_rows(rows, rows.len() as int).contains(j) <==> 0 <= j < rows.len() && kept(
                rows,
                j,
            ),
        forall|a: int|
            0 <= a < remaining(rows).len() ==> remains_from(
                rows,
                a,
                kept_rows(rows, rows.len() as int)[a],
            ),
        consolidated(rows) ==> consolidated(remaining(rows)),
{
    let indices = kept_rows(rows, rows.len() as int);
    let left = remaining(rows);
    lemma_select(|j: int| kept(rows, j), rows.len() as int);
    assert forall|a: int| 0 <= a < left.len() implies remains_from(
        rows,
        a,
        #[trigger] indices[a],
    ) by {
        assert(indices.contains(indices[a]));
    }
    if consolidated(rows) {
        assert forall|a: int, b: int| 0 <= a < b < left.len() implies (#[trigger] left[a]).0 != (
        #[trigger] left[b]).0 by {
            assert(left[a] == rows[indices[a]] && left[b] == rows[indices[b]]);
            assert(indices[a] < indices[b]);
            assert(rows[indices[a]].0 != rows[indices[b]].0);
        }
    }
}

/// Written to a consolidated snapshot, the repair brings each dangling row that it cancels, and
/// each stale row beside one, to nothing, and leaves every other row as often as it was.
pub proof fn law_repair_settles(rows: Seq<(JsonView, Diff)>, j: int)
    requires
        consolidated(rows),
        cancelled_once(rows, rows[j].0),
        0 <= j < rows.len(),
    ensures
        total(rows + repairs(rows, rows.len() as int), rows[j].0) == if kept(rows, j) {
            rows[j].1 as int
        } else {
            0
        },
{
    let indices = kept_rows(rows, rows.len() as int);
    let left = remaining(rows);
    law_repair_leaves_the_remaining(rows, rows[j].0);
    lemma_remaining(rows);
    if kept(rows, j) {
        assert(indices.contains(j));
        let a = choose|a: int| 0 <= a < indices.len() && indices[a] == j;
        assert(left[a] == rows[j]);
        lemma_total_consolidated(left, a);
    } else {
        assert forall|a: int| 0 <= a < left.len() implies (#[trigger] left[a]).0 != rows[j].0 by {
            let k = indices[a];
            assert(left[a] == rows[k]);
            assert(kept(rows, k));
            if k < j {
                assert(rows[k].0 != rows[j].0);
            } else {
                assert(rows[j].0 != rows[k].0);
            }
        }
        lemma_total_absent(left, rows[j].0);
    }
}

/// Whatever the repair writes reverses how often a role's row is present: a row present minus once
/// is added, a row present once is taken away. No other row is spoken of.
pub proof fn law_repairs_reverse_roles(rows: Seq<(JsonView, Diff)>, n: int, k: int)
    requires
        0 <= n <= rows.len(),
        0 <= k < repairs(rows, n).len(),
    ensures
        exists|j: int|
            0 <= j < rows.len() && repairs(rows, n)[k].0 == (#[trigger] rows[j]).0 && repairs(
                rows,
                n,
            )[k].1 == -rows[j].1 && (rows[j].1 == ONE || rows[j].1 == MINUS_ONE) && role_of(
                rows[j].0,
            ) is Some,
    decreases n,
{
    if n > 0 {
        let i = n - 1;
        let before = repairs(rows, i);
        if k < before.len() {
            law_repairs_reverse_roles(rows, i, k);
        } else if verdict(rows, i) == Verdict::Repairable {
            let group = stale(rows, i);
            lemma_siblings_members(rows, i);
            if k == before.len() {
                assert(repairs(rows, n)[k] == (rows[i].0, ONE));
            } else {
                let m = k - before.len() - 1;
                assert(group.contains(group[m]));
                assert(is_stale(rows, i, group[m]));
                assert(repairs(rows, n)[k] == (rows[group[m]].0, MINUS_ONE));
            }
        }
    }
}

/// Where every unsound row is a dangling role that the repair cancels, the repaired snapshot holds
/// no row but such as are present once.
pub proof fn law_repaired_snapshot_is_sound(rows: Seq<(JsonView, Diff)>, row: JsonView)
    requires
        consolidated(rows),
        cancelled_once(rows, row),
        forall|i: int|
            0 <= i < rows.len() ==> #[trigger] verdict(rows, i) == Verdict::Sound || verdict(
                rows,
                i,
            ) == Verdict::Repairable,
    ensures
        total(rows + repairs(rows, rows.len() as int), row) == 0 || total(
            rows + repairs(rows, rows.len() as int),
            row,
        ) == 1,
{
    let written = repairs(rows, rows.len() as int);
    if exists|j: int| 0 <= j < rows.len() && (#[trigger] rows[j]).0 == row {
        let j = choose|j: int| 0 <= j < rows.len() && (#[trigger] rows[j]).0 == row;
        law_repair_settles(rows, j);
        assert(verdict(rows, j) == Verdict::Sound || verdict(rows, j) == Verdict::Repairable);
    } else {
        law_repair_speaks_of_no_other_row(rows, row);
        lemma_total_absent(rows, row);
        lemma_total_add(rows, written, row);
    }
}

/// Where every unsound row is a dangling role that the repair cancels, no dangling row remains: no
/// row of the repaired snapshot is present a negative number of times.
pub proof fn law_no_dangling_row_remains(rows: Seq<(JsonView, Diff)>, row: JsonView)
    requires
        cancelled_once(rows, row),
        forall|i: int|
            0 <= i < rows.len() ==> #[trigger] verdict(rows, i) == Verdict::Sound || verdict(
                rows,
                i,
            ) == Verdict::Repairable,
    ensures
        total(rows + repairs(rows, rows.len() as int), row) >= 0,
{
    let left = remaining(rows);
    law_repair_leaves_the_remaining(rows, row);
    lemma_remaining(rows);
    assert forall|a: int| 0 <= a < left.len() implies (#[trigger] left[a]).1 >= 0 by {
        let j = kept_rows(rows, rows.len() as int)[a];
        assert(left[a] == rows[j]);
        assert(verdict(rows, j) == Verdict::Sound);
    }
    lemma_total_of_additions(left, row);
}

/// A row that the snapshot does not hold stays as it is.
pub proof fn law_repair_speaks_of_no_other_row(rows: Seq<(JsonView, Diff)>, row: JsonView)
    requires
        forall|j: int| 0 <= j < rows.len() ==> (#[trigger] rows[j]).0 != row,
    ensures
        total(repairs(rows, rows.len() as int), row) == 0,
{
    let n = rows.len() as int;
    let written = repairs(rows, n);
    assert forall|k: int| 0 <= k < written.len() implies (#[trigger] written[k]).0 != row by {
        law_repairs_reverse_roles(rows, n, k);
    }
    lemma_total_absent(written, row);
}

/// The live row beside a dangling role stays: where no other dangling row has the role's key, the
/// row that reads as the role's later state is present once after the repair as before.
pub proof fn law_live_row_stays(rows: Seq<(JsonView, Diff)>, i: int, j: int)
    requires
        consolidated(rows),
        0 <= i < rows.len(),
        verdict(rows, i) == Verdict::Repairable,
        is_live(rows, i, j),
        forall|k: int|
            0 <= k < rows.len() && #[trigger] rows[k].1 == MINUS_ONE && role_of(rows[k].0) is Some
                && role_of(rows[k].0)->0.key == role_of(rows[i].0)->0.key ==> k == i,
    ensures
        total(rows + repairs(rows, rows.len() as int), rows[j].0) == 1,
{
    assert forall|k: int, m: int|
        0 <= k < m < rows.len() && #[trigger] verdict(rows, k) == Verdict::Repairable
            && #[trigger] verdict(rows, m) == Verdict::Repairable && role_of(rows[k].0) == role_of(
            rows[j].0,
        ) implies role_of(rows[m].0) != role_of(rows[j].0) by {
        assert(rows[k].1 == MINUS_ONE && rows[m].1 == MINUS_ONE);
    }
    law_repair_settles(rows, j);
    if taken_away(rows, j, rows.len() as int) {
        let k = choose|k: int|
            0 <= k < rows.len() && #[trigger] verdict(rows, k) == Verdict::Repairable && is_stale(
                rows,
                k,
                j,
            );
        assert(rows[k].1 == MINUS_ONE);
    }
}

/// A snapshot of which every row is present once needs no repair.
pub proof fn law_sound_snapshot_is_left_alone(
    rows: Seq<(JsonView, Diff)>,
    n: int,
    stats: RepairStats,
)
    requires
        0 <= n <= rows.len(),
        forall|i: int| 0 <= i < rows.len() ==> (#[trigger] rows[i]).1 == ONE,
        accounts(stats, rows, n),
    ensures
        repairs(rows, n) == Seq::<(JsonView, Diff)>::empty(),
        stats == (RepairStats {
            repaired: 0,
            stale_retracted: 0,
            skipped_role: 0,
            skipped_non_role: 0,
        }),
{
    lemma_sound_rows(rows, n);
}

proof fn lemma_sound_rows(rows: Seq<(JsonView, Diff)>, n: int)
    requires
        0 <= n <= rows.len(),
        forall|i: int| 0 <= i < rows.len() ==> (#[trigger] rows[i]).1 == ONE,
    ensures
        repairs(rows, n) == Seq::<(JsonView, Diff)>::empty(),
        forall|v: Verdict| v != Verdict::Sound ==> #[trigger] count(rows, v, n) == 0,
    decreases n,
{
    if n > 0 {
        lemma_sound_rows(rows, n - 1);
        assert(rows[n - 1].1 == ONE);
        assert(verdict(rows, n - 1) == Verdict::Sound);
        assert(repairs(rows, n) =~= Seq::<(JsonView, Diff)>::empty());
        assert forall|v: Verdict| v != Verdict::Sound implies #[trigger] count(rows, v, n) == 0 by {
            assert(count(rows, v, n - 1) == 0);
        }
    }
}

/// Every unsound row is counted once: as repaired, as a role left alone, or as another row left
/// alone.
pub proof fn law_every_unsound_row_is_counted(
    rows: Seq<(JsonView, Diff)>,
    n: int,
    stats: RepairStats,
)
    requires
        0 <= n <= rows.len(),
        accounts(stats, rows, n),
    ensures
        stats.repaired + stats.skipped_role + stats.skipped_non_role == unsound(rows, n).len(),
{
    lemma_unsound_counted(rows, n);
}

proof fn lemma_unsound_counted(rows: Seq<(JsonView, Diff)>, n: int)
    requires
        0 <= n <= rows.len(),
    ensures
        count(rows, Verdict::Repairable, n) + count(rows, Verdict::UnexpectedDiff, n) + count(
            rows,
            Verdict::NoStaleSibling,
            n,
        ) + count(rows, Verdict::AmbiguousLive, n) + count(rows, Verdict::NotARole, n) == unsound(
            rows,
            n,
        ).len(),
    decreases n,
{
    if n > 0 {
        lemma_unsound_counted(rows, n - 1);
    }
}

/// The account is that of the updates: each row counted as repaired is added once, and each row
/// counted as retracted is taken away once.
pub proof fn law_account_is_of_the_updates(
    rows: Seq<(JsonView, Diff)>,
    n: int,
    stats: RepairStats,
)
    requires
        0 <= n <= rows.len(),
        accounts(stats, rows, n),
    ensures
        stats.repaired == changes_by(repairs(rows, n), ONE),
        stats.stale_retracted == changes_by(repairs(rows, n), MINUS_ONE),
{
    lemma_changes_repairs(rows, n);
}

proof fn lemma_changes_repairs(rows: Seq<(JsonView, Diff)>, n: int)
    requires
        0 <= n <= rows.len(),
    ensures
        changes_by(repairs(rows, n), ONE) == count(rows, Verdict::Repairable, n),
        changes_by(repairs(rows, n), ONE) + changes_by(repairs(rows, n), MINUS_ONE) == repairs(
            rows,
            n,
        ).len(),
    decreases n,
{
    if n > 0 {
        let i = n - 1;
        lemma_changes_repairs(rows, i);
        lemma_changes_add(repairs(rows, i), repair_of(rows, i), ONE);
        lemma_changes_add(repairs(rows, i), repair_of(rows, i), MINUS_ONE);
        if verdict(rows, i) == Verdict::Repairable {
            let added = seq![(rows[i].0, ONE)];
            let taken = retractions(rows, stale(rows, i));
            lemma_changes_uniform(added, ONE, ONE);
            lemma_changes_uniform(added, ONE, MINUS_ONE);
            lemma_changes_uniform(taken, MINUS_ONE, ONE);
            lemma_changes_uniform(taken, MINUS_ONE, MINUS_ONE);
            lemma_changes_add(added, taken, ONE);
            lemma_changes_add(added, taken, MINUS_ONE);
        }
    }
}

/// A row of a dangling role's key is kept where the repair does not cancel the dangling row.
proof fn lemma_neighbours_kept(rows: Seq<(JsonView, Diff)>, i: int, j: int)
    requires
        one_dangling_per_role(rows),
        0 <= i < rows.len(),
        rows[i].1 == MINUS_ONE,
        role_of(rows[i].0) is Some,
        verdict(rows, i) != Verdict::Repairable,
        is_stale(rows, i, j) || is_live(rows, i, j),
    ensures
        kept(rows, j),
{
    if taken_away(rows, j, rows.len() as int) {
        let k = choose|k: int|
            0 <= k < rows.len() && #[trigger] verdict(rows, k) == Verdict::Repairable && is_stale(
                rows,
                k,
                j,
            );
        assert(rows[k].1 == MINUS_ONE && rows[i].1 == MINUS_ONE);
        if k < i {
            assert(role_of(rows[k].0)->0.key != role_of(rows[i].0)->0.key);
        } else if i < k {
            assert(role_of(rows[i].0)->0.key != role_of(rows[k].0)->0.key);
        }
    }
}

/// Rows that remain are siblings of each other as they were before.
proof fn lemma_siblings_remain(rows: Seq<(JsonView, Diff)>, a: int, b: int)
    requires
        0 <= a < remaining(rows).len(),
        0 <= b < remaining(rows).len(),
    ensures
        is_stale(remaining(rows), a, b) <==> is_stale(
            rows,
            kept_rows(rows, rows.len() as int)[a],
            kept_rows(rows, rows.len() as int)[b],
        ),
        is_live(remaining(rows), a, b) <==> is_live(
            rows,
            kept_rows(rows, rows.len() as int)[a],
            kept_rows(rows, rows.len() as int)[b],
        ),
{
    let indices = kept_rows(rows, rows.len() as int);
    lemma_remaining(rows);
    assert(remains_from(rows, a, indices[a]) && remains_from(rows, b, indices[b]));
}

/// A dangling role that the repair does not cancel has stale siblings among the rows that remain
/// where it had any before.
proof fn lemma_stale_remain(rows: Seq<(JsonView, Diff)>, a: int, i: int)
    requires
        one_dangling_per_role(rows),
        0 <= a < remaining(rows).len(),
        i == kept_rows(rows, rows.len() as int)[a],
        rows[i].1 == MINUS_ONE,
        role_of(rows[i].0) is Some,
    ensures
        stale(remaining(rows), a).len() > 0 <==> stale(rows, i).len() > 0,
{
    let indices = kept_rows(rows, rows.len() as int);
    let left = remaining(rows);
    lemma_remaining(rows);
    assert(remains_from(rows, a, i));
    lemma_sibling_counts(rows, i);
    lemma_sibling_counts(left, a);
    if exists|j: int| is_stale(rows, i, j) {
        let j = choose|j: int| is_stale(rows, i, j);
        let b = lemma_neighbour_remains(rows, i, j);
        lemma_siblings_remain(rows, a, b);
        assert(is_stale(left, a, b));
    }
    if exists|b: int| is_stale(left, a, b) {
        let b = choose|b: int| is_stale(left, a, b);
        lemma_siblings_remain(rows, a, b);
        assert(is_stale(rows, i, indices[b]));
    }
}

/// A dangling role that the repair does not cancel has more than one live sibling among the rows
/// that remain where it had so before.
#[verifier::spinoff_prover]
#[verifier::rlimit(30)]
proof fn lemma_live_remain(rows: Seq<(JsonView, Diff)>, a: int, i: int)
    requires
        one_dangling_per_role(rows),
        0 <= a < remaining(rows).len(),
        i == kept_rows(rows, rows.len() as int)[a],
        rows[i].1 == MINUS_ONE,
        role_of(rows[i].0) is Some,
    ensures
        live(remaining(rows), a).len() > 1 <==> live(rows, i).len() > 1,
{
    let indices = kept_rows(rows, rows.len() as int);
    let left = remaining(rows);
    lemma_remaining(rows);
    assert(remains_from(rows, a, i));
    lemma_sibling_counts(rows, i);
    lemma_sibling_counts(left, a);
    if exists|j: int, k: int| j != k && is_live(rows, i, j) && is_live(rows, i, k) {
        let (j, k) = choose|j: int, k: int| j != k && is_live(rows, i, j) && is_live(rows, i, k);
        let b = lemma_neighbour_remains(rows, i, j);
        let c = lemma_neighbour_remains(rows, i, k);
        lemma_siblings_remain(rows, a, b);
        lemma_siblings_remain(rows, a, c);
        assert(b != c && is_live(left, a, b) && is_live(left, a, c));
    }
    if exists|b: int, c: int| b != c && is_live(left, a, b) && is_live(left, a, c) {
        let (b, c) = choose|b: int, c: int| b != c && is_live(left, a, b) && is_live(left, a, c);
        lemma_siblings_remain(rows, a, b);
        lemma_siblings_remain(rows, a, c);
        if b < c {
            assert(indices[b] < indices[c]);
        } else {
            assert(indices[c] < indices[b]);
        }
        assert(is_live(rows, i, indices[b]) && is_live(rows, i, indices[c]));
    }
}

/// A row that remains has the same verdict among the rows that remain as it had before.
proof fn lemma_verdict_remains(rows: Seq<(JsonView, Diff)>, a: int)
    requires
        one_dangling_per_role(rows),
        0 <= a < remaining(rows).len(),
    ensures
        verdict(remaining(rows), a) == verdict(rows, kept_rows(rows, rows.len() as int)[a]),
{
    let i = kept_rows(rows, rows.len() as int)[a];
    lemma_remaining(rows);
    assert(remains_from(rows, a, i));
    if rows[i].1 == MINUS_ONE && role_of(rows[i].0) is Some {
        lemma_stale_remain(rows, a, i);
        lemma_live_remain(rows, a, i);
    }
}

/// Where a row of a dangling role's key stands among the rows that remain, where the repair does
/// not cancel the dangling row.
proof fn lemma_neighbour_remains(rows: Seq<(JsonView, Diff)>, i: int, j: int) -> (b: int)
    requires
        one_dangling_per_role(rows),
        0 <= i < rows.len(),
        rows[i].1 == MINUS_ONE,
        role_of(rows[i].0) is Some,
        verdict(rows, i) != Verdict::Repairable,
        is_stale(rows, i, j) || is_live(rows, i, j),
    ensures
        0 <= b < remaining(rows).len(),
        kept_rows(rows, rows.len() as int)[b] == j,
        remaining(rows)[b] == rows[j],
{
    let indices = kept_rows(rows, rows.len() as int);
    lemma_neighbours_kept(rows, i, j);
    lemma_remaining(rows);
    assert(indices.contains(j));
    let b = choose|b: int| 0 <= b < indices.len() && indices[b] == j;
    assert(remaining(rows)[b] == rows[j]);
    b
}

proof fn lemma_kept_prefix(rows: Seq<(JsonView, Diff)>, n: int, m: int)
    requires
        0 <= n <= m,
    ensures
        kept_rows(rows, n).is_prefix_of(kept_rows(rows, m)),
    decreases m,
{
    if n < m {
        lemma_kept_prefix(rows, n, m - 1);
    }
}

/// As many of the rows that remain as of all rows have a verdict that leaves them alone.
proof fn lemma_counts_remain(rows: Seq<(JsonView, Diff)>, v: Verdict, n: int)
    requires
        one_dangling_per_role(rows),
        0 <= n <= rows.len(),
        v != Verdict::Sound,
        v != Verdict::Repairable,
    ensures
        count(remaining(rows), v, kept_rows(rows, n).len() as int) == count(rows, v, n),
    decreases n,
{
    if n > 0 {
        let a = kept_rows(rows, n - 1).len() as int;
        lemma_counts_remain(rows, v, n - 1);
        if kept(rows, n - 1) {
            lemma_kept_prefix(rows, n, rows.len() as int);
            assert(kept_rows(rows, n)[a] == n - 1);
            assert(kept_rows(rows, rows.len() as int)[a] == n - 1);
            lemma_verdict_remains(rows, a);
        } else if taken_away(rows, n - 1, rows.len() as int) {
            assert(verdict(rows, n - 1) == Verdict::Sound);
        }
    }
}

/// What the repair leaves alone needs no second repair: where no two dangling rows read as roles of
/// one key, a repair of the rows that remain writes nothing, and leaves alone as many role rows and
/// as many other rows as the first did.
pub proof fn law_second_repair_is_idle(
    rows: Seq<(JsonView, Diff)>,
    first: RepairStats,
    second: RepairStats,
)
    requires
        one_dangling_per_role(rows),
        accounts(first, rows, rows.len() as int),
        accounts(second, remaining(rows), remaining(rows).len() as int),
    ensures
        repairs(remaining(rows), remaining(rows).len() as int) == Seq::<(JsonView, Diff)>::empty(),
        second == (RepairStats {
            repaired: 0,
            stale_retracted: 0,
            skipped_role: first.skipped_role,
            skipped_non_role: first.skipped_non_role,
        }),
{
    let n = rows.len() as int;
    let left = remaining(rows);
    lemma_remaining(rows);
    assert forall|a: int| 0 <= a < left.len() implies #[trigger] verdict(left, a)
        != Verdict::Repairable by {
        lemma_verdict_remains(rows, a);
        assert(left[a] == rows[kept_rows(rows, n)[a]]);
    }
    lemma_nothing_repairable(left, left.len() as int);
    lemma_counts_remain(rows, Verdict::UnexpectedDiff, n);
    lemma_counts_remain(rows, Verdict::NoStaleSibling, n);
    lemma_counts_remain(rows, Verdict::AmbiguousLive, n);
    lemma_counts_remain(rows, Verdict::NotARole, n);
}

proof fn lemma_nothing_repairable(rows: Seq<(JsonView, Diff)>, n: int)
    requires
        0 <= n <= rows.len(),
        forall|i: int| 0 <= i < rows.len() ==> #[trigger] verdict(rows, i) != Verdict::Repairable,
    ensures
        repairs(rows, n) == Seq::<(JsonView, Diff)>::empty(),
        count(rows, Verdict::Repairable, n) == 0,
    decreases n,
{
    if n > 0 {
        lemma_nothing_repairable(rows, n - 1);
        assert(verdict(rows, n - 1) != Verdict::Repairable);
        assert(repairs(rows, n) =~= Seq::<(JsonView, Diff)>::empty());
    }
}

/// No row of the one snapshot reads as a role of the key of a row of the other.
pub open spec fn no_common_role(a: Seq<(JsonView, Diff)>, b: Seq<(JsonView, Diff)>) -> bool {
    forall|i: int, j: int|
        0 <= i < a.len() && 0 <= j < b.len() && role_of((#[trigger] a[i]).0) is Some && role_of(
            (#[trigger] b[j]).0,
        ) is Some ==> role_of(a[i].0)->0.key != role_of(b[j].0)->0.key
}

/// A snapshot's row is to the repair what it is with rows of other roles behind the snapshot.
proof fn lemma_front_apart(a: Seq<(JsonView, Diff)>, b: Seq<(JsonView, Diff)>, i: int)
    requires
        no_common_role(a, b),
        0 <= i < a.len(),
    ensures
        verdict(a + b, i) == verdict(a, i),
        repair_of(a + b, i) == repair_of(a, i),
{
    let rows = a + b;
    assert(rows[i] == a[i]);
    lemma_siblings_members(rows, i);
    lemma_siblings_members(a, i);
    assert forall|j: int| is_stale(rows, i, j) <==> is_stale(a, i, j) by {
        if 0 <= j < a.len() {
            assert(rows[j] == a[j]);
        } else if a.len() <= j < rows.len() {
            assert(rows[j] == b[j - a.len()]);
        }
    }
    assert forall|j: int| is_live(rows, i, j) <==> is_live(a, i, j) by {
        if 0 <= j < a.len() {
            assert(rows[j] == a[j]);
        } else if a.len() <= j < rows.len() {
            assert(rows[j] == b[j - a.len()]);
        }
    }
    lemma_increasing_unique(stale(rows, i), stale(a, i));
    lemma_increasing_unique(live(rows, i), live(a, i));
    assert forall|k: int| 0 <= k < stale(a, i).len() implies rows[#[trigger] stale(a, i)[k]]
        == a[stale(a, i)[k]] by {
        assert(stale(a, i).contains(stale(a, i)[k]));
    }
    assert(retractions(rows, stale(rows, i)) =~= retractions(a, stale(a, i)));
}

/// Positions moved up by `by`.
spec fn moved(s: Seq<int>, by: int) -> Seq<int> {
    s.map_values(|j: int| j + by)
}

proof fn lemma_moved(s: Seq<int>, by: int)
    requires
        increasing(s),
    ensures
        increasing(moved(s, by)),
        forall|x: int| #[trigger] moved(s, by).contains(x) <==> s.contains(x - by),
{
    let t = moved(s, by);
    assert forall|x: int| #[trigger] t.contains(x) <==> s.contains(x - by) by {
        if t.contains(x) {
            let k = choose|k: int| 0 <= k < t.len() && t[k] == x;
            assert(s[k] == x - by);
        }
        if s.contains(x - by) {
            let k = choose|k: int| 0 <= k < s.len() && s[k] == x - by;
            assert(t[k] == x);
        }
    }
}

/// A snapshot's row is to the repair what it is with rows of other roles before the snapshot.
proof fn lemma_back_apart(a: Seq<(JsonView, Diff)>, b: Seq<(JsonView, Diff)>, i: int)
    requires
        no_common_role(a, b),
        0 <= i < b.len(),
    ensures
        verdict(a + b, a.len() + i) == verdict(b, i),
        repair_of(a + b, a.len() + i) == repair_of(b, i),
{
    let rows = a + b;
    let by = a.len() as int;
    let m = by + i;
    assert(rows[m] == b[i]);
    lemma_siblings_members(rows, m);
    lemma_siblings_members(b, i);
    lemma_moved(stale(b, i), by);
    lemma_moved(live(b, i), by);
    assert forall|j: int| is_stale(rows, m, j) <==> is_stale(b, i, j - by) by {
        if 0 <= j < by {
            assert(rows[j] == a[j]);
        } else if by <= j < rows.len() {
            assert(rows[j] == b[j - by]);
        }
    }
    assert forall|j: int| is_live(rows, m, j) <==> is_live(b, i, j - by) by {
        if 0 <= j < by {
            assert(rows[j] == a[j]);
        } else if by <= j < rows.len() {
            assert(rows[j] == b[j - by]);
        }
    }
    assert forall|j: int| #[trigger] stale(rows, m).contains(j) <==> moved(
        stale(b, i),
        by,
    ).contains(j) by {
        assert(stale(b, i).contains(j - by) <==> is_stale(b, i, j - by));
    }
    assert forall|j: int| #[trigger] live(rows, m).contains(j) <==> moved(live(b, i), by).contains(
        j,
    ) by {
        assert(live(b, i).contains(j - by) <==> is_live(b, i, j - by));
    }
    lemma_increasing_unique(stale(rows, m), moved(stale(b, i), by));
    lemma_increasing_unique(live(rows, m), moved(live(b, i), by));
    assert forall|k: int| 0 <= k < stale(b, i).len() implies rows[#[trigger] stale(rows, m)[k]]
        == b[stale(b, i)[k]] by {
        assert(stale(b, i).contains(stale(b, i)[k]));
        assert(stale(rows, m)[k] == stale(b, i)[k] + by);
    }
    assert(retractions(rows, stale(rows, m)) =~= retractions(b, stale(b, i)));
}

proof fn lemma_front_repairs(a: Seq<(JsonView, Diff)>, b: Seq<(JsonView, Diff)>, n: int)
    requires
        no_common_role(a, b),
        0 <= n <= a.len(),
    ensures
        repairs(a + b, n) == repairs(a, n),
        forall|v: Verdict| #[trigger] count(a + b, v, n) == count(a, v, n),
    decreases n,
{
    if n > 0 {
        lemma_front_repairs(a, b, n - 1);
        lemma_front_apart(a, b, n - 1);
        assert forall|v: Verdict| #[trigger] count(a + b, v, n) == count(a, v, n) by {
            assert(count(a + b, v, n - 1) == count(a, v, n - 1));
        }
    }
}

proof fn lemma_back_repairs(a: Seq<(JsonView, Diff)>, b: Seq<(JsonView, Diff)>, n: int)
    requires
        no_common_role(a, b),
        0 <= n <= b.len(),
    ensures
        repairs(a + b, a.len() + n) == repairs(a, a.len() as int) + repairs(b, n),
        forall|v: Verdict| #[trigger]
            count(a + b, v, a.len() + n) == count(a, v, a.len() as int) + count(b, v, n),
    decreases n,
{
    if n > 0 {
        let m = a.len() + n - 1;
        lemma_back_repairs(a, b, n - 1);
        lemma_back_apart(a, b, n - 1);
        assert(repairs(a + b, a.len() + n) == repairs(a + b, m) + repair_of(a + b, m));
        assert(repairs(a + b, a.len() + n) =~= repairs(a, a.len() as int) + repairs(b, n));
        assert forall|v: Verdict| #[trigger]
            count(a + b, v, a.len() + n) == count(a, v, a.len() as int) + count(b, v, n) by {
            assert(count(a + b, v, m) == count(a, v, a.len() as int) + count(b, v, n - 1));
        }
    } else {
        lemma_front_repairs(a, b, a.len() as int);
        assert(repairs(a + b, a.len() as int) =~= repairs(a, a.len() as int) + repairs(b, 0));
    }
}

/// Roles are repaired independently: two snapshots that have no role in common are repaired
/// together as each is alone, and the accounts add up.
pub proof fn law_roles_are_independent(
    a: Seq<(JsonView, Diff)>,
    b: Seq<(JsonView, Diff)>,
    of_a: RepairStats,
    of_b: RepairStats,
    of_both: RepairStats,
)
    requires
        no_common_role(a, b),
        accounts(of_a, a, a.len() as int),
        accounts(of_b, b, b.len() as int),
        accounts(of_both, a + b, (a + b).len() as int),
    ensures
        repairs(a + b, (a + b).len() as int) == repairs(a, a.len() as int) + repairs(
            b,
            b.len() as int,
        ),
        of_both.repaired == of_a.repaired + of_b.repaired,
        of_both.stale_retracted == of_a.stale_retracted + of_b.stale_retracted,
        of_both.skipped_role == of_a.skipped_role + of_b.skipped_role,
        of_both.skipped_non_role == of_a.skipped_non_role + of_b.skipped_non_role,
{
    lemma_back_repairs(a, b, b.len() as int);
}

/// The siblings of a row are told apart by what they read as, each once and in the snapshot's order:
/// the stale ones are the rows present once that read as the same role, the live ones those that
/// read as another state of the role.
pub proof fn law_siblings(rows: Seq<(JsonView, Diff)>, i: int)
    requires
        0 <= i < rows.len(),
    ensures
        forall|a: int, b: int|
            0 <= a < b < stale(rows, i).len() ==> #[trigger] stale(rows, i)[a]
                < #[trigger] stale(rows, i)[b],
        forall|j: int| #[trigger]
            stale(rows, i).contains(j) <==> {
                &&& 0 <= j < rows.len()
                &&& rows[j].1 == 1
                &&& role_of(rows[i].0) is Some
                &&& role_of(rows[j].0) == role_of(rows[i].0)
            },
        forall|a: int, b: int|
            0 <= a < b < live(rows, i).len() ==> #[trigger] live(rows, i)[a] < #[trigger] live(
                rows,
                i,
            )[b],
        forall|j: int| #[trigger]
            live(rows, i).contains(j) <==> {
                &&& 0 <= j < rows.len()
                &&& rows[j].1 == 1
                &&& role_of(rows[i].0) is Some
                &&& role_of(rows[j].0) is Some
                &&& role_of(rows[j].0)->0.key == role_of(rows[i].0)->0.key
                &&& role_of(rows[j].0)->0.value != role_of(rows[i].0)->0.value
            },
{
    lemma_siblings_members(rows, i);
}

/// What a row is to the repair is told by how often it is present, by whether it reads as a role,
/// and by its siblings.
pub proof fn law_verdicts(rows: Seq<(JsonView, Diff)>, i: int)
    requires
        0 <= i < rows.len(),
    ensures
        verdict(rows, i) == Verdict::Sound <==> rows[i].1 == 1,
        verdict(rows, i) == Verdict::NotARole <==> rows[i].1 != 1 && role_of(rows[i].0) is None,
        verdict(rows, i) == Verdict::UnexpectedDiff <==> rows[i].1 != 1 && rows[i].1 != -1
            && role_of(rows[i].0) is Some,
        verdict(rows, i) == Verdict::NoStaleSibling <==> {
            &&& rows[i].1 == -1
            &&& role_of(rows[i].0) is Some
            &&& forall|j: int|
                0 <= j < rows.len() && (#[trigger] rows[j]).1 == 1 ==> role_of(rows[j].0)
                    != role_of(rows[i].0)
        },
        verdict(rows, i) == Verdict::AmbiguousLive <==> {
            &&& rows[i].1 == -1
            &&& role_of(rows[i].0) is Some
            &&& exists|j: int| is_stale(rows, i, j)
            &&& exists|j: int, k: int| j != k && is_live(rows, i, j) && is_live(rows, i, k)
        },
{
    lemma_sibling_counts(rows, i);
    if rows[i].1 == -1 && role_of(rows[i].0) is Some {
        if forall|j: int|
            0 <= j < rows.len() && (#[trigger] rows[j]).1 == 1 ==> role_of(rows[j].0) != role_of(
                rows[i].0,
            ) {
            assert forall|j: int| !is_stale(rows, i, j) by {
                if 0 <= j < rows.len() {
                    assert(rows[j].1 == 1 ==> role_of(rows[j].0) != role_of(rows[i].0));
                }
            }
        } else {
            let j = choose|j: int|
                0 <= j < rows.len() && (#[trigger] rows[j]).1 == 1 && role_of(rows[j].0) == role_of(
                    rows[i].0,
                );
            assert(is_stale(rows, i, j));
        }
    }
}

/// The row at `i` is the dangling row of a drifted role: a role present minus once, beside which a
/// row present once reads as the same role, and no two rows present once read as other states of
/// it.
pub open spec fn drifted(rows: Seq<(JsonView, Diff)>, i: int) -> bool {
    &&& rows[i].1 == -1
    &&& role_of(rows[i].0) is Some
    &&& exists|j: int| is_stale(rows, i, j)
    &&& forall|j: int, k: int| is_live(rows, i, j) && is_live(rows, i, k) ==> j == k
}

/// One position more joins those that satisfy a predicate, or does not.
proof fn lemma_count_positions(pred: spec_fn(int) -> bool, n: int)
    requires
        0 <= n,
    ensures
        set_int_range(0, n + 1).filter(pred).len() == set_int_range(0, n).filter(pred).len() + (
        if pred(n) {
            1nat
        } else {
            0
        }),
        set_int_range(0, n).filter(pred).finite(),
        set_int_range(0, 0).filter(pred).len() == 0,
{
    lemma_int_range(0, n);
    lemma_int_range(0, n + 1);
    lemma_int_range(0, 0);
    let before = set_int_range(0, n).filter(pred);
    let after = set_int_range(0, n + 1).filter(pred);
    assert(before.finite());
    if pred(n) {
        assert(after =~= before.insert(n));
    } else {
        assert(after =~= before);
    }
    assert(set_int_range(0, 0).filter(pred) =~= Set::empty());
}

/// The account counts rows by what they are: as repaired the dangling roles beside which a row
/// present once reads the same and at most one row of the role's key reads differently; as skipped
/// roles every other unsound row that reads as a role; as other skipped rows the unsound rows that
/// read as none.
pub proof fn law_account_counts_rows(rows: Seq<(JsonView, Diff)>, n: int, stats: RepairStats)
    requires
        0 <= n <= rows.len(),
        accounts(stats, rows, n),
    ensures
        stats.repaired == set_int_range(0, n).filter(|i: int| drifted(rows, i)).len(),
        stats.skipped_role == set_int_range(0, n).filter(
            |i: int| rows[i].1 != 1 && role_of(rows[i].0) is Some && !drifted(rows, i),
        ).len(),
        stats.skipped_non_role == set_int_range(0, n).filter(
            |i: int| rows[i].1 != 1 && role_of(rows[i].0) is None,
        ).len(),
{
    lemma_count_rows(rows, n);
}

proof fn lemma_count_rows(rows: Seq<(JsonView, Diff)>, n: int)
    requires
        0 <= n <= rows.len(),
    ensures
        count(rows, Verdict::Repairable, n) == set_int_range(0, n).filter(
            |i: int| drifted(rows, i),
        ).len(),
        count(rows, Verdict::UnexpectedDiff, n) + count(rows, Verdict::NoStaleSibling, n) + count(
            rows,
            Verdict::AmbiguousLive,
            n,
        ) == set_int_range(0, n).filter(
            |i: int| rows[i].1 != 1 && role_of(rows[i].0) is Some && !drifted(rows, i),
        ).len(),
        count(rows, Verdict::NotARole, n) == set_int_range(0, n).filter(
            |i: int| rows[i].1 != 1 && role_of(rows[i].0) is None,
        ).len(),
    decreases n,
{
    let repaired = |i: int| drifted(rows, i);
    let role = |i: int| rows[i].1 != 1 && role_of(rows[i].0) is Some && !drifted(rows, i);
    let other = |i: int| rows[i].1 != 1 && role_of(rows[i].0) is None;
    if n == 0 {
        lemma_count_positions(repaired, 0);
        lemma_count_positions(role, 0);
        lemma_count_positions(other, 0);
    } else {
        lemma_count_rows(rows, n - 1);
        lemma_count_positions(repaired, n - 1);
        lemma_count_positions(role, n - 1);
        lemma_count_positions(other, n - 1);
        law_fingerprint(rows, n - 1);
        law_verdicts(rows, n - 1);
    }
}

/// The account of a repair has one row repaired for each row that is added, and one row retracted
/// for each that is taken away; each update is one or the other.
pub proof fn law_account_counts_updates(rows: Seq<(JsonView, Diff)>, n: int, stats: RepairStats)
    requires
        0 <= n <= rows.len(),
        accounts(stats, rows, n),
    ensures
        stats.repaired == set_int_range(0, repairs(rows, n).len() as int).filter(
            |k: int| repairs(rows, n)[k].1 == 1,
        ).len(),
        stats.stale_retracted == set_int_range(0, repairs(rows, n).len() as int).filter(
            |k: int| repairs(rows, n)[k].1 == -1,
        ).len(),
        stats.repaired + stats.stale_retracted == repairs(rows, n).len(),
{
    lemma_changes_repairs(rows, n);
    lemma_changes_positions(repairs(rows, n), ONE, repairs(rows, n).len() as int);
    lemma_changes_positions(repairs(rows, n), MINUS_ONE, repairs(rows, n).len() as int);
    assert(repairs(rows, n).take(repairs(rows, n).len() as int) =~= repairs(rows, n));
}

proof fn lemma_changes_positions(updates: Seq<(JsonView, Diff)>, diff: Diff, n: int)
    requires
        0 <= n <= updates.len(),
    ensures
        changes_by(updates.take(n), diff) == set_int_range(0, n).filter(
            |k: int| updates[k].1 == diff,
        ).len(),
    decreases n,
{
    let pred = |k: int| updates[k].1 == diff;
    if n == 0 {
        lemma_count_positions(pred, 0);
    } else {
        lemma_changes_positions(updates, diff, n - 1);
        lemma_count_positions(pred, n - 1);
        assert(updates.take(n).drop_last() =~= updates.take(n - 1));
        assert(updates.take(n).last() == updates[n - 1]);
    }
}

/// The repair goes through the snapshot in order. For the dangling row of a drifted role it adds the
/// row once, then takes away, once and in order, each row present once that reads as the same role;
/// for any other row it writes nothing.
pub proof fn law_repair_follows_the_snapshot(rows: Seq<(JsonView, Diff)>, i: int)
    requires
        0 <= i < rows.len(),
    ensures
        repairs(rows, 0) == Seq::<(JsonView, Diff)>::empty(),
        !drifted(rows, i) ==> repairs(rows, i + 1) == repairs(rows, i),
        drifted(rows, i) ==> exists|group: Seq<int>|
            {
                &&& #[trigger] increasing(group)
                &&& forall|j: int| #[trigger]
                    group.contains(j) <==> 0 <= j < rows.len() && rows[j].1 == 1 && role_of(
                        rows[j].0,
                    ) == role_of(rows[i].0)
                &&& repairs(rows, i + 1) == repairs(rows, i) + seq![(rows[i].0, 1i64)] + Seq::new(
                    group.len(),
                    |a: int| (rows[group[a]].0, -1i64),
                )
            },
{
    law_fingerprint(rows, i);
    lemma_siblings_members(rows, i);
    if drifted(rows, i) {
        let group = stale(rows, i);
        assert(increasing(group));
        assert(retractions(rows, group) =~= Seq::new(
            group.len(),
            |a: int| (rows[group[a]].0, -1i64),
        ));
        assert(repairs(rows, i + 1) =~= repairs(rows, i) + seq![(rows[i].0, 1i64)] + Seq::new(
            group.len(),
            |a: int| (rows[group[a]].0, -1i64),
        ));
        assert forall|j: int| #[trigger] group.contains(j) <==> 0 <= j < rows.len() && rows[j].1
            == 1 && role_of(rows[j].0) == role_of(rows[i].0) by {
            assert(group.contains(j) <==> is_stale(rows, i, j));
        }
    } else {
        assert(repairs(rows, i + 1) =~= repairs(rows, i));
    }
}

/// Whatever the repair writes is of a drifted role: it adds the role's dangling row, or takes away a
/// row present once that reads as the same role. A row that reads as another state of the role, or
/// as another role, is not spoken of on its account.
pub proof fn law_repair_is_of_drifted_roles(rows: Seq<(JsonView, Diff)>, n: int, k: int)
    requires
        0 <= n <= rows.len(),
        0 <= k < repairs(rows, n).len(),
    ensures
        exists|i: int, j: int|
            {
                &&& 0 <= i < n
                &&& #[trigger] drifted(rows, i)
                &&& 0 <= j < rows.len()
                &&& repairs(rows, n)[k].0 == (#[trigger] rows[j]).0
                &&& role_of(rows[j].0) == role_of(rows[i].0)
                &&& rows[j].1 == -repairs(rows, n)[k].1
                &&& repairs(rows, n)[k].1 == 1 && j == i || repairs(rows, n)[k].1 == -1
            },
    decreases n,
{
    if n > 0 {
        let i = n - 1;
        let before = repairs(rows, i);
        law_fingerprint(rows, i);
        if k < before.len() {
            law_repair_is_of_drifted_roles(rows, i, k);
            let (a, b) = choose|a: int, b: int|
                {
                    &&& 0 <= a < i
                    &&& #[trigger] drifted(rows, a)
                    &&& 0 <= b < rows.len()
                    &&& before[k].0 == (#[trigger] rows[b]).0
                    &&& role_of(rows[b].0) == role_of(rows[a].0)
                    &&& rows[b].1 == -before[k].1
                    &&& before[k].1 == 1 && b == a || before[k].1 == -1
                };
            assert(drifted(rows, a) && rows[b] == rows[b] && a < n);
        } else if verdict(rows, i) == Verdict::Repairable {
            let group = stale(rows, i);
            lemma_siblings_members(rows, i);
            if k == before.len() {
                assert(repairs(rows, n)[k] == (rows[i].0, ONE));
                assert(drifted(rows, i) && rows[i].1 == -1);
            } else {
                let j = group[k - before.len() - 1];
                assert(group.contains(j));
                assert(is_stale(rows, i, j));
                assert(repairs(rows, n)[k] == (rows[j].0, MINUS_ONE));
                assert(drifted(rows, i) && rows[j].1 == 1);
            }
        }
    }
}

/// The unsound rows are those that are not present once, each once and in order.
pub proof fn law_unsound_rows(rows: Seq<(JsonView, Diff)>, n: int)
    requires
        0 <= n <= rows.len(),
    ensures
        forall|a: int, b: int|
            0 <= a < b < unsound(rows, n).len() ==> #[trigger] unsound(rows, n)[a]
                < #[trigger] unsound(rows, n)[b],
        forall|j: int| #[trigger]
            unsound(rows, n).contains(j) <==> 0 <= j < n && rows[j].1 != 1,
{
    lemma_select(|j: int| rows[j].1 != ONE, n);
}

} // verus!
