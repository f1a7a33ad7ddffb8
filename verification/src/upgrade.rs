//! The upgrade of a catalog: its repair, and the step to the next version.
use crate::json::{lemma_lookup_found, named, only_named, required_member, JsonView};
use crate::laws::{cancelled_once, law_repaired_snapshot_is_sound, law_repairs_reverse_roles};
use crate::reading::role_of;
use crate::repair::{
    accounts, compute_repairs, repairs, rows_view, updates_view, verdict, RepairStats, Verdict,
};
use crate::state_update::{
    version_row, version_update_kind, Diff, StateUpdate, StateUpdateKindJson, Timestamp, MINUS_ONE,
    ONE,
};
use crate::totals::{
    consolidated, lemma_total_absent, lemma_total_add, lemma_total_consolidated, lemma_total_one,
    total,
};
use vstd::prelude::*;

verus! {

/// The version that the upgrade starts from.
pub const FROM_VERSION: u64 = 82;

/// The version that the upgrade leads to.
pub const TO_VERSION: u64 = 83;

/// How a catalog was opened.
#[derive(Debug, Clone, Copy, PartialEq, Eq, Structural)]
pub enum Mode {
    /// Nothing may be written.
    Readonly,
    /// What is written is kept in memory alone.
    Savepoint,
    /// What is written is made durable.
    Writable,
}

/// What is to be done to the catalog.
#[derive(Debug)]
pub enum UpgradeAction {
    /// Append the updates to the durable state at the time `commit_ts`.
    CompareAndAppend { updates: Vec<(StateUpdateKindJson, Diff)>, commit_ts: Timestamp },
    /// Apply the updates to the state in memory, which then stands at `next_ts`.
    ApplyAndConsolidate { timed: Vec<StateUpdate>, next_ts: Timestamp },
}

/// What came of an action.
pub enum UpgradeEvent<E> {
    /// The append was made and moved the catalog to a new time, or it failed.
    Appended(Result<Timestamp, E>),
    /// The updates were applied, and the catalog stands at `next_ts`, or they could not be.
    Applied { next_ts: Timestamp, result: Result<(), E> },
}

/// How an upgrade ends.
#[derive(Debug, PartialEq, Eq)]
pub enum Conclusion<E> {
    /// Consolidate the catalog, then hand back its version and the time at which it stands.
    Consolidate { version: u64, commit_ts: Timestamp },
    /// Do nothing more, and hand back the error.
    Stop(E),
}

/// The updates that an upgrade makes: the repairs, the old version's retraction, and the new
/// version.
pub open spec fn upgrade_updates(rows: Seq<(JsonView, Diff)>) -> Seq<(JsonView, Diff)> {
    repairs(rows, rows.len() as int) + seq![
        (version_row(FROM_VERSION), MINUS_ONE),
        (version_row(TO_VERSION), ONE),
    ]
}

/// The rows and changes of a list of timed updates.
pub open spec fn timed_view(updates: Seq<StateUpdate>) -> Seq<(JsonView, Diff)> {
    Seq::new(updates.len(), |i: int| (updates[i].kind@, updates[i].diff))
}

/// Gives each update the time `ts`.
fn at_time(updates: Vec<(StateUpdateKindJson, Diff)>, ts: Timestamp) -> (res: Vec<StateUpdate>)
    ensures
        timed_view(res@) == updates_view(updates@),
        forall|i: int| 0 <= i < res@.len() ==> (#[trigger] res@[i]).ts == ts,
{
    let mut timed: Vec<StateUpdate> = Vec::new();
    let mut i: usize = 0;
    while i < updates.len()
        invariant
            i <= updates@.len(),
            timed@.len() == i,
            forall|j: int|
                0 <= j < i ==> (#[trigger] timed@[j]).ts == ts && timed@[j].kind@ == updates@[j].0@
                    && timed@[j].diff == updates@[j].1,
        decreases updates@.len() - i,
    {
        timed.push(StateUpdate { kind: updates[i].0.clone(), ts, diff: updates[i].1 });
        i += 1;
    }
    assert(timed_view(timed@) =~= updates_view(updates@));
    timed
}

/// Decides what an upgrade does to a catalog that was opened in the mode `mode` and stands at
/// `commit_ts`, and accounts for its repairs.
pub fn plan_upgrade(
    snapshot: &[(StateUpdateKindJson, Timestamp, Diff)],
    mode: Mode,
    commit_ts: Timestamp,
) -> (res: (UpgradeAction, RepairStats))
    requires
        mode == Mode::Writable || commit_ts.internal < u64::MAX,
    ensures
        accounts(res.1, rows_view(snapshot@), snapshot@.len() as int),
        match res.0 {
            UpgradeAction::CompareAndAppend { updates, commit_ts: ts } => {
                &&& mode == Mode::Writable
                &&& updates_view(updates@) == upgrade_updates(rows_view(snapshot@))
                &&& ts == commit_ts
            },
            UpgradeAction::ApplyAndConsolidate { timed, next_ts } => {
                &&& mode != Mode::Writable
                &&& timed_view(timed@) == upgrade_updates(rows_view(snapshot@))
                &&& forall|i: int|
                    0 <= i < timed@.len() ==> (#[trigger] timed@[i]).ts == commit_ts
                &&& next_ts.internal == commit_ts.internal + 1
            },
        },
{
    let ghost rows = rows_view(snapshot@);
    let (mut updates, stats) = compute_repairs(snapshot);
    updates.push((version_update_kind(FROM_VERSION), MINUS_ONE));
    updates.push((version_update_kind(TO_VERSION), ONE));
    assert(updates_view(updates@) =~= upgrade_updates(rows));
    let action: UpgradeAction = match mode {
        Mode::Writable => UpgradeAction::CompareAndAppend { updates, commit_ts },
        _ => {
            let next_ts: Timestamp = commit_ts.step_forward();
            UpgradeAction::ApplyAndConsolidate { timed: at_time(updates, commit_ts), next_ts }
        },
    };
    (action, stats)
}

/// Decides how an upgrade ends once its action has been tried: the catalog is consolidated and the
/// version and the time at which it then stands are handed back, or the error is and nothing more
/// is done.
pub fn conclude_upgrade<E>(event: UpgradeEvent<E>) -> (res: Conclusion<E>)
    ensures
        res == match event {
            UpgradeEvent::Appended(Ok(ts)) => Conclusion::Consolidate {
                version: TO_VERSION,
                commit_ts: ts,
            },
            UpgradeEvent::Appended(Err(e)) => Conclusion::Stop(e),
            UpgradeEvent::Applied { next_ts, result: Ok(_) } => Conclusion::Consolidate {
                version: TO_VERSION,
                commit_ts: next_ts,
            },
            UpgradeEvent::Applied { next_ts: _, result: Err(e) } => Conclusion::Stop(e),
        },
{
    match event {
        UpgradeEvent::Appended(Ok(ts)) => Conclusion::Consolidate {
            version: TO_VERSION,
            commit_ts: ts,
        },
        UpgradeEvent::Appended(Err(e)) => Conclusion::Stop(e),
        UpgradeEvent::Applied { next_ts, result: Ok(_) } => Conclusion::Consolidate {
            version: TO_VERSION,
            commit_ts: next_ts,
        },
        UpgradeEvent::Applied { next_ts: _, result: Err(e) } => Conclusion::Stop(e),
    }
}

/// A row that says the catalog's version is no role.
pub proof fn law_version_is_no_role(version: u64)
    ensures
        role_of(version_row(version)) is None,
{
    reveal_strlit("key");
    reveal_strlit("kind");
    reveal_strlit("value");
    reveal_strlit("Config");
    reveal_strlit("Role");
    let entries = version_row(version)->Dict_0;
    assert(entries[0].0.len() == 3 && entries[1].0.len() == 4 && entries[2].0.len() == 5);
    assert(named(entries, "kind"@, 1));
    assert(only_named(entries, "kind"@, 1));
    lemma_lookup_found(entries, "kind"@, 1);
    assert(required_member(version_row(version), "kind"@) == Some(JsonView::Text("Config"@)));
    assert("Config"@.len() != "Role"@.len());
}

/// Every version is stored under the one key of the configuration under which the catalog keeps its
/// version, with the version for its value and nothing else.
pub proof fn law_version_row(version: u64)
    ensures
        version_row(version) is Dict,
        version_row(version)->Dict_0.len() == 3,
        version_row(version)->Dict_0[0] == (
            "key"@,
            JsonView::Dict(seq![("key"@, JsonView::Text("user_version"@))]),
        ),
        version_row(version)->Dict_0[1] == ("kind"@, JsonView::Text("Config"@)),
        version_row(version)->Dict_0[2] == (
            "value"@,
            JsonView::Dict(seq![("value"@, JsonView::Uint(version))]),
        ),
{
}

/// The rows of any two versions have the same kind and the same key, and differ in their value
/// alone: the row of the one with the other's value is the row of the other.
pub proof fn law_versions_share_their_key(a: u64, b: u64)
    ensures
        version_row(a)->Dict_0[0] == version_row(b)->Dict_0[0],
        version_row(a)->Dict_0[1] == version_row(b)->Dict_0[1],
        version_row(b) == JsonView::Dict(
            version_row(a)->Dict_0.update(
                2,
                ("value"@, JsonView::Dict(seq![("value"@, JsonView::Uint(b))])),
            ),
        ),
{
    assert(version_row(b)->Dict_0 =~= version_row(a)->Dict_0.update(
        2,
        ("value"@, JsonView::Dict(seq![("value"@, JsonView::Uint(b))])),
    ));
}

/// An upgrade makes the repairs first, then takes the old version away, then adds the new one.
pub proof fn law_upgrade_ends_with_the_version(rows: Seq<(JsonView, Diff)>)
    ensures
        upgrade_updates(rows).len() == repairs(rows, rows.len() as int).len() + 2,
        forall|k: int|
            0 <= k < repairs(rows, rows.len() as int).len() ==> #[trigger] upgrade_updates(rows)[k]
                == repairs(rows, rows.len() as int)[k],
        upgrade_updates(rows)[upgrade_updates(rows).len() - 2] == (version_row(82), -1i64),
        upgrade_updates(rows)[upgrade_updates(rows).len() - 1] == (version_row(83), 1i64),
{
}

/// Rows of different versions are stored differently.
pub proof fn law_versions_are_told_apart(a: u64, b: u64)
    ensures
        version_row(a) == version_row(b) <==> a == b,
{
    let in_a = version_row(a)->Dict_0[2].1->Dict_0;
    let in_b = version_row(b)->Dict_0[2].1->Dict_0;
    assert(in_a[0].1 == JsonView::Uint(a) && in_b[0].1 == JsonView::Uint(b));
}

proof fn lemma_repairs_pass_over_versions(rows: Seq<(JsonView, Diff)>, version: u64)
    ensures
        total(repairs(rows, rows.len() as int), version_row(version)) == 0,
{
    let n = rows.len() as int;
    let written = repairs(rows, n);
    law_version_is_no_role(version);
    assert forall|k: int| 0 <= k < written.len() implies (#[trigger] written[k]).0 != version_row(
        version,
    ) by {
        law_repairs_reverse_roles(rows, n, k);
    }
    lemma_total_absent(written, version_row(version));
}

/// Whatever it repairs, an upgrade takes the old version away once and adds the new one once, and
/// changes no other version.
pub proof fn law_upgrade_moves_the_version(rows: Seq<(JsonView, Diff)>, version: u64)
    ensures
        total(upgrade_updates(rows), version_row(version)) == if version == FROM_VERSION {
            -1int
        } else if version == TO_VERSION {
            1
        } else {
            0
        },
{
    lemma_repairs_pass_over_versions(rows, version);
    law_versions_are_told_apart(version, FROM_VERSION);
    law_versions_are_told_apart(version, TO_VERSION);
    lemma_total_versions(rows, version_row(version));
}

/// To any row that does not say a version, an upgrade does what its repairs do.
pub proof fn law_upgrade_repairs_the_rest(rows: Seq<(JsonView, Diff)>, row: JsonView)
    requires
        row != version_row(FROM_VERSION),
        row != version_row(TO_VERSION),
    ensures
        total(upgrade_updates(rows), row) == total(repairs(rows, rows.len() as int), row),
{
    lemma_total_versions(rows, row);
}

proof fn lemma_total_versions(rows: Seq<(JsonView, Diff)>, row: JsonView)
    ensures
        total(upgrade_updates(rows), row) == total(repairs(rows, rows.len() as int), row) + (if row
            == version_row(FROM_VERSION) {
            -1int
        } else {
            0
        }) + (if row == version_row(TO_VERSION) {
            1int
        } else {
            0
        }),
{
    let step = seq![(version_row(FROM_VERSION), MINUS_ONE), (version_row(TO_VERSION), ONE)];
    lemma_total_add(repairs(rows, rows.len() as int), step, row);
    lemma_total_one((version_row(FROM_VERSION), MINUS_ONE), row);
    lemma_total_one((version_row(TO_VERSION), ONE), row);
    lemma_total_add(
        seq![(version_row(FROM_VERSION), MINUS_ONE)],
        seq![(version_row(TO_VERSION), ONE)],
        row,
    );
    assert(step =~= seq![(version_row(FROM_VERSION), MINUS_ONE)] + seq![
        (version_row(TO_VERSION), ONE),
    ]);
}

/// Where a consolidated catalog of the old version holds no unsound row but dangling roles that the
/// repair cancels, the upgraded catalog holds no row but such as are present once, among them the
/// new version and not the old.
pub proof fn law_upgraded_catalog_is_sound(rows: Seq<(JsonView, Diff)>, v: int, row: JsonView)
    requires
        consolidated(rows),
        cancelled_once(rows, row),
        forall|i: int|
            0 <= i < rows.len() ==> #[trigger] verdict(rows, i) == Verdict::Sound || verdict(
                rows,
                i,
            ) == Verdict::Repairable,
        0 <= v < rows.len(),
        rows[v] == (version_row(FROM_VERSION), ONE),
        forall|i: int| 0 <= i < rows.len() ==> (#[trigger] rows[i]).0 != version_row(TO_VERSION),
    ensures
        total(rows + upgrade_updates(rows), version_row(FROM_VERSION)) == 0,
        total(rows + upgrade_updates(rows), version_row(TO_VERSION)) == 1,
        total(rows + upgrade_updates(rows), row) == 0 || total(rows + upgrade_updates(rows), row)
            == 1,
{
    let written = repairs(rows, rows.len() as int);
    let from = version_row(FROM_VERSION);
    let to = version_row(TO_VERSION);
    law_upgrade_moves_the_version(rows, FROM_VERSION);
    law_upgrade_moves_the_version(rows, TO_VERSION);
    lemma_total_add(rows, upgrade_updates(rows), from);
    lemma_total_add(rows, upgrade_updates(rows), to);
    lemma_total_consolidated(rows, v);
    lemma_total_absent(rows, to);
    if row != from && row != to {
        law_repaired_snapshot_is_sound(rows, row);
        law_upgrade_repairs_the_rest(rows, row);
        lemma_total_add(rows, upgrade_updates(rows), row);
        lemma_total_add(rows, written, row);
    }
}

} // verus!
