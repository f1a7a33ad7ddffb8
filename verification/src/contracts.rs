//! What a caller may rely on of each operation, whatever it is called with.
use crate::json::{Json, JsonView};
use crate::laws::{is_live, is_stale, law_siblings, law_unsound_rows, law_verdicts};
use crate::reading::{role_of, try_as_role};
use crate::repair::{
    accounts, compute_repairs, findings, live, positions, repairs, rows_view, stale, unsound,
    updates_view, Finding, RepairStats, Verdict,
};
use crate::role::{Role, RoleValue, RoleVar, RoleVarView, RoleView};
use crate::state_update::{version_update_kind, Diff, StateUpdateKindJson, Timestamp};
use crate::stored_form::{
    holds, lacks, law_bare_name, law_only_member, law_optional_member, law_required_member,
    law_row_reads, law_sole_entry, row_form,
};
use crate::upgrade::{
    conclude_upgrade, plan_upgrade, timed_view, upgrade_updates, Conclusion, Mode, UpgradeAction,
    UpgradeEvent,
};
use crate::writing::{law_role_reads_back, role_row};
use vstd::prelude::*;

verus! {

/// The value of a stored value keeps what kind of value it is, and all that it is made of.
pub proof fn law_json_view(value: Json)
    ensures
        match value {
            Json::Null => value@ == JsonView::Null,
            Json::Bool(b) => value@ == JsonView::Bool(b),
            Json::Uint(n) => value@ == JsonView::Uint(n),
            Json::Number(s) => value@ == JsonView::Number(s@),
            Json::Text(s) => value@ == JsonView::Text(s@),
            Json::List(items) => {
                &&& value@ is List
                &&& value@->List_0.len() == items@.len()
                &&& forall|i: int|
                    0 <= i < items@.len() ==> #[trigger] value@->List_0[i] == items@[i]@
            },
            Json::Dict(entries) => {
                &&& value@ is Dict
                &&& value@->Dict_0.len() == entries@.len()
                &&& forall|i: int|
                    0 <= i < entries@.len() ==> #[trigger] value@->Dict_0[i] == (
                        entries@[i].0@,
                        entries@[i].1@,
                    )
            },
        },
{
    reveal_with_fuel(<Json as View>::view, 2);
}

/// The value of a session variable keeps its text or its texts.
pub proof fn law_var_view(var: RoleVar)
    ensures
        match var {
            RoleVar::Flat(text) => var@ == RoleVarView::Flat(text@),
            RoleVar::SqlSet(texts) => {
                &&& var@ is SqlSet
                &&& var@->SqlSet_0.len() == texts@.len()
                &&& forall|i: int|
                    0 <= i < texts@.len() ==> #[trigger] var@->SqlSet_0[i] == texts@[i]@
            },
        },
{
}

/// The value of a role keeps every member of it.
pub proof fn law_role_view(role: Role)
    ensures
        role@.key == role.key,
        role@.value.name == role.value.name@,
        role@.value.oid == role.value.oid,
        role@.value.attributes == role.value.attributes,
        role@.value.membership == role.value.membership.map@,
        role@.value.vars.len() == role.value.vars.entries@.len(),
        forall|i: int|
            0 <= i < role.value.vars.entries@.len() ==> (#[trigger] role@.value.vars[i]).key
                == role.value.vars.entries@[i].key@ && role@.value.vars[i].val
                == role.value.vars.entries@[i].val@,
{
}

/// Members are found in an object by their names.
pub proof fn law_required(value: Json, name: &str, res: Option<&Json>, member: JsonView)
    requires
        call_ensures(Json::required, (&value, name), res),
    ensures
        holds(value@, name@, member) <==> res is Some && res->0@ == member,
{
    law_required_member(value@, name@, member);
}

/// Members that may be missing are found in an object by their names, or found to be missing.
pub proof fn law_optional(value: Json, name: &str, res: Option<Option<&Json>>, member: JsonView)
    requires
        call_ensures(Json::optional, (&value, name), res),
    ensures
        holds(value@, name@, member) <==> res is Some && res->0 is Some && res->0->0@ == member,
        lacks(value@, name@) <==> res is Some && res->0 is None,
{
    law_optional_member(value@, name@, member);
}

/// The one member of a value is found in an object by its name, or in a list of one item.
pub proof fn law_only(value: Json, name: &str, res: Option<&Json>, member: JsonView)
    requires
        call_ensures(Json::only, (&value, name), res),
    ensures
        holds(value@, name@, member) || value@ == JsonView::List(seq![member]) <==> res is Some
            && res->0@ == member,
{
    law_only_member(value@, name@, member);
}

/// The one entry of an object is found.
pub proof fn law_sole(
    value: Json,
    res: Option<(&String, &Json)>,
    name: Seq<char>,
    content: JsonView,
)
    requires
        call_ensures(Json::sole, (&value,), res),
    ensures
        value@ == JsonView::Dict(seq![(name, content)]) <==> res is Some && (res->0).0@ == name
            && (res->0).1@ == content,
{
    law_sole_entry(value@, name, content);
}

/// A name is found bare, or as the name of an object's one entry that says nothing.
pub proof fn law_bare(value: Json, res: Option<&String>, name: Seq<char>)
    requires
        call_ensures(Json::bare, (&value,), res),
    ensures
        res is Some && res->0@ == name <==> {
            ||| value@ == JsonView::Text(name)
            ||| value@ == JsonView::Dict(seq![(name, JsonView::Null)])
            ||| value@ == JsonView::Dict(seq![(name, JsonView::Dict(seq![]))])
        },
{
    law_bare_name(value@, name);
}

/// Null and an object without entries say nothing, and any other value says something.
pub proof fn law_void(value: Json, res: bool)
    requires
        call_ensures(Json::void, (&value,), res),
    ensures
        res <==> value@ == JsonView::Null || value@ == JsonView::Dict(seq![]),
{
    if let JsonView::Dict(entries) = value@ {
        if entries.len() == 0 {
            assert(entries =~= seq![]);
        }
    }
}

/// A copy is stored as its original is.
pub proof fn law_copy(value: Json, res: Json)
    requires
        call_ensures(Json::copy, (&value,), res),
    ensures
        res@ == value@,
{
}

/// A copy of a row is stored as the row is.
pub proof fn law_row_copy(row: StateUpdateKindJson, res: StateUpdateKindJson)
    requires
        call_ensures(<StateUpdateKindJson as Clone>::clone, (&row,), res),
    ensures
        res.json@ == row.json@,
{
}

/// An account starts from nothing.
pub proof fn law_empty_account(res: RepairStats)
    requires
        call_ensures(<RepairStats as Default>::default, (), res),
    ensures
        res.repaired == 0,
        res.stale_retracted == 0,
        res.skipped_role == 0,
        res.skipped_non_role == 0,
{
}

/// A row is read as a role exactly where it is a stored form of the role.
pub proof fn law_try_as_role(row: StateUpdateKindJson, res: Option<Role>, role: RoleView)
    requires
        call_ensures(try_as_role, (&row,), res),
    ensures
        row_form(row.json@, role) <==> res is Some && res->0@ == role,
{
    law_row_reads(row.json@, role);
}

/// Two values of roles are the same where every member of theirs is.
pub proof fn law_same(a: RoleValue, b: RoleValue, res: bool)
    requires
        call_ensures(RoleValue::same, (&a, &b), res),
    ensures
        res <==> {
            &&& a.name@ == b.name@
            &&& a.oid == b.oid
            &&& a.attributes == b.attributes
            &&& a.membership.map@ == b.membership.map@
            &&& a.vars.entries@.len() == b.vars.entries@.len()
            &&& forall|i: int|
                0 <= i < a.vars.entries@.len() ==> (#[trigger] a.vars.entries@[i]).key@
                    == b.vars.entries@[i].key@ && a.vars.entries@[i].val@
                    == b.vars.entries@[i].val@
        },
{
    if res {
        assert(a@.vars.len() == b@.vars.len());
        assert forall|i: int| 0 <= i < a.vars.entries@.len() implies (
        #[trigger] a.vars.entries@[i]).key@ == b.vars.entries@[i].key@ && a.vars.entries@[i].val@
            == b.vars.entries@[i].val@ by {
            assert(a@.vars[i] == b@.vars[i]);
        }
    } else if a.vars.entries@.len() == b.vars.entries@.len() && forall|i: int|
        0 <= i < a.vars.entries@.len() ==> (#[trigger] a.vars.entries@[i]).key@
            == b.vars.entries@[i].key@ && a.vars.entries@[i].val@ == b.vars.entries@[i].val@ {
        assert forall|i: int| 0 <= i < a@.vars.len() implies a@.vars[i] == b@.vars[i] by {
            assert(a.vars.entries@[i].key@ == b.vars.entries@[i].key@);
        }
        assert(a@.vars =~= b@.vars);
    }
}

/// A written role is a stored form of the role, and of no other.
pub proof fn law_to_row(role: Role, res: StateUpdateKindJson, other: RoleView)
    requires
        call_ensures(Role::to_row, (&role,), res),
    ensures
        res.json@ == role_row(role@),
        row_form(res.json@, other) <==> other == role@,
{
    law_role_reads_back(role@);
    law_row_reads(res.json@, other);
    law_row_reads(res.json@, role@);
}

/// The row of a version.
pub proof fn law_version_update_kind(version: u64, res: StateUpdateKindJson)
    requires
        call_ensures(version_update_kind, (version,), res),
    ensures
        res.json@ == JsonView::Dict(
            seq![
                ("key"@, JsonView::Dict(seq![("key"@, JsonView::Text("user_version"@))])),
                ("kind"@, JsonView::Text("Config"@)),
                ("value"@, JsonView::Dict(seq![("value"@, JsonView::Uint(version))])),
            ],
        ),
{
}

/// Times are made as they are given, and step by one.
pub proof fn law_time(internal: u64, ts: Timestamp, next: Timestamp)
    requires
        call_ensures(Timestamp::new, (internal,), ts),
        call_ensures(Timestamp::step_forward, (&ts,), next),
    ensures
        ts.internal == internal,
        next.internal == internal + 1,
{
}

/// A snapshot is repaired by how its rows are stored and how often they are present, not by when
/// they were written; the updates come as they are written, and the account is theirs.
pub proof fn law_compute_repairs(
    snapshot: &[(StateUpdateKindJson, Timestamp, Diff)],
    res: (Vec<(StateUpdateKindJson, Diff)>, RepairStats),
    rows: Seq<(JsonView, Diff)>,
)
    requires
        call_ensures(compute_repairs, (snapshot,), res),
        rows.len() == snapshot@.len(),
        forall|i: int|
            0 <= i < rows.len() ==> #[trigger] rows[i] == (snapshot@[i].0.json@, snapshot@[i].2),
    ensures
        res.0@.len() == repairs(rows, rows.len() as int).len(),
        forall|k: int|
            0 <= k < res.0@.len() ==> ((#[trigger] res.0@[k]).0.json@, res.0@[k].1) == repairs(
                rows,
                rows.len() as int,
            )[k],
        accounts(res.1, rows, rows.len() as int),
{
    assert(rows_view(snapshot@) =~= rows);
    assert(updates_view(res.0@).len() == res.0@.len());
    assert forall|k: int| 0 <= k < res.0@.len() implies (
        (#[trigger] res.0@[k]).0.json@,
        res.0@[k].1,
    ) == repairs(rows, rows.len() as int)[k] by {
        assert(updates_view(res.0@)[k] == repairs(rows, rows.len() as int)[k]);
    }
}

/// The findings are of the rows that are not present once, one of each and in order. A finding names
/// the siblings of its row that read as the same role, and those that read as another state of it,
/// and its verdict follows from the row and from them.
pub proof fn law_findings(
    snapshot: &[(StateUpdateKindJson, Timestamp, Diff)],
    res: Vec<Finding>,
    rows: Seq<(JsonView, Diff)>,
    k: int,
)
    requires
        call_ensures(findings, (snapshot,), res),
        rows.len() == snapshot@.len(),
        forall|i: int|
            0 <= i < rows.len() ==> #[trigger] rows[i] == (snapshot@[i].0.json@, snapshot@[i].2),
        0 <= k < res@.len(),
    ensures
        forall|a: int, b: int|
            0 <= a < b < res@.len() ==> (#[trigger] res@[a]).row < (#[trigger] res@[b]).row,
        forall|i: int|
            0 <= i < rows.len() && (#[trigger] rows[i]).1 != 1 ==> exists|a: int|
                0 <= a < res@.len() && (#[trigger] res@[a]).row == i,
        res@[k].row < rows.len(),
        rows[res@[k].row as int].1 != 1,
        forall|a: int, b: int|
            0 <= a < b < res@[k].stale@.len() ==> #[trigger] res@[k].stale@[a]
                < #[trigger] res@[k].stale@[b],
        forall|a: int, b: int|
            0 <= a < b < res@[k].live@.len() ==> #[trigger] res@[k].live@[a]
                < #[trigger] res@[k].live@[b],
        forall|j: usize| #[trigger]
            res@[k].stale@.contains(j) <==> is_stale(rows, res@[k].row as int, j as int),
        forall|j: usize| #[trigger]
            res@[k].live@.contains(j) <==> is_live(rows, res@[k].row as int, j as int),
        res@[k].verdict == (if role_of(rows[res@[k].row as int].0) is None {
            Verdict::NotARole
        } else if rows[res@[k].row as int].1 != -1 {
            Verdict::UnexpectedDiff
        } else if res@[k].stale@.len() == 0 {
            Verdict::NoStaleSibling
        } else if res@[k].live@.len() > 1 {
            Verdict::AmbiguousLive
        } else {
            Verdict::Repairable
        }),
{
    let n = rows.len() as int;
    let bad = unsound(rows, n);
    let finding = res@[k];
    let i = finding.row as int;
    assert(rows_view(snapshot@) =~= rows);
    law_unsound_rows(rows, n);
    assert forall|a: int, b: int| 0 <= a < b < res@.len() implies (#[trigger] res@[a]).row < (
    #[trigger] res@[b]).row by {
        assert(bad[a] < bad[b]);
    }
    assert forall|m: int| 0 <= m < n && (#[trigger] rows[m]).1 != 1 implies exists|a: int|
        0 <= a < res@.len() && (#[trigger] res@[a]).row == m by {
        assert(bad.contains(m));
        let a = choose|a: int| 0 <= a < bad.len() && bad[a] == m;
        assert(res@[a].row == m);
    }
    assert(bad.contains(bad[k]));
    law_siblings(rows, i);
    lemma_positions(finding.stale@, stale(rows, i));
    lemma_positions(finding.live@, live(rows, i));
    law_verdicts(rows, i);
}

/// Positions, as machine numbers and as mathematical ones.
proof fn lemma_positions(indices: Seq<usize>, s: Seq<int>)
    requires
        positions(indices) == s,
        forall|a: int, b: int| 0 <= a < b < s.len() ==> #[trigger] s[a] < #[trigger] s[b],
    ensures
        indices.len() == s.len(),
        forall|a: int, b: int|
            0 <= a < b < indices.len() ==> #[trigger] indices[a] < #[trigger] indices[b],
        forall|j: usize| #[trigger] indices.contains(j) <==> s.contains(j as int),
{
    assert forall|a: int| 0 <= a < indices.len() implies indices[a] == #[trigger] s[a] by {
        assert(positions(indices)[a] == s[a]);
    }
    assert forall|a: int, b: int| 0 <= a < b < indices.len() implies #[trigger] indices[a]
        < #[trigger] indices[b] by {
        assert(s[a] < s[b]);
    }
    assert forall|j: usize| #[trigger] indices.contains(j) <==> s.contains(j as int) by {
        if indices.contains(j) {
            let a = choose|a: int| 0 <= a < indices.len() && indices[a] == j;
            assert(s[a] == j);
        }
        if s.contains(j as int) {
            let a = choose|a: int| 0 <= a < s.len() && s[a] == j;
            assert(indices[a] == j);
        }
    }
}

/// A catalog that may be written to durably is appended to at its own time; any other has the same
/// updates applied in memory, all at its own time, and then stands one step later.
pub proof fn law_plan_upgrade(
    snapshot: &[(StateUpdateKindJson, Timestamp, Diff)],
    mode: Mode,
    commit_ts: Timestamp,
    res: (UpgradeAction, RepairStats),
    rows: Seq<(JsonView, Diff)>,
)
    requires
        call_ensures(plan_upgrade, (snapshot, mode, commit_ts), res),
        rows.len() == snapshot@.len(),
        forall|i: int|
            0 <= i < rows.len() ==> #[trigger] rows[i] == (snapshot@[i].0.json@, snapshot@[i].2),
    ensures
        accounts(res.1, rows, rows.len() as int),
        res.0 is CompareAndAppend <==> mode == Mode::Writable,
        match res.0 {
            UpgradeAction::CompareAndAppend { updates, commit_ts: ts } => {
                &&& ts == commit_ts
                &&& updates@.len() == upgrade_updates(rows).len()
                &&& forall|k: int|
                    0 <= k < updates@.len() ==> ((#[trigger] updates@[k]).0.json@, updates@[k].1)
                        == upgrade_updates(rows)[k]
            },
            UpgradeAction::ApplyAndConsolidate { timed, next_ts } => {
                &&& next_ts.internal == commit_ts.internal + 1
                &&& timed@.len() == upgrade_updates(rows).len()
                &&& forall|k: int|
                    0 <= k < timed@.len() ==> ((#[trigger] timed@[k]).kind.json@, timed@[k].diff)
                        == upgrade_updates(rows)[k] && timed@[k].ts == commit_ts
            },
        },
{
    assert(rows_view(snapshot@) =~= rows);
    match res.0 {
        UpgradeAction::CompareAndAppend { updates, commit_ts: ts } => {
            assert(updates_view(updates@).len() == updates@.len());
            assert forall|k: int| 0 <= k < updates@.len() implies (
                (#[trigger] updates@[k]).0.json@,
                updates@[k].1,
            ) == upgrade_updates(rows)[k] by {
                assert(updates_view(updates@)[k] == upgrade_updates(rows)[k]);
            }
        },
        UpgradeAction::ApplyAndConsolidate { timed, next_ts } => {
            assert(timed_view(timed@).len() == timed@.len());
            assert forall|k: int| 0 <= k < timed@.len() implies (
                (#[trigger] timed@[k]).kind.json@,
                timed@[k].diff,
            ) == upgrade_updates(rows)[k] && timed@[k].ts == commit_ts by {
                assert(timed_view(timed@)[k] == upgrade_updates(rows)[k]);
            }
        },
    }
}

/// An upgrade whose action succeeded ends at the new version and at the time that the action led to,
/// and its catalog is consolidated. One whose action failed ends with the error of the action.
pub proof fn law_conclude_upgrade<E>(event: UpgradeEvent<E>, res: Conclusion<E>)
    requires
        call_ensures(conclude_upgrade::<E>, (event,), res),
    ensures
        match event {
            UpgradeEvent::Appended(result) => {
                &&& result is Ok <==> res is Consolidate
                &&& result is Ok ==> res->commit_ts == result->Ok_0
                &&& result is Err ==> res->Stop_0 == result->Err_0
            },
            UpgradeEvent::Applied { next_ts, result } => {
                &&& result is Ok <==> res is Consolidate
                &&& result is Ok ==> res->commit_ts == next_ts
                &&& result is Err ==> res->Stop_0 == result->Err_0
            },
        },
        res is Consolidate ==> res->version == 83,
{
}

/// Any row can be read, any role written, and any snapshot examined and repaired. A catalog's upgrade
/// can be planned unless it is kept in memory and stands at the last point in time.
pub proof fn law_nothing_else_is_asked_of_callers<E>(
    value: Json,
    name: &str,
    row: StateUpdateKindJson,
    role: Role,
    a: RoleValue,
    b: RoleValue,
    snapshot: &[(StateUpdateKindJson, Timestamp, Diff)],
    mode: Mode,
    ts: Timestamp,
    number: u64,
    event: UpgradeEvent<E>,
)
    ensures
        call_requires(Json::required, (&value, name)),
        call_requires(Json::optional, (&value, name)),
        call_requires(Json::only, (&value, name)),
        call_requires(Json::sole, (&value,)),
        call_requires(Json::bare, (&value,)),
        call_requires(Json::void, (&value,)),
        call_requires(Json::copy, (&value,)),
        call_requires(try_as_role, (&row,)),
        call_requires(Role::to_row, (&role,)),
        call_requires(RoleValue::same, (&a, &b)),
        call_requires(version_update_kind, (number,)),
        call_requires(Timestamp::new, (number,)),
        ts.internal < u64::MAX ==> call_requires(Timestamp::step_forward, (&ts,)),
        call_requires(findings, (snapshot,)),
        call_requires(compute_repairs, (snapshot,)),
        mode == Mode::Writable || ts.internal < u64::MAX ==> call_requires(
            plan_upgrade,
            (snapshot, mode, ts),
        ),
        call_requires(conclude_upgrade::<E>, (event,)),
{
}

} // verus!
