//! The repair of role rows whose stored form has drifted.
//!
//! A role row that was stored in an older form reads as the same role as one stored in the current
//! form, but is stored differently. A retraction written in the current form then meets no row: it
//! leaves a stale row in the older form present once, its own form present minus once, and, where
//! the role was changed rather than dropped, a live row in the current form.
//!
//! For each such role the repair adds the dangling form once, which cancels it, and takes away
//! every row present once that reads the same, which completes the retraction. Whatever does not
//! fit is left alone.
use crate::json::JsonView;
use crate::reading::{role_of, try_as_role};
use crate::role::{Role, RoleId, RoleKey};
use crate::selection::{lemma_filter_increasing, lemma_filter_step, lemma_select, select};
use crate::state_update::{Diff, StateUpdateKindJson, Timestamp, MINUS_ONE, ONE};
use std::collections::BTreeMap;
use vstd::prelude::*;

verus! {

broadcast use vstd::laws_cmp::group_laws_cmp;

/// What a repair did, and what it left alone.
#[derive(Debug, Clone, Copy, PartialEq, Eq, Structural)]
pub struct RepairStats {
    /// The dangling retractions that were cancelled.
    pub repaired: usize,
    /// The stale rows that were taken away.
    pub stale_retracted: usize,
    /// The role rows that did not fit and were left alone.
    pub skipped_role: usize,
    /// The rows other than roles that were left alone.
    pub skipped_non_role: usize,
}

impl Default for RepairStats {
    fn default() -> (res: Self)
        ensures
            res == (RepairStats {
                repaired: 0,
                stale_retracted: 0,
                skipped_role: 0,
                skipped_non_role: 0,
            }),
    {
        RepairStats { repaired: 0, stale_retracted: 0, skipped_role: 0, skipped_non_role: 0 }
    }
}

/// What a snapshot's row is to the repair.
#[derive(Debug, Clone, Copy, PartialEq, Eq, Structural)]
pub enum Verdict {
    /// Present once, as a row should be.
    Sound,
    /// Not present once, and no role.
    NotARole,
    /// A role that is present neither once nor minus once.
    UnexpectedDiff,
    /// A dangling role for which no row that reads the same is present.
    NoStaleSibling,
    /// A dangling role beside more than one row of its key that reads differently.
    AmbiguousLive,
    /// A dangling role that the repair cancels.
    Repairable,
}

/// A snapshot's rows as they are stored, each with how often it is present.
pub open spec fn rows_view(snapshot: Seq<(StateUpdateKindJson, Timestamp, Diff)>) -> Seq<
    (JsonView, Diff),
> {
    Seq::new(snapshot.len(), |i: int| (snapshot[i].0@, snapshot[i].2))
}

/// The row at `j` is present once and reads as a role of the key `key`.
pub open spec fn present_role(rows: Seq<(JsonView, Diff)>, key: RoleKey, j: int) -> bool {
    rows[j].1 == ONE && role_of(rows[j].0) is Some && role_of(rows[j].0)->0.key == key
}

/// The rows among the first `n` that are present once and read as roles of the key `key`, in
/// order.
pub open spec fn present_roles(rows: Seq<(JsonView, Diff)>, key: RoleKey, n: int) -> Seq<int> {
    select(|j: int| present_role(rows, key, j), n)
}

/// The siblings of the row at `i`: the rows present once that read as roles of its key.
pub open spec fn siblings(rows: Seq<(JsonView, Diff)>, i: int) -> Seq<int> {
    match role_of(rows[i].0) {
        Some(role) => present_roles(rows, role.key, rows.len() as int),
        None => Seq::empty(),
    }
}

/// Whether a row reads as a role of the same value as the row at `i`.
pub open spec fn reads_alike(rows: Seq<(JsonView, Diff)>, i: int) -> spec_fn(int) -> bool {
    |j: int| role_of(rows[j].0)->0.value == role_of(rows[i].0)->0.value
}

/// Whether a row reads as a role of another value than the row at `i`.
pub open spec fn reads_otherwise(rows: Seq<(JsonView, Diff)>, i: int) -> spec_fn(int) -> bool {
    |j: int| role_of(rows[j].0)->0.value != role_of(rows[i].0)->0.value
}

/// The siblings of the row at `i` that read as the same role.
pub open spec fn stale(rows: Seq<(JsonView, Diff)>, i: int) -> Seq<int> {
    siblings(rows, i).filter(reads_alike(rows, i))
}

/// The siblings of the row at `i` that read as another state of the role.
pub open spec fn live(rows: Seq<(JsonView, Diff)>, i: int) -> Seq<int> {
    siblings(rows, i).filter(reads_otherwise(rows, i))
}

/// What the row at `i` is to the repair.
pub open spec fn verdict(rows: Seq<(JsonView, Diff)>, i: int) -> Verdict {
    if rows[i].1 == ONE {
        Verdict::Sound
    } else if role_of(rows[i].0) is None {
        Verdict::NotARole
    } else if rows[i].1 != MINUS_ONE {
        Verdict::UnexpectedDiff
    } else if stale(rows, i).len() == 0 {
        Verdict::NoStaleSibling
    } else if live(rows, i).len() > 1 {
        Verdict::AmbiguousLive
    } else {
        Verdict::Repairable
    }
}

/// The retraction of a row.
pub open spec fn retraction(rows: Seq<(JsonView, Diff)>) -> spec_fn(int) -> (JsonView, Diff) {
    |j: int| (rows[j].0, MINUS_ONE)
}

/// The retractions of the rows of `group`, in order.
pub open spec fn retractions(rows: Seq<(JsonView, Diff)>, group: Seq<int>) -> Seq<
    (JsonView, Diff),
> {
    group.map_values(retraction(rows))
}

/// What the repair writes for the row at `i`: the row once, which cancels it, and the retractions
/// of its stale siblings.
pub open spec fn repair_of(rows: Seq<(JsonView, Diff)>, i: int) -> Seq<(JsonView, Diff)> {
    if verdict(rows, i) == Verdict::Repairable {
        seq![(rows[i].0, ONE)] + retractions(rows, stale(rows, i))
    } else {
        Seq::empty()
    }
}

/// What the repair writes for the first `n` rows, in order.
pub open spec fn repairs(rows: Seq<(JsonView, Diff)>, n: int) -> Seq<(JsonView, Diff)>
    decreases n,
{
    if n <= 0 {
        Seq::empty()
    } else {
        repairs(rows, n - 1) + repair_of(rows, n - 1)
    }
}

/// How many of the first `n` rows have the verdict `v`.
pub open spec fn count(rows: Seq<(JsonView, Diff)>, v: Verdict, n: int) -> nat
    decreases n,
{
    if n <= 0 {
        0
    } else if verdict(rows, n - 1) == v {
        count(rows, v, n - 1) + 1
    } else {
        count(rows, v, n - 1)
    }
}

/// `stats` is the account of the repair of the first `n` rows.
pub open spec fn accounts(stats: RepairStats, rows: Seq<(JsonView, Diff)>, n: int) -> bool {
    &&& stats.repaired == count(rows, Verdict::Repairable, n)
    &&& stats.stale_retracted == repairs(rows, n).len() - count(rows, Verdict::Repairable, n)
    &&& stats.skipped_role == count(rows, Verdict::UnexpectedDiff, n) + count(
        rows,
        Verdict::NoStaleSibling,
        n,
    ) + count(rows, Verdict::AmbiguousLive, n)
    &&& stats.skipped_non_role == count(rows, Verdict::NotARole, n)
}

/// The updates in a list, by the rows' stored forms.
pub open spec fn updates_view(updates: Seq<(StateUpdateKindJson, Diff)>) -> Seq<(JsonView, Diff)> {
    Seq::new(updates.len(), |i: int| (updates[i].0@, updates[i].1))
}

/// Positions as mathematical numbers.
pub open spec fn positions(indices: Seq<usize>) -> Seq<int> {
    Seq::new(indices.len(), |i: int| indices[i] as int)
}

/// What the repair found at a row that is not sound.
#[derive(Debug, PartialEq, Eq)]
pub struct Finding {
    /// The row's position in the snapshot.
    pub row: usize,
    pub verdict: Verdict,
    /// The positions of the row's siblings that read as the same role.
    pub stale: Vec<usize>,
    /// The positions of the row's siblings that read as another state of the role.
    pub live: Vec<usize>,
}

impl Finding {
    /// The finding says of its row what holds in the snapshot.
    pub open spec fn holds(self, rows: Seq<(JsonView, Diff)>) -> bool {
        &&& self.row < rows.len()
        &&& self.verdict == verdict(rows, self.row as int)
        &&& positions(self.stale@) == stale(rows, self.row as int)
        &&& positions(self.live@) == live(rows, self.row as int)
    }
}

/// The rows among the first `n` that are not sound, in order.
pub open spec fn unsound(rows: Seq<(JsonView, Diff)>, n: int) -> Seq<int> {
    select(|j: int| rows[j].1 != ONE, n)
}

/// A number that stands for a role key.
spec fn key_code(key: RoleKey) -> u128 {
    match key.id {
        RoleId::System(n) => n as u128,
        RoleId::User(n) => (0x1_0000_0000_0000_0000 + n) as u128,
        RoleId::Public => 0x2_0000_0000_0000_0000,
        RoleId::Predefined(n) => (0x3_0000_0000_0000_0000 + n) as u128,
    }
}

fn encode_key(key: &RoleKey) -> (res: u128)
    ensures
        res == key_code(*key),
{
    match key.id {
        RoleId::System(n) => n as u128,
        RoleId::User(n) => 0x1_0000_0000_0000_0000u128 + n as u128,
        RoleId::Public => 0x2_0000_0000_0000_0000u128,
        RoleId::Predefined(n) => 0x3_0000_0000_0000_0000u128 + n as u128,
    }
}

/// The role at each row, where the row reads as one.
spec fn roles_read(roles: Seq<Option<Role>>, rows: Seq<(JsonView, Diff)>) -> bool {
    &&& roles.len() == rows.len()
    &&& forall|i: int|
        0 <= i < rows.len() ==> match #[trigger] roles[i] {
            Some(role) => role_of(rows[i].0) == Some(role@),
            None => role_of(rows[i].0) is None,
        }
}

fn read_roles(snapshot: &[(StateUpdateKindJson, Timestamp, Diff)]) -> (res: Vec<Option<Role>>)
    ensures
        roles_read(res@, rows_view(snapshot@)),
{
    let ghost rows = rows_view(snapshot@);
    let mut roles: Vec<Option<Role>> = Vec::new();
    let mut i: usize = 0;
    while i < snapshot.len()
        invariant
            rows == rows_view(snapshot@),
            i <= snapshot@.len(),
            roles@.len() == i,
            forall|j: int|
                0 <= j < i ==> match #[trigger] roles@[j] {
                    Some(role) => role_of(rows[j].0) == Some(role@),
                    None => role_of(rows[j].0) is None,
                },
        decreases snapshot@.len() - i,
    {
        roles.push(try_as_role(&snapshot[i].0));
        i += 1;
    }
    roles
}

/// The positions that an index holds for a key.
spec fn indexed(index: Map<u128, Vec<usize>>, key: RoleKey) -> Seq<int> {
    if index.contains_key(key_code(key)) {
        positions(index[key_code(key)]@)
    } else {
        Seq::empty()
    }
}

/// The rows present once that read as roles, by the roles' keys.
fn index_roles(
    snapshot: &[(StateUpdateKindJson, Timestamp, Diff)],
    roles: &Vec<Option<Role>>,
) -> (res: BTreeMap<u128, Vec<usize>>)
    requires
        roles_read(roles@, rows_view(snapshot@)),
    ensures
        forall|key: RoleKey| #[trigger]
            indexed(res@, key) == present_roles(
                rows_view(snapshot@),
                key,
                snapshot@.len() as int,
            ),
{
    let ghost rows = rows_view(snapshot@);
    let mut index: BTreeMap<u128, Vec<usize>> = BTreeMap::new();
    let mut i: usize = 0;
    while i < snapshot.len()
        invariant
            rows == rows_view(snapshot@),
            roles_read(roles@, rows),
            i <= snapshot@.len(),
            forall|key: RoleKey| #[trigger]
                indexed(index@, key) == present_roles(rows, key, i as int),
        decreases snapshot@.len() - i,
    {
        let ghost before = index@;
        if snapshot[i].2 == ONE {
            if let Some(role) = &roles[i] {
                let code: u128 = encode_key(&role.key);
                let mut group: Vec<usize> = match index.remove(&code) {
                    Some(group) => group,
                    None => Vec::new(),
                };
                assert(positions(group@) =~= indexed(before, role.key));
                group.push(i);
                assert(positions(group@) =~= indexed(before, role.key).push(i as int));
                index.insert(code, group);
            }
        }
        assert forall|key: RoleKey| #[trigger] indexed(index@, key) == present_roles(
            rows,
            key,
            i + 1,
        ) by {
            assert(indexed(before, key) == present_roles(rows, key, i as int));
        }
        i += 1;
    }
    index
}

/// Looks at the row at `i`, which is not sound.
fn examine(
    snapshot: &[(StateUpdateKindJson, Timestamp, Diff)],
    roles: &Vec<Option<Role>>,
    index: &BTreeMap<u128, Vec<usize>>,
    i: usize,
) -> (res: Finding)
    requires
        i < snapshot@.len(),
        snapshot@[i as int].2 != ONE,
        roles_read(roles@, rows_view(snapshot@)),
        forall|key: RoleKey| #[trigger]
            indexed(index@, key) == present_roles(
                rows_view(snapshot@),
                key,
                snapshot@.len() as int,
            ),
    ensures
        res.row == i,
        res.holds(rows_view(snapshot@)),
{
    let ghost rows = rows_view(snapshot@);
    let ghost same = reads_alike(rows, i as int);
    let ghost other = reads_otherwise(rows, i as int);
    let mut stale_rows: Vec<usize> = Vec::new();
    let mut live_rows: Vec<usize> = Vec::new();
    let dangling: &Role = match &roles[i] {
        Some(role) => role,
        None => {
            proof {
                reveal(Seq::filter);
                assert(positions(stale_rows@) =~= stale(rows, i as int));
                assert(positions(live_rows@) =~= live(rows, i as int));
            }
            return Finding {
                row: i,
                verdict: Verdict::NotARole,
                stale: stale_rows,
                live: live_rows,
            };
        },
    };
    let ghost near = siblings(rows, i as int);
    proof {
        lemma_select(|j: int| present_role(rows, dangling.key, j), rows.len() as int);
        assert forall|m: int| 0 <= m < near.len() implies 0 <= #[trigger] near[m] < rows.len()
            && present_role(rows, dangling.key, near[m]) by {
            assert(near.contains(near[m]));
        }
        assert(indexed(index@, dangling.key) == near);
        reveal(Seq::filter);
        assert(near.take(0) =~= Seq::<int>::empty());
        assert(positions(stale_rows@) =~= near.take(0).filter(same));
        assert(positions(live_rows@) =~= near.take(0).filter(other));
    }
    let code: u128 = encode_key(&dangling.key);
    if let Some(group) = index.get(&code) {
        assert(positions(group@) == near);
        let mut k: usize = 0;
        while k < group.len()
            invariant
                rows == rows_view(snapshot@),
                i < rows.len(),
                roles_read(roles@, rows),
                role_of(rows[i as int].0) == Some(dangling@),
                positions(group@) == near,
                forall|m: int|
                    0 <= m < near.len() ==> 0 <= #[trigger] near[m] < rows.len() && present_role(
                        rows,
                        dangling.key,
                        near[m],
                    ),
                same == reads_alike(rows, i as int),
                other == reads_otherwise(rows, i as int),
                k <= group@.len(),
                positions(stale_rows@) == near.take(k as int).filter(same),
                positions(live_rows@) == near.take(k as int).filter(other),
            decreases group@.len() - k,
        {
            let j: usize = group[k];
            assert(near[k as int] == j);
            proof {
                lemma_filter_step(near, same, k as int);
                lemma_filter_step(near, other, k as int);
            }
            if let Some(sibling) = &roles[j] {
                if sibling.value.same(&dangling.value) {
                    stale_rows.push(j);
                    assert(positions(stale_rows@) =~= near.take(k as int).filter(same).push(
                        j as int,
                    ));
                } else {
                    live_rows.push(j);
                    assert(positions(live_rows@) =~= near.take(k as int).filter(other).push(
                        j as int,
                    ));
                }
            }
            k += 1;
        }
        assert(near.take(k as int) =~= near);
    } else {
        assert(near =~= near.take(0));
    }
    let verdict: Verdict = if snapshot[i].2 != MINUS_ONE {
        Verdict::UnexpectedDiff
    } else if stale_rows.len() == 0 {
        Verdict::NoStaleSibling
    } else if live_rows.len() > 1 {
        Verdict::AmbiguousLive
    } else {
        Verdict::Repairable
    };
    Finding { row: i, verdict, stale: stale_rows, live: live_rows }
}

/// What the repair finds at each row that is not sound, in the snapshot's order.
pub fn findings(snapshot: &[(StateUpdateKindJson, Timestamp, Diff)]) -> (res: Vec<Finding>)
    ensures
        res@.len() == unsound(rows_view(snapshot@), snapshot@.len() as int).len(),
        forall|k: int|
            0 <= k < res@.len() ==> (#[trigger] res@[k]).row == unsound(
                rows_view(snapshot@),
                snapshot@.len() as int,
            )[k] && res@[k].holds(rows_view(snapshot@)),
{
    let ghost rows = rows_view(snapshot@);
    let roles: Vec<Option<Role>> = read_roles(snapshot);
    let index: BTreeMap<u128, Vec<usize>> = index_roles(snapshot, &roles);
    let mut found: Vec<Finding> = Vec::new();
    let mut i: usize = 0;
    while i < snapshot.len()
        invariant
            rows == rows_view(snapshot@),
            roles_read(roles@, rows),
            forall|key: RoleKey| #[trigger]
                indexed(index@, key) == present_roles(rows, key, snapshot@.len() as int),
            i <= snapshot@.len(),
            found@.len() == unsound(rows, i as int).len(),
            forall|k: int|
                0 <= k < found@.len() ==> (#[trigger] found@[k]).row == unsound(rows, i as int)[k]
                    && found@[k].holds(rows),
        decreases snapshot@.len() - i,
    {
        if snapshot[i].2 != ONE {
            found.push(examine(snapshot, &roles, &index, i));
        }
        i += 1;
    }
    found
}

/// The updates that repair a snapshot's drifted role rows, and an account of them.
pub fn compute_repairs(snapshot: &[(StateUpdateKindJson, Timestamp, Diff)]) -> (res: (
    Vec<(StateUpdateKindJson, Diff)>,
    RepairStats,
))
    ensures
        updates_view(res.0@) == repairs(rows_view(snapshot@), snapshot@.len() as int),
        accounts(res.1, rows_view(snapshot@), snapshot@.len() as int),
{
    let ghost rows = rows_view(snapshot@);
    let roles: Vec<Option<Role>> = read_roles(snapshot);
    let index: BTreeMap<u128, Vec<usize>> = index_roles(snapshot, &roles);
    let mut written: Vec<(StateUpdateKindJson, Diff)> = Vec::new();
    let mut stats: RepairStats = RepairStats::default();
    let mut i: usize = 0;
    assert(updates_view(written@) =~= repairs(rows, 0));
    while i < snapshot.len()
        invariant
            rows == rows_view(snapshot@),
            roles_read(roles@, rows),
            forall|key: RoleKey| #[trigger]
                indexed(index@, key) == present_roles(rows, key, snapshot@.len() as int),
            i <= snapshot@.len(),
            updates_view(written@) == repairs(rows, i as int),
            accounts(stats, rows, i as int),
            stats.repaired + stats.skipped_role + stats.skipped_non_role <= i,
        decreases snapshot@.len() - i,
    {
        if snapshot[i].2 != ONE {
            let finding: Finding = examine(snapshot, &roles, &index, i);
            match finding.verdict {
                Verdict::Sound => {},
                Verdict::NotARole => {
                    stats.skipped_non_role = stats.skipped_non_role + 1;
                },
                Verdict::UnexpectedDiff | Verdict::NoStaleSibling | Verdict::AmbiguousLive => {
                    stats.skipped_role = stats.skipped_role + 1;
                },
                Verdict::Repairable => {
                    let retracted: usize = write_repair(snapshot, &finding, &mut written);
                    let total: usize = written.len();
                    assert(updates_view(written@).len() == total);
                    stats.stale_retracted = stats.stale_retracted + retracted;
                    stats.repaired = stats.repaired + 1;
                },
            }
        }
        assert(repairs(rows, i + 1) =~= repairs(rows, i as int) + repair_of(rows, i as int));
        assert(verdict(rows, i as int) != Verdict::Repairable ==> repairs(rows, i + 1) =~= repairs(
            rows,
            i as int,
        ));
        i += 1;
    }
    (written, stats)
}

/// Writes the repair of the row that a finding speaks of, and says how many rows it retracts.
fn write_repair(
    snapshot: &[(StateUpdateKindJson, Timestamp, Diff)],
    finding: &Finding,
    written: &mut Vec<(StateUpdateKindJson, Diff)>,
) -> (res: usize)
    requires
        finding.holds(rows_view(snapshot@)),
        finding.verdict == Verdict::Repairable,
    ensures
        updates_view(final(written)@) == updates_view(old(written)@) + repair_of(
            rows_view(snapshot@),
            finding.row as int,
        ),
        res + 1 == repair_of(rows_view(snapshot@), finding.row as int).len(),
{
    let ghost rows = rows_view(snapshot@);
    let ghost i = finding.row as int;
    let ghost group = stale(rows, i);
    let ghost start = updates_view(written@) + seq![(rows[i].0, ONE)];
    proof {
        lemma_stale_in_bounds(rows, i);
    }
    written.push((snapshot[finding.row].0.clone(), ONE));
    assert(updates_view(written@) =~= start + retractions(rows, group.take(0)));
    let mut k: usize = 0;
    while k < finding.stale.len()
        invariant
            rows == rows_view(snapshot@),
            group == positions(finding.stale@),
            forall|m: int| 0 <= m < group.len() ==> 0 <= #[trigger] group[m] < rows.len(),
            k <= finding.stale@.len(),
            updates_view(written@) == start + retractions(rows, group.take(k as int)),
        decreases finding.stale@.len() - k,
    {
        let j: usize = finding.stale[k];
        assert(group[k as int] == j);
        let ghost before = written@;
        written.push((snapshot[j].0.clone(), MINUS_ONE));
        assert(updates_view(written@) =~= updates_view(before).push((rows[j as int].0, MINUS_ONE)));
        assert(retractions(rows, group.take(k + 1)) =~= retractions(
            rows,
            group.take(k as int),
        ).push((rows[j as int].0, MINUS_ONE)));
        k += 1;
    }
    assert(group.take(k as int) =~= group);
    assert(updates_view(written@) =~= updates_view(old(written)@) + repair_of(rows, i));
    k
}

/// Stale siblings are positions in the snapshot.
proof fn lemma_stale_in_bounds(rows: Seq<(JsonView, Diff)>, i: int)
    ensures
        forall|m: int|
            0 <= m < stale(rows, i).len() ==> 0 <= #[trigger] stale(rows, i)[m] < rows.len(),
{
    if let Some(role) = role_of(rows[i].0) {
        lemma_select(|j: int| present_role(rows, role.key, j), rows.len() as int);
    }
    let near = siblings(rows, i);
    lemma_filter_increasing(near, reads_alike(rows, i));
    assert forall|m: int| 0 <= m < stale(rows, i).len() implies 0 <= #[trigger] stale(rows, i)[m]
        < rows.len() by {
        assert(stale(rows, i).contains(stale(rows, i)[m]));
        assert(near.contains(stale(rows, i)[m]));
    }
}

} // verus!
