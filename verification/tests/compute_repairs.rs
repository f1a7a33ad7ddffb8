use role_repair::json::Json;
use role_repair::reading::try_as_role;
use role_repair::repair::{compute_repairs, findings, RepairStats, Verdict};
use role_repair::role::{
    AutoProvisionSource, Role, RoleAttributes, RoleId, RoleKey, RoleMembership, RoleValue, RoleVars,
};
use role_repair::state_update::{Diff, StateUpdateKindJson, Timestamp, MINUS_ONE, ONE};

fn text(s: &str) -> Json {
    Json::Text(s.to_string())
}

/// An object, its entries in the order of their names.
fn dict(entries: Vec<(&str, Json)>) -> Json {
    let mut entries: Vec<(String, Json)> = entries
        .into_iter()
        .map(|(name, value)| (name.to_string(), value))
        .collect();
    entries.sort_by(|a, b| a.0.cmp(&b.0));
    Json::Dict(entries)
}

fn role_kind(
    user_id: u64,
    name: &str,
    oid: u32,
    login: Option<bool>,
    superuser: Option<bool>,
    auto_provision_source: Option<AutoProvisionSource>,
) -> StateUpdateKindJson {
    let role = Role {
        key: RoleKey {
            id: RoleId::User(user_id),
        },
        value: RoleValue {
            name: name.to_string(),
            oid,
            attributes: RoleAttributes {
                inherit: true,
                superuser,
                login,
                auto_provision_source,
            },
            membership: RoleMembership { map: vec![] },
            vars: RoleVars { entries: vec![] },
        },
    };
    role.to_row()
}

fn role_with_attributes(
    user_id: u64,
    name: &str,
    oid: u32,
    attributes: Vec<(&str, Json)>,
) -> StateUpdateKindJson {
    let json = dict(vec![
        ("kind", text("Role")),
        ("key", dict(vec![("id", dict(vec![("User", Json::Uint(user_id))]))])),
        (
            "value",
            dict(vec![
                ("name", text(name)),
                ("oid", Json::Uint(oid as u64)),
                ("attributes", dict(attributes)),
                ("membership", dict(vec![("map", Json::List(vec![]))])),
                ("vars", dict(vec![("entries", Json::List(vec![]))])),
            ]),
        ),
    ]);
    StateUpdateKindJson { json }
}

/// The older form: reads as `role_kind(.., None)` but has no `auto_provision_source` at all, so it
/// is stored differently.
fn stale_role_kind_with_dropped_field(user_id: u64, name: &str, oid: u32) -> StateUpdateKindJson {
    role_with_attributes(
        user_id,
        name,
        oid,
        vec![
            ("inherit", Json::Bool(true)),
            ("superuser", Json::Null),
            ("login", Json::Null),
        ],
    )
}

/// Another form that reads the same: a stray `password` that reads as nothing.
fn stale_role_kind_with_extra_whitespace(
    user_id: u64,
    name: &str,
    oid: u32,
) -> StateUpdateKindJson {
    role_with_attributes(
        user_id,
        name,
        oid,
        vec![
            ("inherit", Json::Bool(true)),
            ("superuser", Json::Null),
            ("login", Json::Null),
            ("auto_provision_source", Json::Null),
            ("password", Json::Null),
        ],
    )
}

fn database_kind(id: u64, name: &str) -> StateUpdateKindJson {
    let json = dict(vec![
        ("kind", text("Database")),
        ("key", dict(vec![("id", dict(vec![("User", Json::Uint(id))]))])),
        (
            "value",
            dict(vec![
                ("name", text(name)),
                ("owner_id", dict(vec![("System", Json::Uint(1))])),
                ("privileges", Json::List(vec![])),
                ("oid", Json::Uint(0)),
            ]),
        ),
    ]);
    StateUpdateKindJson { json }
}

fn snapshot(
    rows: Vec<(StateUpdateKindJson, Diff)>,
) -> Vec<(StateUpdateKindJson, Timestamp, Diff)> {
    rows.into_iter()
        .map(|(kind, diff)| (kind, Timestamp::new(0), diff))
        .collect()
}

#[test]
fn healthy_snapshot_is_a_noop() {
    let snap = snapshot(vec![
        (
            role_kind(1, "alice@example.com", 100, Some(true), None, None),
            ONE,
        ),
        (role_kind(2, "bob", 101, None, None, None), ONE),
    ]);
    let (repairs, stats) = compute_repairs(&snap);
    assert!(repairs.is_empty());
    assert_eq!(stats, RepairStats::default());
}

#[test]
fn production_shape_alter_login_is_repaired() {
    let live = role_kind(8, "jan@materialize.com", 20030, Some(true), None, None);
    let dangling = role_kind(8, "jan@materialize.com", 20030, None, None, None);
    let stale = stale_role_kind_with_dropped_field(8, "jan@materialize.com", 20030);

    assert_eq!(
        try_as_role(&stale).expect("parses as Role").value,
        try_as_role(&dangling).expect("parses as Role").value,
        "test fixture broken: stale and dangling must be parsed-equal",
    );
    assert_ne!(
        stale, dangling,
        "test fixture broken: stale and dangling must have different bytes",
    );

    let snap = snapshot(vec![
        (stale.clone(), ONE),
        (dangling.clone(), MINUS_ONE),
        (live, ONE),
    ]);
    let (repairs, stats) = compute_repairs(&snap);
    assert_eq!(repairs, vec![(dangling, ONE), (stale, MINUS_ONE)]);
    assert_eq!(
        stats,
        RepairStats {
            repaired: 1,
            stale_retracted: 1,
            ..Default::default()
        }
    );
}

#[test]
fn alter_changing_superuser_is_repaired() {
    let live = role_kind(11, "ops@materialize.com", 20040, None, Some(true), None);
    let dangling = role_kind(11, "ops@materialize.com", 20040, None, None, None);
    let stale = stale_role_kind_with_dropped_field(11, "ops@materialize.com", 20040);

    let snap = snapshot(vec![
        (stale.clone(), ONE),
        (dangling.clone(), MINUS_ONE),
        (live, ONE),
    ]);
    let (repairs, stats) = compute_repairs(&snap);
    assert_eq!(repairs, vec![(dangling, ONE), (stale, MINUS_ONE)]);
    assert_eq!(stats.repaired, 1);
    assert_eq!(stats.stale_retracted, 1);
}

#[test]
fn alter_changing_name_is_repaired() {
    let live = role_kind(12, "renamed@materialize.com", 20050, None, None, None);
    let dangling = role_kind(12, "original@materialize.com", 20050, None, None, None);
    let stale = stale_role_kind_with_dropped_field(12, "original@materialize.com", 20050);

    let snap = snapshot(vec![
        (stale.clone(), ONE),
        (dangling.clone(), MINUS_ONE),
        (live, ONE),
    ]);
    let (repairs, stats) = compute_repairs(&snap);
    assert_eq!(repairs, vec![(dangling, ONE), (stale, MINUS_ONE)]);
    assert_eq!(stats.repaired, 1);
    assert_eq!(stats.stale_retracted, 1);
}

#[test]
fn drop_role_shape_is_repaired() {
    let dangling = role_kind(13, "dropped@materialize.com", 20060, None, None, None);
    let stale = stale_role_kind_with_dropped_field(13, "dropped@materialize.com", 20060);

    let snap = snapshot(vec![(stale.clone(), ONE), (dangling.clone(), MINUS_ONE)]);
    let (repairs, stats) = compute_repairs(&snap);
    assert_eq!(repairs, vec![(dangling, ONE), (stale, MINUS_ONE)]);
    assert_eq!(
        stats,
        RepairStats {
            repaired: 1,
            stale_retracted: 1,
            ..Default::default()
        }
    );
}

#[test]
fn dangling_minus_one_with_no_parsed_equal_plus_one_is_skipped() {
    let dangling = role_kind(20, "ghost", 200, None, None, None);
    let snap = snapshot(vec![(dangling, MINUS_ONE)]);
    let (repairs, stats) = compute_repairs(&snap);
    assert!(repairs.is_empty());
    assert_eq!(stats.skipped_role, 1);
}

#[test]
fn dangling_minus_one_with_only_a_different_parsed_live_is_skipped() {
    let dangling = role_kind(21, "alice@materialize.com", 210, None, None, None);
    let live = role_kind(21, "alice@materialize.com", 210, Some(true), None, None);
    let snap = snapshot(vec![(dangling, MINUS_ONE), (live, ONE)]);
    let (repairs, stats) = compute_repairs(&snap);
    assert!(repairs.is_empty());
    assert_eq!(stats.skipped_role, 1);
}

#[test]
fn ambiguous_two_distinct_live_rows_is_skipped() {
    let live_a = role_kind(22, "alice", 220, Some(true), None, None);
    let live_b = role_kind(22, "alice", 220, Some(false), Some(true), None);
    let dangling = role_kind(22, "alice", 220, None, None, None);
    let stale = stale_role_kind_with_dropped_field(22, "alice", 220);
    let snap = snapshot(vec![
        (stale, ONE),
        (live_a, ONE),
        (live_b, ONE),
        (dangling, MINUS_ONE),
    ]);
    let (repairs, stats) = compute_repairs(&snap);
    assert!(repairs.is_empty());
    assert_eq!(stats.skipped_role, 1);
}

#[test]
fn dangling_non_role_is_skipped() {
    let dangling = database_kind(1, "ghostdb");
    let snap = snapshot(vec![(dangling, MINUS_ONE)]);
    let (repairs, stats) = compute_repairs(&snap);
    assert!(repairs.is_empty());
    assert_eq!(stats.skipped_non_role, 1);
}

#[test]
fn dangling_diff_other_than_minus_one_is_skipped() {
    let dangling = role_kind(30, "arjun", 20032, None, None, None);
    let stale = stale_role_kind_with_dropped_field(30, "arjun", 20032);
    let live = role_kind(30, "arjun", 20032, Some(true), None, None);
    let snap = snapshot(vec![
        (dangling, MINUS_ONE + MINUS_ONE),
        (stale, ONE),
        (live, ONE),
    ]);
    let (repairs, stats) = compute_repairs(&snap);
    assert!(repairs.is_empty());
    assert_eq!(stats.skipped_role, 1);
}

#[test]
fn repair_with_multiple_stale_byte_forms_retracts_all() {
    let live = role_kind(40, "alice@materialize.com", 20070, Some(true), None, None);
    let dangling = role_kind(40, "alice@materialize.com", 20070, None, None, None);
    let stale_a = stale_role_kind_with_dropped_field(40, "alice@materialize.com", 20070);
    let stale_b = stale_role_kind_with_extra_whitespace(40, "alice@materialize.com", 20070);
    assert_ne!(stale_a, stale_b);

    let snap = snapshot(vec![
        (stale_a.clone(), ONE),
        (stale_b.clone(), ONE),
        (dangling.clone(), MINUS_ONE),
        (live, ONE),
    ]);
    let (repairs, stats) = compute_repairs(&snap);
    let plus = repairs
        .iter()
        .filter(|(_, d)| *d == ONE)
        .map(|(k, _)| k.clone())
        .collect::<Vec<_>>();
    let minus = repairs
        .iter()
        .filter(|(_, d)| *d == MINUS_ONE)
        .map(|(k, _)| k.clone())
        .collect::<std::collections::BTreeSet<_>>();
    assert_eq!(plus, vec![dangling]);
    let expected_minus: std::collections::BTreeSet<_> = [stale_a, stale_b].into_iter().collect();
    assert_eq!(minus, expected_minus);
    assert_eq!(stats.repaired, 1);
    assert_eq!(stats.stale_retracted, 2);
}

/// The rows that are present other than not at all, once every update is added up.
fn consolidate(rows: Vec<(StateUpdateKindJson, Diff)>) -> Vec<(StateUpdateKindJson, Diff)> {
    let mut totals: std::collections::BTreeMap<StateUpdateKindJson, Diff> =
        std::collections::BTreeMap::new();
    for (row, diff) in rows {
        *totals.entry(row).or_insert(0) += diff;
    }
    totals.into_iter().filter(|(_, diff)| *diff != 0).collect()
}

#[test]
fn retractions_stand_in_snapshot_order() {
    let dangling = role_kind(41, "a", 1, None, None, None);
    let stale_a = stale_role_kind_with_extra_whitespace(41, "a", 1);
    let stale_b = stale_role_kind_with_dropped_field(41, "a", 1);
    let snap = snapshot(vec![
        (stale_a.clone(), ONE),
        (dangling.clone(), MINUS_ONE),
        (stale_b.clone(), ONE),
    ]);
    let (repairs, _) = compute_repairs(&snap);
    assert_eq!(
        repairs,
        vec![
            (dangling, ONE),
            (stale_a, MINUS_ONE),
            (stale_b, MINUS_ONE)
        ]
    );
}

#[test]
fn repaired_snapshot_is_sound_and_needs_no_second_repair() {
    let live = role_kind(8, "jan", 20030, Some(true), None, None);
    let dangling = role_kind(8, "jan", 20030, None, None, None);
    let stale = stale_role_kind_with_dropped_field(8, "jan", 20030);
    let other = role_kind(9, "eve", 20031, None, None, None);
    let rows = vec![
        (stale, ONE),
        (dangling, MINUS_ONE),
        (live.clone(), ONE),
        (other.clone(), ONE),
    ];
    let (repairs, _) = compute_repairs(&snapshot(rows.clone()));
    let mut all = rows;
    all.extend(repairs);
    let after = consolidate(all);
    let mut expected = vec![(live, ONE), (other, ONE)];
    expected.sort();
    assert_eq!(after, expected);
    let (again, stats) = compute_repairs(&snapshot(after));
    assert!(again.is_empty());
    assert_eq!(stats, RepairStats::default());
}

#[test]
fn roles_of_other_keys_are_no_siblings() {
    let dangling = role_kind(1, "a", 1, None, None, None);
    let stranger = stale_role_kind_with_dropped_field(2, "a", 1);
    let system = Role {
        key: RoleKey {
            id: RoleId::System(1),
        },
        ..try_as_role(&dangling).expect("a role")
    };
    let snap = snapshot(vec![
        (dangling, MINUS_ONE),
        (stranger, ONE),
        (system.to_row(), ONE),
    ]);
    let (repairs, stats) = compute_repairs(&snap);
    assert!(repairs.is_empty());
    assert_eq!(
        stats,
        RepairStats {
            skipped_role: 1,
            ..Default::default()
        }
    );
}

#[test]
fn sibling_stored_like_the_dangling_row_is_retracted_too() {
    let dangling = role_kind(5, "a", 1, None, None, None);
    let stale = stale_role_kind_with_dropped_field(5, "a", 1);
    let snap = snapshot(vec![
        (dangling.clone(), ONE),
        (stale.clone(), ONE),
        (dangling.clone(), MINUS_ONE),
    ]);
    let (repairs, stats) = compute_repairs(&snap);
    assert_eq!(
        repairs,
        vec![
            (dangling.clone(), ONE),
            (dangling, MINUS_ONE),
            (stale, MINUS_ONE)
        ]
    );
    assert_eq!(
        stats,
        RepairStats {
            repaired: 1,
            stale_retracted: 2,
            ..Default::default()
        }
    );
}

#[test]
fn role_present_once_and_minus_once_stays_at_nothing() {
    let x = role_kind(50, "dup", 500, None, None, None);
    let rows = vec![(x.clone(), ONE), (x.clone(), MINUS_ONE)];
    let (repairs, stats) = compute_repairs(&snapshot(rows.clone()));
    assert_eq!(repairs, vec![(x.clone(), ONE), (x, MINUS_ONE)]);
    assert_eq!(stats.repaired, 1);
    assert_eq!(stats.stale_retracted, 1);
    let mut all = rows;
    all.extend(repairs);
    assert!(consolidate(all).is_empty());
}

#[test]
fn roles_are_repaired_independently() {
    let a = vec![
        (stale_role_kind_with_dropped_field(1, "a", 1), ONE),
        (role_kind(1, "a", 1, None, None, None), MINUS_ONE),
        (database_kind(1, "ghostdb"), MINUS_ONE),
    ];
    let b = vec![
        (role_kind(2, "b", 2, None, None, None), MINUS_ONE),
        (stale_role_kind_with_extra_whitespace(2, "b", 2), ONE),
        (role_kind(3, "c", 3, None, None, None), MINUS_ONE),
    ];
    let mut both = a.clone();
    both.extend(b.clone());
    let (mut expected, of_a) = compute_repairs(&snapshot(a));
    let (repairs_b, of_b) = compute_repairs(&snapshot(b));
    expected.extend(repairs_b);
    let (repairs, stats) = compute_repairs(&snapshot(both));
    assert_eq!(repairs, expected);
    assert_eq!(
        stats,
        RepairStats {
            repaired: of_a.repaired + of_b.repaired,
            stale_retracted: of_a.stale_retracted + of_b.stale_retracted,
            skipped_role: of_a.skipped_role + of_b.skipped_role,
            skipped_non_role: of_a.skipped_non_role + of_b.skipped_non_role,
        }
    );
    assert_eq!(
        stats,
        RepairStats {
            repaired: 2,
            stale_retracted: 2,
            skipped_role: 1,
            skipped_non_role: 1,
        }
    );
}

#[test]
fn second_repair_leaves_the_same_rows_alone() {
    let rows = vec![
        (stale_role_kind_with_dropped_field(1, "a", 1), ONE),
        (role_kind(1, "a", 1, None, None, None), MINUS_ONE),
        (database_kind(1, "ghostdb"), MINUS_ONE),
        (role_kind(3, "c", 3, None, None, None), MINUS_ONE),
        (role_kind(4, "d", 4, None, None, None), 2),
    ];
    let (repairs, first) = compute_repairs(&snapshot(rows.clone()));
    let mut all = rows;
    all.extend(repairs);
    let (again, second) = compute_repairs(&snapshot(consolidate(all)));
    assert!(again.is_empty());
    assert_eq!(
        second,
        RepairStats {
            repaired: 0,
            stale_retracted: 0,
            ..first
        }
    );
    assert_eq!((second.skipped_role, second.skipped_non_role), (2, 1));
}

#[test]
fn row_present_not_at_all_is_skipped() {
    let snap = snapshot(vec![
        (role_kind(5, "a", 1, None, None, None), 0),
        (database_kind(2, "db"), 2),
    ]);
    let (repairs, stats) = compute_repairs(&snap);
    assert!(repairs.is_empty());
    assert_eq!(
        stats,
        RepairStats {
            skipped_role: 1,
            skipped_non_role: 1,
            ..Default::default()
        }
    );
}

#[test]
fn every_unsound_row_is_counted_and_found() {
    let live_a = role_kind(22, "alice", 220, Some(true), None, None);
    let live_b = role_kind(22, "alice", 220, Some(false), Some(true), None);
    let snap = snapshot(vec![
        (stale_role_kind_with_dropped_field(22, "alice", 220), ONE),
        (live_a, ONE),
        (live_b, ONE),
        (role_kind(22, "alice", 220, None, None, None), MINUS_ONE),
        (database_kind(1, "ghostdb"), MINUS_ONE),
        (role_kind(20, "ghost", 200, None, None, None), MINUS_ONE),
        (role_kind(30, "arjun", 300, None, None, None), -2),
        (stale_role_kind_with_dropped_field(40, "bob", 400), ONE),
        (role_kind(40, "bob", 400, Some(true), None, None), ONE),
        (role_kind(40, "bob", 400, None, None, None), MINUS_ONE),
    ]);
    let found = findings(&snap);
    let seen: Vec<(usize, Verdict, Vec<usize>, Vec<usize>)> = found
        .into_iter()
        .map(|f| (f.row, f.verdict, f.stale, f.live))
        .collect();
    assert_eq!(
        seen,
        vec![
            (3, Verdict::AmbiguousLive, vec![0], vec![1, 2]),
            (4, Verdict::NotARole, vec![], vec![]),
            (5, Verdict::NoStaleSibling, vec![], vec![]),
            (6, Verdict::UnexpectedDiff, vec![], vec![]),
            (9, Verdict::Repairable, vec![7], vec![8]),
        ]
    );
    let (repairs, stats) = compute_repairs(&snap);
    assert_eq!(repairs.len(), 2);
    assert_eq!(
        stats,
        RepairStats {
            repaired: 1,
            stale_retracted: 1,
            skipped_role: 3,
            skipped_non_role: 1,
        }
    );
}

#[test]
fn two_dangling_forms_of_one_role_are_both_repaired() {
    let dangling_a = role_kind(5, "a", 1, None, None, None);
    let dangling_b = stale_role_kind_with_extra_whitespace(5, "a", 1);
    let stale = stale_role_kind_with_dropped_field(5, "a", 1);
    let snap = snapshot(vec![
        (dangling_a.clone(), MINUS_ONE),
        (dangling_b.clone(), MINUS_ONE),
        (stale.clone(), ONE),
    ]);
    let (repairs, stats) = compute_repairs(&snap);
    assert_eq!(
        repairs,
        vec![
            (dangling_a, ONE),
            (stale.clone(), MINUS_ONE),
            (dangling_b, ONE),
            (stale, MINUS_ONE),
        ]
    );
    assert_eq!(stats.repaired, 2);
    assert_eq!(stats.stale_retracted, 2);
}
