use role_repair::json::Json;
use role_repair::repair::RepairStats;
use role_repair::role::{
    Role, RoleAttributes, RoleId, RoleKey, RoleMembership, RoleValue, RoleVars,
};
use role_repair::state_update::{
    version_update_kind, Diff, StateUpdateKindJson, Timestamp, MINUS_ONE, ONE,
};
use role_repair::upgrade::{
    conclude_upgrade, plan_upgrade, Conclusion, Mode, UpgradeAction, UpgradeEvent, FROM_VERSION,
    TO_VERSION,
};

fn current_form() -> StateUpdateKindJson {
    Role {
        key: RoleKey {
            id: RoleId::User(1),
        },
        value: RoleValue {
            name: "r".to_string(),
            oid: 1,
            attributes: RoleAttributes {
                inherit: true,
                superuser: None,
                login: None,
                auto_provision_source: None,
            },
            membership: RoleMembership { map: vec![] },
            vars: RoleVars { entries: vec![] },
        },
    }
    .to_row()
}

/// The same role without the first member of its attributes, which is its source.
fn older_form() -> StateUpdateKindJson {
    let mut row = current_form();
    if let Json::Dict(members) = &mut row.json {
        if let Json::Dict(value) = &mut members[2].1 {
            if let Json::Dict(attributes) = &mut value[0].1 {
                let dropped = attributes.remove(0);
                assert_eq!(dropped, ("auto_provision_source".to_string(), Json::Null));
            }
        }
    }
    assert_ne!(row, current_form());
    row
}

fn snapshot() -> Vec<(StateUpdateKindJson, Timestamp, Diff)> {
    vec![
        (version_update_kind(82), Timestamp::new(3), ONE),
        (older_form(), Timestamp::new(3), ONE),
        (current_form(), Timestamp::new(3), MINUS_ONE),
    ]
}

fn expected_updates() -> Vec<(StateUpdateKindJson, Diff)> {
    vec![
        (current_form(), ONE),
        (older_form(), MINUS_ONE),
        (version_update_kind(82), MINUS_ONE),
        (version_update_kind(83), ONE),
    ]
}

#[test]
fn writable_catalog_is_appended_to() {
    let (action, stats) = plan_upgrade(&snapshot(), Mode::Writable, Timestamp::new(u64::MAX));
    match action {
        UpgradeAction::CompareAndAppend { updates, commit_ts } => {
            assert_eq!(updates, expected_updates());
            assert_eq!(commit_ts, Timestamp::new(u64::MAX));
        }
        other => panic!("unexpected action {:?}", other),
    }
    assert_eq!(
        stats,
        RepairStats {
            repaired: 1,
            stale_retracted: 1,
            ..Default::default()
        }
    );
}

#[test]
fn other_catalogs_are_changed_in_memory() {
    for mode in [Mode::Readonly, Mode::Savepoint] {
        let (action, _) = plan_upgrade(&snapshot(), mode, Timestamp::new(7));
        match action {
            UpgradeAction::ApplyAndConsolidate { timed, next_ts } => {
                assert_eq!(next_ts, Timestamp::new(8));
                assert!(timed.iter().all(|u| u.ts == Timestamp::new(7)));
                let updates: Vec<(StateUpdateKindJson, Diff)> =
                    timed.into_iter().map(|u| (u.kind, u.diff)).collect();
                assert_eq!(updates, expected_updates());
            }
            other => panic!("unexpected action {:?}", other),
        }
    }
}

#[test]
fn sound_catalog_moves_its_version_alone() {
    let (action, stats) = plan_upgrade(&[], Mode::Writable, Timestamp::new(0));
    match action {
        UpgradeAction::CompareAndAppend { updates, .. } => assert_eq!(
            updates,
            vec![
                (version_update_kind(FROM_VERSION), MINUS_ONE),
                (version_update_kind(TO_VERSION), ONE),
            ]
        ),
        other => panic!("unexpected action {:?}", other),
    }
    assert_eq!(stats, RepairStats::default());
}

#[test]
fn upgrade_concludes_with_consolidation_version_and_time() {
    let appended: UpgradeEvent<String> = UpgradeEvent::Appended(Ok(Timestamp::new(12)));
    assert_eq!(conclude_upgrade(appended), Conclusion::Consolidate {
            version: 83,
            commit_ts: Timestamp::new(12),
        });
    let applied: UpgradeEvent<String> = UpgradeEvent::Applied {
        next_ts: Timestamp::new(8),
        result: Ok(()),
    };
    assert_eq!(conclude_upgrade(applied), Conclusion::Consolidate {
            version: 83,
            commit_ts: Timestamp::new(8),
        });
}

#[test]
fn failed_upgrade_hands_the_error_back() {
    assert_eq!(
        conclude_upgrade(UpgradeEvent::Appended(Err("fenced".to_string()))),
        Conclusion::Stop("fenced".to_string())
    );
    assert_eq!(
        conclude_upgrade(UpgradeEvent::Applied {
            next_ts: Timestamp::new(8),
            result: Err("refused".to_string()),
        }),
        Conclusion::Stop("refused".to_string())
    );
}
