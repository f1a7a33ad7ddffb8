use role_repair::json::Json;
use role_repair::reading::try_as_role;
use role_repair::role::{
    AutoProvisionSource, Role, RoleAttributes, RoleId, RoleKey, RoleMembership,
    RoleMembershipEntry, RoleValue, RoleVar, RoleVars, RoleVarsEntry,
};
use role_repair::state_update::{version_update_kind, StateUpdateKindJson, Timestamp};

fn text(s: &str) -> Json {
    Json::Text(s.to_string())
}

fn dict(entries: Vec<(&str, Json)>) -> Json {
    Json::Dict(
        entries
            .into_iter()
            .map(|(name, value)| (name.to_string(), value))
            .collect(),
    )
}

fn role() -> Role {
    Role {
        key: RoleKey {
            id: RoleId::Predefined(7),
        },
        value: RoleValue {
            name: "r".to_string(),
            oid: 9,
            attributes: RoleAttributes {
                inherit: false,
                superuser: Some(true),
                login: None,
                auto_provision_source: Some(AutoProvisionSource::Frontegg),
            },
            membership: RoleMembership {
                map: vec![RoleMembershipEntry {
                    key: RoleId::User(1),
                    value: RoleId::Public,
                }],
            },
            vars: RoleVars {
                entries: vec![
                    RoleVarsEntry {
                        key: "cluster".to_string(),
                        val: RoleVar::Flat("c".to_string()),
                    },
                    RoleVarsEntry {
                        key: "search_path".to_string(),
                        val: RoleVar::SqlSet(vec!["a".to_string(), "b".to_string()]),
                    },
                ],
            },
        },
    }
}

fn written() -> Vec<(&'static str, Json)> {
    vec![
        ("key", dict(vec![("id", dict(vec![("Predefined", Json::Uint(7))]))])),
        ("kind", text("Role")),
        ("value", dict(value_members())),
    ]
}

fn value_members() -> Vec<(&'static str, Json)> {
    vec![
        (
            "attributes",
            dict(vec![
                ("auto_provision_source", text("Frontegg")),
                ("inherit", Json::Bool(false)),
                ("login", Json::Null),
                ("superuser", Json::Bool(true)),
            ]),
        ),
        (
            "membership",
            dict(vec![(
                "map",
                Json::List(vec![dict(vec![
                    ("key", dict(vec![("User", Json::Uint(1))])),
                    ("value", text("Public")),
                ])]),
            )]),
        ),
        ("name", text("r")),
        ("oid", Json::Uint(9)),
        (
            "vars",
            dict(vec![(
                "entries",
                Json::List(vec![
                    dict(vec![
                        ("key", text("cluster")),
                        ("val", dict(vec![("Flat", text("c"))])),
                    ]),
                    dict(vec![
                        ("key", text("search_path")),
                        (
                            "val",
                            dict(vec![("SqlSet", Json::List(vec![text("a"), text("b")]))]),
                        ),
                    ]),
                ]),
            )]),
        ),
    ]
}

fn row(members: Vec<(&'static str, Json)>) -> StateUpdateKindJson {
    StateUpdateKindJson {
        json: dict(members),
    }
}

/// The row with the member `name` of the role's value replaced.
fn with_value_member(name: &str, member: Option<Json>) -> StateUpdateKindJson {
    let mut members = value_members();
    members.retain(|(n, _)| *n != name);
    if let Some(member) = member {
        members.push((Box::leak(name.to_string().into_boxed_str()), member));
    }
    row(vec![
        ("key", dict(vec![("id", dict(vec![("User", Json::Uint(7))]))])),
        ("kind", text("Role")),
        ("value", dict(members)),
    ])
}

#[test]
fn role_is_written_with_every_member() {
    assert_eq!(role().to_row(), row(written()));
}

#[test]
fn written_role_reads_back() {
    assert_eq!(try_as_role(&role().to_row()), Some(role()));
}

#[test]
fn every_role_id_reads_back() {
    for id in [
        RoleId::System(3),
        RoleId::User(u64::MAX),
        RoleId::Public,
        RoleId::Predefined(0),
    ] {
        let role = Role {
            key: RoleKey { id },
            ..role()
        };
        let read = try_as_role(&role.to_row()).expect("a role");
        assert_eq!(read.key.id, id);
    }
}

#[test]
fn every_source_reads_back() {
    for source in [
        None,
        Some(AutoProvisionSource::Oidc),
        Some(AutoProvisionSource::Frontegg),
        Some(AutoProvisionSource::NotProvisioned),
    ] {
        let mut role = role();
        role.value.attributes.auto_provision_source = source;
        let read = try_as_role(&role.to_row()).expect("a role");
        assert_eq!(read.value.attributes.auto_provision_source, source);
    }
}

#[test]
fn row_of_another_kind_is_no_role() {
    let mut members = written();
    members[1].1 = text("Cluster");
    assert_eq!(try_as_role(&row(members)), None);
    assert_eq!(try_as_role(&version_update_kind(82)), None);
    assert_eq!(try_as_role(&StateUpdateKindJson { json: Json::Null }), None);
    assert_eq!(
        try_as_role(&StateUpdateKindJson {
            json: Json::List(vec![])
        }),
        None
    );
}

#[test]
fn malformed_role_is_no_role() {
    let mut twice = written();
    twice.push(("kind", text("Role")));
    assert_eq!(try_as_role(&row(twice)), None);
    let mut keyless = written();
    keyless.remove(0);
    assert_eq!(try_as_role(&row(keyless)), None);
    let mut odd_key = written();
    odd_key[0].1 = dict(vec![("id", dict(vec![("Group", Json::Uint(7))]))]);
    assert_eq!(try_as_role(&row(odd_key)), None);
    let mut double_key = written();
    double_key[0].1 = dict(vec![(
        "id",
        dict(vec![("User", Json::Uint(7)), ("System", Json::Uint(7))]),
    )]);
    assert_eq!(try_as_role(&row(double_key)), None);

    assert!(try_as_role(&with_value_member("oid", Some(Json::Uint(9)))).is_some());
    assert_eq!(try_as_role(&with_value_member("oid", None)), None);
    assert_eq!(
        try_as_role(&with_value_member("oid", Some(Json::Uint(1 << 32)))),
        None
    );
    assert_eq!(
        try_as_role(&with_value_member(
            "oid",
            Some(Json::Number("-1".to_string()))
        )),
        None
    );
    assert_eq!(try_as_role(&with_value_member("name", Some(Json::Null))), None);
    assert_eq!(
        try_as_role(&with_value_member(
            "membership",
            Some(dict(vec![("map", Json::List(vec![Json::Null]))]))
        )),
        None
    );
    assert_eq!(
        try_as_role(&with_value_member(
            "vars",
            Some(dict(vec![(
                "entries",
                Json::List(vec![dict(vec![
                    ("key", text("k")),
                    ("val", dict(vec![("SqlSet", Json::List(vec![Json::Uint(1)]))])),
                ])])
            )]))
        )),
        None
    );
    assert_eq!(
        try_as_role(&with_value_member(
            "attributes",
            Some(dict(vec![("inherit", text("yes"))]))
        )),
        None
    );
    assert_eq!(
        try_as_role(&with_value_member(
            "attributes",
            Some(dict(vec![
                ("inherit", Json::Bool(true)),
                ("auto_provision_source", text("Elsewhere")),
            ]))
        )),
        None
    );
}

/// The row of `role()` with `key` for its key.
fn with_key(key: Json) -> StateUpdateKindJson {
    let mut members = written();
    members[0].1 = key;
    row(members)
}

#[test]
fn one_member_reads_from_a_list_of_one_item() {
    let id = || dict(vec![("Predefined", Json::Uint(7))]);
    let listed = with_key(Json::List(vec![id()]));
    assert_ne!(listed, role().to_row());
    assert_eq!(try_as_role(&listed), Some(role()));
    assert_eq!(try_as_role(&with_key(Json::List(vec![]))), None);
    assert_eq!(try_as_role(&with_key(Json::List(vec![id(), id()]))), None);
    assert_eq!(try_as_role(&with_key(Json::List(vec![text("User")]))), None);

    let membership = Json::List(vec![Json::List(vec![dict(vec![
        ("key", dict(vec![("User", Json::Uint(4))])),
        ("value", dict(vec![("System", Json::Uint(5))])),
    ])])]);
    let read = try_as_role(&with_value_member("membership", Some(membership))).expect("a role");
    assert_eq!(
        read.value.membership.map,
        vec![RoleMembershipEntry {
            key: RoleId::User(4),
            value: RoleId::System(5),
        }]
    );
    let vars = Json::List(vec![Json::List(vec![dict(vec![
        ("key", text("k")),
        ("val", dict(vec![("Flat", text("v"))])),
    ])])]);
    let read = try_as_role(&with_value_member("vars", Some(vars))).expect("a role");
    assert_eq!(
        read.value.vars.entries,
        vec![RoleVarsEntry {
            key: "k".to_string(),
            val: RoleVar::Flat("v".to_string()),
        }]
    );
    let empty = with_value_member("vars", Some(Json::List(vec![])));
    assert_eq!(try_as_role(&empty), None);
}

#[test]
fn name_reads_from_an_object_that_gives_it_an_empty_value() {
    for void in [Json::Null, dict(vec![])] {
        let key = dict(vec![("id", dict(vec![("Public", void.clone())]))]);
        let read = try_as_role(&with_key(key)).expect("a role");
        assert_eq!(read.key.id, RoleId::Public);
        let key = dict(vec![("id", dict(vec![("User", void.clone())]))]);
        assert_eq!(try_as_role(&with_key(key)), None);

        for (name, source) in [
            ("Oidc", AutoProvisionSource::Oidc),
            ("Frontegg", AutoProvisionSource::Frontegg),
            ("None", AutoProvisionSource::NotProvisioned),
        ] {
            let attributes = dict(vec![
                ("inherit", Json::Bool(true)),
                ("auto_provision_source", dict(vec![(name, void.clone())])),
            ]);
            let row = with_value_member("attributes", Some(attributes));
            let read = try_as_role(&row).expect("a role");
            assert_eq!(read.value.attributes.auto_provision_source, Some(source));
        }
    }
    let filled = dict(vec![("id", dict(vec![("Public", Json::Uint(1))]))]);
    assert_eq!(try_as_role(&with_key(filled)), None);
    let doubled = dict(vec![(
        "id",
        dict(vec![("Public", Json::Null), ("Public", Json::Null)]),
    )]);
    assert_eq!(try_as_role(&with_key(doubled)), None);
}

#[test]
fn missing_options_read_as_none_and_stray_members_are_passed_over() {
    let bare = with_value_member(
        "attributes",
        Some(dict(vec![
            ("stray", Json::Uint(5)),
            ("inherit", Json::Bool(true)),
        ])),
    );
    let read = try_as_role(&bare).expect("a role");
    assert_eq!(
        read.value.attributes,
        RoleAttributes {
            inherit: true,
            superuser: None,
            login: None,
            auto_provision_source: None,
        }
    );
    let stray = with_value_member("stray", Some(text("x")));
    assert!(try_as_role(&stray).is_some());
}

#[test]
fn version_row_holds_key_and_version() {
    assert_eq!(
        version_update_kind(83),
        row(vec![
            ("key", dict(vec![("key", text("user_version"))])),
            ("kind", text("Config")),
            ("value", dict(vec![("value", Json::Uint(83))])),
        ])
    );
    assert_ne!(version_update_kind(82), version_update_kind(83));
}

#[test]
fn copy_keeps_the_stored_form() {
    let a = dict(vec![
        ("y", Json::List(vec![Json::Null, Json::Bool(true)])),
        ("x", Json::Uint(1)),
        ("x", Json::Number("-1".to_string())),
        ("t", text("1")),
    ]);
    assert_eq!(a.clone(), a);
    let swapped = dict(vec![("x", Json::Uint(1)), ("y", Json::Null)]);
    assert_ne!(a.clone(), swapped);
}

#[test]
fn values_of_roles_are_told_apart() {
    let base = role().value;
    assert!(base.same(&role().value));
    let mut other = role().value;
    other.membership.map[0].value = RoleId::System(1);
    assert!(!base.same(&other));
    let mut other = role().value;
    other.vars.entries[1].val = RoleVar::SqlSet(vec!["a".to_string()]);
    assert!(!base.same(&other));
    let mut other = role().value;
    other.attributes.login = Some(false);
    assert!(!base.same(&other));
}

#[test]
fn time_steps_by_one() {
    assert_eq!(Timestamp::new(4).step_forward(), Timestamp::new(5));
}
