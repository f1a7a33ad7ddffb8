//! The drift of role rows: an older form, and what the repair makes of it.
use crate::json::{
    lemma_lookup_found, lookup, named, only_named, optional_member, required_member, JsonView,
    Lookup,
};
use crate::laws::{is_live, is_stale, lemma_siblings_members};
use crate::reading::{attributes_of, role_of, role_value_of};
use crate::repair::{
    live, repair_of, repairs, retractions, stale, verdict, Verdict,
};
use crate::role::{RoleAttributes, RoleValueView, RoleView};
use crate::selection::increasing;
use crate::state_update::{Diff, MINUS_ONE, ONE};
use crate::stored_form::{lacks, law_optional_member};
use crate::writing::{
    attributes_json, distinct_names, law_role_reads_back, lemma_members,
    lemma_membership_reads_back, lemma_role_id_reads_back, lemma_vars_read_back, membership_json,
    object_of_one, optional_bool_json, role_id_json, role_row, role_value_json, vars_json,
};
use vstd::prelude::*;

verus! {

/// The value that a role's attributes were written as before roles had a source.
pub open spec fn older_attributes_json(attributes: RoleAttributes) -> JsonView {
    JsonView::Dict(
        seq![
            ("inherit"@, JsonView::Bool(attributes.inherit)),
            ("login"@, optional_bool_json(attributes.login)),
            ("superuser"@, optional_bool_json(attributes.superuser)),
        ],
    )
}

/// The value that a role's value was written as before roles had a source.
pub open spec fn older_role_value_json(value: RoleValueView) -> JsonView {
    JsonView::Dict(
        seq![
            ("attributes"@, older_attributes_json(value.attributes)),
            ("membership"@, membership_json(value.membership)),
            ("name"@, JsonView::Text(value.name)),
            ("oid"@, JsonView::Uint(value.oid as u64)),
            ("vars"@, vars_json(value.vars)),
        ],
    )
}

/// The row that a role was written as before roles had a source.
pub open spec fn older_role_row(role: RoleView) -> JsonView {
    JsonView::Dict(
        seq![
            ("key"@, object_of_one("id"@, role_id_json(role.key.id))),
            ("kind"@, JsonView::Text("Role"@)),
            ("value"@, older_role_value_json(role.value)),
        ],
    )
}

/// An entry under another name does not change what a search finds.
proof fn lemma_lookup_other_entry(
    entries: Seq<(Seq<char>, JsonView)>,
    at: int,
    entry: (Seq<char>, JsonView),
    name: Seq<char>,
)
    requires
        0 <= at <= entries.len(),
        entry.0 != name,
    ensures
        lookup(entries.insert(at, entry), name) == lookup(entries, name),
{
    let more = entries.insert(at, entry);
    assert forall|i: int| #[trigger] named(entries, name, i) implies named(
        more,
        name,
        if i < at { i } else { i + 1 },
    ) by {}
    assert forall|i: int| #[trigger] named(more, name, i) implies i != at && named(
        entries,
        name,
        if i < at { i } else { i - 1 },
    ) by {}
    if exists|i: int| only_named(entries, name, i) {
        let i = choose|i: int| only_named(entries, name, i);
        let k = if i < at { i } else { i + 1 };
        assert(named(entries, name, i));
        assert(only_named(more, name, k));
        lemma_lookup_found(entries, name, i);
        lemma_lookup_found(more, name, k);
    } else {
        if exists|k: int| only_named(more, name, k) {
            let k = choose|k: int| only_named(more, name, k);
            let i = if k < at { k } else { k - 1 };
            assert(named(more, name, k));
            assert forall|j: int| #[trigger] named(entries, name, j) implies j == i by {
                assert(named(more, name, if j < at { j } else { j + 1 }));
            }
            assert(only_named(entries, name, i));
        }
        if exists|i: int| named(entries, name, i) {
            let i = choose|i: int| named(entries, name, i);
            assert(named(more, name, if i < at { i } else { i + 1 }));
        }
        if exists|k: int| named(more, name, k) {
            let k = choose|k: int| named(more, name, k);
            assert(named(entries, name, if k < at { k } else { k - 1 }));
        }
    }
}

/// Attributes read the same with a member more of a name that attributes do not have.
pub proof fn law_stray_member_is_passed_over(
    entries: Seq<(Seq<char>, JsonView)>,
    at: int,
    entry: (Seq<char>, JsonView),
)
    requires
        0 <= at <= entries.len(),
        entry.0 != "inherit"@,
        entry.0 != "superuser"@,
        entry.0 != "login"@,
        entry.0 != "auto_provision_source"@,
    ensures
        attributes_of(JsonView::Dict(entries.insert(at, entry))) == attributes_of(
            JsonView::Dict(entries),
        ),
{
    lemma_lookup_other_entry(entries, at, entry, "inherit"@);
    lemma_lookup_other_entry(entries, at, entry, "superuser"@);
    lemma_lookup_other_entry(entries, at, entry, "login"@);
    lemma_lookup_other_entry(entries, at, entry, "auto_provision_source"@);
}

/// Attributes without a source read the same whether the source is written as null or not written.
pub proof fn law_missing_source_reads_as_null(entries: Seq<(Seq<char>, JsonView)>, at: int)
    requires
        0 <= at <= entries.len(),
        lookup(entries, "auto_provision_source"@) == Lookup::<JsonView>::Absent,
    ensures
        attributes_of(
            JsonView::Dict(entries.insert(at, ("auto_provision_source"@, JsonView::Null))),
        ) == attributes_of(JsonView::Dict(entries)),
{
    let name = "auto_provision_source"@;
    let entry = (name, JsonView::Null);
    let more = entries.insert(at, entry);
    reveal_strlit("auto_provision_source");
    reveal_strlit("inherit");
    reveal_strlit("login");
    reveal_strlit("superuser");
    assert(name.len() == 21 && "inherit"@.len() == 7 && "login"@.len() == 5 && "superuser"@.len()
        == 9);
    lemma_lookup_other_entry(entries, at, entry, "inherit"@);
    lemma_lookup_other_entry(entries, at, entry, "superuser"@);
    lemma_lookup_other_entry(entries, at, entry, "login"@);
    assert(named(more, name, at));
    assert forall|i: int| #[trigger] named(more, name, i) implies i == at by {
        if i != at {
            assert(named(entries, name, if i < at { i } else { i - 1 }));
        }
    }
    assert(only_named(more, name, at));
    lemma_lookup_found(more, name, at);
}

/// With another member in an entry's place, a search finds the other member where it found that
/// entry, and what it found before where it did not.
proof fn lemma_lookup_other_member(
    entries: Seq<(Seq<char>, JsonView)>,
    at: int,
    member: JsonView,
    name: Seq<char>,
)
    requires
        0 <= at < entries.len(),
    ensures
        lookup(entries.update(at, (entries[at].0, member)), name) == if name == entries[at].0
            && lookup(entries, name) is Found {
            Lookup::Found(member)
        } else {
            lookup(entries, name)
        },
        name == entries[at].0 && lookup(entries, name) is Found ==> lookup(entries, name)
            == Lookup::Found(entries[at].1),
{
    let other = entries.update(at, (entries[at].0, member));
    assert forall|i: int| #[trigger] named(other, name, i) <==> named(entries, name, i) by {}
    if exists|i: int| only_named(entries, name, i) {
        let i = choose|i: int| only_named(entries, name, i);
        assert(named(entries, name, i));
        assert(named(other, name, i));
        assert forall|j: int| #[trigger] named(other, name, j) implies j == i by {
            assert(named(entries, name, j));
        }
        lemma_lookup_found(entries, name, i);
        lemma_lookup_found(other, name, i);
        if name == entries[at].0 {
            assert(named(entries, name, at));
        }
    } else {
        assert forall|i: int| !only_named(other, name, i) by {
            if only_named(other, name, i) {
                assert(named(entries, name, i));
                assert forall|j: int| #[trigger] named(entries, name, j) implies j == i by {
                    assert(named(other, name, j));
                }
                assert(only_named(entries, name, i));
            }
        }
        if exists|i: int| named(entries, name, i) {
            let i = choose|i: int| named(entries, name, i);
            assert(named(other, name, i));
        }
        if exists|i: int| named(other, name, i) {
            let i = choose|i: int| named(other, name, i);
            assert(named(entries, name, i));
        }
    }
}

/// A row with other attributes in their place.
spec fn with_attributes(
    row: Seq<(Seq<char>, JsonView)>,
    a: int,
    value: Seq<(Seq<char>, JsonView)>,
    b: int,
    attributes: JsonView,
) -> JsonView {
    JsonView::Dict(
        row.update(a, ("value"@, JsonView::Dict(value.update(b, ("attributes"@, attributes))))),
    )
}

/// A row reads the same with attributes in place of others that read the same.
proof fn lemma_row_with_attributes(
    row: Seq<(Seq<char>, JsonView)>,
    a: int,
    value: Seq<(Seq<char>, JsonView)>,
    b: int,
    attributes: JsonView,
)
    requires
        0 <= a < row.len(),
        row[a] == ("value"@, JsonView::Dict(value)),
        0 <= b < value.len(),
        value[b].0 == "attributes"@,
        attributes_of(attributes) == attributes_of(value[b].1),
    ensures
        role_of(with_attributes(row, a, value, b, attributes)) == role_of(JsonView::Dict(row)),
{
    reveal_strlit("key");
    reveal_strlit("kind");
    reveal_strlit("value");
    reveal_strlit("attributes");
    reveal_strlit("membership");
    reveal_strlit("name");
    reveal_strlit("oid");
    reveal_strlit("vars");
    assert("key"@.len() == 3 && "kind"@.len() == 4 && "value"@.len() == 5);
    assert("attributes"@[0] == 'a' && "membership"@[0] == 'm' && "name"@[0] == 'n' && "oid"@[0]
        == 'o' && "vars"@[0] == 'v');
    let member = JsonView::Dict(value.update(b, ("attributes"@, attributes)));
    lemma_lookup_other_member(value, b, attributes, "attributes"@);
    lemma_lookup_other_member(value, b, attributes, "membership"@);
    lemma_lookup_other_member(value, b, attributes, "name"@);
    lemma_lookup_other_member(value, b, attributes, "oid"@);
    lemma_lookup_other_member(value, b, attributes, "vars"@);
    assert(role_value_of(member) == role_value_of(JsonView::Dict(value)));
    lemma_lookup_other_member(row, a, member, "kind"@);
    lemma_lookup_other_member(row, a, member, "key"@);
    lemma_lookup_other_member(row, a, member, "value"@);
}

/// A row reads as the same role with a member more in its attributes, wherever it stands, of a name
/// that attributes do not have.
pub proof fn law_row_with_a_stray_attribute_reads_alike(
    row: Seq<(Seq<char>, JsonView)>,
    a: int,
    value: Seq<(Seq<char>, JsonView)>,
    b: int,
    attributes: Seq<(Seq<char>, JsonView)>,
    at: int,
    entry: (Seq<char>, JsonView),
)
    requires
        0 <= a < row.len(),
        row[a] == ("value"@, JsonView::Dict(value)),
        0 <= b < value.len(),
        value[b] == ("attributes"@, JsonView::Dict(attributes)),
        0 <= at <= attributes.len(),
        entry.0 != "inherit"@,
        entry.0 != "superuser"@,
        entry.0 != "login"@,
        entry.0 != "auto_provision_source"@,
    ensures
        role_of(
            JsonView::Dict(
                row.update(
                    a,
                    (
                        "value"@,
                        JsonView::Dict(
                            value.update(
                                b,
                                ("attributes"@, JsonView::Dict(attributes.insert(at, entry))),
                            ),
                        ),
                    ),
                ),
            ),
        ) == role_of(JsonView::Dict(row)),
{
    law_stray_member_is_passed_over(attributes, at, entry);
    lemma_row_with_attributes(row, a, value, b, JsonView::Dict(attributes.insert(at, entry)));
}

/// A row reads as the same role whether an attribute that may be missing is stored as null,
/// wherever it stands, or is not stored.
pub proof fn law_row_with_a_null_attribute_reads_alike(
    row: Seq<(Seq<char>, JsonView)>,
    a: int,
    value: Seq<(Seq<char>, JsonView)>,
    b: int,
    attributes: Seq<(Seq<char>, JsonView)>,
    at: int,
    name: Seq<char>,
)
    requires
        0 <= a < row.len(),
        row[a] == ("value"@, JsonView::Dict(value)),
        0 <= b < value.len(),
        value[b] == ("attributes"@, JsonView::Dict(attributes)),
        0 <= at <= attributes.len(),
        name == "auto_provision_source"@ || name == "superuser"@ || name == "login"@,
        forall|i: int| 0 <= i < attributes.len() ==> (#[trigger] attributes[i]).0 != name,
    ensures
        role_of(
            JsonView::Dict(
                row.update(
                    a,
                    (
                        "value"@,
                        JsonView::Dict(
                            value.update(
                                b,
                                (
                                    "attributes"@,
                                    JsonView::Dict(attributes.insert(at, (name, JsonView::Null))),
                                ),
                            ),
                        ),
                    ),
                ),
            ),
        ) == role_of(JsonView::Dict(row)),
{
    let entry = (name, JsonView::Null);
    let more = attributes.insert(at, entry);
    reveal_strlit("auto_provision_source");
    reveal_strlit("inherit");
    reveal_strlit("login");
    reveal_strlit("superuser");
    assert("auto_provision_source"@.len() == 21 && "inherit"@.len() == 7 && "login"@.len() == 5
        && "superuser"@.len() == 9);
    assert forall|other: Seq<char>| other != name implies #[trigger] lookup(more, other) == lookup(
        attributes,
        other,
    ) by {
        lemma_lookup_other_entry(attributes, at, entry, other);
    }
    assert(named(more, name, at));
    assert forall|i: int| #[trigger] named(more, name, i) implies i == at by {
        if i < at {
            assert(attributes[i].0 != name);
        } else if i > at {
            assert(attributes[i - 1].0 != name);
        }
    }
    assert(only_named(more, name, at));
    lemma_lookup_found(more, name, at);
    assert(lacks(JsonView::Dict(attributes), name));
    law_optional_member(JsonView::Dict(attributes), name, JsonView::Null);
    assert(optional_member(JsonView::Dict(more), name) == Some(Some(JsonView::Null)));
    assert(attributes_of(JsonView::Dict(more)) == attributes_of(JsonView::Dict(attributes)));
    lemma_row_with_attributes(row, a, value, b, JsonView::Dict(more));
}

/// A role's value reads the same with a member more of a name that such values do not have.
proof fn lemma_stray_member_of_a_value(
    value: Seq<(Seq<char>, JsonView)>,
    at: int,
    entry: (Seq<char>, JsonView),
)
    requires
        0 <= at <= value.len(),
        entry.0 != "name"@,
        entry.0 != "oid"@,
        entry.0 != "attributes"@,
        entry.0 != "membership"@,
        entry.0 != "vars"@,
    ensures
        role_value_of(JsonView::Dict(value.insert(at, entry))) == role_value_of(
            JsonView::Dict(value),
        ),
{
    lemma_lookup_other_entry(value, at, entry, "name"@);
    lemma_lookup_other_entry(value, at, entry, "oid"@);
    lemma_lookup_other_entry(value, at, entry, "attributes"@);
    lemma_lookup_other_entry(value, at, entry, "membership"@);
    lemma_lookup_other_entry(value, at, entry, "vars"@);
}

/// A row reads as the same role with a member more in itself or in its value, wherever it stands, of
/// a name that rows or values do not have.
pub proof fn law_row_with_a_stray_member_reads_alike(
    row: Seq<(Seq<char>, JsonView)>,
    a: int,
    value: Seq<(Seq<char>, JsonView)>,
    at: int,
    entry: (Seq<char>, JsonView),
)
    ensures
        0 <= at <= row.len() && entry.0 != "kind"@ && entry.0 != "key"@ && entry.0 != "value"@
            ==> role_of(JsonView::Dict(row.insert(at, entry))) == role_of(JsonView::Dict(row)),
        0 <= a < row.len() && row[a] == ("value"@, JsonView::Dict(value)) && 0 <= at <= value.len()
            && entry.0 != "name"@ && entry.0 != "oid"@ && entry.0 != "attributes"@ && entry.0
            != "membership"@ && entry.0 != "vars"@ ==> role_of(
            JsonView::Dict(row.update(a, ("value"@, JsonView::Dict(value.insert(at, entry))))),
        ) == role_of(JsonView::Dict(row)),
{
    if 0 <= at <= row.len() && entry.0 != "kind"@ && entry.0 != "key"@ && entry.0 != "value"@ {
        lemma_lookup_other_entry(row, at, entry, "kind"@);
        lemma_lookup_other_entry(row, at, entry, "key"@);
        lemma_lookup_other_entry(row, at, entry, "value"@);
    }
    if 0 <= a < row.len() && row[a] == ("value"@, JsonView::Dict(value)) && 0 <= at <= value.len()
        && entry.0 != "name"@ && entry.0 != "oid"@ && entry.0 != "attributes"@ && entry.0
        != "membership"@ && entry.0 != "vars"@ {
        reveal_strlit("key");
        reveal_strlit("kind");
        reveal_strlit("value");
        assert("key"@.len() == 3 && "kind"@.len() == 4 && "value"@.len() == 5);
        let member = JsonView::Dict(value.insert(at, entry));
        lemma_stray_member_of_a_value(value, at, entry);
        lemma_lookup_other_member(row, a, member, "kind"@);
        lemma_lookup_other_member(row, a, member, "key"@);
        lemma_lookup_other_member(row, a, member, "value"@);
    }
}

proof fn lemma_older_value_reads_alike(value: RoleValueView)
    requires
        value.attributes.auto_provision_source is None,
    ensures
        role_value_of(older_role_value_json(value)) == Some(value),
        older_role_value_json(value) != role_value_json(value),
{
    reveal_strlit("attributes");
    reveal_strlit("membership");
    reveal_strlit("name");
    reveal_strlit("oid");
    reveal_strlit("vars");
    let entries = older_role_value_json(value)->Dict_0;
    assert(entries[0].0[0] == 'a' && entries[1].0[0] == 'm' && entries[2].0[0] == 'n'
        && entries[3].0[0] == 'o' && entries[4].0[0] == 'v');
    assert(distinct_names(entries));
    lemma_members(entries);
    assert(required_member(older_role_value_json(value), "name"@) == Some(entries[2].1));
    lemma_membership_reads_back(value.membership);
    lemma_vars_read_back(value.vars);
    lemma_older_attributes_read_alike(value.attributes);
    assert(entries[0].1 != role_value_json(value)->Dict_0[0].1);
}

proof fn lemma_older_attributes_read_alike(attributes: RoleAttributes)
    requires
        attributes.auto_provision_source is None,
    ensures
        attributes_of(older_attributes_json(attributes)) == Some(attributes),
        older_attributes_json(attributes) != attributes_json(attributes),
{
    reveal_strlit("auto_provision_source");
    reveal_strlit("inherit");
    reveal_strlit("login");
    reveal_strlit("superuser");
    let entries = older_attributes_json(attributes)->Dict_0;
    let newer = attributes_json(attributes)->Dict_0;
    assert(entries[0].0.len() == 7 && entries[1].0.len() == 5 && entries[2].0.len() == 9);
    assert(distinct_names(entries));
    lemma_members(entries);
    let name = "auto_provision_source"@;
    assert(name.len() == 21);
    assert forall|i: int| !named(entries, name, i) by {}
    assert forall|i: int| !only_named(entries, name, i) by {}
    assert(lookup(entries, name) == Lookup::<JsonView>::Absent);
    assert(entries.len() != newer.len());
}

/// A role without a source that is stored in the older form reads as the same role as in the
/// current form, and is stored differently.
pub proof fn law_older_form_reads_alike(role: RoleView)
    requires
        role.value.attributes.auto_provision_source is None,
    ensures
        role_of(older_role_row(role)) == Some(role),
        older_role_row(role) != role_row(role),
{
    reveal_strlit("key");
    reveal_strlit("kind");
    reveal_strlit("value");
    let entries = older_role_row(role)->Dict_0;
    assert(entries[0].0.len() == 3 && entries[1].0.len() == 4 && entries[2].0.len() == 5);
    assert(distinct_names(entries));
    lemma_members(entries);
    let key = object_of_one("id"@, role_id_json(role.key.id))->Dict_0;
    lemma_members(key);
    assert(key[0].0 == "id"@);
    lemma_role_id_reads_back(role.key.id);
    lemma_older_value_reads_alike(role.value);
    assert(entries[2].1 != role_row(role)->Dict_0[2].1);
}

/// A sequence of growing numbers that holds one number alone is that number.
proof fn lemma_sole_member(s: Seq<int>, x: int)
    requires
        increasing(s),
        forall|j: int| #[trigger] s.contains(j) <==> j == x,
    ensures
        s == seq![x],
{
    assert(s.contains(x));
    if s.len() > 1 {
        assert(s.contains(s[0]) && s.contains(s[1]));
        assert(s[0] < s[1]);
    }
    assert(s.contains(s[0]));
    assert(s =~= seq![x]);
}

/// The repair of a dangling row beside one stale row: the one is added, the other taken away.
proof fn lemma_repair_beside_one(rows: Seq<(JsonView, Diff)>, i: int, j: int)
    requires
        verdict(rows, i) == Verdict::Repairable,
        stale(rows, i) == seq![j],
    ensures
        repair_of(rows, i) == seq![(rows[i].0, ONE), (rows[j].0, MINUS_ONE)],
{
    assert(retractions(rows, seq![j]) =~= seq![(rows[j].0, MINUS_ONE)]);
    assert(repair_of(rows, i) =~= seq![(rows[i].0, ONE), (rows[j].0, MINUS_ONE)]);
}

/// A role in the older form that was dropped through a retraction in the current form: the repair
/// cancels the retraction and takes the older form away.
pub proof fn law_dropped_role_is_repaired(role: RoleView)
    requires
        role.value.attributes.auto_provision_source is None,
    ensures
        repairs(seq![(older_role_row(role), ONE), (role_row(role), MINUS_ONE)], 2) == seq![
            (role_row(role), ONE),
            (older_role_row(role), MINUS_ONE),
        ],
{
    let rows = seq![(older_role_row(role), ONE), (role_row(role), MINUS_ONE)];
    law_role_reads_back(role);
    law_older_form_reads_alike(role);
    lemma_siblings_members(rows, 1);
    assert forall|j: int| #[trigger] stale(rows, 1).contains(j) <==> j == 0 by {
        assert(stale(rows, 1).contains(j) <==> is_stale(rows, 1, j));
    }
    lemma_sole_member(stale(rows, 1), 0);
    if live(rows, 1).len() > 0 {
        assert(live(rows, 1).contains(live(rows, 1)[0]));
        assert(is_live(rows, 1, live(rows, 1)[0]));
    }
    assert(verdict(rows, 1) == Verdict::Repairable);
    assert(verdict(rows, 0) == Verdict::Sound);
    lemma_repair_beside_one(rows, 1, 0);
    reveal_with_fuel(repairs, 3);
    assert(repairs(rows, 2) =~= repair_of(rows, 1));
}

/// A role in the older form that was changed through a retraction in the current form: the repair
/// cancels the retraction, takes the older form away, and leaves the changed role.
pub proof fn law_altered_role_is_repaired(role: RoleView, altered: RoleView)
    requires
        role.value.attributes.auto_provision_source is None,
        altered.key == role.key,
        altered.value != role.value,
    ensures
        repairs(
            seq![
                (older_role_row(role), ONE),
                (role_row(role), MINUS_ONE),
                (role_row(altered), ONE),
            ],
            3,
        ) == seq![(role_row(role), ONE), (older_role_row(role), MINUS_ONE)],
{
    let rows = seq![
        (older_role_row(role), ONE),
        (role_row(role), MINUS_ONE),
        (role_row(altered), ONE),
    ];
    law_role_reads_back(role);
    law_role_reads_back(altered);
    law_older_form_reads_alike(role);
    lemma_siblings_members(rows, 1);
    assert forall|j: int| #[trigger] stale(rows, 1).contains(j) <==> j == 0 by {
        assert(stale(rows, 1).contains(j) <==> is_stale(rows, 1, j));
    }
    lemma_sole_member(stale(rows, 1), 0);
    assert forall|j: int| #[trigger] live(rows, 1).contains(j) <==> j == 2 by {
        assert(live(rows, 1).contains(j) <==> is_live(rows, 1, j));
    }
    lemma_sole_member(live(rows, 1), 2);
    assert(verdict(rows, 1) == Verdict::Repairable);
    assert(verdict(rows, 0) == Verdict::Sound);
    assert(verdict(rows, 2) == Verdict::Sound);
    lemma_repair_beside_one(rows, 1, 0);
    reveal_with_fuel(repairs, 4);
    assert(repairs(rows, 3) =~= repair_of(rows, 1));
}

} // verus!
