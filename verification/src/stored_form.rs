//! The stored forms of a role: which rows read as it, told member by member.
use crate::json::{
    bare_name, is_void, lemma_lookup_found, named, only_member, only_named, optional_member,
    required_member, sole_entry, JsonView,
};
use crate::reading::{
    attributes_of, membership_entry_of, membership_of, optional_bool_of, optional_source_of,
    role_id_of, role_key_of, role_of, role_value_of, u32_of, var_of, vars_entry_of, vars_of,
};
use crate::role::{
    AutoProvisionSource, RoleAttributes, RoleId, RoleKey, RoleMembershipEntry, RoleValueView,
    RoleVarView, RoleVarsEntryView, RoleView,
};
use crate::writing::{
    attributes_json, lemma_role_id_reads_back, membership_json, role_id_json, role_row,
    role_value_json, vars_json,
};
use vstd::prelude::*;

verus! {

/// An object has the entry `name`, once, and `member` is what it holds.
pub open spec fn holds(object: JsonView, name: Seq<char>, member: JsonView) -> bool {
    &&& object is Dict
    &&& exists|i: int|
        {
            &&& 0 <= i < object->Dict_0.len()
            &&& #[trigger] object->Dict_0[i] == (name, member)
            &&& forall|j: int|
                0 <= j < object->Dict_0.len() && j != i ==> (#[trigger] object->Dict_0[j]).0 != name
        }
}

/// An object has no entry `name`.
pub open spec fn lacks(object: JsonView, name: Seq<char>) -> bool {
    &&& object is Dict
    &&& forall|j: int|
        0 <= j < object->Dict_0.len() ==> (#[trigger] object->Dict_0[j]).0 != name
}

/// A search for a required member finds what an object holds under the name, and only that.
pub proof fn law_required_member(object: JsonView, name: Seq<char>, member: JsonView)
    ensures
        required_member(object, name) == Some(member) <==> holds(object, name, member),
{
    if let JsonView::Dict(entries) = object {
        if holds(object, name, member) {
            let i = choose|i: int|
                {
                    &&& 0 <= i < object->Dict_0.len()
                    &&& #[trigger] object->Dict_0[i] == (name, member)
                    &&& forall|j: int|
                        0 <= j < object->Dict_0.len() && j != i ==> (#[trigger] object->Dict_0[j]).0
                            != name
                };
            assert(only_named(entries, name, i));
            lemma_lookup_found(entries, name, i);
        }
        if required_member(object, name) == Some(member) {
            let i = choose|i: int| only_named(entries, name, i);
            assert(named(entries, name, i));
            assert forall|j: int| 0 <= j < entries.len() && j != i implies (#[trigger] entries[j]).0
                != name by {
                assert(!named(entries, name, j));
            }
            assert(entries[i] == (name, member));
        }
    }
}

/// A search for an optional member finds what an object holds under the name, or that it has no
/// such entry.
pub proof fn law_optional_member(object: JsonView, name: Seq<char>, member: JsonView)
    ensures
        optional_member(object, name) == Some(Some(member)) <==> holds(object, name, member),
        optional_member(object, name) == Some(None::<JsonView>) <==> lacks(object, name),
{
    law_required_member(object, name, member);
    if let JsonView::Dict(entries) = object {
        if lacks(object, name) {
            assert forall|i: int| !named(entries, name, i) by {}
            assert forall|i: int| !only_named(entries, name, i) by {}
        }
        if optional_member(object, name) == Some(None::<JsonView>) {
            assert forall|j: int| 0 <= j < entries.len() implies (#[trigger] entries[j]).0
                != name by {
                assert(!named(entries, name, j));
            }
        }
    }
}

/// The one member of a value is found in an object that holds it, or in a list of that one item.
pub proof fn law_only_member(value: JsonView, name: Seq<char>, member: JsonView)
    ensures
        only_member(value, name) == Some(member) <==> holds(value, name, member) || value
            == JsonView::List(seq![member]),
{
    law_required_member(value, name, member);
    if let JsonView::List(items) = value {
        if items.len() == 1 {
            assert(items =~= seq![items[0]]);
        }
    }
}

/// An object's one entry is what it is made of.
pub proof fn law_sole_entry(value: JsonView, name: Seq<char>, content: JsonView)
    ensures
        sole_entry(value) == Some((name, content)) <==> value == JsonView::Dict(
            seq![(name, content)],
        ),
{
    if let JsonView::Dict(entries) = value {
        if entries.len() == 1 {
            assert(entries =~= seq![entries[0]]);
        }
    }
}

/// A value gives a name with nothing beside it as a bare text, or as an object that holds null or an
/// empty object under the name and nothing else.
pub proof fn law_bare_name(value: JsonView, name: Seq<char>)
    ensures
        bare_name(value) == Some(name) <==> {
            ||| value == JsonView::Text(name)
            ||| value == JsonView::Dict(seq![(name, JsonView::Null)])
            ||| value == JsonView::Dict(seq![(name, JsonView::Dict(seq![]))])
        },
{
    law_sole_entry(value, name, JsonView::Null);
    law_sole_entry(value, name, JsonView::Dict(seq![]));
    if let Some((found, content)) = sole_entry(value) {
        law_sole_entry(value, found, content);
        if is_void(content) && content is Dict {
            assert(content->Dict_0 =~= seq![]);
        }
    }
}

/// The forms in which a role id is stored.
pub open spec fn id_form(value: JsonView, id: RoleId) -> bool {
    match id {
        RoleId::System(n) => value == JsonView::Dict(seq![("System"@, JsonView::Uint(n))]),
        RoleId::User(n) => value == JsonView::Dict(seq![("User"@, JsonView::Uint(n))]),
        RoleId::Predefined(n) => value == JsonView::Dict(seq![("Predefined"@, JsonView::Uint(n))]),
        RoleId::Public => {
            ||| value == JsonView::Text("Public"@)
            ||| value == JsonView::Dict(seq![("Public"@, JsonView::Null)])
            ||| value == JsonView::Dict(seq![("Public"@, JsonView::Dict(seq![]))])
        },
    }
}

/// The forms in which a role key is stored.
pub open spec fn key_form(value: JsonView, key: RoleKey) -> bool {
    exists|id: JsonView|
        (#[trigger] holds(value, "id"@, id) || value == JsonView::List(seq![id])) && id_form(
            id,
            key.id,
        )
}

/// The forms in which an object holds an optional truth value.
pub open spec fn flag_form(object: JsonView, name: Seq<char>, flag: Option<bool>) -> bool {
    match flag {
        Some(b) => holds(object, name, JsonView::Bool(b)),
        None => lacks(object, name) || holds(object, name, JsonView::Null),
    }
}

/// An object holds a name with nothing beside it.
pub open spec fn holds_name(object: JsonView, member: Seq<char>, name: Seq<char>) -> bool {
    ||| holds(object, member, JsonView::Text(name))
    ||| holds(object, member, JsonView::Dict(seq![(name, JsonView::Null)]))
    ||| holds(object, member, JsonView::Dict(seq![(name, JsonView::Dict(seq![]))]))
}

/// The forms in which attributes hold the source of a role.
pub open spec fn source_form(object: JsonView, source: Option<AutoProvisionSource>) -> bool {
    match source {
        Some(AutoProvisionSource::Oidc) => holds_name(object, "auto_provision_source"@, "Oidc"@),
        Some(AutoProvisionSource::Frontegg) => holds_name(
            object,
            "auto_provision_source"@,
            "Frontegg"@,
        ),
        Some(AutoProvisionSource::NotProvisioned) => holds_name(
            object,
            "auto_provision_source"@,
            "None"@,
        ),
        None => lacks(object, "auto_provision_source"@) || holds(
            object,
            "auto_provision_source"@,
            JsonView::Null,
        ),
    }
}

/// The forms in which a role's attributes are stored.
pub open spec fn attributes_form(value: JsonView, attributes: RoleAttributes) -> bool {
    &&& holds(value, "inherit"@, JsonView::Bool(attributes.inherit))
    &&& flag_form(value, "superuser"@, attributes.superuser)
    &&& flag_form(value, "login"@, attributes.login)
    &&& source_form(value, attributes.auto_provision_source)
}

/// The forms in which a membership is stored.
pub open spec fn membership_entry_form(value: JsonView, entry: RoleMembershipEntry) -> bool {
    exists|member: JsonView, grantor: JsonView|
        {
            &&& #[trigger] holds(value, "key"@, member)
            &&& #[trigger] holds(value, "value"@, grantor)
            &&& id_form(member, entry.key)
            &&& id_form(grantor, entry.value)
        }
}

/// The forms in which a role's memberships are stored.
pub open spec fn membership_form(value: JsonView, entries: Seq<RoleMembershipEntry>) -> bool {
    exists|items: Seq<JsonView>|
        {
            &&& #[trigger] holds(value, "map"@, JsonView::List(items)) || value == JsonView::List(
                seq![JsonView::List(items)],
            )
            &&& items.len() == entries.len()
            &&& forall|i: int|
                0 <= i < items.len() ==> membership_entry_form(#[trigger] items[i], entries[i])
        }
}

/// The form in which the value of a session variable is stored.
pub open spec fn var_form(value: JsonView, var: RoleVarView) -> bool {
    match var {
        RoleVarView::Flat(text) => value == JsonView::Dict(seq![("Flat"@, JsonView::Text(text))]),
        RoleVarView::SqlSet(texts) => value == JsonView::Dict(
            seq![
                (
                    "SqlSet"@,
                    JsonView::List(Seq::new(texts.len(), |i: int| JsonView::Text(texts[i]))),
                ),
            ],
        ),
    }
}

/// The forms in which a session variable is stored.
pub open spec fn vars_entry_form(value: JsonView, entry: RoleVarsEntryView) -> bool {
    &&& holds(value, "key"@, JsonView::Text(entry.key))
    &&& exists|val: JsonView| #[trigger] holds(value, "val"@, val) && var_form(val, entry.val)
}

/// The forms in which a role's session variables are stored.
pub open spec fn vars_form(value: JsonView, entries: Seq<RoleVarsEntryView>) -> bool {
    exists|items: Seq<JsonView>|
        {
            &&& #[trigger] holds(value, "entries"@, JsonView::List(items)) || value
                == JsonView::List(seq![JsonView::List(items)])
            &&& items.len() == entries.len()
            &&& forall|i: int|
                0 <= i < items.len() ==> vars_entry_form(#[trigger] items[i], entries[i])
        }
}

/// The forms in which a role's value is stored.
pub open spec fn value_form(value: JsonView, role: RoleValueView) -> bool {
    &&& holds(value, "name"@, JsonView::Text(role.name))
    &&& holds(value, "oid"@, JsonView::Uint(role.oid as u64))
    &&& exists|attributes: JsonView| #[trigger]
        holds(value, "attributes"@, attributes) && attributes_form(attributes, role.attributes)
    &&& exists|membership: JsonView| #[trigger]
        holds(value, "membership"@, membership) && membership_form(membership, role.membership)
    &&& exists|vars: JsonView| #[trigger]
        holds(value, "vars"@, vars) && vars_form(vars, role.vars)
}

/// The forms in which a role is stored.
pub open spec fn row_form(row: JsonView, role: RoleView) -> bool {
    &&& holds(row, "kind"@, JsonView::Text("Role"@))
    &&& exists|key: JsonView| #[trigger] holds(row, "key"@, key) && key_form(key, role.key)
    &&& exists|value: JsonView| #[trigger]
        holds(row, "value"@, value) && value_form(value, role.value)
}

proof fn lemma_names_differ()
    ensures
        "System"@ != "User"@,
        "System"@ != "Predefined"@,
        "User"@ != "Predefined"@,
        "Oidc"@ != "Frontegg"@,
        "Oidc"@ != "None"@,
        "Frontegg"@ != "None"@,
        "Flat"@ != "SqlSet"@,
{
    reveal_strlit("System");
    reveal_strlit("User");
    reveal_strlit("Predefined");
    reveal_strlit("Oidc");
    reveal_strlit("Frontegg");
    reveal_strlit("None");
    reveal_strlit("Flat");
    reveal_strlit("SqlSet");
    assert("System"@.len() == 6 && "User"@.len() == 4 && "Predefined"@.len() == 10);
    assert("Oidc"@[0] == 'O' && "Frontegg"@[0] == 'F' && "None"@[0] == 'N');
    assert("Flat"@.len() == 4 && "SqlSet"@.len() == 6);
}

/// A value reads as a role id exactly where it is a stored form of the id.
pub proof fn law_id_reads(value: JsonView, id: RoleId)
    ensures
        role_id_of(value) == Some(id) <==> id_form(value, id),
{
    lemma_names_differ();
    law_bare_name(value, "Public"@);
    match id {
        RoleId::System(n) => law_sole_entry(value, "System"@, JsonView::Uint(n)),
        RoleId::User(n) => law_sole_entry(value, "User"@, JsonView::Uint(n)),
        RoleId::Predefined(n) => law_sole_entry(value, "Predefined"@, JsonView::Uint(n)),
        RoleId::Public => {},
    }
}

proof fn lemma_key_reads(value: JsonView, key: RoleKey)
    ensures
        role_key_of(value) == Some(key) <==> key_form(value, key),
{
    if let Some(id) = only_member(value, "id"@) {
        law_only_member(value, "id"@, id);
        law_id_reads(id, key.id);
        if role_key_of(value) == Some(key) {
            assert(holds(value, "id"@, id) || value == JsonView::List(seq![id]));
        }
    }
    if key_form(value, key) {
        let id = choose|id: JsonView|
            (#[trigger] holds(value, "id"@, id) || value == JsonView::List(seq![id])) && id_form(
                id,
                key.id,
            );
        law_only_member(value, "id"@, id);
        law_id_reads(id, key.id);
    }
}

proof fn lemma_flag_reads(value: JsonView, name: Seq<char>, flag: Option<bool>)
    ensures
        optional_bool_of(value, name) == Some(flag) <==> flag_form(value, name, flag),
{
    law_optional_member(value, name, JsonView::Null);
    if let Some(b) = flag {
        law_optional_member(value, name, JsonView::Bool(b));
    }
}

proof fn lemma_source_reads(value: JsonView, source: Option<AutoProvisionSource>)
    ensures
        optional_source_of(value, "auto_provision_source"@) == Some(source) <==> source_form(
            value,
            source,
        ),
{
    lemma_names_differ();
    let member = "auto_provision_source"@;
    law_optional_member(value, member, JsonView::Null);
    lemma_holds_name(value, member, "Oidc"@);
    lemma_holds_name(value, member, "Frontegg"@);
    lemma_holds_name(value, member, "None"@);
    if let Some(Some(found)) = optional_member(value, member) {
        law_bare_name(found, "Oidc"@);
        law_bare_name(found, "Frontegg"@);
        law_bare_name(found, "None"@);
    }
}

proof fn lemma_holds_name(value: JsonView, member: Seq<char>, name: Seq<char>)
    ensures
        holds_name(value, member, name) <==> match optional_member(value, member) {
            Some(Some(found)) => bare_name(found) == Some(name),
            _ => false,
        },
{
    law_optional_member(value, member, JsonView::Text(name));
    law_optional_member(value, member, JsonView::Dict(seq![(name, JsonView::Null)]));
    law_optional_member(value, member, JsonView::Dict(seq![(name, JsonView::Dict(seq![]))]));
    if let Some(Some(found)) = optional_member(value, member) {
        law_optional_member(value, member, found);
    }
    law_bare_name(JsonView::Text(name), name);
    law_bare_name(JsonView::Dict(seq![(name, JsonView::Null)]), name);
    law_bare_name(JsonView::Dict(seq![(name, JsonView::Dict(seq![]))]), name);
    if let Some(Some(found)) = optional_member(value, member) {
        law_bare_name(found, name);
    }
}

/// A value reads as a role's attributes exactly where it is a stored form of them.
pub proof fn law_attributes_read(value: JsonView, attributes: RoleAttributes)
    ensures
        attributes_of(value) == Some(attributes) <==> attributes_form(value, attributes),
{
    law_required_member(value, "inherit"@, JsonView::Bool(attributes.inherit));
    lemma_flag_reads(value, "superuser"@, attributes.superuser);
    lemma_flag_reads(value, "login"@, attributes.login);
    lemma_source_reads(value, attributes.auto_provision_source);
}

proof fn lemma_membership_entry_reads(value: JsonView, entry: RoleMembershipEntry)
    ensures
        membership_entry_of(value) == Some(entry) <==> membership_entry_form(value, entry),
{
    if membership_entry_of(value) == Some(entry) {
        let member = required_member(value, "key"@)->0;
        let grantor = required_member(value, "value"@)->0;
        law_required_member(value, "key"@, member);
        law_required_member(value, "value"@, grantor);
        law_id_reads(member, entry.key);
        law_id_reads(grantor, entry.value);
    }
    if membership_entry_form(value, entry) {
        let (member, grantor) = choose|member: JsonView, grantor: JsonView|
            {
                &&& #[trigger] holds(value, "key"@, member)
                &&& #[trigger] holds(value, "value"@, grantor)
                &&& id_form(member, entry.key)
                &&& id_form(grantor, entry.value)
            };
        law_required_member(value, "key"@, member);
        law_required_member(value, "value"@, grantor);
        law_id_reads(member, entry.key);
        law_id_reads(grantor, entry.value);
    }
}

proof fn lemma_membership_reads(value: JsonView, entries: Seq<RoleMembershipEntry>)
    ensures
        membership_of(value) == Some(entries) <==> membership_form(value, entries),
{
    if membership_of(value) == Some(entries) {
        let items = only_member(value, "map"@)->0->List_0;
        law_only_member(value, "map"@, JsonView::List(items));
        assert forall|i: int| 0 <= i < items.len() implies membership_entry_form(
            #[trigger] items[i],
            entries[i],
        ) by {
            lemma_membership_entry_reads(items[i], entries[i]);
        }
        assert(holds(value, "map"@, JsonView::List(items)) || value == JsonView::List(
            seq![JsonView::List(items)],
        ));
    }
    if membership_form(value, entries) {
        let items = choose|items: Seq<JsonView>|
            {
                &&& #[trigger] holds(value, "map"@, JsonView::List(items)) || value
                    == JsonView::List(seq![JsonView::List(items)])
                &&& items.len() == entries.len()
                &&& forall|i: int|
                    0 <= i < items.len() ==> membership_entry_form(#[trigger] items[i], entries[i])
            };
        law_only_member(value, "map"@, JsonView::List(items));
        assert forall|i: int| 0 <= i < items.len() implies membership_entry_of(#[trigger] items[i])
            == Some(entries[i]) by {
            lemma_membership_entry_reads(items[i], entries[i]);
        }
        assert(Seq::new(items.len(), |i: int| membership_entry_of(items[i])->0) =~= entries);
    }
}

proof fn lemma_var_reads(value: JsonView, var: RoleVarView)
    ensures
        var_of(value) == Some(var) <==> var_form(value, var),
{
    lemma_names_differ();
    match var {
        RoleVarView::Flat(text) => law_sole_entry(value, "Flat"@, JsonView::Text(text)),
        RoleVarView::SqlSet(texts) => {
            let written = Seq::new(texts.len(), |i: int| JsonView::Text(texts[i]));
            law_sole_entry(value, "SqlSet"@, JsonView::List(written));
            assert(Seq::new(written.len(), |i: int| written[i]->Text_0) =~= texts);
            if let Some((name, JsonView::List(items))) = sole_entry(value) {
                if var_of(value) == Some(var) {
                    assert forall|i: int| 0 <= i < items.len() implies items[i] == written[i] by {
                        assert(items[i] is Text);
                        assert(texts[i] == items[i]->Text_0);
                    }
                    assert(items =~= written);
                }
            }
        },
    }
}

proof fn lemma_vars_entry_reads(value: JsonView, entry: RoleVarsEntryView)
    ensures
        vars_entry_of(value) == Some(entry) <==> vars_entry_form(value, entry),
{
    law_required_member(value, "key"@, JsonView::Text(entry.key));
    if vars_entry_of(value) == Some(entry) {
        let val = required_member(value, "val"@)->0;
        law_required_member(value, "val"@, val);
        lemma_var_reads(val, entry.val);
    }
    if vars_entry_form(value, entry) {
        let val = choose|val: JsonView| #[trigger]
            holds(value, "val"@, val) && var_form(val, entry.val);
        law_required_member(value, "val"@, val);
        lemma_var_reads(val, entry.val);
    }
}

proof fn lemma_vars_read(value: JsonView, entries: Seq<RoleVarsEntryView>)
    ensures
        vars_of(value) == Some(entries) <==> vars_form(value, entries),
{
    if vars_of(value) == Some(entries) {
        let items = only_member(value, "entries"@)->0->List_0;
        law_only_member(value, "entries"@, JsonView::List(items));
        assert forall|i: int| 0 <= i < items.len() implies vars_entry_form(
            #[trigger] items[i],
            entries[i],
        ) by {
            lemma_vars_entry_reads(items[i], entries[i]);
        }
        assert(holds(value, "entries"@, JsonView::List(items)) || value == JsonView::List(
            seq![JsonView::List(items)],
        ));
    }
    if vars_form(value, entries) {
        let items = choose|items: Seq<JsonView>|
            {
                &&& #[trigger] holds(value, "entries"@, JsonView::List(items)) || value
                    == JsonView::List(seq![JsonView::List(items)])
                &&& items.len() == entries.len()
                &&& forall|i: int|
                    0 <= i < items.len() ==> vars_entry_form(#[trigger] items[i], entries[i])
            };
        law_only_member(value, "entries"@, JsonView::List(items));
        assert forall|i: int| 0 <= i < items.len() implies vars_entry_of(#[trigger] items[i])
            == Some(entries[i]) by {
            lemma_vars_entry_reads(items[i], entries[i]);
        }
        assert(Seq::new(items.len(), |i: int| vars_entry_of(items[i])->0) =~= entries);
    }
}

proof fn lemma_value_reads(value: JsonView, role: RoleValueView)
    requires
        role_value_of(value) == Some(role),
    ensures
        value_form(value, role),
{
    let oid = required_member(value, "oid"@)->0;
    let attributes = required_member(value, "attributes"@)->0;
    let membership = required_member(value, "membership"@)->0;
    let vars = required_member(value, "vars"@)->0;
    law_required_member(value, "name"@, JsonView::Text(role.name));
    law_required_member(value, "oid"@, oid);
    law_required_member(value, "attributes"@, attributes);
    law_required_member(value, "membership"@, membership);
    law_required_member(value, "vars"@, vars);
    assert(u32_of(oid) == Some(role.oid));
    law_attributes_read(attributes, role.attributes);
    lemma_membership_reads(membership, role.membership);
    lemma_vars_read(vars, role.vars);
}

proof fn lemma_value_form_reads(value: JsonView, role: RoleValueView)
    requires
        value_form(value, role),
    ensures
        role_value_of(value) == Some(role),
{
    let attributes = choose|attributes: JsonView| #[trigger]
        holds(value, "attributes"@, attributes) && attributes_form(attributes, role.attributes);
    let membership = choose|membership: JsonView| #[trigger]
        holds(value, "membership"@, membership) && membership_form(membership, role.membership);
    let vars = choose|vars: JsonView| #[trigger]
        holds(value, "vars"@, vars) && vars_form(vars, role.vars);
    law_required_member(value, "name"@, JsonView::Text(role.name));
    law_required_member(value, "oid"@, JsonView::Uint(role.oid as u64));
    law_required_member(value, "attributes"@, attributes);
    law_required_member(value, "membership"@, membership);
    law_required_member(value, "vars"@, vars);
    law_attributes_read(attributes, role.attributes);
    lemma_membership_reads(membership, role.membership);
    lemma_vars_read(vars, role.vars);
}

/// A row reads as a role exactly where it is a stored form of the role.
pub proof fn law_row_reads(row: JsonView, role: RoleView)
    ensures
        role_of(row) == Some(role) <==> row_form(row, role),
{
    law_required_member(row, "kind"@, JsonView::Text("Role"@));
    if role_of(row) == Some(role) {
        let key = required_member(row, "key"@)->0;
        let value = required_member(row, "value"@)->0;
        law_required_member(row, "key"@, key);
        law_required_member(row, "value"@, value);
        lemma_key_reads(key, role.key);
        lemma_value_reads(value, role.value);
    }
    if row_form(row, role) {
        let key = choose|key: JsonView| #[trigger]
            holds(row, "key"@, key) && key_form(key, role.key);
        let value = choose|value: JsonView| #[trigger]
            holds(row, "value"@, value) && value_form(value, role.value);
        law_required_member(row, "key"@, key);
        law_required_member(row, "value"@, value);
        lemma_key_reads(key, role.key);
        lemma_value_form_reads(value, role.value);
    }
}

/// What an object holds under a name is one thing.
proof fn lemma_holds_one(object: JsonView, name: Seq<char>, a: JsonView, b: JsonView)
    requires
        holds(object, name, a),
        holds(object, name, b),
    ensures
        a == b,
{
    law_required_member(object, name, a);
    law_required_member(object, name, b);
}

/// A row that reads as a role reads the attributes that it holds.
proof fn lemma_row_reads_its_attributes(
    row: JsonView,
    value: JsonView,
    attributes: JsonView,
    role: RoleView,
)
    requires
        role_of(row) == Some(role),
        holds(row, "value"@, value),
        holds(value, "attributes"@, attributes),
    ensures
        attributes_form(attributes, role.value.attributes),
{
    law_row_reads(row, role);
    let v = choose|v: JsonView| #[trigger] holds(row, "value"@, v) && value_form(v, role.value);
    lemma_holds_one(row, "value"@, value, v);
    let a = choose|a: JsonView| #[trigger]
        holds(value, "attributes"@, a) && attributes_form(a, role.value.attributes);
    lemma_holds_one(value, "attributes"@, attributes, a);
}

/// The truth values of a role are those that its row stores: true as true and false as false. One
/// that may be missing is missing exactly where the row stores none, or null.
pub proof fn law_flags_are_read_as_stored(
    row: JsonView,
    value: JsonView,
    attributes: JsonView,
    role: RoleView,
    b: bool,
)
    requires
        role_of(row) == Some(role),
        holds(row, "value"@, value),
        holds(value, "attributes"@, attributes),
    ensures
        role.value.attributes.inherit == b <==> holds(attributes, "inherit"@, JsonView::Bool(b)),
        role.value.attributes.superuser == Some(b) <==> holds(
            attributes,
            "superuser"@,
            JsonView::Bool(b),
        ),
        role.value.attributes.login == Some(b) <==> holds(attributes, "login"@, JsonView::Bool(b)),
        role.value.attributes.superuser is None <==> lacks(attributes, "superuser"@) || holds(
            attributes,
            "superuser"@,
            JsonView::Null,
        ),
        role.value.attributes.login is None <==> lacks(attributes, "login"@) || holds(
            attributes,
            "login"@,
            JsonView::Null,
        ),
{
    let read = role.value.attributes;
    lemma_row_reads_its_attributes(row, value, attributes, role);
    lemma_flag_reads(attributes, "superuser"@, read.superuser);
    lemma_flag_reads(attributes, "superuser"@, Some(b));
    lemma_flag_reads(attributes, "superuser"@, None);
    lemma_flag_reads(attributes, "login"@, read.login);
    lemma_flag_reads(attributes, "login"@, Some(b));
    lemma_flag_reads(attributes, "login"@, None);
    law_required_member(attributes, "inherit"@, JsonView::Bool(b));
    law_required_member(attributes, "inherit"@, JsonView::Bool(read.inherit));
}

/// Attributes read where `inherit` is a truth value, `superuser` and `login` are truth values, null
/// or missing, and the source is a known name, null or missing; what they read as is what they
/// hold.
pub proof fn law_attributes_are_read_as_stored(
    attributes: JsonView,
    inherit: bool,
    superuser: Option<bool>,
    login: Option<bool>,
    source: Option<AutoProvisionSource>,
)
    requires
        holds(attributes, "inherit"@, JsonView::Bool(inherit)),
        match superuser {
            Some(b) => holds(attributes, "superuser"@, JsonView::Bool(b)),
            None => lacks(attributes, "superuser"@) || holds(
                attributes,
                "superuser"@,
                JsonView::Null,
            ),
        },
        match login {
            Some(b) => holds(attributes, "login"@, JsonView::Bool(b)),
            None => lacks(attributes, "login"@) || holds(attributes, "login"@, JsonView::Null),
        },
        match source {
            Some(AutoProvisionSource::Oidc) => holds(
                attributes,
                "auto_provision_source"@,
                JsonView::Text("Oidc"@),
            ),
            Some(AutoProvisionSource::Frontegg) => holds(
                attributes,
                "auto_provision_source"@,
                JsonView::Text("Frontegg"@),
            ),
            Some(AutoProvisionSource::NotProvisioned) => holds(
                attributes,
                "auto_provision_source"@,
                JsonView::Text("None"@),
            ),
            None => lacks(attributes, "auto_provision_source"@) || holds(
                attributes,
                "auto_provision_source"@,
                JsonView::Null,
            ),
        },
    ensures
        attributes_of(attributes) is Some,
        attributes_of(attributes)->0.inherit == inherit,
        attributes_of(attributes)->0.superuser == superuser,
        attributes_of(attributes)->0.login == login,
        attributes_of(attributes)->0.auto_provision_source == source,
{
    law_attributes_read(
        attributes,
        RoleAttributes { inherit, superuser, login, auto_provision_source: source },
    );
}

/// The source of a role is the one that its row names.
pub proof fn law_source_is_read_as_stored(
    row: JsonView,
    value: JsonView,
    attributes: JsonView,
    role: RoleView,
)
    requires
        role_of(row) == Some(role),
        holds(row, "value"@, value),
        holds(value, "attributes"@, attributes),
    ensures
        holds(attributes, "auto_provision_source"@, JsonView::Text("Oidc"@))
            ==> role.value.attributes.auto_provision_source == Some(AutoProvisionSource::Oidc),
        holds(attributes, "auto_provision_source"@, JsonView::Text("Frontegg"@))
            ==> role.value.attributes.auto_provision_source == Some(AutoProvisionSource::Frontegg),
        holds(attributes, "auto_provision_source"@, JsonView::Text("None"@))
            ==> role.value.attributes.auto_provision_source == Some(
            AutoProvisionSource::NotProvisioned,
        ),
        role.value.attributes.auto_provision_source is None <==> lacks(
            attributes,
            "auto_provision_source"@,
        ) || holds(attributes, "auto_provision_source"@, JsonView::Null),
{
    let read = role.value.attributes.auto_provision_source;
    lemma_row_reads_its_attributes(row, value, attributes, role);
    lemma_source_reads(attributes, read);
    lemma_source_reads(attributes, Some(AutoProvisionSource::Oidc));
    lemma_source_reads(attributes, Some(AutoProvisionSource::Frontegg));
    lemma_source_reads(attributes, Some(AutoProvisionSource::NotProvisioned));
    lemma_source_reads(attributes, None);
}

/// The name, the number and the id of a role are those that its row stores.
pub proof fn law_name_oid_and_id_are_read_as_stored(
    row: JsonView,
    key: JsonView,
    value: JsonView,
    role: RoleView,
)
    requires
        role_of(row) == Some(role),
        holds(row, "key"@, key),
        holds(row, "value"@, value),
    ensures
        holds(row, "kind"@, JsonView::Text("Role"@)),
        holds(value, "name"@, JsonView::Text(role.value.name)),
        holds(value, "oid"@, JsonView::Uint(role.value.oid as u64)),
        forall|n: u64| #[trigger]
            holds(key, "id"@, JsonView::Dict(seq![("System"@, JsonView::Uint(n))]))
                ==> role.key.id == RoleId::System(n),
        forall|n: u64| #[trigger]
            holds(key, "id"@, JsonView::Dict(seq![("User"@, JsonView::Uint(n))])) ==> role.key.id
                == RoleId::User(n),
        forall|n: u64| #[trigger]
            holds(key, "id"@, JsonView::Dict(seq![("Predefined"@, JsonView::Uint(n))]))
                ==> role.key.id == RoleId::Predefined(n),
        holds(key, "id"@, JsonView::Text("Public"@)) ==> role.key.id == RoleId::Public,
{
    law_row_reads(row, role);
    let v = choose|v: JsonView| #[trigger] holds(row, "value"@, v) && value_form(v, role.value);
    lemma_holds_one(row, "value"@, value, v);
    let k = choose|k: JsonView| #[trigger] holds(row, "key"@, k) && key_form(k, role.key);
    lemma_holds_one(row, "key"@, key, k);
    lemma_key_reads(key, role.key);
    assert forall|n: u64| #[trigger]
        holds(key, "id"@, JsonView::Dict(seq![("System"@, JsonView::Uint(n))])) implies role.key.id
        == RoleId::System(n) by {
        lemma_key_form(key, RoleId::System(n), role.key);
    }
    assert forall|n: u64| #[trigger]
        holds(key, "id"@, JsonView::Dict(seq![("User"@, JsonView::Uint(n))])) implies role.key.id
        == RoleId::User(n) by {
        lemma_key_form(key, RoleId::User(n), role.key);
    }
    assert forall|n: u64| #[trigger]
        holds(key, "id"@, JsonView::Dict(seq![("Predefined"@, JsonView::Uint(n))])) implies
        role.key.id == RoleId::Predefined(n) by {
        lemma_key_form(key, RoleId::Predefined(n), role.key);
    }
    if holds(key, "id"@, JsonView::Text("Public"@)) {
        lemma_key_form(key, RoleId::Public, role.key);
    }
}

/// The memberships of a role are those that its row stores, in the same order.
pub proof fn law_memberships_are_read_as_stored(
    row: JsonView,
    value: JsonView,
    membership: JsonView,
    items: Seq<JsonView>,
    role: RoleView,
    i: int,
    id: RoleId,
)
    requires
        role_of(row) == Some(role),
        holds(row, "value"@, value),
        holds(value, "membership"@, membership),
        holds(membership, "map"@, JsonView::List(items)),
    ensures
        role.value.membership.len() == items.len(),
        0 <= i < items.len() && holds(items[i], "key"@, role_id_json(id))
            ==> role.value.membership[i].key == id,
        0 <= i < items.len() && holds(items[i], "value"@, role_id_json(id))
            ==> role.value.membership[i].value == id,
{
    law_row_reads(row, role);
    let v = choose|v: JsonView| #[trigger] holds(row, "value"@, v) && value_form(v, role.value);
    lemma_holds_one(row, "value"@, value, v);
    let m = choose|m: JsonView| #[trigger]
        holds(value, "membership"@, m) && membership_form(m, role.value.membership);
    lemma_holds_one(value, "membership"@, membership, m);
    lemma_membership_reads(membership, role.value.membership);
    law_only_member(membership, "map"@, JsonView::List(items));
    if 0 <= i < items.len() {
        let entry = role.value.membership[i];
        assert(membership_entry_of(items[i]) == Some(entry));
        law_required_member(items[i], "key"@, role_id_json(id));
        law_required_member(items[i], "value"@, role_id_json(id));
        lemma_role_id_reads_back(id);
    }
}

/// The session variables of a role are those that its row stores, in the same order, each with its
/// key and with its text or its texts.
pub proof fn law_vars_are_read_as_stored(
    row: JsonView,
    value: JsonView,
    vars: JsonView,
    items: Seq<JsonView>,
    role: RoleView,
    i: int,
    text: Seq<char>,
    texts: Seq<JsonView>,
)
    requires
        role_of(row) == Some(role),
        holds(row, "value"@, value),
        holds(value, "vars"@, vars),
        holds(vars, "entries"@, JsonView::List(items)),
    ensures
        role.value.vars.len() == items.len(),
        0 <= i < items.len() ==> holds(items[i], "key"@, JsonView::Text(role.value.vars[i].key)),
        0 <= i < items.len() && holds(
            items[i],
            "val"@,
            JsonView::Dict(seq![("Flat"@, JsonView::Text(text))]),
        ) ==> role.value.vars[i].val == RoleVarView::Flat(text),
        0 <= i < items.len() && holds(
            items[i],
            "val"@,
            JsonView::Dict(seq![("SqlSet"@, JsonView::List(texts))]),
        ) ==> {
            let val = role.value.vars[i].val;
            &&& val is SqlSet
            &&& val->SqlSet_0.len() == texts.len()
            &&& forall|a: int|
                0 <= a < texts.len() ==> #[trigger] texts[a] == JsonView::Text(val->SqlSet_0[a])
        },
{
    law_row_reads(row, role);
    let v = choose|v: JsonView| #[trigger] holds(row, "value"@, v) && value_form(v, role.value);
    lemma_holds_one(row, "value"@, value, v);
    let w = choose|w: JsonView| #[trigger]
        holds(value, "vars"@, w) && vars_form(w, role.value.vars);
    lemma_holds_one(value, "vars"@, vars, w);
    lemma_vars_read(vars, role.value.vars);
    law_only_member(vars, "entries"@, JsonView::List(items));
    if 0 <= i < items.len() {
        let entry = role.value.vars[i];
        let flat = JsonView::Dict(seq![("Flat"@, JsonView::Text(text))]);
        let set = JsonView::Dict(seq![("SqlSet"@, JsonView::List(texts))]);
        assert(vars_entry_of(items[i]) == Some(entry));
        lemma_vars_entry_reads(items[i], entry);
        law_required_member(items[i], "val"@, flat);
        law_required_member(items[i], "val"@, set);
        if holds(items[i], "val"@, flat) {
            lemma_var_reads(flat, RoleVarView::Flat(text));
        }
        if holds(items[i], "val"@, set) {
            lemma_var_reads(set, entry.val);
            if let RoleVarView::Flat(other) = entry.val {
                assert(set->Dict_0[0].1 is List);
                assert(seq![("Flat"@, JsonView::Text(other))][0].1 is Text);
            }
            if let RoleVarView::SqlSet(read) = entry.val {
                let written = Seq::new(read.len(), |a: int| JsonView::Text(read[a]));
                assert(set->Dict_0[0] == seq![("SqlSet"@, JsonView::List(written))][0]);
                assert(texts == written);
            }
        }
    }
}

/// A key that holds a form of an id is the key of that id.
proof fn lemma_key_form(value: JsonView, id: RoleId, key: RoleKey)
    requires
        role_key_of(value) == Some(key),
        exists|form: JsonView| #[trigger] holds(value, "id"@, form) && id_form(form, id),
    ensures
        key.id == id,
{
    assert(key_form(value, RoleKey { id }));
    lemma_key_reads(value, RoleKey { id });
}

/// A role id is written under the name of its kind, with its number where it has one.
pub proof fn law_written_id(id: RoleId)
    ensures
        match id {
            RoleId::System(n) => role_id_json(id) == JsonView::Dict(
                seq![("System"@, JsonView::Uint(n))],
            ),
            RoleId::User(n) => role_id_json(id) == JsonView::Dict(
                seq![("User"@, JsonView::Uint(n))],
            ),
            RoleId::Public => role_id_json(id) == JsonView::Text("Public"@),
            RoleId::Predefined(n) => role_id_json(id) == JsonView::Dict(
                seq![("Predefined"@, JsonView::Uint(n))],
            ),
        },
{
}

/// A role is written as its kind, its id and its value, and nothing else, in the order of the
/// names.
pub proof fn law_written_row(role: RoleView)
    ensures
        role_row(role) is Dict,
        role_row(role)->Dict_0.len() == 3,
        role_row(role)->Dict_0[0] == (
            "key"@,
            JsonView::Dict(seq![("id"@, role_id_json(role.key.id))]),
        ),
        role_row(role)->Dict_0[1] == ("kind"@, JsonView::Text("Role"@)),
        role_row(role)->Dict_0[2] == ("value"@, role_value_json(role.value)),
{
}

/// A role's value is written member by member, and nothing else, in the order of the names.
pub proof fn law_written_value(value: RoleValueView)
    ensures
        role_value_json(value) is Dict,
        role_value_json(value)->Dict_0.len() == 5,
        role_value_json(value)->Dict_0[0] == ("attributes"@, attributes_json(value.attributes)),
        role_value_json(value)->Dict_0[1] == ("membership"@, membership_json(value.membership)),
        role_value_json(value)->Dict_0[2] == ("name"@, JsonView::Text(value.name)),
        role_value_json(value)->Dict_0[3] == ("oid"@, JsonView::Uint(value.oid as u64)),
        role_value_json(value)->Dict_0[4] == ("vars"@, vars_json(value.vars)),
{
}

/// A role's attributes are all written, in the order of the names: a truth value as itself, a source
/// as its bare name, and what is missing as null.
pub proof fn law_written_attributes(attributes: RoleAttributes)
    ensures
        attributes_json(attributes) is Dict,
        attributes_json(attributes)->Dict_0.len() == 4,
        attributes_json(attributes)->Dict_0[0] == (
            "auto_provision_source"@,
            match attributes.auto_provision_source {
                Some(AutoProvisionSource::Oidc) => JsonView::Text("Oidc"@),
                Some(AutoProvisionSource::Frontegg) => JsonView::Text("Frontegg"@),
                Some(AutoProvisionSource::NotProvisioned) => JsonView::Text("None"@),
                None => JsonView::Null,
            },
        ),
        attributes_json(attributes)->Dict_0[1] == (
            "inherit"@,
            JsonView::Bool(attributes.inherit),
        ),
        attributes_json(attributes)->Dict_0[2] == (
            "login"@,
            match attributes.login {
                Some(b) => JsonView::Bool(b),
                None => JsonView::Null,
            },
        ),
        attributes_json(attributes)->Dict_0[3] == (
            "superuser"@,
            match attributes.superuser {
                Some(b) => JsonView::Bool(b),
                None => JsonView::Null,
            },
        ),
{
}

/// Memberships and session variables are written one by one, in their order.
pub proof fn law_written_lists(
    memberships: Seq<RoleMembershipEntry>,
    vars: Seq<RoleVarsEntryView>,
    i: int,
)
    ensures
        membership_json(memberships) is Dict,
        membership_json(memberships)->Dict_0.len() == 1,
        membership_json(memberships)->Dict_0[0].0 == "map"@,
        membership_json(memberships)->Dict_0[0].1 is List,
        membership_json(memberships)->Dict_0[0].1->List_0.len() == memberships.len(),
        0 <= i < memberships.len() ==> membership_json(memberships)->Dict_0[0].1->List_0[i]
            == JsonView::Dict(
            seq![
                ("key"@, role_id_json(memberships[i].key)),
                ("value"@, role_id_json(memberships[i].value)),
            ],
        ),
        vars_json(vars) is Dict,
        vars_json(vars)->Dict_0.len() == 1,
        vars_json(vars)->Dict_0[0].0 == "entries"@,
        vars_json(vars)->Dict_0[0].1 is List,
        vars_json(vars)->Dict_0[0].1->List_0.len() == vars.len(),
        0 <= i < vars.len() ==> {
            let item = vars_json(vars)->Dict_0[0].1->List_0[i];
            &&& item is Dict
            &&& item->Dict_0.len() == 2
            &&& item->Dict_0[0] == ("key"@, JsonView::Text(vars[i].key))
            &&& item->Dict_0[1].0 == "val"@
            &&& var_form(item->Dict_0[1].1, vars[i].val)
        },
{
}

} // verus!
