//! How a role is written as a row.
use crate::json::{
    dict_of_one, entries_view, items_view, lemma_dict_view, lemma_list_view, lemma_lookup_found,
    named, only_named, optional_member, required_member, Json, JsonView,
};
use crate::reading::{
    attributes_of, membership_entry_of, membership_of, role_id_of, role_of, role_value_of,
    var_of, vars_entry_of, vars_of,
};
use crate::role::{
    texts_view, vars_view, AutoProvisionSource, Role, RoleAttributes, RoleId,
    RoleMembershipEntry, RoleValue, RoleValueView, RoleVar, RoleVarView, RoleVarsEntry,
    RoleVarsEntryView, RoleView,
};
use crate::state_update::StateUpdateKindJson;
use vstd::prelude::*;

verus! {

/// An object of one member.
pub open spec fn object_of_one(name: Seq<char>, member: JsonView) -> JsonView {
    JsonView::Dict(seq![(name, member)])
}

/// The value that a role id is written as.
pub open spec fn role_id_json(id: RoleId) -> JsonView {
    match id {
        RoleId::System(n) => object_of_one("System"@, JsonView::Uint(n)),
        RoleId::User(n) => object_of_one("User"@, JsonView::Uint(n)),
        RoleId::Public => JsonView::Text("Public"@),
        RoleId::Predefined(n) => object_of_one("Predefined"@, JsonView::Uint(n)),
    }
}

/// The value that an optional truth value is written as.
pub open spec fn optional_bool_json(value: Option<bool>) -> JsonView {
    match value {
        Some(b) => JsonView::Bool(b),
        None => JsonView::Null,
    }
}

/// The value that the optional source of a role is written as.
pub open spec fn optional_source_json(source: Option<AutoProvisionSource>) -> JsonView {
    match source {
        Some(AutoProvisionSource::Oidc) => JsonView::Text("Oidc"@),
        Some(AutoProvisionSource::Frontegg) => JsonView::Text("Frontegg"@),
        Some(AutoProvisionSource::NotProvisioned) => JsonView::Text("None"@),
        None => JsonView::Null,
    }
}

/// The value that a role's attributes are written as: every member is written, the missing ones
/// as null.
pub open spec fn attributes_json(attributes: RoleAttributes) -> JsonView {
    JsonView::Dict(
        seq![
            (
                "auto_provision_source"@,
                optional_source_json(attributes.auto_provision_source),
            ),
            ("inherit"@, JsonView::Bool(attributes.inherit)),
            ("login"@, optional_bool_json(attributes.login)),
            ("superuser"@, optional_bool_json(attributes.superuser)),
        ],
    )
}

/// The value that a membership is written as.
pub open spec fn membership_entry_json(entry: RoleMembershipEntry) -> JsonView {
    JsonView::Dict(
        seq![("key"@, role_id_json(entry.key)), ("value"@, role_id_json(entry.value))],
    )
}

/// The value that a role's memberships are written as.
pub open spec fn membership_json(entries: Seq<RoleMembershipEntry>) -> JsonView {
    object_of_one(
        "map"@,
        JsonView::List(Seq::new(entries.len(), |i: int| membership_entry_json(entries[i]))),
    )
}

/// The value that a list of texts is written as.
pub open spec fn texts_json(texts: Seq<Seq<char>>) -> JsonView {
    JsonView::List(Seq::new(texts.len(), |i: int| JsonView::Text(texts[i])))
}

/// The value that a session variable's value is written as.
pub open spec fn var_json(var: RoleVarView) -> JsonView {
    match var {
        RoleVarView::Flat(text) => object_of_one("Flat"@, JsonView::Text(text)),
        RoleVarView::SqlSet(texts) => object_of_one("SqlSet"@, texts_json(texts)),
    }
}

/// The value that a session variable is written as.
pub open spec fn vars_entry_json(entry: RoleVarsEntryView) -> JsonView {
    JsonView::Dict(seq![("key"@, JsonView::Text(entry.key)), ("val"@, var_json(entry.val))])
}

/// The value that a role's session variables are written as.
pub open spec fn vars_json(entries: Seq<RoleVarsEntryView>) -> JsonView {
    object_of_one(
        "entries"@,
        JsonView::List(Seq::new(entries.len(), |i: int| vars_entry_json(entries[i]))),
    )
}

/// The value that a role's value is written as.
pub open spec fn role_value_json(value: RoleValueView) -> JsonView {
    JsonView::Dict(
        seq![
            ("attributes"@, attributes_json(value.attributes)),
            ("membership"@, membership_json(value.membership)),
            ("name"@, JsonView::Text(value.name)),
            ("oid"@, JsonView::Uint(value.oid as u64)),
            ("vars"@, vars_json(value.vars)),
        ],
    )
}

/// The row that a role is written as.
pub open spec fn role_row(role: RoleView) -> JsonView {
    JsonView::Dict(
        seq![
            ("key"@, object_of_one("id"@, role_id_json(role.key.id))),
            ("kind"@, JsonView::Text("Role"@)),
            ("value"@, role_value_json(role.value)),
        ],
    )
}

fn write_role_id(id: &RoleId) -> (res: Json)
    ensures
        res@ == role_id_json(*id),
{
    match id {
        RoleId::System(n) => dict_of_one("System", Json::Uint(*n)),
        RoleId::User(n) => dict_of_one("User", Json::Uint(*n)),
        RoleId::Public => Json::Text("Public".to_owned()),
        RoleId::Predefined(n) => dict_of_one("Predefined", Json::Uint(*n)),
    }
}

fn write_optional_bool(value: Option<bool>) -> (res: Json)
    ensures
        res@ == optional_bool_json(value),
{
    match value {
        Some(b) => Json::Bool(b),
        None => Json::Null,
    }
}

fn write_optional_source(source: Option<AutoProvisionSource>) -> (res: Json)
    ensures
        res@ == optional_source_json(source),
{
    match source {
        Some(AutoProvisionSource::Oidc) => Json::Text("Oidc".to_owned()),
        Some(AutoProvisionSource::Frontegg) => Json::Text("Frontegg".to_owned()),
        Some(AutoProvisionSource::NotProvisioned) => Json::Text("None".to_owned()),
        None => Json::Null,
    }
}

fn write_attributes(attributes: &RoleAttributes) -> (res: Json)
    ensures
        res@ == attributes_json(*attributes),
{
    let entries: Vec<(String, Json)> = vec![
        (
            "auto_provision_source".to_owned(),
            write_optional_source(attributes.auto_provision_source),
        ),
        ("inherit".to_owned(), Json::Bool(attributes.inherit)),
        ("login".to_owned(), write_optional_bool(attributes.login)),
        ("superuser".to_owned(), write_optional_bool(attributes.superuser)),
    ];
    proof {
        lemma_dict_view(entries);
        assert(entries_view(entries@) =~= attributes_json(*attributes)->Dict_0);
    }
    Json::Dict(entries)
}

fn write_membership_entry(entry: &RoleMembershipEntry) -> (res: Json)
    ensures
        res@ == membership_entry_json(*entry),
{
    let entries: Vec<(String, Json)> = vec![
        ("key".to_owned(), write_role_id(&entry.key)),
        ("value".to_owned(), write_role_id(&entry.value)),
    ];
    proof {
        lemma_dict_view(entries);
        assert(entries_view(entries@) =~= membership_entry_json(*entry)->Dict_0);
    }
    Json::Dict(entries)
}

fn write_membership(entries: &Vec<RoleMembershipEntry>) -> (res: Json)
    ensures
        res@ == membership_json(entries@),
{
    let mut items: Vec<Json> = Vec::new();
    let mut i: usize = 0;
    while i < entries.len()
        invariant
            i <= entries@.len(),
            items@.len() == i,
            forall|j: int|
                0 <= j < i ==> (#[trigger] items@[j])@ == membership_entry_json(entries@[j]),
        decreases entries@.len() - i,
    {
        items.push(write_membership_entry(&entries[i]));
        i += 1;
    }
    proof {
        lemma_list_view(items);
        assert(items_view(items@) =~= Seq::new(
            entries@.len(),
            |i: int| membership_entry_json(entries@[i]),
        ));
    }
    dict_of_one("map", Json::List(items))
}

fn write_texts(texts: &Vec<String>) -> (res: Json)
    ensures
        res@ == texts_json(texts_view(texts@)),
{
    let mut items: Vec<Json> = Vec::new();
    let mut i: usize = 0;
    while i < texts.len()
        invariant
            i <= texts@.len(),
            items@.len() == i,
            forall|j: int| 0 <= j < i ==> (#[trigger] items@[j])@ == JsonView::Text(texts@[j]@),
        decreases texts@.len() - i,
    {
        items.push(Json::Text(texts[i].clone()));
        i += 1;
    }
    proof {
        lemma_list_view(items);
        assert(items_view(items@) =~= texts_json(texts_view(texts@))->List_0);
    }
    Json::List(items)
}

fn write_var(var: &RoleVar) -> (res: Json)
    ensures
        res@ == var_json(var@),
{
    match var {
        RoleVar::Flat(text) => dict_of_one("Flat", Json::Text(text.clone())),
        RoleVar::SqlSet(texts) => dict_of_one("SqlSet", write_texts(texts)),
    }
}

fn write_vars_entry(entry: &RoleVarsEntry) -> (res: Json)
    ensures
        res@ == vars_entry_json(entry@),
{
    let entries: Vec<(String, Json)> = vec![
        ("key".to_owned(), Json::Text(entry.key.clone())),
        ("val".to_owned(), write_var(&entry.val)),
    ];
    proof {
        lemma_dict_view(entries);
        assert(entries_view(entries@) =~= vars_entry_json(entry@)->Dict_0);
    }
    Json::Dict(entries)
}

fn write_vars(entries: &Vec<RoleVarsEntry>) -> (res: Json)
    ensures
        res@ == vars_json(vars_view(entries@)),
{
    let mut items: Vec<Json> = Vec::new();
    let mut i: usize = 0;
    while i < entries.len()
        invariant
            i <= entries@.len(),
            items@.len() == i,
            forall|j: int| 0 <= j < i ==> (#[trigger] items@[j])@ == vars_entry_json(entries@[j]@),
        decreases entries@.len() - i,
    {
        items.push(write_vars_entry(&entries[i]));
        i += 1;
    }
    proof {
        lemma_list_view(items);
        assert(items_view(items@) =~= Seq::new(
            vars_view(entries@).len(),
            |i: int| vars_entry_json(vars_view(entries@)[i]),
        ));
    }
    dict_of_one("entries", Json::List(items))
}

fn write_role_value(value: &RoleValue) -> (res: Json)
    ensures
        res@ == role_value_json(value@),
{
    let entries: Vec<(String, Json)> = vec![
        ("attributes".to_owned(), write_attributes(&value.attributes)),
        ("membership".to_owned(), write_membership(&value.membership.map)),
        ("name".to_owned(), Json::Text(value.name.clone())),
        ("oid".to_owned(), Json::Uint(value.oid as u64)),
        ("vars".to_owned(), write_vars(&value.vars.entries)),
    ];
    proof {
        lemma_dict_view(entries);
        assert(entries_view(entries@) =~= role_value_json(value@)->Dict_0);
    }
    Json::Dict(entries)
}

impl Role {
    /// The row that a role is written as.
    pub fn to_row(&self) -> (res: StateUpdateKindJson)
        ensures
            res@ == role_row(self@),
    {
        let entries: Vec<(String, Json)> = vec![
            ("key".to_owned(), dict_of_one("id", write_role_id(&self.key.id))),
            ("kind".to_owned(), Json::Text("Role".to_owned())),
            ("value".to_owned(), write_role_value(&self.value)),
        ];
        proof {
            lemma_dict_view(entries);
            assert(entries_view(entries@) =~= role_row(self@)->Dict_0);
        }
        StateUpdateKindJson { json: Json::Dict(entries) }
    }
}

/// The names of an object's entries differ from each other.
pub open spec fn distinct_names(entries: Seq<(Seq<char>, JsonView)>) -> bool {
    forall|i: int, j: int|
        0 <= i < j < entries.len() ==> (#[trigger] entries[i]).0 != (#[trigger] entries[j]).0
}

/// Under distinct names each entry is found.
pub(crate) proof fn lemma_members(entries: Seq<(Seq<char>, JsonView)>)
    requires
        distinct_names(entries),
    ensures
        forall|i: int|
            0 <= i < entries.len() ==> required_member(
                JsonView::Dict(entries),
                (#[trigger] entries[i]).0,
            ) == Some(entries[i].1),
        forall|i: int|
            0 <= i < entries.len() ==> optional_member(
                JsonView::Dict(entries),
                (#[trigger] entries[i]).0,
            ) == Some(Some(entries[i].1)),
{
    assert forall|i: int| 0 <= i < entries.len() implies only_named(
        entries,
        (#[trigger] entries[i]).0,
        i,
    ) by {
        assert forall|j: int| #[trigger] named(entries, entries[i].0, j) implies j == i by {
            if j < i {
                assert(entries[j].0 != entries[i].0);
            } else if i < j {
                assert(entries[i].0 != entries[j].0);
            }
        }
    }
    assert forall|i: int| 0 <= i < entries.len() implies required_member(
        JsonView::Dict(entries),
        (#[trigger] entries[i]).0,
    ) == Some(entries[i].1) && optional_member(JsonView::Dict(entries), entries[i].0) == Some(
        Some(entries[i].1),
    ) by {
        lemma_lookup_found(entries, entries[i].0, i);
    }
}

pub(crate) proof fn lemma_role_id_reads_back(id: RoleId)
    ensures
        role_id_of(role_id_json(id)) == Some(id),
{
    reveal_strlit("System");
    reveal_strlit("User");
    reveal_strlit("Predefined");
    assert("System"@.len() != "User"@.len());
    assert("System"@.len() != "Predefined"@.len());
    assert("User"@.len() != "Predefined"@.len());
}

proof fn lemma_attributes_read_back(attributes: RoleAttributes)
    ensures
        attributes_of(attributes_json(attributes)) == Some(attributes),
{
    reveal_strlit("auto_provision_source");
    reveal_strlit("inherit");
    reveal_strlit("login");
    reveal_strlit("superuser");
    reveal_strlit("Oidc");
    reveal_strlit("Frontegg");
    reveal_strlit("None");
    assert("Oidc"@[0] != "None"@[0]);
    assert("Oidc"@.len() != "Frontegg"@.len());
    assert("None"@.len() != "Frontegg"@.len());
    let entries = attributes_json(attributes)->Dict_0;
    assert(entries[0].0.len() == 21 && entries[1].0.len() == 7 && entries[2].0.len() == 5
        && entries[3].0.len() == 9);
    assert(distinct_names(entries));
    lemma_members(entries);
}

proof fn lemma_membership_entry_reads_back(entry: RoleMembershipEntry)
    ensures
        membership_entry_of(membership_entry_json(entry)) == Some(entry),
{
    reveal_strlit("key");
    reveal_strlit("value");
    let entries = membership_entry_json(entry)->Dict_0;
    assert(entries[0].0.len() == 3 && entries[1].0.len() == 5);
    assert(distinct_names(entries));
    lemma_members(entries);
    lemma_role_id_reads_back(entry.key);
    lemma_role_id_reads_back(entry.value);
}

pub(crate) proof fn lemma_membership_reads_back(memberships: Seq<RoleMembershipEntry>)
    ensures
        membership_of(membership_json(memberships)) == Some(memberships),
{
    let entries = membership_json(memberships)->Dict_0;
    lemma_members(entries);
    let items = entries[0].1->List_0;
    assert forall|i: int| 0 <= i < items.len() implies membership_entry_of(#[trigger] items[i])
        == Some(memberships[i]) by {
        lemma_membership_entry_reads_back(memberships[i]);
    }
    assert(Seq::new(items.len(), |i: int| membership_entry_of(items[i])->0) =~= memberships);
}

proof fn lemma_var_reads_back(var: RoleVarView)
    ensures
        var_of(var_json(var)) == Some(var),
{
    match var {
        RoleVarView::Flat(text) => {},
        RoleVarView::SqlSet(texts) => {
            let items = texts_json(texts)->List_0;
            assert(Seq::new(items.len(), |i: int| items[i]->Text_0) =~= texts);
        },
    }
}

proof fn lemma_vars_entry_reads_back(entry: RoleVarsEntryView)
    ensures
        vars_entry_of(vars_entry_json(entry)) == Some(entry),
{
    reveal_strlit("key");
    reveal_strlit("val");
    let entries = vars_entry_json(entry)->Dict_0;
    assert(entries[0].0[0] == 'k' && entries[1].0[0] == 'v');
    assert(distinct_names(entries));
    lemma_members(entries);
    lemma_var_reads_back(entry.val);
}

pub(crate) proof fn lemma_vars_read_back(vars: Seq<RoleVarsEntryView>)
    ensures
        vars_of(vars_json(vars)) == Some(vars),
{
    let entries = vars_json(vars)->Dict_0;
    lemma_members(entries);
    let items = entries[0].1->List_0;
    assert forall|i: int| 0 <= i < items.len() implies vars_entry_of(#[trigger] items[i]) == Some(
        vars[i],
    ) by {
        lemma_vars_entry_reads_back(vars[i]);
    }
    assert(Seq::new(items.len(), |i: int| vars_entry_of(items[i])->0) =~= vars);
}

proof fn lemma_role_value_reads_back(value: RoleValueView)
    ensures
        role_value_of(role_value_json(value)) == Some(value),
{
    reveal_strlit("attributes");
    reveal_strlit("membership");
    reveal_strlit("name");
    reveal_strlit("oid");
    reveal_strlit("vars");
    let entries = role_value_json(value)->Dict_0;
    assert(entries[0].0[0] == 'a' && entries[1].0[0] == 'm' && entries[2].0[0] == 'n'
        && entries[3].0[0] == 'o' && entries[4].0[0] == 'v');
    assert(distinct_names(entries));
    lemma_members(entries);
    assert(required_member(role_value_json(value), "name"@) == Some(entries[2].1));
    lemma_attributes_read_back(value.attributes);
    lemma_membership_reads_back(value.membership);
    lemma_vars_read_back(value.vars);
}

/// What is written as a role reads back as the same role.
pub proof fn law_role_reads_back(role: RoleView)
    ensures
        role_of(role_row(role)) == Some(role),
{
    reveal_strlit("key");
    reveal_strlit("kind");
    reveal_strlit("value");
    let entries = role_row(role)->Dict_0;
    assert(entries[0].0.len() == 3 && entries[1].0.len() == 4 && entries[2].0.len() == 5);
    assert(distinct_names(entries));
    lemma_members(entries);
    let key = object_of_one("id"@, role_id_json(role.key.id))->Dict_0;
    lemma_members(key);
    assert(key[0].0 == "id"@);
    lemma_role_id_reads_back(role.key.id);
    lemma_role_value_reads_back(role.value);
}

} // verus!
