//! How a stored row reads as a role.
use crate::json::{
    bare_name, items_view, lemma_list_view, only_member, optional_member, required_member,
    sole_entry, text_is, Json, JsonView,
};
use crate::role::{
    texts_view, vars_view, AutoProvisionSource, Role, RoleAttributes, RoleId, RoleKey,
    RoleMembership, RoleMembershipEntry, RoleValue, RoleValueView, RoleVar, RoleVarView, RoleVars,
    RoleVarsEntry, RoleVarsEntryView, RoleView,
};
use crate::state_update::StateUpdateKindJson;
use vstd::prelude::*;

verus! {

/// The role id that a value reads as: the name of the id that has no number, with nothing beside
/// it, or an object whose one entry has the id's kind for its name and the id's number for its
/// value.
pub open spec fn role_id_of(value: JsonView) -> Option<RoleId> {
    match bare_name(value) {
        Some(name) => if name == "Public"@ {
            Some(RoleId::Public)
        } else {
            None
        },
        None => match sole_entry(value) {
            Some((name, JsonView::Uint(id))) => if name == "System"@ {
                Some(RoleId::System(id))
            } else if name == "User"@ {
                Some(RoleId::User(id))
            } else if name == "Predefined"@ {
                Some(RoleId::Predefined(id))
            } else {
                None
            },
            _ => None,
        },
    }
}

/// The role key that a value reads as.
pub open spec fn role_key_of(value: JsonView) -> Option<RoleKey> {
    match only_member(value, "id"@) {
        Some(id) => match role_id_of(id) {
            Some(id) => Some(RoleKey { id }),
            None => None,
        },
        None => None,
    }
}

/// The optional truth value that the member `name` reads as. A member that is missing reads like
/// one that is null.
pub open spec fn optional_bool_of(value: JsonView, name: Seq<char>) -> Option<Option<bool>> {
    match optional_member(value, name) {
        Some(None) => Some(None),
        Some(Some(JsonView::Null)) => Some(None),
        Some(Some(JsonView::Bool(b))) => Some(Some(b)),
        _ => None,
    }
}

/// The source of a role that a value reads as: its name, with nothing beside it.
pub open spec fn source_of(value: JsonView) -> Option<AutoProvisionSource> {
    match bare_name(value) {
        Some(name) => if name == "Oidc"@ {
            Some(AutoProvisionSource::Oidc)
        } else if name == "Frontegg"@ {
            Some(AutoProvisionSource::Frontegg)
        } else if name == "None"@ {
            Some(AutoProvisionSource::NotProvisioned)
        } else {
            None
        },
        None => None,
    }
}

/// The optional source of a role that the member `name` reads as. A member that is missing reads
/// like one that is null.
pub open spec fn optional_source_of(value: JsonView, name: Seq<char>) -> Option<
    Option<AutoProvisionSource>,
> {
    match optional_member(value, name) {
        Some(None) => Some(None),
        Some(Some(JsonView::Null)) => Some(None),
        Some(Some(source)) => match source_of(source) {
            Some(source) => Some(Some(source)),
            None => None,
        },
        None => None,
    }
}

/// The attributes of a role that a value reads as. Members of other names are passed over.
pub open spec fn attributes_of(value: JsonView) -> Option<RoleAttributes> {
    match (
        required_member(value, "inherit"@),
        optional_bool_of(value, "superuser"@),
        optional_bool_of(value, "login"@),
        optional_source_of(value, "auto_provision_source"@),
    ) {
        (
            Some(JsonView::Bool(inherit)),
            Some(superuser),
            Some(login),
            Some(auto_provision_source),
        ) => Some(RoleAttributes { inherit, superuser, login, auto_provision_source }),
        _ => None,
    }
}

/// The membership that a value reads as.
pub open spec fn membership_entry_of(value: JsonView) -> Option<RoleMembershipEntry> {
    match (required_member(value, "key"@), required_member(value, "value"@)) {
        (Some(key), Some(granted_by)) => match (role_id_of(key), role_id_of(granted_by)) {
            (Some(key), Some(value)) => Some(RoleMembershipEntry { key, value }),
            _ => None,
        },
        _ => None,
    }
}

/// The memberships that a value reads as: a list of which each item reads as one.
pub open spec fn membership_of(value: JsonView) -> Option<Seq<RoleMembershipEntry>> {
    match only_member(value, "map"@) {
        Some(JsonView::List(items)) => if forall|i: int|
            0 <= i < items.len() ==> membership_entry_of(#[trigger] items[i]) is Some {
            Some(Seq::new(items.len(), |i: int| membership_entry_of(items[i])->0))
        } else {
            None
        },
        _ => None,
    }
}

/// The texts that a list's items read as: each of them is one.
pub open spec fn texts_of(items: Seq<JsonView>) -> Option<Seq<Seq<char>>> {
    if forall|i: int| 0 <= i < items.len() ==> (#[trigger] items[i]) is Text {
        Some(Seq::new(items.len(), |i: int| items[i]->Text_0))
    } else {
        None
    }
}

/// The value of a session variable that a value reads as.
pub open spec fn var_of(value: JsonView) -> Option<RoleVarView> {
    match sole_entry(value) {
        Some((name, JsonView::Text(text))) => if name == "Flat"@ {
            Some(RoleVarView::Flat(text))
        } else {
            None
        },
        Some((name, JsonView::List(items))) => if name == "SqlSet"@ {
            match texts_of(items) {
                Some(texts) => Some(RoleVarView::SqlSet(texts)),
                None => None,
            }
        } else {
            None
        },
        _ => None,
    }
}

/// The session variable that a value reads as.
pub open spec fn vars_entry_of(value: JsonView) -> Option<RoleVarsEntryView> {
    match (required_member(value, "key"@), required_member(value, "val"@)) {
        (Some(JsonView::Text(key)), Some(val)) => match var_of(val) {
            Some(val) => Some(RoleVarsEntryView { key, val }),
            None => None,
        },
        _ => None,
    }
}

/// The session variables that a value reads as: a list of which each item reads as one.
pub open spec fn vars_of(value: JsonView) -> Option<Seq<RoleVarsEntryView>> {
    match only_member(value, "entries"@) {
        Some(JsonView::List(items)) => if forall|i: int|
            0 <= i < items.len() ==> vars_entry_of(#[trigger] items[i]) is Some {
            Some(Seq::new(items.len(), |i: int| vars_entry_of(items[i])->0))
        } else {
            None
        },
        _ => None,
    }
}

/// The number of 32 bits that a value reads as.
pub open spec fn u32_of(value: JsonView) -> Option<u32> {
    match value {
        JsonView::Uint(n) => if n <= u32::MAX {
            Some(n as u32)
        } else {
            None
        },
        _ => None,
    }
}

/// What a value reads as, where it reads as a role's value. Members of other names are passed
/// over.
pub open spec fn role_value_of(value: JsonView) -> Option<RoleValueView> {
    match (
        required_member(value, "name"@),
        required_member(value, "oid"@),
        required_member(value, "attributes"@),
        required_member(value, "membership"@),
        required_member(value, "vars"@),
    ) {
        (
            Some(JsonView::Text(name)),
            Some(oid),
            Some(attributes),
            Some(membership),
            Some(vars),
        ) => match (
            u32_of(oid),
            attributes_of(attributes),
            membership_of(membership),
            vars_of(vars),
        ) {
            (Some(oid), Some(attributes), Some(membership), Some(vars)) => Some(
                RoleValueView { name, oid, attributes, membership, vars },
            ),
            _ => None,
        },
        _ => None,
    }
}

/// The role that a row reads as: the row is of the kind of roles, and its key and its value read
/// as a role's. Whatever has several members is read from an object that names them: a list would
/// give them in an order, and none is laid down. What has one member is read from a list of one item
/// too, and a name with nothing beside it also from an object that gives it an empty value.
pub open spec fn role_of(row: JsonView) -> Option<RoleView> {
    match (
        required_member(row, "kind"@),
        required_member(row, "key"@),
        required_member(row, "value"@),
    ) {
        (Some(JsonView::Text(kind)), Some(key), Some(value)) => if kind == "Role"@ {
            match (role_key_of(key), role_value_of(value)) {
                (Some(key), Some(value)) => Some(RoleView { key, value }),
                _ => None,
            }
        } else {
            None
        },
        _ => None,
    }
}

fn read_role_id(value: &Json) -> (res: Option<RoleId>)
    ensures
        res == role_id_of(value@),
{
    match value.bare() {
        Some(name) => if text_is(name, "Public") {
            Some(RoleId::Public)
        } else {
            None
        },
        None => match value.sole() {
            Some((name, Json::Uint(id))) => if text_is(name, "System") {
                Some(RoleId::System(*id))
            } else if text_is(name, "User") {
                Some(RoleId::User(*id))
            } else if text_is(name, "Predefined") {
                Some(RoleId::Predefined(*id))
            } else {
                None
            },
            _ => None,
        },
    }
}

fn read_role_key(value: &Json) -> (res: Option<RoleKey>)
    ensures
        res == role_key_of(value@),
{
    match value.only("id") {
        Some(id) => match read_role_id(id) {
            Some(id) => Some(RoleKey { id }),
            None => None,
        },
        None => None,
    }
}

fn read_optional_bool(value: &Json, name: &str) -> (res: Option<Option<bool>>)
    ensures
        res == optional_bool_of(value@, name@),
{
    match value.optional(name) {
        Some(None) => Some(None),
        Some(Some(Json::Null)) => Some(None),
        Some(Some(Json::Bool(b))) => Some(Some(*b)),
        _ => None,
    }
}

fn read_source(value: &Json) -> (res: Option<AutoProvisionSource>)
    ensures
        res == source_of(value@),
{
    match value.bare() {
        Some(name) => if text_is(name, "Oidc") {
            Some(AutoProvisionSource::Oidc)
        } else if text_is(name, "Frontegg") {
            Some(AutoProvisionSource::Frontegg)
        } else if text_is(name, "None") {
            Some(AutoProvisionSource::NotProvisioned)
        } else {
            None
        },
        None => None,
    }
}

fn read_optional_source(value: &Json, name: &str) -> (res: Option<Option<AutoProvisionSource>>)
    ensures
        res == optional_source_of(value@, name@),
{
    match value.optional(name) {
        Some(None) => Some(None),
        Some(Some(Json::Null)) => Some(None),
        Some(Some(source)) => match read_source(source) {
            Some(source) => Some(Some(source)),
            None => None,
        },
        None => None,
    }
}

fn read_attributes(value: &Json) -> (res: Option<RoleAttributes>)
    ensures
        res == attributes_of(value@),
{
    match (
        value.required("inherit"),
        read_optional_bool(value, "superuser"),
        read_optional_bool(value, "login"),
        read_optional_source(value, "auto_provision_source"),
    ) {
        (Some(Json::Bool(inherit)), Some(superuser), Some(login), Some(auto_provision_source)) => Some(
            RoleAttributes { inherit: *inherit, superuser, login, auto_provision_source },
        ),
        _ => None,
    }
}

fn read_membership_entry(value: &Json) -> (res: Option<RoleMembershipEntry>)
    ensures
        res == membership_entry_of(value@),
{
    match (value.required("key"), value.required("value")) {
        (Some(key), Some(granted_by)) => match (read_role_id(key), read_role_id(granted_by)) {
            (Some(key), Some(value)) => Some(RoleMembershipEntry { key, value }),
            _ => None,
        },
        _ => None,
    }
}

fn read_membership(value: &Json) -> (res: Option<RoleMembership>)
    ensures
        match res {
            Some(membership) => membership_of(value@) == Some(membership.map@),
            None => membership_of(value@) is None,
        },
{
    match value.only("map") {
        Some(Json::List(items)) => {
            proof {
                lemma_list_view(*items);
            }
            let ghost view = items_view(items@);
            let mut map: Vec<RoleMembershipEntry> = Vec::new();
            let mut i: usize = 0;
            while i < items.len()
                invariant
                    only_member(value@, "map"@) == Some(JsonView::List(view)),
                    view == items_view(items@),
                    i <= items@.len(),
                    map@.len() == i,
                    forall|j: int|
                        0 <= j < i ==> membership_entry_of(#[trigger] view[j]) == Some(map@[j]),
                decreases items@.len() - i,
            {
                match read_membership_entry(&items[i]) {
                    Some(entry) => map.push(entry),
                    None => {
                        assert(membership_entry_of(view[i as int]) is None);
                        return None;
                    },
                }
                i += 1;
            }
            assert(map@ =~= Seq::new(view.len(), |i: int| membership_entry_of(view[i])->0));
            Some(RoleMembership { map })
        },
        _ => None,
    }
}

fn read_texts(items: &Vec<Json>) -> (res: Option<Vec<String>>)
    ensures
        match res {
            Some(texts) => texts_of(items_view(items@)) == Some(texts_view(texts@)),
            None => texts_of(items_view(items@)) is None,
        },
{
    let ghost view = items_view(items@);
    let mut texts: Vec<String> = Vec::new();
    let mut i: usize = 0;
    while i < items.len()
        invariant
            view == items_view(items@),
            i <= items@.len(),
            texts@.len() == i,
            forall|j: int|
                0 <= j < i ==> (#[trigger] view[j]) == JsonView::Text(texts@[j]@),
        decreases items@.len() - i,
    {
        match &items[i] {
            Json::Text(text) => texts.push(text.clone()),
            _ => {
                assert(!(view[i as int] is Text));
                return None;
            },
        }
        i += 1;
    }
    assert(texts_view(texts@) =~= Seq::new(view.len(), |i: int| view[i]->Text_0));
    Some(texts)
}

fn read_var(value: &Json) -> (res: Option<RoleVar>)
    ensures
        match res {
            Some(var) => var_of(value@) == Some(var@),
            None => var_of(value@) is None,
        },
{
    match value.sole() {
        Some((name, Json::Text(text))) => if text_is(name, "Flat") {
            Some(RoleVar::Flat(text.clone()))
        } else {
            None
        },
        Some((name, Json::List(items))) => {
            proof {
                lemma_list_view(*items);
            }
            if text_is(name, "SqlSet") {
                match read_texts(items) {
                    Some(texts) => Some(RoleVar::SqlSet(texts)),
                    None => None,
                }
            } else {
                None
            }
        },
        _ => None,
    }
}

fn read_vars_entry(value: &Json) -> (res: Option<RoleVarsEntry>)
    ensures
        match res {
            Some(entry) => vars_entry_of(value@) == Some(entry@),
            None => vars_entry_of(value@) is None,
        },
{
    match (value.required("key"), value.required("val")) {
        (Some(Json::Text(key)), Some(val)) => match read_var(val) {
            Some(val) => Some(RoleVarsEntry { key: key.clone(), val }),
            None => None,
        },
        _ => None,
    }
}

fn read_vars(value: &Json) -> (res: Option<RoleVars>)
    ensures
        match res {
            Some(vars) => vars_of(value@) == Some(vars_view(vars.entries@)),
            None => vars_of(value@) is None,
        },
{
    match value.only("entries") {
        Some(Json::List(items)) => {
            proof {
                lemma_list_view(*items);
            }
            let ghost view = items_view(items@);
            let mut entries: Vec<RoleVarsEntry> = Vec::new();
            let mut i: usize = 0;
            while i < items.len()
                invariant
                    only_member(value@, "entries"@) == Some(JsonView::List(view)),
                    view == items_view(items@),
                    i <= items@.len(),
                    entries@.len() == i,
                    forall|j: int|
                        0 <= j < i ==> vars_entry_of(#[trigger] view[j]) == Some(entries@[j]@),
                decreases items@.len() - i,
            {
                match read_vars_entry(&items[i]) {
                    Some(entry) => entries.push(entry),
                    None => {
                        assert(vars_entry_of(view[i as int]) is None);
                        return None;
                    },
                }
                i += 1;
            }
            assert(vars_view(entries@) =~= Seq::new(
                view.len(),
                |i: int| vars_entry_of(view[i])->0,
            ));
            Some(RoleVars { entries })
        },
        _ => None,
    }
}

fn read_u32(value: &Json) -> (res: Option<u32>)
    ensures
        res == u32_of(value@),
{
    match value {
        Json::Uint(n) => if *n <= u32::MAX as u64 {
            Some(*n as u32)
        } else {
            None
        },
        _ => None,
    }
}

fn read_role_value(value: &Json) -> (res: Option<RoleValue>)
    ensures
        match res {
            Some(role_value) => role_value_of(value@) == Some(role_value@),
            None => role_value_of(value@) is None,
        },
{
    match (
        value.required("name"),
        value.required("oid"),
        value.required("attributes"),
        value.required("membership"),
        value.required("vars"),
    ) {
        (Some(Json::Text(name)), Some(oid), Some(attributes), Some(membership), Some(vars)) => {
            match (
                read_u32(oid),
                read_attributes(attributes),
                read_membership(membership),
                read_vars(vars),
            ) {
                (Some(oid), Some(attributes), Some(membership), Some(vars)) => Some(
                    RoleValue { name: name.clone(), oid, attributes, membership, vars },
                ),
                _ => None,
            }
        },
        _ => None,
    }
}

/// The role that a row reads as, or `None` where the row is of another kind or does not read as a
/// role. A list in the place of an object of several members does not read as that object.
pub fn try_as_role(kind_json: &StateUpdateKindJson) -> (res: Option<Role>)
    ensures
        match res {
            Some(role) => role_of(kind_json@) == Some(role@),
            None => role_of(kind_json@) is None,
        },
{
    let row: &Json = &kind_json.json;
    match (row.required("kind"), row.required("key"), row.required("value")) {
        (Some(Json::Text(kind)), Some(key), Some(value)) => if text_is(kind, "Role") {
            match (read_role_key(key), read_role_value(value)) {
                (Some(key), Some(value)) => Some(Role { key, value }),
                _ => None,
            }
        } else {
            None
        },
        _ => None,
    }
}

} // verus!
