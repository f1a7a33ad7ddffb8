//! Roles.
use vstd::prelude::*;

verus! {

#[derive(Debug, Clone, Copy, PartialEq, Eq, PartialOrd, Ord, Structural)]
pub enum RoleId {
    System(u64),
    User(u64),
    Public,
    Predefined(u64),
}

#[derive(Debug, Clone, Copy, PartialEq, Eq, PartialOrd, Ord, Structural)]
pub struct RoleKey {
    pub id: RoleId,
}

/// What provisioned a role.
#[derive(Debug, Clone, Copy, PartialEq, Eq, PartialOrd, Ord, Structural)]
pub enum AutoProvisionSource {
    Oidc,
    Frontegg,
    /// Nothing provisioned the role: a statement created it.
    NotProvisioned,
}

#[derive(Debug, Clone, Copy, PartialEq, Eq, PartialOrd, Ord)]
pub struct RoleAttributes {
    pub inherit: bool,
    pub superuser: Option<bool>,
    pub login: Option<bool>,
    pub auto_provision_source: Option<AutoProvisionSource>,
}

/// A role that the role is a member of, and the role that granted the membership.
#[derive(Debug, Clone, Copy, PartialEq, Eq, PartialOrd, Ord, Structural)]
pub struct RoleMembershipEntry {
    pub key: RoleId,
    pub value: RoleId,
}

#[derive(Debug, PartialEq, Eq, PartialOrd, Ord)]
pub struct RoleMembership {
    pub map: Vec<RoleMembershipEntry>,
}

/// The value of a session variable that a role sets.
#[derive(Debug, PartialEq, Eq, PartialOrd, Ord)]
pub enum RoleVar {
    Flat(String),
    SqlSet(Vec<String>),
}

#[derive(Debug, PartialEq, Eq, PartialOrd, Ord)]
pub struct RoleVarsEntry {
    pub key: String,
    pub val: RoleVar,
}

#[derive(Debug, PartialEq, Eq, PartialOrd, Ord)]
pub struct RoleVars {
    pub entries: Vec<RoleVarsEntry>,
}

#[derive(Debug, PartialEq, Eq, PartialOrd, Ord)]
pub struct RoleValue {
    pub name: String,
    pub oid: u32,
    pub attributes: RoleAttributes,
    pub membership: RoleMembership,
    pub vars: RoleVars,
}

#[derive(Debug, PartialEq, Eq, PartialOrd, Ord)]
pub struct Role {
    pub key: RoleKey,
    pub value: RoleValue,
}

/// The mathematical value of a [`RoleVar`].
pub enum RoleVarView {
    Flat(Seq<char>),
    SqlSet(Seq<Seq<char>>),
}

/// The mathematical value of a [`RoleVarsEntry`].
pub struct RoleVarsEntryView {
    pub key: Seq<char>,
    pub val: RoleVarView,
}

/// The mathematical value of a [`RoleValue`].
pub struct RoleValueView {
    pub name: Seq<char>,
    pub oid: u32,
    pub attributes: RoleAttributes,
    pub membership: Seq<RoleMembershipEntry>,
    pub vars: Seq<RoleVarsEntryView>,
}

/// The mathematical value of a [`Role`].
pub struct RoleView {
    pub key: RoleKey,
    pub value: RoleValueView,
}

/// The texts of a list of strings, in order.
pub open spec fn texts_view(texts: Seq<String>) -> Seq<Seq<char>> {
    Seq::new(texts.len(), |i: int| texts[i]@)
}

impl View for RoleVar {
    type V = RoleVarView;

    open spec fn view(&self) -> RoleVarView {
        match self {
            RoleVar::Flat(text) => RoleVarView::Flat(text@),
            RoleVar::SqlSet(texts) => RoleVarView::SqlSet(texts_view(texts@)),
        }
    }
}

impl View for RoleVarsEntry {
    type V = RoleVarsEntryView;

    open spec fn view(&self) -> RoleVarsEntryView {
        RoleVarsEntryView { key: self.key@, val: self.val@ }
    }
}

/// The values of a list of session variables, in order.
pub open spec fn vars_view(entries: Seq<RoleVarsEntry>) -> Seq<RoleVarsEntryView> {
    Seq::new(entries.len(), |i: int| entries[i]@)
}

impl View for RoleValue {
    type V = RoleValueView;

    open spec fn view(&self) -> RoleValueView {
        RoleValueView {
            name: self.name@,
            oid: self.oid,
            attributes: self.attributes,
            membership: self.membership.map@,
            vars: vars_view(self.vars.entries@),
        }
    }
}

impl View for Role {
    type V = RoleView;

    open spec fn view(&self) -> RoleView {
        RoleView { key: self.key, value: self.value@ }
    }
}

impl RoleAttributes {
    fn same(&self, other: &RoleAttributes) -> (res: bool)
        ensures
            res == (*self == *other),
    {
        self.inherit == other.inherit && self.superuser == other.superuser && self.login
            == other.login && self.auto_provision_source == other.auto_provision_source
    }
}

fn same_memberships(a: &Vec<RoleMembershipEntry>, b: &Vec<RoleMembershipEntry>) -> (res: bool)
    ensures
        res == (a@ == b@),
{
    if a.len() != b.len() {
        return false;
    }
    let mut i: usize = 0;
    while i < a.len()
        invariant
            i <= a@.len(),
            a@.len() == b@.len(),
            forall|j: int| 0 <= j < i ==> a@[j] == b@[j],
        decreases a@.len() - i,
    {
        if a[i] != b[i] {
            return false;
        }
        i += 1;
    }
    assert(a@ =~= b@);
    true
}

fn same_texts(a: &Vec<String>, b: &Vec<String>) -> (res: bool)
    ensures
        res == (texts_view(a@) == texts_view(b@)),
{
    if a.len() != b.len() {
        assert(texts_view(a@).len() != texts_view(b@).len());
        return false;
    }
    let mut i: usize = 0;
    while i < a.len()
        invariant
            i <= a@.len(),
            a@.len() == b@.len(),
            forall|j: int| 0 <= j < i ==> (#[trigger] a@[j])@ == b@[j]@,
        decreases a@.len() - i,
    {
        if a[i] != b[i] {
            assert(texts_view(a@)[i as int] != texts_view(b@)[i as int]);
            return false;
        }
        i += 1;
    }
    assert(texts_view(a@) =~= texts_view(b@));
    true
}

impl RoleVar {
    fn same(&self, other: &RoleVar) -> (res: bool)
        ensures
            res == (self@ == other@),
    {
        match (self, other) {
            (RoleVar::Flat(a), RoleVar::Flat(b)) => *a == *b,
            (RoleVar::SqlSet(a), RoleVar::SqlSet(b)) => same_texts(a, b),
            _ => false,
        }
    }
}

fn same_vars(a: &Vec<RoleVarsEntry>, b: &Vec<RoleVarsEntry>) -> (res: bool)
    ensures
        res == (vars_view(a@) == vars_view(b@)),
{
    if a.len() != b.len() {
        assert(vars_view(a@).len() != vars_view(b@).len());
        return false;
    }
    let mut i: usize = 0;
    while i < a.len()
        invariant
            i <= a@.len(),
            a@.len() == b@.len(),
            forall|j: int| 0 <= j < i ==> (#[trigger] a@[j])@ == b@[j]@,
        decreases a@.len() - i,
    {
        if a[i].key != b[i].key || !a[i].val.same(&b[i].val) {
            assert(vars_view(a@)[i as int] != vars_view(b@)[i as int]);
            return false;
        }
        i += 1;
    }
    assert(vars_view(a@) =~= vars_view(b@));
    true
}

impl RoleValue {
    /// Whether two roles have the same value, however their rows are stored.
    pub fn same(&self, other: &RoleValue) -> (res: bool)
        ensures
            res == (self@ == other@),
    {
        self.name == other.name && self.oid == other.oid && self.attributes.same(&other.attributes)
            && same_memberships(&self.membership.map, &other.membership.map) && same_vars(
            &self.vars.entries,
            &other.vars.entries,
        )
    }
}

} // verus!
