//! Stored JSON values.
use vstd::prelude::*;

verus! {

/// A JSON value in its stored form.
#[derive(Debug, PartialEq, Eq, PartialOrd, Ord)]
pub enum Json {
    Null,
    Bool(bool),
    /// A whole number from zero up that fits in 64 bits.
    Uint(u64),
    /// Any other number, by its canonical decimal text.
    Number(String),
    Text(String),
    List(Vec<Json>),
    /// The entries of an object, in the order in which they are stored.
    Dict(Vec<(String, Json)>),
}

/// The mathematical value of a [`Json`].
pub enum JsonView {
    Null,
    Bool(bool),
    Uint(u64),
    Number(Seq<char>),
    Text(Seq<char>),
    List(Seq<JsonView>),
    Dict(Seq<(Seq<char>, JsonView)>),
}

impl View for Json {
    type V = JsonView;

    open spec fn view(&self) -> JsonView
        decreases self,
    {
        match self {
            Json::Null => JsonView::Null,
            Json::Bool(b) => JsonView::Bool(*b),
            Json::Uint(n) => JsonView::Uint(*n),
            Json::Number(s) => JsonView::Number(s@),
            Json::Text(s) => JsonView::Text(s@),
            Json::List(items) => JsonView::List(
                Seq::new(
                    items@.len(),
                    |i: int|
                        if 0 <= i < items@.len() {
                            items@[i].view()
                        } else {
                            JsonView::Null
                        },
                ),
            ),
            Json::Dict(entries) => JsonView::Dict(
                Seq::new(
                    entries@.len(),
                    |i: int|
                        if 0 <= i < entries@.len() {
                            (entries@[i].0@, entries@[i].1.view())
                        } else {
                            (Seq::empty(), JsonView::Null)
                        },
                ),
            ),
        }
    }
}

/// The values of a list's items, in order.
pub open spec fn items_view(items: Seq<Json>) -> Seq<JsonView> {
    Seq::new(items.len(), |i: int| items[i]@)
}

/// The names and values of an object's entries, in order.
pub open spec fn entries_view(entries: Seq<(String, Json)>) -> Seq<(Seq<char>, JsonView)> {
    Seq::new(entries.len(), |i: int| (entries[i].0@, entries[i].1@))
}

/// A list's value is made of its items' values.
pub(crate) proof fn lemma_list_view(items: Vec<Json>)
    ensures
        Json::List(items)@ == JsonView::List(items_view(items@)),
{
    reveal_with_fuel(<Json as View>::view, 2);
    assert(Json::List(items)@->List_0 =~= items_view(items@));
}

/// An object's value is made of its entries' names and values.
pub(crate) proof fn lemma_dict_view(entries: Vec<(String, Json)>)
    ensures
        Json::Dict(entries)@ == JsonView::Dict(entries_view(entries@)),
{
    reveal_with_fuel(<Json as View>::view, 2);
    assert(Json::Dict(entries)@->Dict_0 =~= entries_view(entries@));
}

/// What a search for a name among an object's entries finds.
pub enum Lookup<T> {
    /// No entry has the name.
    Absent,
    /// Exactly one entry has the name.
    Found(T),
    /// More than one entry has the name.
    Repeated,
}

/// The entry at `i` has the name `name`.
pub open spec fn named(entries: Seq<(Seq<char>, JsonView)>, name: Seq<char>, i: int) -> bool {
    0 <= i < entries.len() && entries[i].0 == name
}

/// The entry at `i`, and no other, has the name `name`.
pub open spec fn only_named(entries: Seq<(Seq<char>, JsonView)>, name: Seq<char>, i: int) -> bool {
    named(entries, name, i) && forall|j: int| #[trigger] named(entries, name, j) ==> j == i
}

/// What the entries hold under `name`.
pub open spec fn lookup(entries: Seq<(Seq<char>, JsonView)>, name: Seq<char>) -> Lookup<JsonView> {
    if exists|i: int| only_named(entries, name, i) {
        Lookup::Found(entries[choose|i: int| only_named(entries, name, i)].1)
    } else if exists|i: int| named(entries, name, i) {
        Lookup::Repeated
    } else {
        Lookup::Absent
    }
}

/// An entry that alone has its name is what a search for the name finds.
pub(crate) proof fn lemma_lookup_found(entries: Seq<(Seq<char>, JsonView)>, name: Seq<char>, i: int)
    requires
        only_named(entries, name, i),
    ensures
        lookup(entries, name) == Lookup::Found(entries[i].1),
{
    let k = choose|k: int| only_named(entries, name, k);
    assert(named(entries, name, k));
}

/// The member `name` of an object, where it occurs once.
pub open spec fn required_member(value: JsonView, name: Seq<char>) -> Option<JsonView> {
    match value {
        JsonView::Dict(entries) => match lookup(entries, name) {
            Lookup::Found(member) => Some(member),
            _ => None,
        },
        _ => None,
    }
}

/// The member `name` of an object, or `Some(None)` where the object has none. A value that is no
/// object, and an object that holds the name twice, have neither.
pub open spec fn optional_member(value: JsonView, name: Seq<char>) -> Option<Option<JsonView>> {
    match value {
        JsonView::Dict(entries) => match lookup(entries, name) {
            Lookup::Found(member) => Some(Some(member)),
            Lookup::Absent => Some(None),
            Lookup::Repeated => None,
        },
        _ => None,
    }
}

/// The name and the value of an object's one entry.
pub open spec fn sole_entry(value: JsonView) -> Option<(Seq<char>, JsonView)> {
    match value {
        JsonView::Dict(entries) => if entries.len() == 1 {
            Some(entries[0])
        } else {
            None
        },
        _ => None,
    }
}

/// The member of a value that has `name` for its one member: the member of an object, or the item of
/// a list of one item, in which the name goes without saying.
pub open spec fn only_member(value: JsonView, name: Seq<char>) -> Option<JsonView> {
    match value {
        JsonView::List(items) => if items.len() == 1 {
            Some(items[0])
        } else {
            None
        },
        _ => required_member(value, name),
    }
}

/// A value that says nothing: null, or an object without entries.
pub open spec fn is_void(value: JsonView) -> bool {
    match value {
        JsonView::Null => true,
        JsonView::Dict(entries) => entries.len() == 0,
        _ => false,
    }
}

/// The name that a value gives with nothing beside it: a bare text, or the name of an object's one
/// entry where the entry's value says nothing.
pub open spec fn bare_name(value: JsonView) -> Option<Seq<char>> {
    match value {
        JsonView::Text(name) => Some(name),
        _ => match sole_entry(value) {
            Some((name, content)) => if is_void(content) {
                Some(name)
            } else {
                None
            },
            None => None,
        },
    }
}

/// Searches an object's entries for a name.
fn search<'a>(entries: &'a Vec<(String, Json)>, name: &str) -> (res: Lookup<&'a Json>)
    ensures
        match res {
            Lookup::Found(member) => lookup(entries_view(entries@), name@) == Lookup::Found(member@),
            Lookup::Absent => lookup(entries_view(entries@), name@) == Lookup::<JsonView>::Absent,
            Lookup::Repeated => lookup(entries_view(entries@), name@)
                == Lookup::<JsonView>::Repeated,
        },
{
    let wanted: String = name.to_owned();
    let ghost view = entries_view(entries@);
    let mut found: Option<usize> = None;
    let mut i: usize = 0;
    while i < entries.len()
        invariant
            i <= entries@.len(),
            wanted@ == name@,
            view == entries_view(entries@),
            match found {
                Some(k) => k < i && named(view, name@, k as int) && forall|j: int|
                    0 <= j < i && #[trigger] named(view, name@, j) ==> j == k,
                None => forall|j: int| 0 <= j < i ==> !#[trigger] named(view, name@, j),
            },
        decreases entries@.len() - i,
    {
        if entries[i].0 == wanted {
            assert(named(view, name@, i as int));
            if found.is_some() {
                assert forall|k: int| !only_named(view, name@, k) by {
                    assert(named(view, name@, found->0 as int));
                }
                return Lookup::Repeated;
            }
            found = Some(i);
        }
        i += 1;
    }
    match found {
        Some(k) => {
            proof {
                assert(only_named(view, name@, k as int));
                lemma_lookup_found(view, name@, k as int);
            }
            Lookup::Found(&entries[k].1)
        },
        None => {
            assert forall|k: int| !only_named(view, name@, k) by {}
            Lookup::Absent
        },
    }
}

/// An object of one member.
pub(crate) fn dict_of_one(name: &str, member: Json) -> (res: Json)
    ensures
        res@ == JsonView::Dict(seq![(name@, member@)]),
{
    let entries: Vec<(String, Json)> = vec![(name.to_owned(), member)];
    proof {
        lemma_dict_view(entries);
        assert(entries_view(entries@) =~= seq![(name@, member@)]);
    }
    Json::Dict(entries)
}

/// Whether a string is the one given.
pub(crate) fn text_is(text: &String, literal: &str) -> (res: bool)
    ensures
        res == (text@ == literal@),
{
    let wanted: String = literal.to_owned();
    *text == wanted
}

impl Json {
    /// The member `name` of an object, where it occurs once.
    pub fn required(&self, name: &str) -> (res: Option<&Json>)
        ensures
            match res {
                Some(member) => required_member(self@, name@) == Some(member@),
                None => required_member(self@, name@) is None,
            },
    {
        match self {
            Json::Dict(entries) => {
                proof {
                    lemma_dict_view(*entries);
                }
                match search(entries, name) {
                    Lookup::Found(member) => Some(member),
                    _ => None,
                }
            },
            _ => None,
        }
    }

    /// The member `name` of an object, or `Some(None)` where the object has none.
    pub fn optional(&self, name: &str) -> (res: Option<Option<&Json>>)
        ensures
            match res {
                Some(Some(member)) => optional_member(self@, name@) == Some(Some(member@)),
                Some(None) => optional_member(self@, name@) == Some(None::<JsonView>),
                None => optional_member(self@, name@) is None,
            },
    {
        match self {
            Json::Dict(entries) => {
                proof {
                    lemma_dict_view(*entries);
                }
                match search(entries, name) {
                    Lookup::Found(member) => Some(Some(member)),
                    Lookup::Absent => Some(None),
                    Lookup::Repeated => None,
                }
            },
            _ => None,
        }
    }

    /// The name and the value of an object's one entry.
    pub fn sole(&self) -> (res: Option<(&String, &Json)>)
        ensures
            match res {
                Some((name, value)) => sole_entry(self@) == Some((name@, value@)),
                None => sole_entry(self@) is None,
            },
    {
        match self {
            Json::Dict(entries) => {
                proof {
                    lemma_dict_view(*entries);
                }
                if entries.len() == 1 {
                    Some((&entries[0].0, &entries[0].1))
                } else {
                    None
                }
            },
            _ => None,
        }
    }

    /// The member of a value that has `name` for its one member, from an object or a list of one
    /// item.
    pub fn only(&self, name: &str) -> (res: Option<&Json>)
        ensures
            match res {
                Some(member) => only_member(self@, name@) == Some(member@),
                None => only_member(self@, name@) is None,
            },
    {
        match self {
            Json::List(items) => {
                proof {
                    lemma_list_view(*items);
                }
                if items.len() == 1 {
                    Some(&items[0])
                } else {
                    None
                }
            },
            _ => self.required(name),
        }
    }

    /// Whether the value says nothing: null, or an object without entries.
    pub fn void(&self) -> (res: bool)
        ensures
            res == is_void(self@),
    {
        match self {
            Json::Null => true,
            Json::Dict(entries) => {
                proof {
                    lemma_dict_view(*entries);
                }
                entries.len() == 0
            },
            _ => false,
        }
    }

    /// The name that the value gives with nothing beside it.
    pub fn bare(&self) -> (res: Option<&String>)
        ensures
            match res {
                Some(name) => bare_name(self@) == Some(name@),
                None => bare_name(self@) is None,
            },
    {
        match self {
            Json::Text(name) => Some(name),
            _ => match self.sole() {
                Some((name, content)) => if content.void() {
                    Some(name)
                } else {
                    None
                },
                None => None,
            },
        }
    }

    /// A copy that is stored alike: the same value in the same form.
    pub fn copy(&self) -> (res: Json)
        ensures
            res@ == self@,
        decreases self,
    {
        match self {
            Json::Null => Json::Null,
            Json::Bool(b) => Json::Bool(*b),
            Json::Uint(n) => Json::Uint(*n),
            Json::Number(s) => Json::Number(s.clone()),
            Json::Text(s) => Json::Text(s.clone()),
            Json::List(items) => {
                let mut copy: Vec<Json> = Vec::new();
                let mut i: usize = 0;
                while i < items.len()
                    invariant
                        *self == Json::List(*items),
                        i <= items@.len(),
                        copy@.len() == i,
                        forall|j: int| 0 <= j < i ==> (#[trigger] copy@[j])@ == items@[j]@,
                    decreases items@.len() - i,
                {
                    assert(decreases_to!(*self => self->List_0));
                    copy.push(items[i].copy());
                    i += 1;
                }
                proof {
                    lemma_list_view(*items);
                    lemma_list_view(copy);
                    assert(items_view(copy@) =~= items_view(items@));
                }
                Json::List(copy)
            },
            Json::Dict(entries) => {
                let mut copy: Vec<(String, Json)> = Vec::new();
                let mut i: usize = 0;
                while i < entries.len()
                    invariant
                        *self == Json::Dict(*entries),
                        i <= entries@.len(),
                        copy@.len() == i,
                        forall|j: int|
                            0 <= j < i ==> (#[trigger] copy@[j]).0@ == entries@[j].0@ && copy@[j].1@
                                == entries@[j].1@,
                    decreases entries@.len() - i,
                {
                    assert(decreases_to!(*self => self->Dict_0));
                    copy.push((entries[i].0.clone(), entries[i].1.copy()));
                    i += 1;
                }
                proof {
                    lemma_dict_view(*entries);
                    lemma_dict_view(copy);
                    assert(entries_view(copy@) =~= entries_view(entries@));
                }
                Json::Dict(copy)
            },
        }
    }
}

impl Clone for Json {
    fn clone(&self) -> (res: Self)
        ensures
            res@ == self@,
    {
        self.copy()
    }
}

} // verus!
