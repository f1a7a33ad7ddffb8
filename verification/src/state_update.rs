//! The rows of the catalog: what is stored, since when, and how often.
use crate::json::{dict_of_one, entries_view, lemma_dict_view, Json, JsonView};
use vstd::prelude::*;

verus! {

/// How often a row is present: `1` for a live row, `-1` for a retraction that met no row.
pub type Diff = i64;

pub const ONE: Diff = 1;

pub const MINUS_ONE: Diff = -1;

/// The key under which the catalog's configuration keeps the catalog's version.
pub const USER_VERSION_KEY: &'static str = "user_version";

/// A point in the catalog's history.
#[derive(Debug, Clone, Copy, PartialEq, Eq, PartialOrd, Ord, Structural)]
pub struct Timestamp {
    pub internal: u64,
}

impl Timestamp {
    pub fn new(internal: u64) -> (res: Timestamp)
        ensures
            res == (Timestamp { internal }),
    {
        Timestamp { internal }
    }

    /// The next point in time.
    pub fn step_forward(&self) -> (res: Timestamp)
        requires
            self.internal < u64::MAX,
        ensures
            res.internal == self.internal + 1,
    {
        Timestamp { internal: self.internal + 1 }
    }
}

/// A row as it is stored. Two rows may be stored differently and still read as the same object.
#[derive(Debug, PartialEq, Eq, PartialOrd, Ord)]
pub struct StateUpdateKindJson {
    pub json: Json,
}

impl View for StateUpdateKindJson {
    type V = JsonView;

    open spec fn view(&self) -> JsonView {
        self.json@
    }
}

impl Clone for StateUpdateKindJson {
    fn clone(&self) -> (res: Self)
        ensures
            res@ == self@,
    {
        StateUpdateKindJson { json: self.json.copy() }
    }
}

/// A change to the catalog: the row, the time at which it changes, and by how much.
#[derive(Debug, PartialEq, Eq, PartialOrd, Ord)]
pub struct StateUpdate {
    pub kind: StateUpdateKindJson,
    pub ts: Timestamp,
    pub diff: Diff,
}

/// The row that says which version the catalog has.
pub open spec fn version_row(version: u64) -> JsonView {
    JsonView::Dict(
        seq![
            (
                "key"@,
                JsonView::Dict(seq![("key"@, JsonView::Text(USER_VERSION_KEY@))]),
            ),
            ("kind"@, JsonView::Text("Config"@)),
            ("value"@, JsonView::Dict(seq![("value"@, JsonView::Uint(version))])),
        ],
    )
}

/// The row that says which version the catalog has.
pub fn version_update_kind(version: u64) -> (res: StateUpdateKindJson)
    ensures
        res@ == version_row(version),
{
    let key: Json = dict_of_one("key", Json::Text(USER_VERSION_KEY.to_owned()));
    let value: Json = dict_of_one("value", Json::Uint(version));
    let entries: Vec<(String, Json)> = vec![
        ("key".to_owned(), key),
        ("kind".to_owned(), Json::Text("Config".to_owned())),
        ("value".to_owned(), value),
    ];
    proof {
        lemma_dict_view(entries);
        assert(entries_view(entries@) =~= version_row(version)->Dict_0);
    }
    StateUpdateKindJson { json: Json::Dict(entries) }
}

} // verus!
