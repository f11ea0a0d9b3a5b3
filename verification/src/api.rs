//! Response shaping on top of the store: translates each store outcome into
//! the payload the caller sees, and builds the seeded store the server
//! starts with.

use vstd::prelude::*;

use crate::store::{
    after_create, after_replace, create_allowed, lookup, replace_allowed, RecipeStore,
};

verus! {

/// A named entity: a caller-supplied integer identifier and a name. Names
/// need not be unique; the identifier is the sole key.
#[derive(Debug, PartialEq, Eq)]
pub struct Recipe {
    pub id: Option<usize>,
    pub name: String,
}

/// A status payload: the acknowledgement, or an error carrying its reason.
#[derive(Debug, PartialEq, Eq)]
pub enum ApiResponse {
    Ack,
    Error { reason: String },
}

/// The reason reported when a create targets an occupied identifier.
pub open spec fn conflict_reason() -> Seq<char> {
    "ID exists. Try put."@
}

/// The reason reported for a request addressed outside the collection.
pub open spec fn missing_resource_reason() -> Seq<char> {
    "Resource was not found."@
}

/// The create request: inserts the pair when the identifier is fresh and
/// acknowledges; an occupied identifier draws the conflict payload and
/// leaves the store untouched.
pub fn new(id: usize, recipe: Recipe, map: &mut RecipeStore) -> (r: ApiResponse)
    requires
        old(map).wf(),
    ensures
        final(map).wf(),
        final(map)@ == after_create(old(map)@, id, recipe.name@),
        create_allowed(old(map)@, id) ==> r == ApiResponse::Ack,
        !create_allowed(old(map)@, id) ==> (r matches ApiResponse::Error { reason } && reason@
            == conflict_reason()),
{
    match map.create(id, recipe.name) {
        Ok(()) => ApiResponse::Ack,
        Err(_) => ApiResponse::Error { reason: String::from_str("ID exists. Try put.") },
    }
}

/// The replace request: overwrites the name when the identifier is present
/// and acknowledges; a missing identifier draws the deliberately empty
/// response, distinct from an error payload.
pub fn update(id: usize, recipe: Recipe, map: &mut RecipeStore) -> (r: Option<ApiResponse>)
    requires
        old(map).wf(),
    ensures
        final(map).wf(),
        final(map)@ == after_replace(old(map)@, id, recipe.name@),
        replace_allowed(old(map)@, id) ==> r == Some(ApiResponse::Ack),
        !replace_allowed(old(map)@, id) ==> r is None,
{
    match map.replace(id, recipe.name) {
        Ok(()) => Some(ApiResponse::Ack),
        Err(_) => None,
    }
}

/// The read-one request: the current pair when the identifier is present,
/// else the empty response.
pub fn get(id: usize, map: &RecipeStore) -> (r: Option<Recipe>)
    requires
        map.wf(),
    ensures
        (r matches Some(rec) ==> rec.id == Some(id) && lookup(map@, id) == Some(rec.name@)),
        (r is None ==> lookup(map@, id) is None),
{
    match map.get(id) {
        Some(name) => Some(Recipe { id: Some(id), name }),
        None => None,
    }
}

/// The read-all request: a snapshot with exactly one payload per live
/// identifier, each carrying that identifier's current name. Never fails.
pub fn list(map: &RecipeStore) -> (r: Vec<Recipe>)
    requires
        map.wf(),
    ensures
        forall|i: int|
            0 <= i < r@.len() ==> ((#[trigger] r@[i]).id matches Some(k) && map@.contains_key(k)
                && map@[k] == r@[i].name@),
        forall|k: usize|
            #[trigger] map@.contains_key(k) ==> exists|i: int|
                0 <= i < r@.len() && (#[trigger] r@[i]).id == Some(k),
        forall|i: int, j: int|
            0 <= i < j < r@.len() ==> (#[trigger] r@[i]).id != (#[trigger] r@[j]).id,
{
    let pairs = map.list();
    let n = pairs.len();
    let mut out: Vec<Recipe> = Vec::new();
    let mut i: usize = 0;
    while i < n
        invariant
            n == pairs@.len(),
            i <= n,
            out@.len() == i,
            forall|j: int|
                0 <= j < i ==> (#[trigger] out@[j]).id == Some((pairs@[j]).0) && out@[j].name@
                    == (pairs@[j]).1@,
        decreases n - i,
    {
        let id = pairs[i].0;
        let name = pairs[i].1.clone();
        out.push(Recipe { id: Some(id), name });
        i = i + 1;
    }
    proof {
        assert forall|k: usize| #[trigger] map@.contains_key(k) implies exists|i: int|
            0 <= i < out@.len() && (#[trigger] out@[i]).id == Some(k) by {
            let w = choose|w: int| 0 <= w < pairs@.len() && (#[trigger] pairs@[w]).0 == k;
            assert((out@[w]).id == Some(k));
        }
    }
    out
}

/// The catch-all for a request addressed outside the collection: the fixed
/// not-found error payload, independent of any store contents.
pub fn not_found() -> (r: ApiResponse)
    ensures
        (r matches ApiResponse::Error { reason } && reason@ == missing_resource_reason()),
{
    ApiResponse::Error { reason: String::from_str("Resource was not found.") }
}

/// The identifiers and names the store is seeded with at process start:
/// fixture data, not a persisted format.
pub open spec fn seed_map() -> Map<usize, Seq<char>> {
    Map::empty().insert(1usize, "Blooming Espresso"@).insert(2usize, "Londinium"@)
}

/// Builds the store the process starts with, pre-populated with the fixed
/// seed entries.
pub fn rocket() -> (r: RecipeStore)
    ensures
        r.wf(),
        r@ == seed_map(),
{
    let mut map = RecipeStore::new();
    let first = map.create(1, String::from_str("Blooming Espresso"));
    let second = map.create(2, String::from_str("Londinium"));
    proof {
        assert(first is Ok && second is Ok);
        assert(map@ =~= seed_map());
    }
    map
}

} // verus!
