//! Objects made from maps: the members of an object in the order of their
//! keys.

use vstd::prelude::*;
use crate::json::{entries_model, json_of, keys_of, object_value, Json};
use crate::text::lex_lt;
use crate::text_map::{
    lemma_listing_unique, lemma_map_of_entry, map_of, sorted_entries, TextMap,
};

verus! {

/// Whether a sequence of members lists a map: it holds exactly the entries of
/// the map, in the strict order of the keys.
pub open spec fn lists(listing: Seq<(Seq<char>, Json)>, m: Map<Seq<char>, Json>) -> bool {
    sorted_entries(listing) && map_of(listing) == m
}

/// The members of the object that stands for a map: the entries of the map
/// in the strict order of the keys, which for strings is the order of their
/// characters by code point, a prefix before the longer string. So `10`
/// comes before `2`.
pub open spec fn listing_of(m: Map<Seq<char>, Json>) -> Seq<(Seq<char>, Json)> {
    choose|listing: Seq<(Seq<char>, Json)>| lists(listing, m)
}

/// The structures of the values of a map.
pub open spec fn models_map(m: Map<Seq<char>, serde_json::Value>) -> Map<Seq<char>, Json> {
    Map::new(|k: Seq<char>| m.dom().contains(k), |k: Seq<char>| json_of(m[k]))
}

/// The structures of the values of a listing.
pub open spec fn value_models(listing: Seq<(Seq<char>, serde_json::Value)>) -> Seq<
    (Seq<char>, Json),
> {
    listing.map_values(|e: (Seq<char>, serde_json::Value)| (e.0, json_of(e.1)))
}

/// A sequence that lists a map is the listing of the map: there is no other.
pub proof fn lemma_listing_of(listing: Seq<(Seq<char>, Json)>, m: Map<Seq<char>, Json>)
    requires
        lists(listing, m),
    ensures
        listing_of(m) == listing,
{
    let chosen = listing_of(m);
    assert(lists(chosen, m));
    lemma_listing_unique(chosen, listing);
}

/// The structures of a sorted listing of values list the structures of the
/// map of the listing.
proof fn lemma_value_models(listing: Seq<(Seq<char>, serde_json::Value)>)
    requires
        sorted_entries(listing),
    ensures
        lists(value_models(listing), models_map(map_of(listing))),
{
    let p = value_models(listing);
    assert forall|i: int, j: int| 0 <= i < j < p.len() implies lex_lt(
        (#[trigger] p[i]).0,
        (#[trigger] p[j]).0,
    ) by {
        assert(p[i].0 == listing[i].0);
        assert(p[j].0 == listing[j].0);
    }
    assert forall|k: Seq<char>| map_of(p).dom().contains(k) <==> map_of(listing).dom().contains(
        k,
    ) by {
        if map_of(p).dom().contains(k) {
            let i = choose|i: int| 0 <= i < p.len() && (#[trigger] p[i]).0 == k;
            assert(listing[i].0 == k);
        }
        if map_of(listing).dom().contains(k) {
            let i = choose|i: int| 0 <= i < listing.len() && (#[trigger] listing[i]).0 == k;
            assert(p[i].0 == k);
        }
    }
    assert forall|k: Seq<char>| #[trigger]
        map_of(listing).dom().contains(k) implies map_of(p)[k] == json_of(map_of(listing)[k]) by {
        let i = choose|i: int| 0 <= i < listing.len() && (#[trigger] listing[i]).0 == k;
        lemma_map_of_entry(listing, i);
        assert(p[i] == (listing[i].0, json_of(listing[i].1)));
        lemma_map_of_entry(p, i);
    }
    assert(map_of(p) =~= models_map(map_of(listing)));
}

/// Storing a value under a key stores its structure under the key.
pub proof fn lemma_models_insert(
    m: Map<Seq<char>, serde_json::Value>,
    key: Seq<char>,
    value: serde_json::Value,
)
    ensures
        models_map(m.insert(key, value)) == models_map(m).insert(key, json_of(value)),
{
    assert(models_map(m.insert(key, value)) =~= models_map(m).insert(key, json_of(value)));
}

/// The empty map holds no structures.
pub proof fn lemma_models_empty()
    ensures
        models_map(Map::<Seq<char>, serde_json::Value>::empty()) == Map::<
            Seq<char>,
            Json,
        >::empty(),
{
    assert(models_map(Map::<Seq<char>, serde_json::Value>::empty()) =~= Map::<
        Seq<char>,
        Json,
    >::empty());
}

/// The object whose members are the entries of a map, in the order of the
/// keys.
pub fn object_of(map: TextMap<serde_json::Value>) -> (v: serde_json::Value)
    requires
        map.wf(),
    ensures
        json_of(v) == Json::Object(listing_of(models_map(map@))),
        lists(listing_of(models_map(map@)), models_map(map@)),
{
    let ghost listing = map.listing();
    let list = map.into_entries();
    proof {
        let keys = keys_of(list@);
        assert forall|i: int, j: int| 0 <= i < j < keys.len() implies lex_lt(
            #[trigger] keys[i],
            #[trigger] keys[j],
        ) by {
            assert(keys[i] == listing[i].0);
            assert(keys[j] == listing[j].0);
        }
        assert(entries_model(list@) =~= value_models(listing));
        lemma_value_models(listing);
        lemma_listing_of(value_models(listing), models_map(map_of(listing)));
    }
    object_value(list)
}

} // verus!
