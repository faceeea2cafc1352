//! String-keyed hash maps of `rustc_hash`, as used for variables,
//! completion scripts and the executables found on `PATH`.
use rustc_hash::{FxBuildHasher, FxHashMap};
use vstd::prelude::*;

verus! {

/// A map from strings to strings hashed with `rustc_hash`.
pub type StrMap = FxHashMap<String, String>;

/// The hasher builder of `rustc_hash`.
#[verifier::external_type_specification]
#[verifier::external_body]
pub struct ExFxBuildHasher(FxBuildHasher);

/// What a string map holds: each key's characters mapped to its value's characters.
pub uninterp spec fn fx_entries(m: StrMap) -> Map<Seq<char>, Seq<char>>;

/// The contents of a map without entries.
pub open spec fn empty_entries() -> Map<Seq<char>, Seq<char>> {
    Map::empty()
}

/// Makes an empty map with `FxHashMap::default` (`HashMap::with_hasher(FxBuildHasher)`):
/// the map holds no entry.
#[verifier::external_body]
pub(crate) fn fx_new() -> (fresh: StrMap)
    ensures
        fx_entries(fresh) == empty_entries(),
{
    FxHashMap::default()
}

/// `HashMap::insert`: afterwards `key` maps to `value` and every other entry is unchanged.
#[verifier::external_body]
pub(crate) fn fx_insert(m: &mut StrMap, key: String, value: String)
    ensures
        fx_entries(*final(m)) == fx_entries(*old(m)).insert(key@, value@),
{
    m.insert(key, value);
}

/// `HashMap::get`: the value stored under `key`, if any.
#[verifier::external_body]
pub(crate) fn fx_get<'a>(m: &'a StrMap, key: &str) -> (r: Option<&'a String>)
    ensures
        match r {
            Some(v) => fx_entries(*m).contains_key(key@) && v@ == fx_entries(*m)[key@],
            None => !fx_entries(*m).contains_key(key@),
        },
{
    m.get(key)
}

/// `HashMap::remove`: afterwards `key` has no entry and every other entry is unchanged.
#[verifier::external_body]
pub(crate) fn fx_remove(m: &mut StrMap, key: &str)
    ensures
        fx_entries(*final(m)) == fx_entries(*old(m)).remove(key@),
{
    m.remove(key);
}

/// `HashMap::keys`, each key copied: every key of the map once, in the
/// map's own order (which this contract leaves open).
#[verifier::external_body]
pub(crate) fn fx_keys(m: &StrMap) -> (r: Vec<String>)
    ensures
        r@.map_values(|k: String| k@).no_duplicates(),
        r@.map_values(|k: String| k@).to_set() == fx_entries(*m).dom(),
{
    m.keys().cloned().collect()
}

} // verus!
