//! The executables found on `PATH`, by name.
use crate::shell_state::fx_map::{fx_entries, fx_get, fx_insert, fx_new, StrMap};
use vstd::prelude::*;

verus! {

/// Each executable's file name mapped to its full path.
pub type ExecutableMap = StrMap;

/// The characters of each name and path of a directory's listing.
pub open spec fn pairs_view(v: Seq<(String, String)>) -> Seq<(Seq<char>, Seq<char>)> {
    v.map_values(|p: (String, String)| (p.0@, p.1@))
}

/// The listings of all directories, each as characters.
pub open spec fn listings_view(v: Seq<Vec<(String, String)>>) -> Seq<Seq<(Seq<char>, Seq<char>)>> {
    v.map_values(|l: Vec<(String, String)>| pairs_view(l@))
}

/// All entries of the listings, one listing after the other.
pub open spec fn flat(lists: Seq<Seq<(Seq<char>, Seq<char>)>>) -> Seq<(Seq<char>, Seq<char>)>
    decreases lists.len(),
{
    if lists.len() == 0 {
        Seq::empty()
    } else {
        flat(lists.drop_last()) + lists.last()
    }
}

/// The map from names to paths in which each name keeps the first path found.
pub open spec fn first_wins(pairs: Seq<(Seq<char>, Seq<char>)>) -> Map<Seq<char>, Seq<char>>
    decreases pairs.len(),
{
    if pairs.len() == 0 {
        Map::empty()
    } else {
        let m = first_wins(pairs.drop_last());
        if m.contains_key(pairs.last().0) {
            m
        } else {
            m.insert(pairs.last().0, pairs.last().1)
        }
    }
}

/// Gathers the executables of the `PATH` directories, listed in `PATH` order:
/// a name found in several directories keeps the path of the first one.
pub fn merge_executables(dir_results: Vec<Vec<(String, String)>>) -> (r: ExecutableMap)
    ensures
        fx_entries(r) == first_wins(flat(listings_view(dir_results@))),
{
    let ghost lists = listings_view(dir_results@);
    let mut map = fx_new();
    let mut i: usize = 0;
    assert(flat(lists.take(0)) =~= Seq::<(Seq<char>, Seq<char>)>::empty());
    while i < dir_results.len()
        invariant
            i <= dir_results@.len(),
            lists == listings_view(dir_results@),
            fx_entries(map) == first_wins(flat(lists.take(i as int))),
        decreases dir_results@.len() - i,
    {
        let entries = &dir_results[i];
        let ghost done = flat(lists.take(i as int));
        let ghost here = lists[i as int];
        assert(here == pairs_view(entries@));
        let mut j: usize = 0;
        assert(done + here.take(0) =~= done);
        while j < entries.len()
            invariant
                j <= entries@.len(),
                here == pairs_view(entries@),
                fx_entries(map) == first_wins(done + here.take(j as int)),
            decreases entries@.len() - j,
        {
            let ghost before = done + here.take(j as int);
            assert((done + here.take(j + 1)).drop_last() =~= before);
            assert((done + here.take(j + 1)).last() == here[j as int]);
            let (name, path) = &entries[j];
            if fx_get(&map, name.as_str()).is_none() {
                fx_insert(&mut map, name.clone(), path.clone());
            }
            j = j + 1;
        }
        assert(here.take(entries@.len() as int) =~= here);
        assert(lists.take(i + 1).drop_last() =~= lists.take(i as int));
        assert(lists.take(i + 1).last() == here);
        i = i + 1;
    }
    assert(lists.take(dir_results@.len() as int) =~= lists);
    map
}

} // verus!
