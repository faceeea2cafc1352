//! Shell variables set with `declare`.
use crate::shell_state::fx_map::{fx_entries, fx_get, fx_insert, fx_new, StrMap};
use vstd::prelude::*;

verus! {

/// The shell's variables, each name with its value.
pub struct Variables {
    store: StrMap,
}

impl View for Variables {
    type V = Map<Seq<char>, Seq<char>>;

    closed spec fn view(&self) -> Map<Seq<char>, Seq<char>> {
        fx_entries(self.store)
    }
}

impl Variables {
    /// No variables.
    pub fn new() -> (r: Self)
        ensures
            r@ == Map::<Seq<char>, Seq<char>>::empty(),
    {
        Self { store: fx_new() }
    }

    /// The value of `name`, if it is set.
    pub fn get(&self, name: &str) -> (r: Option<&String>)
        ensures
            match r {
                Some(v) => self@.contains_key(name@) && v@ == self@[name@],
                None => !self@.contains_key(name@),
            },
    {
        fx_get(&self.store, name)
    }

    /// Sets `name` to `value`, replacing any earlier value.
    pub fn set(&mut self, name: String, value: String)
        ensures
            final(self)@ == old(self)@.insert(name@, value@),
    {
        fx_insert(&mut self.store, name, value);
    }
}

/// What `get` reads after `set`: the value just written for the same name,
/// and for any other name what was there before.
pub proof fn law_get_after_set(
    before: &Variables,
    after: &Variables,
    name: Seq<char>,
    value: Seq<char>,
    other: Seq<char>,
)
    requires
        after@ == before@.insert(name, value),
    ensures
        after@.contains_key(name),
        after@[name] == value,
        other != name ==> (after@.contains_key(other) == before@.contains_key(other) && after@[other]
            == before@[other]),
{
}

} // verus!
