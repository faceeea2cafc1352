//! The completion scripts registered with `complete -C`, by command.
use crate::shell_state::fx_map::{fx_entries, fx_get, fx_insert, fx_new, fx_remove, StrMap};
use vstd::prelude::*;

verus! {

/// For each command, the script that proposes completions of its arguments.
pub struct CompletionRegistry {
    completers: StrMap,
}

impl View for CompletionRegistry {
    type V = Map<Seq<char>, Seq<char>>;

    closed spec fn view(&self) -> Map<Seq<char>, Seq<char>> {
        fx_entries(self.completers)
    }
}

impl CompletionRegistry {
    /// No scripts.
    pub fn new() -> (r: Self)
        ensures
            r@ == Map::<Seq<char>, Seq<char>>::empty(),
    {
        Self { completers: fx_new() }
    }

    /// Registers `script` as the completer of `command`, replacing any earlier one.
    pub fn register(&mut self, command: String, script: String)
        ensures
            final(self)@ == old(self)@.insert(command@, script@),
    {
        fx_insert(&mut self.completers, command, script);
    }

    /// The script registered for `command`, if any.
    pub fn get(&self, command: &str) -> (r: Option<&String>)
        ensures
            match r {
                Some(v) => self@.contains_key(command@) && v@ == self@[command@],
                None => !self@.contains_key(command@),
            },
    {
        fx_get(&self.completers, command)
    }

    /// Forgets the script of `command`, if any.
    pub fn remove(&mut self, command: &str)
        ensures
            final(self)@ == old(self)@.remove(command@),
    {
        fx_remove(&mut self.completers, command);
    }
}

/// After `remove`, `get` finds nothing for the removed command and the same
/// script as before for every other command.
pub proof fn law_get_after_remove(
    before: &CompletionRegistry,
    after: &CompletionRegistry,
    command: Seq<char>,
    other: Seq<char>,
)
    requires
        after@ == before@.remove(command),
    ensures
        !after@.contains_key(command),
        other != command ==> (after@.contains_key(other) == before@.contains_key(other) && after@[other]
            == before@[other]),
{
}

/// After `register`, `get` finds the new script for the command and the same
/// script as before for every other command.
pub proof fn law_get_after_register(
    before: &CompletionRegistry,
    after: &CompletionRegistry,
    command: Seq<char>,
    script: Seq<char>,
    other: Seq<char>,
)
    requires
        after@ == before@.insert(command, script),
    ensures
        after@.contains_key(command),
        after@[command] == script,
        other != command ==> (after@.contains_key(other) == before@.contains_key(other) && after@[other]
            == before@[other]),
{
}

} // verus!
