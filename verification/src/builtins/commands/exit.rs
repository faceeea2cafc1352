//! `exit`: leaves the shell.
use crate::builtins::{BuiltinOutcome, OutcomeModel};
use vstd::prelude::*;

verus! {

/// `exit` takes no arguments.
pub struct ExitBuiltin;

impl ExitBuiltin {
    /// Arguments are ignored.
    pub fn parse(args: &[String]) -> (r: Self) {
        ExitBuiltin
    }

    /// Asks the shell to exit, writing nothing.
    pub fn run(self) -> (r: BuiltinOutcome)
        ensures
            r@ == (OutcomeModel { exit: true, lines: Seq::empty(), effect: None }),
    {
        let mut r = BuiltinOutcome::quiet();
        r.exit = true;
        r
    }
}

} // verus!
