//! `echo`: prints its arguments.
use crate::builtins::{out_line, BuiltinOutcome, OutcomeModel};
use crate::text::{join, joined, strings_view};
use vstd::prelude::*;

verus! {

/// The words `echo` prints.
pub struct EchoBuiltin {
    pub words: Vec<String>,
}

/// A copy of the arguments.
pub fn copy_args(args: &[String], from: usize) -> (r: Vec<String>)
    requires
        from <= args@.len(),
    ensures
        strings_view(r@) == strings_view(args@).subrange(from as int, args@.len() as int),
{
    let mut r: Vec<String> = Vec::new();
    let mut i = from;
    while i < args.len()
        invariant
            from <= i <= args@.len(),
            strings_view(r@) == strings_view(args@).subrange(from as int, i as int),
        decreases args@.len() - i,
    {
        let ghost before = strings_view(r@);
        let a = args[i].clone();
        assert(a@ == args@[i as int]@);
        r.push(a);
        assert(strings_view(r@) =~= before.push(a@));
        assert(strings_view(r@) =~= strings_view(args@).subrange(from as int, i + 1));
        i = i + 1;
    }
    r
}

impl EchoBuiltin {
    /// All arguments are words to print.
    pub fn parse(args: &[String]) -> (r: Self)
        ensures
            strings_view(r.words@) == strings_view(args@),
    {
        let words = copy_args(args, 0);
        assert(strings_view(args@).subrange(0, args@.len() as int) =~= strings_view(args@));
        EchoBuiltin { words }
    }

    /// Prints the words separated by single spaces, on one line.
    pub fn run(self) -> (r: BuiltinOutcome)
        ensures
            r@ == out_line(joined(strings_view(self.words@), " "@)),
    {
        BuiltinOutcome::out_line(join(&self.words, " "))
    }
}

} // verus!
