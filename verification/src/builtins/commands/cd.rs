//! `cd`: changes the working directory.
use crate::builtins::{effect_only, BuiltinEffect, BuiltinOutcome, EffectModel};
use crate::text::{opt_view, str_eq, strings_view};
use vstd::prelude::*;

verus! {

/// Where `cd` goes: the path given, or the home directory for `None`.
pub struct CdBuiltin {
    pub path: Option<String>,
}

/// The word `~`.
pub open spec fn tilde() -> Seq<char> {
    seq!['~']
}

/// The directory `cd` goes to: its first argument unless that is missing or `~`.
pub open spec fn cd_target(args: Seq<Seq<char>>) -> Option<Seq<char>> {
    if args.len() > 0 && args[0] != tilde() {
        Some(args[0])
    } else {
        None
    }
}

impl CdBuiltin {
    /// The first argument is the directory; none, or `~`, means home.
    pub fn parse(args: &[String]) -> (r: Self)
        ensures
            opt_view(r.path) == cd_target(strings_view(args@)),
    {
        proof {
            reveal_strlit("~");
            assert("~"@ =~= tilde());
        }
        if args.len() > 0 && !str_eq(args[0].as_str(), "~") {
            assert(args[0]@ == strings_view(args@)[0]);
            CdBuiltin { path: Some(args[0].clone()) }
        } else {
            CdBuiltin { path: None }
        }
    }

    /// Asks for the working directory to change.
    pub fn run(self) -> (r: BuiltinOutcome)
        ensures
            r@ == effect_only(EffectModel::ChangeDirectory(opt_view(self.path))),
    {
        BuiltinOutcome::effect_only(BuiltinEffect::ChangeDirectory(self.path))
    }
}

} // verus!
