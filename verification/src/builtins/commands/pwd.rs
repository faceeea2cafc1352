//! `pwd`: prints the working directory.
use crate::builtins::{effect_only, BuiltinEffect, BuiltinOutcome, EffectModel};
use vstd::prelude::*;

verus! {

/// `pwd` takes no arguments.
pub struct PwdBuiltin;

impl PwdBuiltin {
    /// Arguments are ignored.
    pub fn parse(args: &[String]) -> (r: Self) {
        PwdBuiltin
    }

    /// Asks for the working directory to be printed.
    pub fn run(self) -> (r: BuiltinOutcome)
        ensures
            r@ == effect_only(EffectModel::PrintWorkingDirectory),
    {
        BuiltinOutcome::effect_only(BuiltinEffect::PrintWorkingDirectory)
    }
}

} // verus!
