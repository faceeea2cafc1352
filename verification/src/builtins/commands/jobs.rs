//! `jobs`: lists the background jobs.
use crate::bg_jobs::BackgroundJobRegistry;
use crate::builtins::{listing, BuiltinOutcome, OutcomeModel};
use crate::text::strings_view;
use vstd::prelude::*;

verus! {

/// What `jobs` gives: the job listing on standard output and nothing else.
pub open spec fn jobs_outcome(bg_jobs: &BackgroundJobRegistry, r: OutcomeModel) -> bool {
    exists|ls: Seq<Seq<char>>| bg_jobs.is_listing(ls) && r == listing(ls)
}

/// `jobs` takes no arguments.
pub struct JobsBuiltin;

impl JobsBuiltin {
    /// Arguments are ignored.
    pub fn parse(args: &[String]) -> (r: Self) {
        JobsBuiltin
    }

    /// Prints the job listing.
    pub fn run(self, bg_jobs: &BackgroundJobRegistry) -> (r: BuiltinOutcome)
        requires
            bg_jobs.inv(),
        ensures
            jobs_outcome(bg_jobs, r@),
    {
        let lines = bg_jobs.list_jobs();
        let ghost ls = strings_view(lines@);
        let r = BuiltinOutcome::listing(lines);
        assert(bg_jobs.is_listing(ls) && r@ == listing(ls));
        r
    }
}

} // verus!
