//! `complete`: registers, prints or removes completion scripts.
use crate::builtins::{err_line, out_line, quiet, BuiltinOutcome, OutcomeModel};
use crate::completions::CompletionRegistry;
use crate::text::{owned, str_eq, string_append, strings_view};
use vstd::prelude::*;

verus! {

/// What `complete` was asked to do.
pub enum CompleteBuiltin {
    /// `-C script command`: complete `command`'s arguments with `script`.
    Register { script: String, command: String },
    /// `-p command`: print the specification of `command`.
    PrintSpec(String),
    /// `-r command`: forget the specification of `command`.
    Remove(String),
    /// Anything else.
    InvalidUsage,
}

/// The mathematical form of a [`CompleteBuiltin`].
pub enum CompleteModel {
    Register(Seq<char>, Seq<char>),
    PrintSpec(Seq<char>),
    Remove(Seq<char>),
    InvalidUsage,
}

impl View for CompleteBuiltin {
    type V = CompleteModel;

    open spec fn view(&self) -> CompleteModel {
        match self {
            CompleteBuiltin::Register { script, command } => CompleteModel::Register(script@, command@),
            CompleteBuiltin::PrintSpec(c) => CompleteModel::PrintSpec(c@),
            CompleteBuiltin::Remove(c) => CompleteModel::Remove(c@),
            CompleteBuiltin::InvalidUsage => CompleteModel::InvalidUsage,
        }
    }
}

/// What the arguments of `complete` ask for.
pub open spec fn complete_request(args: Seq<Seq<char>>) -> CompleteModel {
    if args.len() > 0 && args[0] == seq!['-', 'C'] {
        if args.len() > 2 {
            CompleteModel::Register(args[1], args[2])
        } else {
            CompleteModel::InvalidUsage
        }
    } else if args.len() > 0 && args[0] == seq!['-', 'p'] {
        if args.len() > 1 {
            CompleteModel::PrintSpec(args[1])
        } else {
            CompleteModel::InvalidUsage
        }
    } else if args.len() > 0 && args[0] == seq!['-', 'r'] {
        if args.len() > 1 {
            CompleteModel::Remove(args[1])
        } else {
            CompleteModel::InvalidUsage
        }
    } else {
        CompleteModel::InvalidUsage
    }
}

/// The line `complete -p` prints for a registered command.
pub open spec fn spec_line(script: Seq<char>, command: Seq<char>) -> Seq<char> {
    "complete -C '"@ + script + "' "@ + command
}

/// The message for a command without a registered script.
pub open spec fn no_spec_line(command: Seq<char>) -> Seq<char> {
    "complete: "@ + command + ": no completion specification"@
}

/// The usage message.
pub open spec fn usage_line() -> Seq<char> {
    "complete: usage: complete -C script command"@
}

/// What `complete` gives for a request, with the scripts before and after.
pub open spec fn complete_outcome(
    req: CompleteModel,
    before: Map<Seq<char>, Seq<char>>,
    after: Map<Seq<char>, Seq<char>>,
    r: OutcomeModel,
) -> bool {
    match req {
        CompleteModel::Register(script, command) => {
            &&& after == before.insert(command, script)
            &&& r == quiet()
        },
        CompleteModel::PrintSpec(command) => {
            &&& after == before
            &&& r == if before.contains_key(command) {
                out_line(spec_line(before[command], command))
            } else {
                err_line(no_spec_line(command))
            }
        },
        CompleteModel::Remove(command) => {
            &&& after == before.remove(command)
            &&& r == quiet()
        },
        CompleteModel::InvalidUsage => {
            &&& after == before
            &&& r == err_line(usage_line())
        },
    }
}

impl CompleteBuiltin {
    /// Reads the arguments of `complete`.
    pub fn parse(args: &[String]) -> (r: Self)
        ensures
            r@ == complete_request(strings_view(args@)),
    {
        proof {
            reveal_strlit("-C");
            reveal_strlit("-p");
            reveal_strlit("-r");
            assert("-C"@ =~= seq!['-', 'C']);
            assert("-p"@ =~= seq!['-', 'p']);
            assert("-r"@ =~= seq!['-', 'r']);
        }
        if args.len() == 0 {
            return CompleteBuiltin::InvalidUsage;
        }
        let first = args[0].as_str();
        assert(first@ == strings_view(args@)[0]);
        if str_eq(first, "-C") {
            if args.len() > 2 {
                let script = args[1].clone();
                let command = args[2].clone();
                assert(script@ == strings_view(args@)[1]);
                assert(command@ == strings_view(args@)[2]);
                CompleteBuiltin::Register { script, command }
            } else {
                CompleteBuiltin::InvalidUsage
            }
        } else if str_eq(first, "-p") {
            if args.len() > 1 {
                let command = args[1].clone();
                assert(command@ == strings_view(args@)[1]);
                CompleteBuiltin::PrintSpec(command)
            } else {
                CompleteBuiltin::InvalidUsage
            }
        } else if str_eq(first, "-r") {
            if args.len() > 1 {
                let command = args[1].clone();
                assert(command@ == strings_view(args@)[1]);
                CompleteBuiltin::Remove(command)
            } else {
                CompleteBuiltin::InvalidUsage
            }
        } else {
            CompleteBuiltin::InvalidUsage
        }
    }

    /// Registers, prints or removes a script, or prints the usage.
    pub fn run(self, completions: &mut CompletionRegistry) -> (r: BuiltinOutcome)
        ensures
            complete_outcome(self@, old(completions)@, final(completions)@, r@),
    {
        match self {
            CompleteBuiltin::Register { script, command } => {
                completions.register(command, script);
                BuiltinOutcome::quiet()
            },
            CompleteBuiltin::PrintSpec(command) => {
                match completions.get(command.as_str()) {
                    Some(script) => {
                        let mut line = owned("complete -C '");
                        string_append(&mut line, script.as_str());
                        string_append(&mut line, "' ");
                        string_append(&mut line, command.as_str());
                        BuiltinOutcome::out_line(line)
                    },
                    None => {
                        let mut line = owned("complete: ");
                        string_append(&mut line, command.as_str());
                        string_append(&mut line, ": no completion specification");
                        BuiltinOutcome::err_line(line)
                    },
                }
            },
            CompleteBuiltin::Remove(command) => {
                completions.remove(command.as_str());
                BuiltinOutcome::quiet()
            },
            CompleteBuiltin::InvalidUsage => {
                BuiltinOutcome::err_line(owned("complete: usage: complete -C script command"))
            },
        }
    }
}

} // verus!

verus! {

/// After `complete -C script command`, `complete -p command` prints
/// `complete -C 'script' command`.
pub proof fn law_register_then_print(
    script: Seq<char>,
    command: Seq<char>,
    before: Map<Seq<char>, Seq<char>>,
    after: Map<Seq<char>, Seq<char>>,
    r1: crate::builtins::OutcomeModel,
    r2: crate::builtins::OutcomeModel,
)
    requires
        complete_outcome(complete_request(seq![seq!['-', 'C'], script, command]), before, after, r1),
        complete_outcome(complete_request(seq![seq!['-', 'p'], command]), after, after, r2),
    ensures
        after == before.insert(command, script),
        r2 == out_line(spec_line(script, command)),
{
    assert(seq!['-', 'p'] != seq!['-', 'C']) by {
        assert(seq!['-', 'p'][1] != seq!['-', 'C'][1]);
    }
    assert(complete_request(seq![seq!['-', 'C'], script, command]) == CompleteModel::Register(script, command));
    assert(complete_request(seq![seq!['-', 'p'], command]) == CompleteModel::PrintSpec(command));
}

} // verus!
