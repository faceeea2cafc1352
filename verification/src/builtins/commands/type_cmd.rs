//! `type`: tells how each name would run.
use crate::builtins::registry::builtin_of;
use crate::builtins::{is_builtin_command, lines_view, BuiltinOutcome, OutcomeModel, OutputLine};
use crate::command::Fd;
use crate::shell_state::executables::ExecutableMap;
use crate::shell_state::fx_map::{fx_entries, fx_get};
use crate::text::{owned, string_append, strings_view};
use vstd::prelude::*;

verus! {

/// The names `type` describes.
pub struct TypeBuiltin {
    pub names: Vec<String>,
}

/// Whether `type` reports `name` on standard output (it is a builtin or an
/// executable) rather than on standard error.
pub open spec fn is_known(name: Seq<char>, exes: Map<Seq<char>, Seq<char>>) -> bool {
    builtin_of(name).is_some() || exes.contains_key(name)
}

/// What `type` says of a known name.
pub open spec fn type_line(name: Seq<char>, exes: Map<Seq<char>, Seq<char>>) -> Seq<char> {
    if builtin_of(name).is_some() {
        name + " is a shell builtin"@
    } else {
        name + " is "@ + exes[name]
    }
}

/// What `type` says of an unknown name.
pub open spec fn not_found_line(name: Seq<char>) -> Seq<char> {
    name + ": not found"@
}

/// The lines `type` writes for `names`, in order, each on its stream.
pub open spec fn type_lines(names: Seq<Seq<char>>, exes: Map<Seq<char>, Seq<char>>) -> Seq<(Fd, Seq<char>)>
    decreases names.len(),
{
    if names.len() == 0 {
        Seq::empty()
    } else if is_known(names.last(), exes) {
        type_lines(names.drop_last(), exes).push((Fd::Stdout, type_line(names.last(), exes)))
    } else {
        type_lines(names.drop_last(), exes).push((Fd::Stderr, not_found_line(names.last())))
    }
}

/// What `type` gives for `names`.
pub open spec fn type_outcome(names: Seq<Seq<char>>, exes: Map<Seq<char>, Seq<char>>) -> OutcomeModel {
    OutcomeModel { exit: false, lines: type_lines(names, exes), effect: None }
}

impl TypeBuiltin {
    /// Every argument is a name to describe.
    pub fn parse(args: &[String]) -> (r: Self)
        ensures
            strings_view(r.names@) == strings_view(args@),
    {
        let names = crate::builtins::commands::echo::copy_args(args, 0);
        assert(strings_view(args@).subrange(0, args@.len() as int) =~= strings_view(args@));
        TypeBuiltin { names }
    }

    /// For each name: `is a shell builtin`, or the executable's path, on
    /// standard output; `not found` on standard error otherwise.
    pub fn run(self, executables: &ExecutableMap) -> (r: BuiltinOutcome)
        ensures
            r@ == type_outcome(strings_view(self.names@), fx_entries(*executables)),
    {
        let ghost exes = fx_entries(*executables);
        let ghost ns = strings_view(self.names@);
        let mut lines: Vec<OutputLine> = Vec::new();
        let mut i: usize = 0;
        assert(ns.take(0) =~= Seq::<Seq<char>>::empty());
        assert(lines_view(lines@) =~= Seq::<(Fd, Seq<char>)>::empty());
        while i < self.names.len()
            invariant
                i <= self.names@.len(),
                ns == strings_view(self.names@),
                exes == fx_entries(*executables),
                lines_view(lines@) == type_lines(ns.take(i as int), exes),
            decreases self.names@.len() - i,
        {
            assert(ns.take(i + 1).drop_last() =~= ns.take(i as int));
            assert(ns.take(i + 1).last() == ns[i as int]);
            let n = &self.names[i];
            let ghost before = lines_view(lines@);
            if is_builtin_command(n.as_str()) {
                let mut text = owned(n.as_str());
                string_append(&mut text, " is a shell builtin");
                lines.push(OutputLine { fd: Fd::Stdout, text });
                assert(lines_view(lines@) =~= before.push((Fd::Stdout, type_line(n@, exes))));
            } else {
                match fx_get(executables, n.as_str()) {
                    Some(path) => {
                        let mut text = owned(n.as_str());
                        string_append(&mut text, " is ");
                        string_append(&mut text, path.as_str());
                        lines.push(OutputLine { fd: Fd::Stdout, text });
                        assert(lines_view(lines@) =~= before.push((Fd::Stdout, type_line(n@, exes))));
                    },
                    None => {
                        let mut text = owned(n.as_str());
                        string_append(&mut text, ": not found");
                        lines.push(OutputLine { fd: Fd::Stderr, text });
                        assert(lines_view(lines@) =~= before.push((Fd::Stderr, not_found_line(n@))));
                    },
                }
            }
            i = i + 1;
        }
        assert(ns.take(self.names@.len() as int) =~= ns);
        BuiltinOutcome { exit: false, lines, effect: None }
    }
}

} // verus!

verus! {

/// `type` writes one line per name, in order: a builtin is reported as a
/// shell builtin whatever `PATH` holds; any other name that `PATH` maps to a
/// file is reported with that file's path; every other name is reported as
/// not found, on standard error.
pub proof fn law_type_reports(names: Seq<Seq<char>>, exes: Map<Seq<char>, Seq<char>>)
    ensures
        type_outcome(names, exes).lines.len() == names.len(),
        !type_outcome(names, exes).exit,
        type_outcome(names, exes).effect is None,
        forall|i: int|
            0 <= i < names.len() ==> #[trigger] type_outcome(names, exes).lines[i] == if builtin_of(
                names[i],
            ).is_some() {
                (Fd::Stdout, names[i] + " is a shell builtin"@)
            } else if exes.contains_key(names[i]) {
                (Fd::Stdout, names[i] + " is "@ + exes[names[i]])
            } else {
                (Fd::Stderr, names[i] + ": not found"@)
            },
    decreases names.len(),
{
    if names.len() > 0 {
        let init = names.drop_last();
        law_type_reports(init, exes);
        assert forall|i: int| 0 <= i < names.len() implies #[trigger] type_outcome(names, exes).lines[i] == if builtin_of(
            names[i],
        ).is_some() {
            (Fd::Stdout, names[i] + " is a shell builtin"@)
        } else if exes.contains_key(names[i]) {
            (Fd::Stdout, names[i] + " is "@ + exes[names[i]])
        } else {
            (Fd::Stderr, names[i] + ": not found"@)
        } by {
            if i < init.len() {
                assert(init[i] == names[i]);
                assert(type_outcome(init, exes).lines[i] == type_lines(init, exes)[i]);
            }
        }
    }
}

} // verus!
