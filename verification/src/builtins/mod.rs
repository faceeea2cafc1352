//! The shell's builtin commands: which names are builtins, how each one reads
//! its arguments, and what running it does to the shell's state.
//!
//! Running a builtin gives a [`BuiltinOutcome`]: the lines it writes to
//! standard output and standard error, whether the shell should exit, and
//! the one action on the outside world (the working directory, a history
//! file) that it asks the caller to carry out.
pub mod commands;
pub mod registry;

use crate::bg_jobs::BackgroundJobRegistry;
use crate::completions::CompletionRegistry;
use crate::history::History;
use crate::shell_state::executables::ExecutableMap;
use crate::shell_state::variables::Variables;
use crate::command::Fd;
use crate::text::{joined, opt_view, owned, string_append, strings_view};
use commands::cd::{cd_target, CdBuiltin};
use commands::complete::{complete_outcome, complete_request, spec_line, CompleteBuiltin, CompleteModel};
use commands::declare::{
    declare_outcome, declare_request, declared_line, lemma_assignment_request, lemma_print_one, valid_identifier,
    DeclareBuiltin, DeclareModel,
};
use commands::echo::EchoBuiltin;
use commands::exit::ExitBuiltin;
use commands::history::{history_outcome, history_request, HistoryBuiltin};
use commands::jobs::{jobs_outcome, JobsBuiltin};
use commands::pwd::PwdBuiltin;
use commands::type_cmd::{type_outcome, TypeBuiltin};
use crate::shell_state::fx_map::fx_entries;
use registry::{builtin_name, builtin_names, builtin_of, lemma_lookup_matches_table, BuiltinKind};
use vstd::prelude::*;

verus! {

/// An action on the outside world that a builtin asks for.
pub enum BuiltinEffect {
    /// Change the working directory to the path, or to `$HOME` for `None`.
    ChangeDirectory(Option<String>),
    /// Print the working directory.
    PrintWorkingDirectory,
    /// Add the lines of the history file at the path to the history.
    ReadHistory(String),
    /// Write the whole history to the file at the path.
    WriteHistory(String),
    /// Append the entries not yet appended to the file at the path.
    AppendHistory(String),
}

/// The mathematical form of a [`BuiltinEffect`].
pub enum EffectModel {
    ChangeDirectory(Option<Seq<char>>),
    PrintWorkingDirectory,
    ReadHistory(Seq<char>),
    WriteHistory(Seq<char>),
    AppendHistory(Seq<char>),
}

impl View for BuiltinEffect {
    type V = EffectModel;

    open spec fn view(&self) -> EffectModel {
        match self {
                BuiltinEffect::ChangeDirectory(p) => EffectModel::ChangeDirectory(opt_view(*p)),
            BuiltinEffect::PrintWorkingDirectory => EffectModel::PrintWorkingDirectory,
            BuiltinEffect::ReadHistory(p) => EffectModel::ReadHistory(p@),
            BuiltinEffect::WriteHistory(p) => EffectModel::WriteHistory(p@),
            BuiltinEffect::AppendHistory(p) => EffectModel::AppendHistory(p@),
        }
    }
}

/// One line that a builtin writes, with the stream it goes to.
pub struct OutputLine {
    pub fd: Fd,
    pub text: String,
}

impl View for OutputLine {
    type V = (Fd, Seq<char>);

    open spec fn view(&self) -> (Fd, Seq<char>) {
        (self.fd, self.text@)
    }
}

/// The stream and characters of each line of `v`.
pub open spec fn lines_view(v: Seq<OutputLine>) -> Seq<(Fd, Seq<char>)> {
    v.map_values(|l: OutputLine| l@)
}

/// The lines `ls`, all on standard output.
pub open spec fn on_stdout(ls: Seq<Seq<char>>) -> Seq<(Fd, Seq<char>)> {
    ls.map_values(|l: Seq<char>| (Fd::Stdout, l))
}

/// What running a builtin gives.
pub struct BuiltinOutcome {
    /// Whether the shell should exit.
    pub exit: bool,
    /// The lines written, in order, each with its stream.
    pub lines: Vec<OutputLine>,
    /// The action on the outside world that is still to be done.
    pub effect: Option<BuiltinEffect>,
}

/// The mathematical form of a [`BuiltinOutcome`].
pub struct OutcomeModel {
    pub exit: bool,
    pub lines: Seq<(Fd, Seq<char>)>,
    pub effect: Option<EffectModel>,
}

impl View for BuiltinOutcome {
    type V = OutcomeModel;

    open spec fn view(&self) -> OutcomeModel {
        OutcomeModel {
            exit: self.exit,
            lines: lines_view(self.lines@),
            effect: match self.effect {
                Some(e) => Some(e@),
                None => None,
            },
        }
    }
}

/// An outcome that writes nothing, asks for nothing and does not exit.
pub open spec fn quiet() -> OutcomeModel {
    OutcomeModel { exit: false, lines: Seq::empty(), effect: None }
}

/// An outcome that writes `line` to standard output.
pub open spec fn out_line(line: Seq<char>) -> OutcomeModel {
    OutcomeModel { exit: false, lines: seq![(Fd::Stdout, line)], effect: None }
}

/// An outcome that writes `line` to standard error.
pub open spec fn err_line(line: Seq<char>) -> OutcomeModel {
    OutcomeModel { exit: false, lines: seq![(Fd::Stderr, line)], effect: None }
}

/// An outcome that asks for `e` and writes nothing.
pub open spec fn effect_only(e: EffectModel) -> OutcomeModel {
    OutcomeModel { exit: false, lines: Seq::empty(), effect: Some(e) }
}

/// An outcome that writes `ls` to standard output and nothing else.
pub open spec fn listing(ls: Seq<Seq<char>>) -> OutcomeModel {
    OutcomeModel { exit: false, lines: on_stdout(ls), effect: None }
}

impl BuiltinOutcome {
    /// Nothing written, nothing asked, no exit.
    pub fn quiet() -> (r: Self)
        ensures
            r@ == quiet(),
    {
        let r = BuiltinOutcome { exit: false, lines: Vec::new(), effect: None };
        assert(r@.lines =~= Seq::<(Fd, Seq<char>)>::empty());
        r
    }

    /// One line written to standard output.
    pub fn out_line(line: String) -> (r: Self)
        ensures
            r@ == out_line(line@),
    {
        let r = BuiltinOutcome { exit: false, lines: vec![OutputLine { fd: Fd::Stdout, text: line }], effect: None };
        assert(r@.lines =~= seq![(Fd::Stdout, line@)]);
        r
    }

    /// One line written to standard error.
    pub fn err_line(line: String) -> (r: Self)
        ensures
            r@ == err_line(line@),
    {
        let r = BuiltinOutcome { exit: false, lines: vec![OutputLine { fd: Fd::Stderr, text: line }], effect: None };
        assert(r@.lines =~= seq![(Fd::Stderr, line@)]);
        r
    }

    /// Only an action asked for.
    pub fn effect_only(e: BuiltinEffect) -> (r: Self)
        ensures
            r@ == effect_only(e@),
    {
        let r = BuiltinOutcome { exit: false, lines: Vec::new(), effect: Some(e) };
        assert(r@.lines =~= Seq::<(Fd, Seq<char>)>::empty());
        r
    }

    /// The lines `ls` written to standard output.
    pub fn listing(ls: Vec<String>) -> (r: Self)
        ensures
            r@ == listing(strings_view(ls@)),
    {
        let ghost lv = strings_view(ls@);
        let mut lines: Vec<OutputLine> = Vec::new();
        let mut i: usize = 0;
        let n = ls.len();
        while i < n
            invariant
                i <= n == lv.len(),
                lv == strings_view(ls@),
                lines_view(lines@) == on_stdout(lv.take(i as int)),
            decreases n - i,
        {
            let text = ls[i].clone();
            let ghost before = lines_view(lines@);
            lines.push(OutputLine { fd: Fd::Stdout, text });
            assert(lines_view(lines@) =~= on_stdout(lv.take(i + 1))) by {
                assert(on_stdout(lv.take(i + 1)) =~= before.push((Fd::Stdout, lv[i as int])));
            }
            i = i + 1;
        }
        assert(lv.take(n as int) =~= lv);
        BuiltinOutcome { exit: false, lines, effect: None }
    }
}

/// The names of all builtins, in table order.
pub fn builtin_commands() -> (r: Vec<&'static str>)
    ensures
        r@.map_values(|s: &str| s@) == builtin_names(),
{
    registry::names()
}

/// Whether `name` is a builtin.
pub fn is_builtin_command(name: &str) -> (r: bool)
    ensures
        r == builtin_of(name@).is_some(),
{
    registry::contains(name)
}

/// The message for a name that the table does not hold.
pub open spec fn unknown_builtin_line(name: Seq<char>) -> Seq<char> {
    "panic: unknown builtin '"@ + name + "'"@
}

/// What running the builtin `kind` (the lookup of `name`) on `args` gives,
/// given the executables, the jobs and the history, with the variables and
/// completion scripts before and after.
pub open spec fn builtin_outcome(
    kind: Option<BuiltinKind>,
    name: Seq<char>,
    args: Seq<Seq<char>>,
    exes: Map<Seq<char>, Seq<char>>,
    bg_jobs: &BackgroundJobRegistry,
    history: &History,
    vars_before: Map<Seq<char>, Seq<char>>,
    vars_after: Map<Seq<char>, Seq<char>>,
    comps_before: Map<Seq<char>, Seq<char>>,
    comps_after: Map<Seq<char>, Seq<char>>,
    r: OutcomeModel,
) -> bool {
    &&& kind != Some(BuiltinKind::Declare) ==> vars_after == vars_before
    &&& kind != Some(BuiltinKind::Complete) ==> comps_after == comps_before
    &&& match kind {
        None => r == err_line(unknown_builtin_line(name)),
        Some(BuiltinKind::Exit) => r == (OutcomeModel { exit: true, lines: Seq::empty(), effect: None }),
        Some(BuiltinKind::Echo) => r == out_line(joined(args, " "@)),
        Some(BuiltinKind::Type) => r == type_outcome(args, exes),
        Some(BuiltinKind::Pwd) => r == effect_only(EffectModel::PrintWorkingDirectory),
        Some(BuiltinKind::Cd) => r == effect_only(EffectModel::ChangeDirectory(cd_target(args))),
        Some(BuiltinKind::Jobs) => jobs_outcome(bg_jobs, r),
        Some(BuiltinKind::History) => history_outcome(history_request(args), history, r),
        Some(BuiltinKind::Declare) => declare_outcome(
            declare_request(args),
            vars_before,
            vars_after,
            r,
        ),
        Some(BuiltinKind::Complete) => complete_outcome(
            complete_request(args),
            comps_before,
            comps_after,
            r,
        ),
    }
}

/// Runs the builtin `name` with `args`: looks it up, reads its arguments and
/// runs it against the shell's state.
pub fn run_builtin(
    name: &str,
    args: &[String],
    executables: &ExecutableMap,
    bg_jobs: &BackgroundJobRegistry,
    history: &History,
    variables: &mut Variables,
    completions: &mut CompletionRegistry,
) -> (r: BuiltinOutcome)
    requires
        bg_jobs.inv(),
    ensures
        builtin_outcome(
            builtin_of(name@),
            name@,
            strings_view(args@),
            fx_entries(*executables),
            bg_jobs,
            history,
            old(variables)@,
            final(variables)@,
            old(completions)@,
            final(completions)@,
            r@,
        ),
{
    match registry::get(name) {
        Some(BuiltinKind::Exit) => ExitBuiltin::parse(args).run(),
        Some(BuiltinKind::Echo) => EchoBuiltin::parse(args).run(),
        Some(BuiltinKind::Type) => TypeBuiltin::parse(args).run(executables),
        Some(BuiltinKind::Pwd) => PwdBuiltin::parse(args).run(),
        Some(BuiltinKind::Cd) => CdBuiltin::parse(args).run(),
        Some(BuiltinKind::Jobs) => JobsBuiltin::parse(args).run(bg_jobs),
        Some(BuiltinKind::History) => HistoryBuiltin::parse(args).run(history),
        Some(BuiltinKind::Declare) => DeclareBuiltin::parse(args).run(variables),
        Some(BuiltinKind::Complete) => CompleteBuiltin::parse(args).run(completions),
        None => {
            let mut line = owned("panic: unknown builtin '");
            string_append(&mut line, name);
            string_append(&mut line, "'");
            BuiltinOutcome::err_line(line)
        },
    }
}

} // verus!

verus! {

/// A run of a builtin: its name and its arguments.
pub type BuiltinCall = (Seq<char>, Seq<Seq<char>>);

/// The variables after running the builtin `name` with `args` on `before`:
/// only `declare name=value` with a valid name changes them.
pub open spec fn vars_after(
    name: Seq<char>,
    args: Seq<Seq<char>>,
    before: Map<Seq<char>, Seq<char>>,
) -> Map<Seq<char>, Seq<char>> {
    if builtin_of(name) == Some(BuiltinKind::Declare) {
        match declare_request(args) {
            DeclareModel::SetVariable(n, v) => before.insert(n, v),
            _ => before,
        }
    } else {
        before
    }
}

/// The completion scripts after running the builtin `name` with `args` on
/// `before`: only `complete -C` and `complete -r` change them.
pub open spec fn comps_after(
    name: Seq<char>,
    args: Seq<Seq<char>>,
    before: Map<Seq<char>, Seq<char>>,
) -> Map<Seq<char>, Seq<char>> {
    if builtin_of(name) == Some(BuiltinKind::Complete) {
        match complete_request(args) {
            CompleteModel::Register(script, command) => before.insert(command, script),
            CompleteModel::Remove(command) => before.remove(command),
            _ => before,
        }
    } else {
        before
    }
}

/// The variables after running `calls` in order, starting from `start`.
pub open spec fn vars_through(calls: Seq<BuiltinCall>, start: Map<Seq<char>, Seq<char>>) -> Map<
    Seq<char>,
    Seq<char>,
>
    decreases calls.len(),
{
    if calls.len() == 0 {
        start
    } else {
        vars_after(calls.last().0, calls.last().1, vars_through(calls.drop_last(), start))
    }
}

/// The completion scripts after running `calls` in order, starting from `start`.
pub open spec fn comps_through(calls: Seq<BuiltinCall>, start: Map<Seq<char>, Seq<char>>) -> Map<
    Seq<char>,
    Seq<char>,
>
    decreases calls.len(),
{
    if calls.len() == 0 {
        start
    } else {
        comps_after(calls.last().0, calls.last().1, comps_through(calls.drop_last(), start))
    }
}

/// Whether `call` sets the variable `n`.
pub open spec fn sets_variable(call: BuiltinCall, n: Seq<char>) -> bool {
    &&& builtin_of(call.0) == Some(BuiltinKind::Declare)
    &&& declare_request(call.1) matches DeclareModel::SetVariable(m, _) && m == n
}

/// Whether `call` registers or removes the script of command `c`.
pub open spec fn changes_script(call: BuiltinCall, c: Seq<char>) -> bool {
    &&& builtin_of(call.0) == Some(BuiltinKind::Complete)
    &&& match complete_request(call.1) {
        CompleteModel::Register(_, m) => m == c,
        CompleteModel::Remove(m) => m == c,
        _ => false,
    }
}

/// One run of `run_builtin` changes the variables and the completion scripts
/// as [`vars_after`] and [`comps_after`] say.
pub proof fn lemma_run_state(
    name: Seq<char>,
    args: Seq<Seq<char>>,
    exes: Map<Seq<char>, Seq<char>>,
    bg_jobs: &BackgroundJobRegistry,
    history: &History,
    vars_before: Map<Seq<char>, Seq<char>>,
    vars_after_run: Map<Seq<char>, Seq<char>>,
    comps_before: Map<Seq<char>, Seq<char>>,
    comps_after_run: Map<Seq<char>, Seq<char>>,
    r: OutcomeModel,
)
    requires
        builtin_outcome(
            builtin_of(name),
            name,
            args,
            exes,
            bg_jobs,
            history,
            vars_before,
            vars_after_run,
            comps_before,
            comps_after_run,
            r,
        ),
    ensures
        vars_after_run == vars_after(name, args, vars_before),
        comps_after_run == comps_after(name, args, comps_before),
{
}

/// States reached one run at a time, each as [`vars_after`] says, end in
/// [`vars_through`] of the runs.
pub proof fn lemma_vars_steps(calls: Seq<BuiltinCall>, states: Seq<Map<Seq<char>, Seq<char>>>)
    requires
        states.len() == calls.len() + 1,
        forall|i: int|
            0 <= i < calls.len() ==> #[trigger] states[i + 1] == vars_after(calls[i].0, calls[i].1, states[i]),
    ensures
        states.last() == vars_through(calls, states[0]),
    decreases calls.len(),
{
    if calls.len() > 0 {
        let k = calls.len() - 1;
        lemma_vars_steps(calls.drop_last(), states.drop_last());
        assert(states.drop_last().last() == states[k]);
        assert(states[k + 1] == vars_after(calls[k].0, calls[k].1, states[k]));
    }
}

/// States reached one run at a time, each as [`comps_after`] says, end in
/// [`comps_through`] of the runs.
pub proof fn lemma_comps_steps(calls: Seq<BuiltinCall>, states: Seq<Map<Seq<char>, Seq<char>>>)
    requires
        states.len() == calls.len() + 1,
        forall|i: int|
            0 <= i < calls.len() ==> #[trigger] states[i + 1] == comps_after(calls[i].0, calls[i].1, states[i]),
    ensures
        states.last() == comps_through(calls, states[0]),
    decreases calls.len(),
{
    if calls.len() > 0 {
        let k = calls.len() - 1;
        lemma_comps_steps(calls.drop_last(), states.drop_last());
        assert(states.drop_last().last() == states[k]);
        assert(states[k + 1] == comps_after(calls[k].0, calls[k].1, states[k]));
    }
}

proof fn lemma_var_kept(calls: Seq<BuiltinCall>, start: Map<Seq<char>, Seq<char>>, n: Seq<char>)
    requires
        forall|i: int| 0 <= i < calls.len() ==> !sets_variable(#[trigger] calls[i], n),
    ensures
        vars_through(calls, start).contains_key(n) == start.contains_key(n),
        vars_through(calls, start)[n] == start[n],
    decreases calls.len(),
{
    if calls.len() > 0 {
        let init = calls.drop_last();
        assert forall|i: int| 0 <= i < init.len() implies !sets_variable(#[trigger] init[i], n) by {
            assert(init[i] == calls[i]);
        }
        lemma_var_kept(init, start, n);
        assert(!sets_variable(calls[calls.len() - 1], n));
    }
}

proof fn lemma_script_kept(calls: Seq<BuiltinCall>, start: Map<Seq<char>, Seq<char>>, c: Seq<char>)
    requires
        forall|i: int| 0 <= i < calls.len() ==> !changes_script(#[trigger] calls[i], c),
    ensures
        comps_through(calls, start).contains_key(c) == start.contains_key(c),
        comps_through(calls, start)[c] == start[c],
    decreases calls.len(),
{
    if calls.len() > 0 {
        let init = calls.drop_last();
        assert forall|i: int| 0 <= i < init.len() implies !changes_script(#[trigger] init[i], c) by {
            assert(init[i] == calls[i]);
        }
        lemma_script_kept(init, start, c);
        assert(!changes_script(calls[calls.len() - 1], c));
    }
}

/// After `declare name=value` with a valid name, followed by any runs of
/// builtins none of which sets `name`, `declare -p name` prints
/// `declare -- name="value"` on standard output and nothing else.
pub proof fn law_declare_then_print_later(
    name: Seq<char>,
    value: Seq<char>,
    start: Map<Seq<char>, Seq<char>>,
    calls: Seq<BuiltinCall>,
    after: Map<Seq<char>, Seq<char>>,
    r: OutcomeModel,
)
    requires
        valid_identifier(name),
        forall|i: int| 0 <= i < calls.len() ==> !sets_variable(#[trigger] calls[i], name),
        declare_outcome(
            declare_request(seq![seq!['-', 'p'], name]),
            vars_through(
                calls,
                vars_after(builtin_name(BuiltinKind::Declare), seq![name + seq!['='] + value], start),
            ),
            after,
            r,
        ),
    ensures
        r == out_line(declared_line(name, value)),
        after == vars_through(
            calls,
            vars_after(builtin_name(BuiltinKind::Declare), seq![name + seq!['='] + value], start),
        ),
{
    lemma_lookup_matches_table(name);
    lemma_assignment_request(name, value);
    let set = vars_after(builtin_name(BuiltinKind::Declare), seq![name + seq!['='] + value], start);
    assert(set == start.insert(name, value));
    lemma_var_kept(calls, set, name);
    let last = vars_through(calls, set);
    lemma_print_one(name, last);
    assert(last[name] == value);
}

/// After `complete -C script command`, followed by any runs of builtins none
/// of which registers or removes a script for `command`, `complete -p
/// command` prints `complete -C 'script' command` on standard output and
/// nothing else.
pub proof fn law_register_then_print_later(
    script: Seq<char>,
    command: Seq<char>,
    start: Map<Seq<char>, Seq<char>>,
    calls: Seq<BuiltinCall>,
    after: Map<Seq<char>, Seq<char>>,
    r: OutcomeModel,
)
    requires
        forall|i: int| 0 <= i < calls.len() ==> !changes_script(#[trigger] calls[i], command),
        complete_outcome(
            complete_request(seq![seq!['-', 'p'], command]),
            comps_through(
                calls,
                comps_after(builtin_name(BuiltinKind::Complete), seq![seq!['-', 'C'], script, command], start),
            ),
            after,
            r,
        ),
    ensures
        r == out_line(spec_line(script, command)),
        after == comps_through(
            calls,
            comps_after(builtin_name(BuiltinKind::Complete), seq![seq!['-', 'C'], script, command], start),
        ),
{
    lemma_lookup_matches_table(command);
    assert(seq!['-', 'p'] != seq!['-', 'C']) by {
        assert(seq!['-', 'p'][1] != seq!['-', 'C'][1]);
    }
    assert(complete_request(seq![seq!['-', 'C'], script, command]) == CompleteModel::Register(script, command));
    assert(complete_request(seq![seq!['-', 'p'], command]) == CompleteModel::PrintSpec(command));
    let set = comps_after(builtin_name(BuiltinKind::Complete), seq![seq!['-', 'C'], script, command], start);
    assert(set == start.insert(command, script));
    lemma_script_kept(calls, set, command);
}

} // verus!
