//! The parsed form of a command: its name, arguments, output redirections and
//! whether it runs as a builtin or as an external program.
use crate::text::{join, joined, owned, string_append, strings_view};
use vstd::prelude::*;

verus! {

/// How a command runs.
#[derive(Debug, Clone, PartialEq, Eq)]
pub enum CommandKind {
    /// One of the shell's own builtins.
    Builtin,
    /// An executable found on `PATH`, with its full path.
    External(String),
}

/// The output stream that a redirection replaces.
#[derive(Debug, Clone, Copy, PartialEq, Eq, Structural)]
pub enum Fd {
    Stdout,
    Stderr,
}

/// Whether a redirection truncates its file or appends to it.
#[derive(Debug, Clone, Copy, PartialEq, Eq, Structural)]
pub enum WriteMode {
    Overwrite,
    Append,
}

/// One output redirection, such as `2>> log`.
pub struct Redirect {
    pub fd: Fd,
    pub mode: WriteMode,
    pub target: String,
}

/// One command of a pipeline.
pub struct Command {
    pub name: String,
    pub args: Vec<String>,
    pub redirects: Vec<Redirect>,
    pub command_type: CommandKind,
}

/// The mathematical form of a [`CommandKind`].
pub enum KindModel {
    Builtin,
    External(Seq<char>),
}

/// The mathematical form of a [`Redirect`]: stream, mode and target.
pub type RedirectModel = (Fd, WriteMode, Seq<char>);

/// The mathematical form of a [`Command`].
pub struct CommandModel {
    pub name: Seq<char>,
    pub args: Seq<Seq<char>>,
    pub redirects: Seq<RedirectModel>,
    pub kind: KindModel,
}

impl View for CommandKind {
    type V = KindModel;

    open spec fn view(&self) -> KindModel {
        match self {
            CommandKind::Builtin => KindModel::Builtin,
            CommandKind::External(p) => KindModel::External(p@),
        }
    }
}

impl View for Redirect {
    type V = RedirectModel;

    open spec fn view(&self) -> RedirectModel {
        (self.fd, self.mode, self.target@)
    }
}

impl View for Command {
    type V = CommandModel;

    open spec fn view(&self) -> CommandModel {
        CommandModel {
            name: self.name@,
            args: strings_view(self.args@),
            redirects: self.redirects@.map_values(|r: Redirect| r@),
            kind: self.command_type@,
        }
    }
}

/// The positions of the redirections of stream `fd` among `rs`, in order.
pub open spec fn positions_of(rs: Seq<RedirectModel>, fd: Fd) -> Seq<int>
    decreases rs.len(),
{
    if rs.len() == 0 {
        Seq::empty()
    } else if rs.last().0 == fd {
        positions_of(rs.drop_last(), fd).push(rs.len() - 1)
    } else {
        positions_of(rs.drop_last(), fd)
    }
}

/// The positions of the redirections that replace stream `fd`, in the order
/// they were written; each one opens its file, and the last one is the
/// stream the command gets.
pub fn redirects_of(redirects: &Vec<Redirect>, fd: Fd) -> (r: Vec<usize>)
    ensures
        r@.map_values(|i: usize| i as int) == positions_of(redirects@.map_values(|x: Redirect| x@), fd),
{
    let ghost rs = redirects@.map_values(|x: Redirect| x@);
    let mut r: Vec<usize> = Vec::new();
    let mut i: usize = 0;
    assert(rs.take(0) =~= Seq::<RedirectModel>::empty());
    while i < redirects.len()
        invariant
            i <= redirects@.len(),
            rs == redirects@.map_values(|x: Redirect| x@),
            r@.map_values(|k: usize| k as int) == positions_of(rs.take(i as int), fd),
        decreases redirects@.len() - i,
    {
        let ghost before = r@;
        assert(rs.take(i + 1).drop_last() =~= rs.take(i as int));
        assert(rs.take(i + 1).last() == redirects@[i as int]@);
        if redirects[i].fd == fd {
            r.push(i);
            assert(r@.map_values(|k: usize| k as int) =~= before.map_values(|k: usize| k as int).push(i as int));
        }
        i = i + 1;
    }
    assert(rs.take(redirects@.len() as int) =~= rs);
    r
}

/// How one command reads when a pipeline is shown: its name, then its
/// arguments separated by spaces (redirections are not shown).
pub open spec fn command_text(c: CommandModel) -> Seq<char> {
    if c.args.len() == 0 {
        c.name
    } else {
        c.name + seq![' '] + joined(c.args, seq![' '])
    }
}

/// How a pipeline reads: its commands joined by ` | `.
pub open spec fn pipeline_text_of(cs: Seq<CommandModel>) -> Seq<char> {
    joined(cs.map_values(|c: CommandModel| command_text(c)), seq![' ', '|', ' '])
}

/// The text of one command, as the job list shows it.
pub fn command_text_of(c: &Command) -> (r: String)
    ensures
        r@ == command_text(c@),
{
    let mut r = owned(c.name.as_str());
    if c.args.len() > 0 {
        proof {
            reveal_strlit(" ");
        }
        assert(" "@ =~= seq![' ']);
        string_append(&mut r, " ");
        let a = join(&c.args, " ");
        string_append(&mut r, a.as_str());
        assert(r@ =~= command_text(c@));
    }
    r
}

/// The text of a pipeline (`name args | name args ...`), as the job list shows it.
pub fn pipeline_text(commands: &Vec<Command>) -> (r: String)
    ensures
        r@ == pipeline_text_of(commands@.map_values(|c: Command| c@)),
{
    let mut texts: Vec<String> = Vec::new();
    let mut i: usize = 0;
    while i < commands.len()
        invariant
            i <= commands@.len(),
            texts@.len() == i,
            forall|k: int|
                0 <= k < i ==> #[trigger] texts@[k]@ == command_text(commands@[k]@),
        decreases commands@.len() - i,
    {
        texts.push(command_text_of(&commands[i]));
        i = i + 1;
    }
    proof {
        reveal_strlit(" | ");
    }
    assert(" | "@ =~= seq![' ', '|', ' ']);
    let r = join(&texts, " | ");
    assert(strings_view(texts@) =~= commands@.map_values(|c: Command| c@).map_values(
        |c: CommandModel| command_text(c),
    ));
    r
}

} // verus!
