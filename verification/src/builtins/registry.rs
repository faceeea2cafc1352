//! The table of builtin commands: each builtin's name and how to look it up.
use crate::text::str_eq;
use vstd::prelude::*;

verus! {

/// The builtin commands of the shell.
#[derive(Debug, Clone, Copy, PartialEq, Eq, Structural)]
pub enum BuiltinKind {
    Exit,
    Echo,
    Type,
    Pwd,
    Cd,
    Jobs,
    History,
    Declare,
    Complete,
}

/// The name under which each builtin is invoked.
pub open spec fn builtin_name(k: BuiltinKind) -> Seq<char> {
    match k {
        BuiltinKind::Exit => seq!['e', 'x', 'i', 't'],
        BuiltinKind::Echo => seq!['e', 'c', 'h', 'o'],
        BuiltinKind::Type => seq!['t', 'y', 'p', 'e'],
        BuiltinKind::Pwd => seq!['p', 'w', 'd'],
        BuiltinKind::Cd => seq!['c', 'd'],
        BuiltinKind::Jobs => seq!['j', 'o', 'b', 's'],
        BuiltinKind::History => seq!['h', 'i', 's', 't', 'o', 'r', 'y'],
        BuiltinKind::Declare => seq!['d', 'e', 'c', 'l', 'a', 'r', 'e'],
        BuiltinKind::Complete => seq!['c', 'o', 'm', 'p', 'l', 'e', 't', 'e'],
    }
}

/// All builtins, in the order in which the table lists them.
pub open spec fn all_builtins() -> Seq<BuiltinKind> {
    seq![
        BuiltinKind::Exit,
        BuiltinKind::Echo,
        BuiltinKind::Type,
        BuiltinKind::Pwd,
        BuiltinKind::Cd,
        BuiltinKind::Jobs,
        BuiltinKind::History,
        BuiltinKind::Declare,
        BuiltinKind::Complete,
    ]
}

/// The names of all builtins, in table order.
pub open spec fn builtin_names() -> Seq<Seq<char>> {
    all_builtins().map_values(|k: BuiltinKind| builtin_name(k))
}

/// The builtin invoked by `name`, if any.
pub open spec fn builtin_of(name: Seq<char>) -> Option<BuiltinKind> {
    if name == builtin_name(BuiltinKind::Exit) {
        Some(BuiltinKind::Exit)
    } else if name == builtin_name(BuiltinKind::Echo) {
        Some(BuiltinKind::Echo)
    } else if name == builtin_name(BuiltinKind::Type) {
        Some(BuiltinKind::Type)
    } else if name == builtin_name(BuiltinKind::Pwd) {
        Some(BuiltinKind::Pwd)
    } else if name == builtin_name(BuiltinKind::Cd) {
        Some(BuiltinKind::Cd)
    } else if name == builtin_name(BuiltinKind::Jobs) {
        Some(BuiltinKind::Jobs)
    } else if name == builtin_name(BuiltinKind::History) {
        Some(BuiltinKind::History)
    } else if name == builtin_name(BuiltinKind::Declare) {
        Some(BuiltinKind::Declare)
    } else if name == builtin_name(BuiltinKind::Complete) {
        Some(BuiltinKind::Complete)
    } else {
        None
    }
}

pub(crate) proof fn lemma_literal_names()
    ensures
        "exit"@ == builtin_name(BuiltinKind::Exit),
        "echo"@ == builtin_name(BuiltinKind::Echo),
        "type"@ == builtin_name(BuiltinKind::Type),
        "pwd"@ == builtin_name(BuiltinKind::Pwd),
        "cd"@ == builtin_name(BuiltinKind::Cd),
        "jobs"@ == builtin_name(BuiltinKind::Jobs),
        "history"@ == builtin_name(BuiltinKind::History),
        "declare"@ == builtin_name(BuiltinKind::Declare),
        "complete"@ == builtin_name(BuiltinKind::Complete),
{
    reveal_strlit("exit");
    reveal_strlit("echo");
    reveal_strlit("type");
    reveal_strlit("pwd");
    reveal_strlit("cd");
    reveal_strlit("jobs");
    reveal_strlit("history");
    reveal_strlit("declare");
    reveal_strlit("complete");
    assert("exit"@ =~= builtin_name(BuiltinKind::Exit));
    assert("echo"@ =~= builtin_name(BuiltinKind::Echo));
    assert("type"@ =~= builtin_name(BuiltinKind::Type));
    assert("pwd"@ =~= builtin_name(BuiltinKind::Pwd));
    assert("cd"@ =~= builtin_name(BuiltinKind::Cd));
    assert("jobs"@ =~= builtin_name(BuiltinKind::Jobs));
    assert("history"@ =~= builtin_name(BuiltinKind::History));
    assert("declare"@ =~= builtin_name(BuiltinKind::Declare));
    assert("complete"@ =~= builtin_name(BuiltinKind::Complete));
}

/// The builtin called `name`, if there is one.
pub fn get(name: &str) -> (r: Option<BuiltinKind>)
    ensures
        r == builtin_of(name@),
{
    proof {
        lemma_literal_names();
    }
    if str_eq(name, "exit") {
        Some(BuiltinKind::Exit)
    } else if str_eq(name, "echo") {
        Some(BuiltinKind::Echo)
    } else if str_eq(name, "type") {
        Some(BuiltinKind::Type)
    } else if str_eq(name, "pwd") {
        Some(BuiltinKind::Pwd)
    } else if str_eq(name, "cd") {
        Some(BuiltinKind::Cd)
    } else if str_eq(name, "jobs") {
        Some(BuiltinKind::Jobs)
    } else if str_eq(name, "history") {
        Some(BuiltinKind::History)
    } else if str_eq(name, "declare") {
        Some(BuiltinKind::Declare)
    } else if str_eq(name, "complete") {
        Some(BuiltinKind::Complete)
    } else {
        None
    }
}

/// The names of all builtins, in table order.
pub fn names() -> (r: Vec<&'static str>)
    ensures
        r@.map_values(|s: &str| s@) == builtin_names(),
{
    proof {
        lemma_literal_names();
    }
    let r = vec!["exit", "echo", "type", "pwd", "cd", "jobs", "history", "declare", "complete"];
    assert(r@.map_values(|s: &str| s@) =~= builtin_names()) by {
        assert(all_builtins().len() == 9);
        assert forall|i: int| 0 <= i < 9 implies r@.map_values(|s: &str| s@)[i]
            == builtin_names()[i] by {
            assert(builtin_names()[i] == builtin_name(all_builtins()[i]));
        }
    }
    r
}

/// Whether `name` is the name of a builtin.
pub fn contains(name: &str) -> (r: bool)
    ensures
        r == builtin_of(name@).is_some(),
{
    get(name).is_some()
}

/// The name lookup and the table agree: a name invokes a builtin exactly
/// when the table lists it, and then it invokes the builtin listed under it.
pub proof fn lemma_lookup_matches_table(name: Seq<char>)
    ensures
        builtin_of(name).is_some() <==> builtin_names().contains(name),
        forall|k: BuiltinKind| builtin_of(builtin_name(k)) == Some(k),
{
    assert forall|k: BuiltinKind| builtin_of(builtin_name(k)) == Some(k) by {
        match k {
            BuiltinKind::Exit => {},
            BuiltinKind::Echo => {},
            BuiltinKind::Type => {},
            BuiltinKind::Pwd => {},
            BuiltinKind::Cd => {},
            BuiltinKind::Jobs => {},
            BuiltinKind::History => {},
            BuiltinKind::Declare => {},
            BuiltinKind::Complete => {},
        }
    }
    if builtin_names().contains(name) {
        let i = choose|i: int| 0 <= i < builtin_names().len() && builtin_names()[i] == name;
        assert(builtin_names()[i] == builtin_name(all_builtins()[i]));
    }
    if builtin_of(name).is_some() {
        let k = builtin_of(name).unwrap();
        let i: int = match k {
            BuiltinKind::Exit => 0,
            BuiltinKind::Echo => 1,
            BuiltinKind::Type => 2,
            BuiltinKind::Pwd => 3,
            BuiltinKind::Cd => 4,
            BuiltinKind::Jobs => 5,
            BuiltinKind::History => 6,
            BuiltinKind::Declare => 7,
            BuiltinKind::Complete => 8,
        };
        assert(builtin_names()[i] == name);
    }
}

} // verus!
