//! `declare`: sets or prints shell variables.
use crate::builtins::commands::echo::copy_args;
use crate::builtins::{err_line, lines_view, quiet, BuiltinOutcome, OutcomeModel, OutputLine};
use crate::command::Fd;
use crate::shell_state::variables::Variables;
use crate::text::{chars_of, owned, str_eq, string_append, string_of_range, strings_view};
use vstd::prelude::*;

verus! {

/// Whether `c` is an ASCII letter.
pub open spec fn is_ascii_letter(c: char) -> bool {
    ('a' <= c && c <= 'z') || ('A' <= c && c <= 'Z')
}

/// Whether `c` may continue a variable name: an ASCII letter or digit, or `_`.
pub open spec fn is_name_char(c: char) -> bool {
    is_ascii_letter(c) || ('0' <= c && c <= '9') || c == '_'
}

/// Whether `s` is a valid variable name: an ASCII letter or `_`, then ASCII
/// letters, digits and `_`.
pub open spec fn valid_identifier(s: Seq<char>) -> bool {
    &&& s.len() > 0
    &&& is_ascii_letter(s[0]) || s[0] == '_'
    &&& forall|i: int| 1 <= i < s.len() ==> is_name_char(#[trigger] s[i])
}

/// Checks that `name` is a valid variable name.
pub fn is_valid_identifier(name: &str) -> (r: bool)
    ensures
        r == valid_identifier(name@),
{
    let cs = chars_of(name);
    if cs.len() == 0 {
        return false;
    }
    let c0 = cs[0];
    if !(('a' <= c0 && c0 <= 'z') || ('A' <= c0 && c0 <= 'Z') || c0 == '_') {
        return false;
    }
    let mut i: usize = 1;
    while i < cs.len()
        invariant
            1 <= i <= cs@.len(),
            cs@ == name@,
            forall|k: int| 1 <= k < i ==> is_name_char(#[trigger] cs@[k]),
        decreases cs@.len() - i,
    {
        let c = cs[i];
        if !(('a' <= c && c <= 'z') || ('A' <= c && c <= 'Z') || ('0' <= c && c <= '9') || c == '_') {
            assert(!is_name_char(cs@[i as int]));
            return false;
        }
        i = i + 1;
    }
    true
}

/// The position of the first `c` in `s`, or `-1`.
pub open spec fn first_index_of(s: Seq<char>, c: char) -> int
    decreases s.len(),
{
    if s.len() == 0 {
        -1
    } else if s[0] == c {
        0
    } else {
        let k = first_index_of(s.drop_first(), c);
        if k < 0 {
            -1
        } else {
            k + 1
        }
    }
}

proof fn lemma_first_index_of(s: Seq<char>, c: char, i: int)
    requires
        0 <= i <= s.len(),
        forall|j: int| 0 <= j < i ==> s[j] != c,
        i == s.len() || s[i] == c,
    ensures
        first_index_of(s, c) == if i == s.len() {
            -1
        } else {
            i
        },
    decreases s.len(),
{
    if s.len() > 0 && i > 0 {
        assert(s[0] != c);
        let t = s.drop_first();
        assert forall|j: int| 0 <= j < i - 1 implies t[j] != c by {
            assert(t[j] == s[j + 1]);
        }
        if i < s.len() {
            assert(t[i - 1] == s[i]);
        }
        lemma_first_index_of(t, c, i - 1);
    }
}

/// What `declare` was asked to do.
pub enum DeclareBuiltin {
    /// `name=value`: set a variable.
    SetVariable { name: String, value: String },
    /// `name=value` where the name is not valid; holds the whole word.
    InvalidIdentifier(String),
    /// `-p names...`, or no argument: print variables.
    Print(Vec<String>),
    /// An option other than `-p`, or a word without `=`.
    UnknownFlag(String),
}

/// The mathematical form of a [`DeclareBuiltin`].
pub enum DeclareModel {
    SetVariable(Seq<char>, Seq<char>),
    InvalidIdentifier(Seq<char>),
    Print(Seq<Seq<char>>),
    UnknownFlag(Seq<char>),
}

impl View for DeclareBuiltin {
    type V = DeclareModel;

    open spec fn view(&self) -> DeclareModel {
        match self {
            DeclareBuiltin::SetVariable { name, value } => DeclareModel::SetVariable(name@, value@),
            DeclareBuiltin::InvalidIdentifier(a) => DeclareModel::InvalidIdentifier(a@),
            DeclareBuiltin::Print(names) => DeclareModel::Print(strings_view(names@)),
            DeclareBuiltin::UnknownFlag(f) => DeclareModel::UnknownFlag(f@),
        }
    }
}

/// What the arguments of `declare` ask for. Only the first argument counts,
/// except after `-p`, whose following arguments are the names to print.
pub open spec fn declare_request(args: Seq<Seq<char>>) -> DeclareModel {
    if args.len() == 0 {
        DeclareModel::Print(Seq::empty())
    } else {
        let a = args[0];
        if a == seq!['-', 'p'] {
            DeclareModel::Print(args.drop_first())
        } else if a.len() > 0 && a[0] == '-' {
            DeclareModel::UnknownFlag(a)
        } else {
            let k = first_index_of(a, '=');
            if k < 0 {
                DeclareModel::UnknownFlag(a)
            } else if valid_identifier(a.subrange(0, k)) {
                DeclareModel::SetVariable(a.subrange(0, k), a.subrange(k + 1, a.len() as int))
            } else {
                DeclareModel::InvalidIdentifier(a)
            }
        }
    }
}

/// The message for an invalid name.
pub open spec fn invalid_identifier_line(a: Seq<char>) -> Seq<char> {
    "declare: `"@ + a + "': not a valid identifier"@
}

/// The message for an unknown option.
pub open spec fn invalid_option_line(f: Seq<char>) -> Seq<char> {
    "declare: "@ + f + ": invalid option"@
}

/// The line `declare -p` prints for a set variable.
pub open spec fn declared_line(name: Seq<char>, value: Seq<char>) -> Seq<char> {
    "declare -- "@ + name + "=\""@ + value + "\""@
}

/// The message for a variable that is not set.
pub open spec fn undeclared_line(name: Seq<char>) -> Seq<char> {
    "bash: declare: "@ + name + ": not found"@
}

/// The lines `declare -p` writes for `names`, in order, each on its stream.
pub open spec fn print_lines(names: Seq<Seq<char>>, vars: Map<Seq<char>, Seq<char>>) -> Seq<(Fd, Seq<char>)>
    decreases names.len(),
{
    if names.len() == 0 {
        Seq::empty()
    } else if vars.contains_key(names.last()) {
        print_lines(names.drop_last(), vars).push((Fd::Stdout, declared_line(names.last(), vars[names.last()])))
    } else {
        print_lines(names.drop_last(), vars).push((Fd::Stderr, undeclared_line(names.last())))
    }
}

/// What `declare` gives for a request, with the variables before and after.
pub open spec fn declare_outcome(
    req: DeclareModel,
    before: Map<Seq<char>, Seq<char>>,
    after: Map<Seq<char>, Seq<char>>,
    r: OutcomeModel,
) -> bool {
    match req {
        DeclareModel::SetVariable(name, value) => {
            &&& after == before.insert(name, value)
            &&& r == quiet()
        },
        DeclareModel::InvalidIdentifier(a) => {
            &&& after == before
            &&& r == err_line(invalid_identifier_line(a))
        },
        DeclareModel::Print(names) => {
            &&& after == before
            &&& r == (OutcomeModel { exit: false, lines: print_lines(names, before), effect: None })
        },
        DeclareModel::UnknownFlag(f) => {
            &&& after == before
            &&& r == err_line(invalid_option_line(f))
        },
    }
}

impl DeclareBuiltin {
    /// Reads the arguments of `declare`.
    pub fn parse(args: &[String]) -> (r: Self)
        ensures
            r@ == declare_request(strings_view(args@)),
    {
        proof {
            reveal_strlit("-p");
            assert("-p"@ =~= seq!['-', 'p']);
        }
        if args.len() == 0 {
            let none: Vec<String> = Vec::new();
            assert(strings_view(none@) =~= Seq::<Seq<char>>::empty());
            return DeclareBuiltin::Print(none);
        }
        let a = args[0].as_str();
        assert(a@ == strings_view(args@)[0]);
        if str_eq(a, "-p") {
            let names = copy_args(args, 1);
            assert(strings_view(args@).subrange(1, args@.len() as int) =~= strings_view(args@).drop_first());
            return DeclareBuiltin::Print(names);
        }
        let cs = chars_of(a);
        if cs.len() > 0 && cs[0] == '-' {
            return DeclareBuiltin::UnknownFlag(owned(a));
        }
        let mut k: usize = 0;
        while k < cs.len() && cs[k] != '='
            invariant
                k <= cs@.len(),
                forall|j: int| 0 <= j < k ==> cs@[j] != '=',
            decreases cs@.len() - k,
        {
            k = k + 1;
        }
        proof {
            lemma_first_index_of(cs@, '=', k as int);
        }
        if k == cs.len() {
            return DeclareBuiltin::UnknownFlag(owned(a));
        }
        let name = string_of_range(&cs, 0, k);
        if is_valid_identifier(name.as_str()) {
            let value = string_of_range(&cs, k + 1, cs.len());
            DeclareBuiltin::SetVariable { name, value }
        } else {
            DeclareBuiltin::InvalidIdentifier(owned(a))
        }
    }

    /// Sets the variable, prints the named variables, or complains.
    pub fn run(self, variables: &mut Variables) -> (r: BuiltinOutcome)
        ensures
            declare_outcome(self@, old(variables)@, final(variables)@, r@),
    {
        match self {
            DeclareBuiltin::SetVariable { name, value } => {
                variables.set(name, value);
                BuiltinOutcome::quiet()
            },
            DeclareBuiltin::InvalidIdentifier(a) => {
                let mut line = owned("declare: `");
                string_append(&mut line, a.as_str());
                string_append(&mut line, "': not a valid identifier");
                BuiltinOutcome::err_line(line)
            },
            DeclareBuiltin::Print(names) => {
                let ghost ns = strings_view(names@);
                let ghost vars = variables@;
                let mut lines: Vec<OutputLine> = Vec::new();
                let mut i: usize = 0;
                assert(ns.take(0) =~= Seq::<Seq<char>>::empty());
                assert(lines_view(lines@) =~= Seq::<(Fd, Seq<char>)>::empty());
                while i < names.len()
                    invariant
                        i <= names@.len(),
                        ns == strings_view(names@),
                        vars == variables@,
                        lines_view(lines@) == print_lines(ns.take(i as int), vars),
                    decreases names@.len() - i,
                {
                    assert(ns.take(i + 1).drop_last() =~= ns.take(i as int));
                    assert(ns.take(i + 1).last() == ns[i as int]);
                    let name = &names[i];
                    let ghost before = lines_view(lines@);
                    match variables.get(name.as_str()) {
                        Some(val) => {
                            let mut text = owned("declare -- ");
                            string_append(&mut text, name.as_str());
                            string_append(&mut text, "=\"");
                            string_append(&mut text, val.as_str());
                            string_append(&mut text, "\"");
                            lines.push(OutputLine { fd: Fd::Stdout, text });
                            assert(lines_view(lines@) =~= before.push((Fd::Stdout, declared_line(name@, vars[name@]))));
                        },
                        None => {
                            let mut text = owned("bash: declare: ");
                            string_append(&mut text, name.as_str());
                            string_append(&mut text, ": not found");
                            lines.push(OutputLine { fd: Fd::Stderr, text });
                            assert(lines_view(lines@) =~= before.push((Fd::Stderr, undeclared_line(name@))));
                        },
                    }
                    i = i + 1;
                }
                assert(ns.take(names@.len() as int) =~= ns);
                BuiltinOutcome { exit: false, lines, effect: None }
            },
            DeclareBuiltin::UnknownFlag(f) => {
                let mut line = owned("declare: ");
                string_append(&mut line, f.as_str());
                string_append(&mut line, ": invalid option");
                BuiltinOutcome::err_line(line)
            },
        }
    }
}

} // verus!

verus! {

/// `name=value` with a valid name asks to set `name` to `value`.
pub proof fn lemma_assignment_request(name: Seq<char>, value: Seq<char>)
    requires
        valid_identifier(name),
    ensures
        declare_request(seq![name + seq!['='] + value]) == DeclareModel::SetVariable(name, value),
{
    let a = name + seq!['='] + value;
    let n = name.len() as int;
    assert(a[0] == name[0]);
    assert(a != seq!['-', 'p']);
    assert forall|j: int| 0 <= j < n implies a[j] != '=' by {
        assert(a[j] == name[j]);
        if j > 0 {
            assert(is_name_char(name[j]));
        }
    }
    assert(a[n] == '=');
    lemma_first_index_of(a, '=', n);
    assert(a.subrange(0, n) =~= name);
    assert(a.subrange(n + 1, a.len() as int) =~= value);
}

/// `-p name` asks to print `name`, and a set variable prints as one line on
/// standard output.
pub proof fn lemma_print_one(name: Seq<char>, vars: Map<Seq<char>, Seq<char>>)
    requires
        vars.contains_key(name),
    ensures
        declare_request(seq![seq!['-', 'p'], name]) == DeclareModel::Print(seq![name]),
        print_lines(seq![name], vars) == seq![(Fd::Stdout, declared_line(name, vars[name]))],
{
    assert(seq![seq!['-', 'p'], name].drop_first() =~= seq![name]);
    assert(seq![name].drop_last() =~= Seq::<Seq<char>>::empty());
    assert(seq![name].last() == name);
    assert(print_lines(Seq::<Seq<char>>::empty(), vars) == Seq::<(Fd, Seq<char>)>::empty());
    assert(print_lines(seq![name], vars) == print_lines(seq![name].drop_last(), vars).push(
        (Fd::Stdout, declared_line(name, vars[name])),
    ));
    assert(Seq::<(Fd, Seq<char>)>::empty().push((Fd::Stdout, declared_line(name, vars[name]))) =~= seq![
        (Fd::Stdout, declared_line(name, vars[name])),
    ]);
}

/// `declare name=value` with a valid name sets the variable, and a following
/// `declare -p name` prints `declare -- name="value"` on standard output and
/// nothing else.
pub proof fn law_declare_then_print(
    name: Seq<char>,
    value: Seq<char>,
    before: Map<Seq<char>, Seq<char>>,
    after: Map<Seq<char>, Seq<char>>,
    r: crate::builtins::OutcomeModel,
)
    requires
        valid_identifier(name),
        declare_outcome(declare_request(seq![name + seq!['='] + value]), before, after, r),
    ensures
        declare_request(seq![name + seq!['='] + value]) == DeclareModel::SetVariable(name, value),
        after == before.insert(name, value),
        declare_request(seq![seq!['-', 'p'], name]) == DeclareModel::Print(seq![name]),
        print_lines(seq![name], after) == seq![(Fd::Stdout, declared_line(name, value))],
{
    lemma_assignment_request(name, value);
    assert(after.contains_key(name) && after[name] == value);
    lemma_print_one(name, after);
}

} // verus!

verus! {

/// A variable name is valid exactly when it is non-empty, begins with an
/// ASCII letter of either case or `_`, and continues with ASCII letters of
/// either case, ASCII digits and `_`.
pub proof fn law_identifier_characters(s: Seq<char>)
    ensures
        valid_identifier(s) <==> {
            &&& s.len() > 0
            &&& ('a' <= s[0] <= 'z' || 'A' <= s[0] <= 'Z' || s[0] == '_')
            &&& forall|i: int|
                1 <= i < s.len() ==> ('a' <= #[trigger] s[i] <= 'z' || 'A' <= s[i] <= 'Z' || '0' <= s[i] <= '9'
                    || s[i] == '_')
        },
{
}

} // verus!
