//! Turning an input line into a pipeline of commands: splitting at unquoted
//! `|`, splitting each part into words with shell quoting, separating output
//! redirections, and finding out how each command runs.
use crate::builtins::registry::{builtin_name, lemma_literal_names, BuiltinKind};
use crate::command::{Command, CommandKind, CommandModel, Fd, KindModel, Redirect, RedirectModel, WriteMode};
use crate::shell_state::executables::ExecutableMap;
use crate::shell_state::fx_map::{fx_entries, fx_get};
use crate::text::{
    chars_of, opt_view, owned, str_eq, string_append, string_of, string_push, strings_view, trim_chars, trimmed,
};
use vstd::prelude::*;

verus! {

// ---------------------------------------------------------------------------
// Words
// ---------------------------------------------------------------------------

/// The words of `s[i..]`, appended to `acc`, when the word being built so far is
/// `cur` and the scan is inside single quotes (`sq`) or double quotes (`dq`).
///
/// Outside quotes a backslash takes the next character literally, and blanks
/// (space, tab) end a word; inside single quotes every character is literal;
/// inside double quotes a backslash escapes only `"` and `\` and is kept before
/// any other character. Quotes themselves are dropped, and empty words are never
/// produced.
pub open spec fn words_from(
    s: Seq<char>,
    i: int,
    acc: Seq<Seq<char>>,
    cur: Seq<char>,
    sq: bool,
    dq: bool,
) -> Seq<Seq<char>>
    decreases s.len() - i,
{
    if i >= s.len() {
        if cur.len() > 0 {
            acc.push(cur)
        } else {
            acc
        }
    } else {
        let c = s[i];
        if c == '\\' && !sq && !dq {
            if i + 1 < s.len() {
                words_from(s, i + 2, acc, cur.push(s[i + 1]), sq, dq)
            } else {
                words_from(s, i + 1, acc, cur, sq, dq)
            }
        } else if c == '\\' && dq {
            if i + 1 < s.len() {
                let n = s[i + 1];
                if n == '"' || n == '\\' {
                    words_from(s, i + 2, acc, cur.push(n), sq, dq)
                } else {
                    words_from(s, i + 2, acc, cur.push('\\').push(n), sq, dq)
                }
            } else {
                words_from(s, i + 1, acc, cur.push('\\'), sq, dq)
            }
        } else if c == '\'' && !sq && !dq {
            words_from(s, i + 1, acc, cur, true, dq)
        } else if c == '\'' && sq {
            words_from(s, i + 1, acc, cur, false, dq)
        } else if c == '"' && !sq && !dq {
            words_from(s, i + 1, acc, cur, sq, true)
        } else if c == '"' && dq {
            words_from(s, i + 1, acc, cur, sq, false)
        } else if (c == ' ' || c == '\t') && !sq && !dq {
            if cur.len() > 0 {
                words_from(s, i + 1, acc.push(cur), Seq::empty(), sq, dq)
            } else {
                words_from(s, i + 1, acc, cur, sq, dq)
            }
        } else {
            words_from(s, i + 1, acc, cur.push(c), sq, dq)
        }
    }
}

/// The words of a command line, after quote removal.
pub open spec fn words_of(s: Seq<char>) -> Seq<Seq<char>> {
    words_from(s, 0, Seq::empty(), Seq::empty(), false, false)
}

/// Splits a command into its words, honouring quotes and backslashes.
pub fn parse_args(input: &str) -> (r: Vec<String>)
    ensures
        strings_view(r@) == words_of(input@),
{
    let cs = chars_of(input);
    let n = cs.len();
    let mut args: Vec<String> = Vec::new();
    let mut current = String::new();
    let mut in_single = false;
    let mut in_double = false;
    let mut i: usize = 0;
    assert(strings_view(args@) =~= Seq::<Seq<char>>::empty());
    assert(current@ =~= Seq::<char>::empty());
    while i < n
        invariant
            i <= n == cs@.len(),
            cs@ == input@,
            words_from(cs@, i as int, strings_view(args@), current@, in_single, in_double)
                == words_of(input@),
        decreases n - i,
    {
        let c = cs[i];
        if c == '\\' && !in_single && !in_double {
            if i + 1 < n {
                string_push(&mut current, cs[i + 1]);
                i = i + 2;
            } else {
                i = i + 1;
            }
        } else if c == '\\' && in_double {
            if i + 1 < n {
                let next = cs[i + 1];
                if next == '"' || next == '\\' {
                    string_push(&mut current, next);
                } else {
                    string_push(&mut current, '\\');
                    string_push(&mut current, next);
                }
                i = i + 2;
            } else {
                string_push(&mut current, '\\');
                i = i + 1;
            }
        } else if c == '\'' && !in_single && !in_double {
            in_single = true;
            i = i + 1;
        } else if c == '\'' && in_single {
            in_single = false;
            i = i + 1;
        } else if c == '"' && !in_single && !in_double {
            in_double = true;
            i = i + 1;
        } else if c == '"' && in_double {
            in_double = false;
            i = i + 1;
        } else if (c == ' ' || c == '\t') && !in_single && !in_double {
            if current.as_str().unicode_len() > 0 {
                let ghost before = strings_view(args@);
                let word = current;
                current = String::new();
                args.push(word);
                assert(strings_view(args@) =~= before.push(word@));
                assert(current@ =~= Seq::<char>::empty());
            }
            i = i + 1;
        } else {
            string_push(&mut current, c);
            i = i + 1;
        }
    }
    if current.as_str().unicode_len() > 0 {
        let ghost before = strings_view(args@);
        args.push(current);
        assert(strings_view(args@) =~= before.push(current@));
    }
    args
}

// ---------------------------------------------------------------------------
// Pipeline segments
// ---------------------------------------------------------------------------

/// The pipeline segments of `s[start..]`, appended to `acc`, when the current
/// segment began at `start` and the scan has reached `i` inside single quotes
/// (`sq`) or double quotes (`dq`). A `|` outside quotes ends a segment; a
/// backslash outside single quotes hides the character after it; each quote
/// character toggles its own kind of quoting unless the other kind is open.
pub open spec fn segments_from(
    s: Seq<char>,
    i: int,
    start: int,
    sq: bool,
    dq: bool,
    acc: Seq<Seq<char>>,
) -> Seq<Seq<char>>
    decreases s.len() - i,
{
    if i >= s.len() {
        acc.push(s.subrange(start, s.len() as int))
    } else {
        let c = s[i];
        if c == '\\' && !sq {
            if i + 1 < s.len() {
                segments_from(s, i + 2, start, sq, dq, acc)
            } else {
                segments_from(s, i + 1, start, sq, dq, acc)
            }
        } else if c == '\'' && !dq {
            segments_from(s, i + 1, start, !sq, dq, acc)
        } else if c == '"' && !sq {
            segments_from(s, i + 1, start, sq, !dq, acc)
        } else if c == '|' && !sq && !dq {
            segments_from(s, i + 1, i + 1, sq, dq, acc.push(s.subrange(start, i)))
        } else {
            segments_from(s, i + 1, start, sq, dq, acc)
        }
    }
}

/// The segments of an input line between unquoted `|` characters.
pub open spec fn segments_of(s: Seq<char>) -> Seq<Seq<char>> {
    segments_from(s, 0, 0, false, false, Seq::empty())
}

/// Splits a line at each `|` that is neither quoted nor escaped.
pub fn split_pipeline(input: &str) -> (r: Vec<&str>)
    ensures
        r@.map_values(|p: &str| p@) == segments_of(input@),
{
    let cs = chars_of(input);
    let n = cs.len();
    let mut segments: Vec<&str> = Vec::new();
    let mut start: usize = 0;
    let mut in_single = false;
    let mut in_double = false;
    let mut i: usize = 0;
    assert(segments@.map_values(|p: &str| p@) =~= Seq::<Seq<char>>::empty());
    while i < n
        invariant
            start <= i <= n == cs@.len(),
            cs@ == input@,
            segments_from(cs@, i as int, start as int, in_single, in_double,
                segments@.map_values(|p: &str| p@)) == segments_of(input@),
        decreases n - i,
    {
        let c = cs[i];
        if c == '\\' && !in_single {
            if i + 1 < n {
                i = i + 2;
            } else {
                i = i + 1;
            }
        } else if c == '\'' && !in_double {
            in_single = !in_single;
            i = i + 1;
        } else if c == '"' && !in_single {
            in_double = !in_double;
            i = i + 1;
        } else if c == '|' && !in_single && !in_double {
            let ghost before = segments@.map_values(|p: &str| p@);
            let seg = input.substring_char(start, i);
            segments.push(seg);
            assert(segments@.map_values(|p: &str| p@) =~= before.push(cs@.subrange(start as int, i as int)));
            start = i + 1;
            i = i + 1;
        } else {
            i = i + 1;
        }
    }
    let ghost before = segments@.map_values(|p: &str| p@);
    let last = input.substring_char(start, n);
    segments.push(last);
    assert(segments@.map_values(|p: &str| p@) =~= before.push(cs@.subrange(start as int, n as int)));
    segments
}

// ---------------------------------------------------------------------------
// Redirections
// ---------------------------------------------------------------------------

/// The redirection operator that a word spells, if any: `>` and `1>` overwrite
/// standard output, `2>` overwrites standard error, `>>`, `1>>` and `2>>` append.
pub open spec fn redirect_op(s: Seq<char>) -> Option<(Fd, WriteMode)> {
    if s == seq!['>'] || s == seq!['1', '>'] {
        Some((Fd::Stdout, WriteMode::Overwrite))
    } else if s == seq!['2', '>'] {
        Some((Fd::Stderr, WriteMode::Overwrite))
    } else if s == seq!['>', '>'] || s == seq!['1', '>', '>'] {
        Some((Fd::Stdout, WriteMode::Append))
    } else if s == seq!['2', '>', '>'] {
        Some((Fd::Stderr, WriteMode::Append))
    } else {
        None
    }
}

proof fn lemma_operator_literals()
    ensures
        ">"@ == seq!['>'],
        "1>"@ == seq!['1', '>'],
        "2>"@ == seq!['2', '>'],
        ">>"@ == seq!['>', '>'],
        "1>>"@ == seq!['1', '>', '>'],
        "2>>"@ == seq!['2', '>', '>'],
{
    reveal_strlit(">");
    reveal_strlit("1>");
    reveal_strlit("2>");
    reveal_strlit(">>");
    reveal_strlit("1>>");
    reveal_strlit("2>>");
    assert(">"@ =~= seq!['>']);
    assert("1>"@ =~= seq!['1', '>']);
    assert("2>"@ =~= seq!['2', '>']);
    assert(">>"@ =~= seq!['>', '>']);
    assert("1>>"@ =~= seq!['1', '>', '>']);
    assert("2>>"@ =~= seq!['2', '>', '>']);
}

/// The stream and mode of a redirection operator, or `None` for any other word.
pub fn parse_redirect_op(s: &str) -> (r: Option<(Fd, WriteMode)>)
    ensures
        r == redirect_op(s@),
{
    proof {
        lemma_operator_literals();
    }
    if str_eq(s, ">") || str_eq(s, "1>") {
        Some((Fd::Stdout, WriteMode::Overwrite))
    } else if str_eq(s, "2>") {
        Some((Fd::Stderr, WriteMode::Overwrite))
    } else if str_eq(s, ">>") || str_eq(s, "1>>") {
        Some((Fd::Stdout, WriteMode::Append))
    } else if str_eq(s, "2>>") {
        Some((Fd::Stderr, WriteMode::Append))
    } else {
        None
    }
}

/// The arguments and redirections of `xs[i..]`, appended to `args` and `reds`:
/// an operator takes the word after it as its target (an operator with no word
/// after it is dropped), and every other word is an argument.
pub open spec fn redirects_from(
    xs: Seq<Seq<char>>,
    i: int,
    args: Seq<Seq<char>>,
    reds: Seq<RedirectModel>,
) -> (Seq<Seq<char>>, Seq<RedirectModel>)
    decreases xs.len() - i,
{
    if i >= xs.len() {
        (args, reds)
    } else {
        match redirect_op(xs[i]) {
            Some((fd, mode)) => {
                if i + 1 < xs.len() {
                    redirects_from(xs, i + 2, args, reds.push((fd, mode, xs[i + 1])))
                } else {
                    redirects_from(xs, i + 1, args, reds)
                }
            },
            None => redirects_from(xs, i + 1, args.push(xs[i]), reds),
        }
    }
}

/// The arguments and redirections of a command's words; the first word, the
/// command's name, is neither.
pub open spec fn split_redirects(xs: Seq<Seq<char>>) -> (Seq<Seq<char>>, Seq<RedirectModel>) {
    redirects_from(xs, 1, Seq::empty(), Seq::empty())
}

/// Separates the redirections of a command's words from its arguments,
/// skipping the first word (the command's name).
pub fn parse_redirects(all_args: Vec<String>) -> (r: (Vec<String>, Vec<Redirect>))
    ensures
        (strings_view(r.0@), r.1@.map_values(|x: Redirect| x@)) == split_redirects(
            strings_view(all_args@),
        ),
{
    let ghost xs = strings_view(all_args@);
    let mut args: Vec<String> = Vec::new();
    let mut redirects: Vec<Redirect> = Vec::new();
    let n = all_args.len();
    let mut i: usize = 1;
    assert(strings_view(args@) =~= Seq::<Seq<char>>::empty());
    assert(redirects@.map_values(|x: Redirect| x@) =~= Seq::<RedirectModel>::empty());
    while i < n
        invariant
            1 <= i <= n + 1,
            n == all_args@.len(),
            xs == strings_view(all_args@),
            redirects_from(xs, i as int, strings_view(args@), redirects@.map_values(
                |x: Redirect| x@,
            )) == split_redirects(xs),
        decreases n + 1 - i,
    {
        match parse_redirect_op(all_args[i].as_str()) {
            Some((fd, mode)) => {
                if i + 1 < n {
                    let target = all_args[i + 1].clone();
                    let ghost before = redirects@.map_values(|x: Redirect| x@);
                    redirects.push(Redirect { fd, mode, target });
                    assert(redirects@.map_values(|x: Redirect| x@) =~= before.push(
                        (fd, mode, xs[i + 1]),
                    ));
                    i = i + 2;
                } else {
                    i = i + 1;
                }
            },
            None => {
                let word = all_args[i].clone();
                let ghost before = strings_view(args@);
                args.push(word);
                assert(strings_view(args@) =~= before.push(xs[i as int]));
                i = i + 1;
            },
        }
    }
    (args, redirects)
}

// ---------------------------------------------------------------------------
// Commands
// ---------------------------------------------------------------------------

/// The names that the parser runs as builtins, in order.
pub open spec fn parser_builtin_names() -> Seq<Seq<char>> {
    seq![
        builtin_name(BuiltinKind::Exit),
        builtin_name(BuiltinKind::Echo),
        builtin_name(BuiltinKind::Type),
        builtin_name(BuiltinKind::Pwd),
        builtin_name(BuiltinKind::Cd),
        builtin_name(BuiltinKind::Jobs),
        builtin_name(BuiltinKind::History),
        builtin_name(BuiltinKind::Declare),
    ]
}

/// The names that the parser runs as builtins:
/// `exit echo type pwd cd jobs history declare`, in this order.
pub fn builtin_commands() -> (r: Vec<&'static str>)
    ensures
        r@.map_values(|s: &str| s@) == parser_builtin_names(),
{
    proof {
        lemma_literal_names();
    }
    let r = vec!["exit", "echo", "type", "pwd", "cd", "jobs", "history", "declare"];
    assert(r@.map_values(|s: &str| s@) =~= parser_builtin_names());
    r
}

/// Whether the parser runs `name` as a builtin.
fn is_parser_builtin(name: &str) -> (r: bool)
    ensures
        r == parser_builtin_names().contains(name@),
{
    let names = builtin_commands();
    let ghost ns = names@.map_values(|s: &str| s@);
    let mut i: usize = 0;
    while i < names.len()
        invariant
            i <= names@.len(),
            ns == names@.map_values(|s: &str| s@),
            ns == parser_builtin_names(),
            forall|k: int| 0 <= k < i ==> ns[k] != name@,
        decreases names@.len() - i,
    {
        if str_eq(names[i], name) {
            assert(ns[i as int] == name@);
            return true;
        }
        i = i + 1;
    }
    assert(!ns.contains(name@));
    false
}

/// How the command called `name` runs: the parser's builtins come first, then
/// the executables on `PATH`; `None` when it is neither.
pub open spec fn command_kind(name: Seq<char>, exes: Map<Seq<char>, Seq<char>>) -> Option<KindModel> {
    if parser_builtin_names().contains(name) {
        Some(KindModel::Builtin)
    } else if exes.contains_key(name) {
        Some(KindModel::External(exes[name]))
    } else {
        None
    }
}

/// Finds out whether `command` is a builtin or an executable on `PATH`.
pub fn get_command_type(command: &str, executables: &ExecutableMap) -> (r: Option<CommandKind>)
    ensures
        match r {
            Some(k) => command_kind(command@, fx_entries(*executables)) == Some(k@),
            None => command_kind(command@, fx_entries(*executables)).is_none(),
        },
{
    if is_parser_builtin(command) {
        Some(CommandKind::Builtin)
    } else {
        match fx_get(executables, command) {
            Some(path) => Some(CommandKind::External(path.clone())),
            None => None,
        }
    }
}

/// Why a line does not make a pipeline.
#[derive(Debug, Clone, PartialEq, Eq)]
pub enum PipelineError {
    /// The line holds nothing but blanks and `|`.
    Empty,
    /// A command names neither a builtin nor an executable.
    CommandNotFound(String),
    /// `&` stands somewhere other than at the very end.
    UnexpectedAmpersand,
}

/// The mathematical form of a [`PipelineError`].
pub enum PipelineErrorModel {
    Empty,
    CommandNotFound(Seq<char>),
    UnexpectedAmpersand,
}

impl View for PipelineError {
    type V = PipelineErrorModel;

    open spec fn view(&self) -> PipelineErrorModel {
        match self {
            PipelineError::Empty => PipelineErrorModel::Empty,
            PipelineError::CommandNotFound(n) => PipelineErrorModel::CommandNotFound(n@),
            PipelineError::UnexpectedAmpersand => PipelineErrorModel::UnexpectedAmpersand,
        }
    }
}

/// What the shell prints for a line it cannot run: `name: command not found`
/// for an unknown command, a syntax error for a misplaced `&`, and nothing for
/// an empty line.
pub open spec fn error_message(e: PipelineErrorModel) -> Option<Seq<char>> {
    match e {
        PipelineErrorModel::Empty => None,
        PipelineErrorModel::CommandNotFound(n) => Some(n + ": command not found"@),
        PipelineErrorModel::UnexpectedAmpersand => Some("syntax error near unexpected token '&'"@),
    }
}

impl PipelineError {
    /// The message the shell prints for this error, if any.
    pub fn message(&self) -> (r: Option<String>)
        ensures
            opt_view(r) == error_message(self@),
    {
        match self {
            PipelineError::Empty => None,
            PipelineError::CommandNotFound(name) => {
                let mut m = owned(name.as_str());
                string_append(&mut m, ": command not found");
                Some(m)
            },
            PipelineError::UnexpectedAmpersand => Some(owned("syntax error near unexpected token '&'")),
        }
    }
}

/// The command that the text `s` spells, or the name that is not found.
pub open spec fn command_model(s: Seq<char>, exes: Map<Seq<char>, Seq<char>>) -> Result<
    CommandModel,
    Seq<char>,
> {
    let ws = words_of(s);
    let name = if ws.len() > 0 {
        ws[0]
    } else {
        Seq::empty()
    };
    match command_kind(name, exes) {
        None => Err(name),
        Some(k) => Ok(
            CommandModel {
                name,
                args: split_redirects(ws).0,
                redirects: split_redirects(ws).1,
                kind: k,
            },
        ),
    }
}

/// Parses one command of a pipeline.
pub fn parse_command(input: &str, executables: &ExecutableMap) -> (r: Result<Command, PipelineError>)
    ensures
        match r {
            Ok(c) => command_model(input@, fx_entries(*executables)) == Ok::<CommandModel, Seq<char>>(c@),
            Err(e) => e matches PipelineError::CommandNotFound(n) && command_model(
                input@,
                fx_entries(*executables),
            ) == Err::<CommandModel, Seq<char>>(n@),
        },
{
    let all_args = parse_args(input);
    let name = if all_args.len() > 0 {
        all_args[0].clone()
    } else {
        String::new()
    };
    let command_type = match get_command_type(name.as_str(), executables) {
        Some(ct) => ct,
        None => {
            return Err(PipelineError::CommandNotFound(name));
        },
    };
    let (args, redirects) = parse_redirects(all_args);
    Ok(Command { name, args, redirects, command_type })
}

// ---------------------------------------------------------------------------
// Pipelines
// ---------------------------------------------------------------------------

/// A parsed input line: its commands, connected by pipes, and whether it runs
/// in the background.
pub struct Pipeline {
    pub commands: Vec<Command>,
    pub is_background: bool,
}

/// The mathematical form of a [`Pipeline`].
pub struct PipelineModel {
    pub commands: Seq<CommandModel>,
    pub is_background: bool,
}

impl View for Pipeline {
    type V = PipelineModel;

    open spec fn view(&self) -> PipelineModel {
        PipelineModel {
            commands: self.commands@.map_values(|c: Command| c@),
            is_background: self.is_background,
        }
    }
}

/// The segments that remain once each is trimmed and the empty ones are dropped.
pub open spec fn kept_segments(segs: Seq<Seq<char>>) -> Seq<Seq<char>>
    decreases segs.len(),
{
    if segs.len() == 0 {
        Seq::empty()
    } else if trimmed(segs.last()).len() > 0 {
        kept_segments(segs.drop_last()).push(trimmed(segs.last()))
    } else {
        kept_segments(segs.drop_last())
    }
}

/// The commands that the texts `ks` spell, or the first name that is not found.
pub open spec fn commands_of(ks: Seq<Seq<char>>, exes: Map<Seq<char>, Seq<char>>) -> Result<
    Seq<CommandModel>,
    Seq<char>,
>
    decreases ks.len(),
{
    if ks.len() == 0 {
        Ok(Seq::empty())
    } else {
        match commands_of(ks.drop_last(), exes) {
            Err(n) => Err(n),
            Ok(cs) => match command_model(ks.last(), exes) {
                Ok(c) => Ok(cs.push(c)),
                Err(n) => Err(n),
            },
        }
    }
}

/// The word `&`.
pub open spec fn ampersand() -> Seq<char> {
    seq!['&']
}

/// Whether some argument `&` stands anywhere but as the last argument of the
/// last command.
pub open spec fn ampersand_misplaced(cs: Seq<CommandModel>) -> bool {
    exists|i: int, j: int|
        0 <= i < cs.len() && 0 <= j < cs[i].args.len() && #[trigger] cs[i].args[j] == ampersand()
            && !(i == cs.len() - 1 && j == cs[i].args.len() - 1)
}

/// What a line parses to: an error when it holds no command, when a command
/// is not found (the first such one), or when `&` is misplaced; otherwise its
/// commands, where a final `&` is removed and makes the pipeline run in the
/// background.
pub open spec fn pipeline_of(s: Seq<char>, exes: Map<Seq<char>, Seq<char>>) -> Result<
    PipelineModel,
    PipelineErrorModel,
> {
    let ks = kept_segments(segments_of(s));
    if ks.len() == 0 {
        Err(PipelineErrorModel::Empty)
    } else {
        match commands_of(ks, exes) {
            Err(n) => Err(PipelineErrorModel::CommandNotFound(n)),
            Ok(cs) => {
                if ampersand_misplaced(cs) {
                    Err(PipelineErrorModel::UnexpectedAmpersand)
                } else {
                    let last = cs.last();
                    if last.args.len() > 0 && last.args.last() == ampersand() {
                        Ok(
                            PipelineModel {
                                commands: cs.update(
                                    cs.len() - 1,
                                    CommandModel {
                                        name: last.name,
                                        args: last.args.drop_last(),
                                        redirects: last.redirects,
                                        kind: last.kind,
                                    },
                                ),
                                is_background: true,
                            },
                        )
                    } else {
                        Ok(PipelineModel { commands: cs, is_background: false })
                    }
                }
            },
        }
    }
}

proof fn lemma_commands_error_persists(
    ks: Seq<Seq<char>>,
    i: int,
    exes: Map<Seq<char>, Seq<char>>,
    n: Seq<char>,
)
    requires
        0 <= i <= ks.len(),
        commands_of(ks.take(i), exes) == Err::<Seq<CommandModel>, Seq<char>>(n),
    ensures
        commands_of(ks, exes) == Err::<Seq<CommandModel>, Seq<char>>(n),
    decreases ks.len() - i,
{
    if i < ks.len() {
        assert(ks.take(i + 1).drop_last() =~= ks.take(i));
        lemma_commands_error_persists(ks, i + 1, exes, n);
    } else {
        assert(ks.take(i) =~= ks);
    }
}

/// Whether `v` holds the single character `&`.
fn is_ampersand(v: &String) -> (r: bool)
    ensures
        r == (v@ == ampersand()),
{
    proof {
        reveal_strlit("&");
        assert("&"@ =~= ampersand());
    }
    str_eq(v.as_str(), "&")
}

/// Parses an input line into a pipeline of commands.
pub fn parse_pipeline(input: &str, executables: &ExecutableMap) -> (r: Result<Pipeline, PipelineError>)
    ensures
        match r {
            Ok(p) => pipeline_of(input@, fx_entries(*executables)) == Ok::<
                PipelineModel,
                PipelineErrorModel,
            >(p@),
            Err(e) => pipeline_of(input@, fx_entries(*executables)) == Err::<
                PipelineModel,
                PipelineErrorModel,
            >(e@),
        },
{
    let ghost exes = fx_entries(*executables);
    let raw = split_pipeline(input);
    let ghost segs = raw@.map_values(|p: &str| p@);
    let mut kept: Vec<String> = Vec::new();
    let mut i: usize = 0;
    assert(strings_view(kept@) =~= kept_segments(segs.take(0)));
    while i < raw.len()
        invariant
            i <= raw@.len(),
            segs == raw@.map_values(|p: &str| p@),
            strings_view(kept@) == kept_segments(segs.take(i as int)),
        decreases raw@.len() - i,
    {
        let cs = chars_of(raw[i]);
        let t = trim_chars(&cs);
        assert(segs.take(i + 1).drop_last() =~= segs.take(i as int));
        assert(segs.take(i + 1).last() == segs[i as int]);
        if t.len() > 0 {
            let ghost before = strings_view(kept@);
            kept.push(string_of(&t));
            assert(strings_view(kept@) =~= before.push(t@));
        }
        i = i + 1;
    }
    assert(segs.take(raw@.len() as int) =~= segs);
    let ghost ks = strings_view(kept@);
    if kept.len() == 0 {
        return Err(PipelineError::Empty);
    }
    let mut commands: Vec<Command> = Vec::new();
    let mut i: usize = 0;
    assert(commands@.map_values(|c: Command| c@) =~= Seq::<CommandModel>::empty());
    assert(ks.take(0) =~= Seq::<Seq<char>>::empty());
    while i < kept.len()
        invariant
            i <= kept@.len(),
            ks == strings_view(kept@),
            ks == kept_segments(segments_of(input@)),
            ks.len() > 0,
            exes == fx_entries(*executables),
            commands_of(ks.take(i as int), exes) == Ok::<Seq<CommandModel>, Seq<char>>(
                commands@.map_values(|c: Command| c@),
            ),
        decreases kept@.len() - i,
    {
        assert(ks.take(i + 1).drop_last() =~= ks.take(i as int));
        assert(ks.take(i + 1).last() == ks[i as int]);
        match parse_command(kept[i].as_str(), executables) {
            Ok(cmd) => {
                let ghost before = commands@.map_values(|c: Command| c@);
                commands.push(cmd);
                assert(commands@.map_values(|c: Command| c@) =~= before.push(cmd@));
            },
            Err(e) => {
                proof {
                    if e is CommandNotFound {
                        lemma_commands_error_persists(ks, i + 1, exes, e->CommandNotFound_0@);
                    }
                }
                return Err(e);
            },
        }
        i = i + 1;
    }
    assert(ks.take(kept@.len() as int) =~= ks);
    let ghost cms = commands@.map_values(|c: Command| c@);
    let n = commands.len();
    let mut i: usize = 0;
    while i < n
        invariant
            i <= n == commands@.len(),
            cms == commands@.map_values(|c: Command| c@),
            commands_of(kept_segments(segments_of(input@)), fx_entries(*executables)) == Ok::<
                Seq<CommandModel>,
                Seq<char>,
            >(cms),
            kept_segments(segments_of(input@)).len() > 0,
            forall|a: int, b: int|
                0 <= a < i && 0 <= b < cms[a].args.len() && #[trigger] cms[a].args[b] == ampersand()
                    ==> a == n - 1 && b == cms[a].args.len() - 1,
        decreases n - i,
    {
        let m = commands[i].args.len();
        let mut j: usize = 0;
        while j < m
            invariant
                i < n == commands@.len(),
                j <= m == commands@[i as int].args@.len(),
                cms == commands@.map_values(|c: Command| c@),
                commands_of(kept_segments(segments_of(input@)), fx_entries(*executables)) == Ok::<
                    Seq<CommandModel>,
                    Seq<char>,
                >(cms),
                kept_segments(segments_of(input@)).len() > 0,
                forall|a: int, b: int|
                    0 <= a < i && 0 <= b < cms[a].args.len() && #[trigger] cms[a].args[b] == ampersand()
                        ==> a == n - 1 && b == cms[a].args.len() - 1,
                forall|b: int|
                    0 <= b < j && #[trigger] cms[i as int].args[b] == ampersand() ==> i == n - 1 && b
                        == m - 1,
            decreases m - j,
        {
            if is_ampersand(&commands[i].args[j]) {
                if !(i == n - 1 && j == m - 1) {
                    assert(cms[i as int].args[j as int] == ampersand());
                    assert(ampersand_misplaced(cms));
                    return Err(PipelineError::UnexpectedAmpersand);
                }
            }
            j = j + 1;
        }
        i = i + 1;
    }
    assert(!ampersand_misplaced(cms));
    let mut last = commands.pop().unwrap();
    let ghost last_model = last@;
    let mut is_background = false;
    let k = last.args.len();
    if k > 0 && is_ampersand(&last.args[k - 1]) {
        let ghost before = last.args@;
        last.args.pop();
        assert(strings_view(last.args@) =~= strings_view(before).drop_last());
        is_background = true;
    }
    commands.push(last);
    let p = Pipeline { commands, is_background };
    assert(p@.commands =~= if is_background {
        cms.update(
            cms.len() - 1,
            CommandModel {
                name: last_model.name,
                args: last_model.args.drop_last(),
                redirects: last_model.redirects,
                kind: last_model.kind,
            },
        )
    } else {
        cms
    });
    Ok(p)
}

} // verus!

verus! {

// ---------------------------------------------------------------------------
// Laws
// ---------------------------------------------------------------------------

/// A character that needs no quoting: not a blank, quote or backslash.
pub open spec fn is_plain(c: char) -> bool {
    c != ' ' && c != '\t' && c != '\'' && c != '"' && c != '\\'
}

/// A non-empty word made of plain characters.
pub open spec fn is_plain_word(w: Seq<char>) -> bool {
    w.len() > 0 && forall|k: int| 0 <= k < w.len() ==> is_plain(#[trigger] w[k])
}

proof fn lemma_plain_run(s: Seq<char>, i: int, j: int, acc: Seq<Seq<char>>, cur: Seq<char>)
    requires
        0 <= i <= j <= s.len(),
        forall|k: int| i <= k < j ==> is_plain(#[trigger] s[k]),
    ensures
        words_from(s, i, acc, cur, false, false) == words_from(s, j, acc, cur + s.subrange(i, j), false, false),
    decreases j - i,
{
    if i == j {
        assert(cur + s.subrange(i, j) =~= cur);
    } else {
        assert(is_plain(s[i]));
        lemma_plain_run(s, i + 1, j, acc, cur.push(s[i]));
        assert(cur.push(s[i]) + s.subrange(i + 1, j) =~= cur + s.subrange(i, j));
    }
}

/// `joined` read from the front: the first word, the separator, the rest.
pub proof fn lemma_joined_front(ws: Seq<Seq<char>>, sep: Seq<char>)
    requires
        ws.len() >= 2,
    ensures
        crate::text::joined(ws, sep) == ws[0] + sep + crate::text::joined(ws.drop_first(), sep),
    decreases ws.len(),
{
    let rest = ws.drop_first();
    if ws.len() == 2 {
        assert(ws.drop_last() =~= seq![ws[0]]);
        assert(rest =~= seq![ws[1]]);
        assert(crate::text::joined(ws.drop_last(), sep) == ws[0]);
        assert(crate::text::joined(rest, sep) == ws[1]);
    } else {
        lemma_joined_front(ws.drop_last(), sep);
        assert(ws.drop_last().drop_first() =~= rest.drop_last());
        assert(rest.last() == ws.last());
        assert(ws.drop_last()[0] == ws[0]);
        assert(crate::text::joined(rest, sep) == crate::text::joined(rest.drop_last(), sep) + sep + rest.last());
        assert(crate::text::joined(ws, sep) == crate::text::joined(ws.drop_last(), sep) + sep + ws.last());
    }
    assert(crate::text::joined(ws, sep) =~= ws[0] + sep + crate::text::joined(rest, sep));
}

proof fn lemma_plain_words(s: Seq<char>, i: int, acc: Seq<Seq<char>>, ws: Seq<Seq<char>>)
    requires
        0 <= i <= s.len(),
        s.subrange(i, s.len() as int) == crate::text::joined(ws, seq![' ']),
        forall|k: int| 0 <= k < ws.len() ==> is_plain_word(#[trigger] ws[k]),
    ensures
        words_from(s, i, acc, Seq::empty(), false, false) == acc + ws,
    decreases ws.len(),
{
    if ws.len() == 0 {
        assert(acc + ws =~= acc);
    } else {
        let w = ws[0];
        assert(is_plain_word(w));
        let e = i + w.len();
        if ws.len() == 1 {
            assert(s.subrange(i, s.len() as int) == w);
            assert forall|k: int| i <= k < s.len() implies is_plain(#[trigger] s[k]) by {
                assert(s[k] == w[k - i]);
            }
            lemma_plain_run(s, i, s.len() as int, acc, Seq::empty());
            assert(Seq::<char>::empty() + s.subrange(i, s.len() as int) =~= w);
            assert(acc + ws =~= acc.push(w));
        } else {
            lemma_joined_front(ws, seq![' ']);
            let rest = ws.drop_first();
            let tail = crate::text::joined(rest, seq![' ']);
            assert(s.subrange(i, s.len() as int) == w + seq![' '] + tail);
            assert forall|k: int| i <= k < e implies is_plain(#[trigger] s[k]) by {
                assert(s[k] == s.subrange(i, s.len() as int)[k - i]);
                assert(s.subrange(i, s.len() as int)[k - i] == w[k - i]);
            }
            lemma_plain_run(s, i, e, acc, Seq::empty());
            assert(s.subrange(i, e) =~= w) by {
                assert forall|k: int| 0 <= k < w.len() implies s.subrange(i, e)[k] == w[k] by {
                    assert(s.subrange(i, s.len() as int)[k] == w[k]);
                }
            }
            assert(Seq::<char>::empty() + s.subrange(i, e) =~= w);
            assert(s[e] == s.subrange(i, s.len() as int)[w.len() as int]);
            assert(s[e] == ' ');
            assert(s.subrange(e + 1, s.len() as int) =~= tail) by {
                assert forall|k: int| 0 <= k < tail.len() implies s.subrange(e + 1, s.len() as int)[k] == tail[k] by {
                    assert(s.subrange(i, s.len() as int)[w.len() + 1 + k] == tail[k]);
                }
            }
            assert forall|k: int| 0 <= k < rest.len() implies is_plain_word(#[trigger] rest[k]) by {
                assert(rest[k] == ws[k + 1]);
            }
            lemma_plain_words(s, e + 1, acc.push(w), rest);
            assert(acc.push(w) + rest =~= acc + ws);
        }
    }
}

/// Plain words written with single spaces between them are read back as
/// the same words.
pub proof fn law_plain_words_read_back(ws: Seq<Seq<char>>)
    requires
        forall|k: int| 0 <= k < ws.len() ==> is_plain_word(#[trigger] ws[k]),
    ensures
        words_of(crate::text::joined(ws, seq![' '])) == ws,
{
    let s = crate::text::joined(ws, seq![' ']);
    assert(s.subrange(0, s.len() as int) =~= s);
    lemma_plain_words(s, 0, Seq::empty(), ws);
    assert(Seq::<Seq<char>>::empty() + ws =~= ws);
}

proof fn lemma_quoted_run(s: Seq<char>, i: int, j: int, acc: Seq<Seq<char>>, cur: Seq<char>)
    requires
        0 <= i <= j <= s.len(),
        forall|k: int| i <= k < j ==> #[trigger] s[k] != '\'',
    ensures
        words_from(s, i, acc, cur, true, false) == words_from(s, j, acc, cur + s.subrange(i, j), true, false),
    decreases j - i,
{
    if i == j {
        assert(cur + s.subrange(i, j) =~= cur);
    } else {
        assert(s[i] != '\'');
        lemma_quoted_run(s, i + 1, j, acc, cur.push(s[i]));
        assert(cur.push(s[i]) + s.subrange(i + 1, j) =~= cur + s.subrange(i, j));
    }
}

/// Text between single quotes is one word, taken literally, whatever
/// blanks, double quotes or backslashes it holds.
pub proof fn law_single_quotes_literal(w: Seq<char>)
    requires
        w.len() > 0,
        forall|k: int| 0 <= k < w.len() ==> #[trigger] w[k] != '\'',
    ensures
        words_of(seq!['\''] + w + seq!['\'']) == seq![w],
{
    let s = seq!['\''] + w + seq!['\''];
    let n = w.len() as int;
    assert(s[0] == '\'');
    assert forall|k: int| 1 <= k < n + 1 implies #[trigger] s[k] != '\'' by {
        assert(s[k] == w[k - 1]);
    }
    assert(s.len() == n + 2);
    assert(words_of(s) == words_from(s, 1, Seq::empty(), Seq::empty(), true, false));
    lemma_quoted_run(s, 1, n + 1, Seq::empty(), Seq::empty());
    assert(Seq::<char>::empty() + s.subrange(1, n + 1) =~= w);
    assert(s[n + 1] == '\'');
    assert(words_from(s, n + 1, Seq::empty(), w, true, false) == words_from(s, n + 2, Seq::empty(), w, false, false));
    assert(words_from(s, n + 2, Seq::empty(), w, false, false) == Seq::<Seq<char>>::empty().push(w));
    assert(Seq::<Seq<char>>::empty().push(w) =~= seq![w]);
}

/// The segments of a line, joined again with `|`, give back the line.
pub proof fn law_segments_rejoin(s: Seq<char>)
    ensures
        crate::text::joined(segments_of(s), seq!['|']) == s,
{
    lemma_segments_rejoin(s, 0, 0, false, false, Seq::empty());
    assert(s.subrange(0, s.len() as int) =~= s);
}

/// How many `|` characters of `s[i..]` separate segments: those outside
/// quotes and not hidden by a backslash, when the scan at `i` is inside single
/// quotes (`sq`) or double quotes (`dq`).
pub open spec fn separators_from(s: Seq<char>, i: int, sq: bool, dq: bool) -> nat
    decreases s.len() - i,
{
    if i >= s.len() {
        0
    } else {
        let c = s[i];
        if c == '\\' && !sq {
            if i + 1 < s.len() {
                separators_from(s, i + 2, sq, dq)
            } else {
                separators_from(s, i + 1, sq, dq)
            }
        } else if c == '\'' && !dq {
            separators_from(s, i + 1, !sq, dq)
        } else if c == '"' && !sq {
            separators_from(s, i + 1, sq, !dq)
        } else if c == '|' && !sq && !dq {
            separators_from(s, i + 1, sq, dq) + 1
        } else {
            separators_from(s, i + 1, sq, dq)
        }
    }
}

/// How many `|` characters of `s` separate pipeline segments.
pub open spec fn separators(s: Seq<char>) -> nat {
    separators_from(s, 0, false, false)
}

proof fn lemma_segment_count(s: Seq<char>, i: int, start: int, sq: bool, dq: bool, acc: Seq<Seq<char>>)
    ensures
        segments_from(s, i, start, sq, dq, acc).len() == acc.len() + 1 + separators_from(s, i, sq, dq),
    decreases s.len() - i,
{
    if i < s.len() {
        let c = s[i];
        if c == '\\' && !sq {
            if i + 1 < s.len() {
                lemma_segment_count(s, i + 2, start, sq, dq, acc);
            } else {
                lemma_segment_count(s, i + 1, start, sq, dq, acc);
            }
        } else if c == '\'' && !dq {
            lemma_segment_count(s, i + 1, start, !sq, dq, acc);
        } else if c == '"' && !sq {
            lemma_segment_count(s, i + 1, start, sq, !dq, acc);
        } else if c == '|' && !sq && !dq {
            lemma_segment_count(s, i + 1, i + 1, sq, dq, acc.push(s.subrange(start, i)));
        } else {
            lemma_segment_count(s, i + 1, start, sq, dq, acc);
        }
    }
}

/// A line always gives at least one segment, and one more than the `|`
/// characters that stand outside quotes and are not escaped.
pub proof fn law_segment_count(s: Seq<char>)
    ensures
        segments_of(s).len() == separators(s) + 1,
        segments_of(s).len() >= 1,
{
    lemma_segment_count(s, 0, 0, false, false, Seq::empty());
}

/// What the segments read so far and the rest of the line join to.
pub open spec fn rejoined(s: Seq<char>, start: int, acc: Seq<Seq<char>>) -> Seq<char> {
    if acc.len() == 0 {
        s.subrange(start, s.len() as int)
    } else {
        crate::text::joined(acc, seq!['|']) + seq!['|'] + s.subrange(start, s.len() as int)
    }
}

proof fn lemma_joined_push(acc: Seq<Seq<char>>, x: Seq<char>, sep: Seq<char>)
    ensures
        crate::text::joined(acc.push(x), sep) == if acc.len() == 0 {
            x
        } else {
            crate::text::joined(acc, sep) + sep + x
        },
{
    assert(acc.push(x).drop_last() =~= acc);
}

proof fn lemma_segments_rejoin(s: Seq<char>, i: int, start: int, sq: bool, dq: bool, acc: Seq<Seq<char>>)
    requires
        0 <= start <= i <= s.len(),
    ensures
        crate::text::joined(segments_from(s, i, start, sq, dq, acc), seq!['|']) == rejoined(s, start, acc),
    decreases s.len() - i,
{
    if i >= s.len() {
        lemma_joined_push(acc, s.subrange(start, s.len() as int), seq!['|']);
    } else {
        let c = s[i];
        if c == '\\' && !sq {
            if i + 1 < s.len() {
                lemma_segments_rejoin(s, i + 2, start, sq, dq, acc);
            } else {
                lemma_segments_rejoin(s, i + 1, start, sq, dq, acc);
            }
        } else if c == '\'' && !dq {
            lemma_segments_rejoin(s, i + 1, start, !sq, dq, acc);
        } else if c == '"' && !sq {
            lemma_segments_rejoin(s, i + 1, start, sq, !dq, acc);
        } else if c == '|' && !sq && !dq {
            let seg = s.subrange(start, i);
            lemma_segments_rejoin(s, i + 1, i + 1, sq, dq, acc.push(seg));
            lemma_joined_push(acc, seg, seq!['|']);
            assert(s.subrange(start, s.len() as int) =~= seg + seq!['|'] + s.subrange(i + 1, s.len() as int));
            if acc.len() == 0 {
                assert(rejoined(s, i + 1, acc.push(seg)) =~= rejoined(s, start, acc));
            } else {
                assert(rejoined(s, i + 1, acc.push(seg)) =~= rejoined(s, start, acc));
            }
        } else {
            lemma_segments_rejoin(s, i + 1, start, sq, dq, acc);
        }
    }
}

/// A command whose words hold no redirection operator keeps every word after
/// its name as an argument, and has no redirection.
pub proof fn law_no_operator_all_arguments(xs: Seq<Seq<char>>)
    requires
        forall|k: int| 1 <= k < xs.len() ==> redirect_op(#[trigger] xs[k]).is_none(),
    ensures
        split_redirects(xs) == (if xs.len() > 0 { xs.drop_first() } else { Seq::empty() }, Seq::<RedirectModel>::empty()),
{
    lemma_no_operator(xs, 1, Seq::empty());
    if xs.len() > 0 {
        assert(Seq::<Seq<char>>::empty() + xs.subrange(1, xs.len() as int) =~= xs.drop_first());
    }
}

proof fn lemma_no_operator(xs: Seq<Seq<char>>, i: int, args: Seq<Seq<char>>)
    requires
        1 <= i,
        forall|k: int| 1 <= k < xs.len() ==> redirect_op(#[trigger] xs[k]).is_none(),
    ensures
        redirects_from(xs, i, args, Seq::empty()) == (
            if i < xs.len() { args + xs.subrange(i, xs.len() as int) } else { args },
            Seq::<RedirectModel>::empty(),
        ),
    decreases xs.len() - i,
{
    if i < xs.len() {
        assert(redirect_op(xs[i]).is_none());
        lemma_no_operator(xs, i + 1, args.push(xs[i]));
        if i + 1 < xs.len() {
            assert(args.push(xs[i]) + xs.subrange(i + 1, xs.len() as int) =~= args + xs.subrange(i, xs.len() as int));
        } else {
            assert(args.push(xs[i]) =~= args + xs.subrange(i, xs.len() as int));
        }
    }
}

/// A name on the parser's builtin list always runs the builtin, whatever
/// executables `PATH` holds.
pub proof fn law_builtins_shadow_executables(name: Seq<char>, exes: Map<Seq<char>, Seq<char>>)
    requires
        parser_builtin_names().contains(name),
    ensures
        command_kind(name, exes) == Some(KindModel::Builtin),
{
}

} // verus!

verus! {

proof fn lemma_double_quoted_run(s: Seq<char>, i: int, j: int, acc: Seq<Seq<char>>, cur: Seq<char>)
    requires
        0 <= i <= j <= s.len(),
        forall|k: int| i <= k < j ==> #[trigger] s[k] != '"' && s[k] != '\\',
    ensures
        words_from(s, i, acc, cur, false, true) == words_from(s, j, acc, cur + s.subrange(i, j), false, true),
    decreases j - i,
{
    if i == j {
        assert(cur + s.subrange(i, j) =~= cur);
    } else {
        assert(s[i] != '"' && s[i] != '\\');
        lemma_double_quoted_run(s, i + 1, j, acc, cur.push(s[i]));
        assert(cur.push(s[i]) + s.subrange(i + 1, j) =~= cur + s.subrange(i, j));
    }
}

/// Double quotes that open inside a word do not split it: plain text
/// followed by double-quoted text without quotes or backslashes (blanks
/// included) is one word, the two texts joined, the quotes removed.
pub proof fn law_double_quotes_join_word(p: Seq<char>, w: Seq<char>)
    requires
        is_plain_word(p),
        forall|k: int| 0 <= k < w.len() ==> #[trigger] w[k] != '"' && w[k] != '\\',
    ensures
        words_of(p + seq!['"'] + w + seq!['"']) == seq![p + w],
{
    let s = p + seq!['"'] + w + seq!['"'];
    let np = p.len() as int;
    let nw = w.len() as int;
    assert(s.len() == np + nw + 2);
    assert forall|k: int| 0 <= k < np implies is_plain(#[trigger] s[k]) by {
        assert(s[k] == p[k]);
    }
    lemma_plain_run(s, 0, np, Seq::empty(), Seq::empty());
    assert(Seq::<char>::empty() + s.subrange(0, np) =~= p);
    assert(s[np] == '"');
    assert(words_from(s, np, Seq::empty(), p, false, false) == words_from(s, np + 1, Seq::empty(), p, false, true));
    assert forall|k: int| np + 1 <= k < np + 1 + nw implies #[trigger] s[k] != '"' && s[k] != '\\' by {
        assert(s[k] == w[k - np - 1]);
    }
    lemma_double_quoted_run(s, np + 1, np + 1 + nw, Seq::empty(), p);
    assert(p + s.subrange(np + 1, np + 1 + nw) =~= p + w);
    assert(s[np + 1 + nw] == '"');
    assert(words_from(s, np + 1 + nw, Seq::empty(), p + w, false, true) == words_from(
        s,
        np + nw + 2,
        Seq::empty(),
        p + w,
        false,
        false,
    ));
    assert((p + w).len() > 0);
    assert(Seq::<Seq<char>>::empty().push(p + w) =~= seq![p + w]);
}

/// A parsed command is its line's words: the name is the first word, and the
/// arguments and redirections are the rest with each operator and its target
/// taken out as a redirection, whether the command is a builtin or not; it
/// runs as a builtin when the parser's list holds its name, else as the
/// executable `PATH` maps it to.
pub proof fn law_command_parts(s: Seq<char>, exes: Map<Seq<char>, Seq<char>>)
    ensures
        command_model(s, exes) matches Ok(c) ==> {
            &&& c.name == (if words_of(s).len() > 0 {
                words_of(s)[0]
            } else {
                Seq::empty()
            })
            &&& c.args == redirects_from(words_of(s), 1, Seq::empty(), Seq::empty()).0
            &&& c.redirects == redirects_from(words_of(s), 1, Seq::empty(), Seq::empty()).1
            &&& c.kind == if parser_builtin_names().contains(c.name) {
                KindModel::Builtin
            } else {
                KindModel::External(exes[c.name])
            }
            &&& (parser_builtin_names().contains(c.name) || exes.contains_key(c.name))
        },
{
}

/// For any command name and target without blanks, quotes or backslashes,
/// `name > target` parses, when the name is found, to a command without
/// arguments whose standard output is redirected, overwriting, to the target,
/// builtin or not.
pub proof fn law_redirect_kept(name: Seq<char>, target: Seq<char>, exes: Map<Seq<char>, Seq<char>>)
    requires
        is_plain_word(name),
        is_plain_word(target),
    ensures
        command_model(name + seq![' ', '>', ' '] + target, exes) matches Ok(c) ==> {
            &&& c.name == name
            &&& c.args == Seq::<Seq<char>>::empty()
            &&& c.redirects == seq![(Fd::Stdout, WriteMode::Overwrite, target)]
        },
{
    let ws = seq![name, seq!['>'], target];
    assert forall|k: int| 0 <= k < ws.len() implies is_plain_word(#[trigger] ws[k]) by {
        if k == 1 {
            assert(is_plain(ws[1][0]));
        }
    }
    law_plain_words_read_back(ws);
    assert(ws.drop_last().drop_last() =~= seq![name]);
    assert(ws.drop_last() =~= seq![name, seq!['>']]);
    assert(crate::text::joined(ws.drop_last(), seq![' ']) == crate::text::joined(seq![name], seq![' ']) + seq![' ']
        + seq!['>']);
    assert(crate::text::joined(ws, seq![' ']) =~= name + seq![' ', '>', ' '] + target);
    let s = name + seq![' ', '>', ' '] + target;
    assert(words_of(s) == ws);
    assert(redirect_op(seq!['>']) == Some((Fd::Stdout, WriteMode::Overwrite)));
    assert(redirects_from(ws, 1, Seq::empty(), Seq::empty()) == redirects_from(
        ws,
        3,
        Seq::empty(),
        Seq::<RedirectModel>::empty().push((Fd::Stdout, WriteMode::Overwrite, target)),
    ));
    assert(Seq::<RedirectModel>::empty().push((Fd::Stdout, WriteMode::Overwrite, target)) =~= seq![
        (Fd::Stdout, WriteMode::Overwrite, target),
    ]);
}

} // verus!
