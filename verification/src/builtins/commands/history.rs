//! `history`: lists the history or reads, writes or appends a history file.
use crate::builtins::{effect_only, err_line, listing, BuiltinEffect, BuiltinOutcome, EffectModel, OutcomeModel};
use crate::history::History;
use crate::text::{owned, parse_usize, parsed_usize, str_eq, string_append, string_push, strings_view};
use vstd::prelude::*;

verus! {

/// What `history` was asked to do.
pub enum HistoryBuiltin {
    /// List the last `limit` entries, or all of them.
    Print { limit: Option<usize> },
    /// `-r path`: read a history file.
    ReadFile(String),
    /// `-w path`: write the history to a file.
    WriteFile(String),
    /// `-a path`: append the new entries to a file.
    AppendFile(String),
    /// `-r`, `-w` or `-a` without a path; holds the option's letter.
    MissingFilename(char),
}

/// The mathematical form of a [`HistoryBuiltin`].
pub enum HistoryModel {
    Print(Option<usize>),
    ReadFile(Seq<char>),
    WriteFile(Seq<char>),
    AppendFile(Seq<char>),
    MissingFilename(char),
}

impl View for HistoryBuiltin {
    type V = HistoryModel;

    open spec fn view(&self) -> HistoryModel {
        match self {
            HistoryBuiltin::Print { limit } => HistoryModel::Print(*limit),
            HistoryBuiltin::ReadFile(p) => HistoryModel::ReadFile(p@),
            HistoryBuiltin::WriteFile(p) => HistoryModel::WriteFile(p@),
            HistoryBuiltin::AppendFile(p) => HistoryModel::AppendFile(p@),
            HistoryBuiltin::MissingFilename(c) => HistoryModel::MissingFilename(*c),
        }
    }
}

/// Whether `a` is one of the options `-r`, `-w`, `-a`.
pub open spec fn is_file_option(a: Seq<char>) -> bool {
    a == seq!['-', 'r'] || a == seq!['-', 'w'] || a == seq!['-', 'a']
}

/// What the arguments of `history` ask for: a file option with its path (or
/// the missing path), otherwise a listing limited by the first argument when
/// it reads as a number.
pub open spec fn history_request(args: Seq<Seq<char>>) -> HistoryModel {
    if args.len() > 0 && is_file_option(args[0]) {
        let ch = args[0][1];
        if args.len() > 1 {
            if ch == 'r' {
                HistoryModel::ReadFile(args[1])
            } else if ch == 'w' {
                HistoryModel::WriteFile(args[1])
            } else {
                HistoryModel::AppendFile(args[1])
            }
        } else {
            HistoryModel::MissingFilename(ch)
        }
    } else if args.len() > 0 {
        HistoryModel::Print(parsed_usize(args[0]))
    } else {
        HistoryModel::Print(None)
    }
}

/// The message for a file option without a path.
pub open spec fn missing_filename_line(c: char) -> Seq<char> {
    "history: -"@.push(c) + ": missing filename"@
}

/// What `history` gives for a request: the listing on standard output, the
/// file action to be done, or the missing-path message.
pub open spec fn history_outcome(req: HistoryModel, history: &History, r: OutcomeModel) -> bool {
    match req {
        HistoryModel::Print(limit) => exists|ls: Seq<Seq<char>>|
            history.is_listing(limit, ls) && r == listing(ls),
        HistoryModel::ReadFile(p) => r == effect_only(EffectModel::ReadHistory(p)),
        HistoryModel::WriteFile(p) => r == effect_only(EffectModel::WriteHistory(p)),
        HistoryModel::AppendFile(p) => r == effect_only(EffectModel::AppendHistory(p)),
        HistoryModel::MissingFilename(c) => r == err_line(missing_filename_line(c)),
    }
}

impl HistoryBuiltin {
    /// Reads the arguments of `history`.
    pub fn parse(args: &[String]) -> (r: Self)
        ensures
            r@ == history_request(strings_view(args@)),
    {
        proof {
            reveal_strlit("-r");
            reveal_strlit("-w");
            reveal_strlit("-a");
            assert("-r"@ =~= seq!['-', 'r']);
            assert("-w"@ =~= seq!['-', 'w']);
            assert("-a"@ =~= seq!['-', 'a']);
        }
        if args.len() > 0 {
            let first = args[0].as_str();
            assert(first@ == strings_view(args@)[0]);
            let ch = if str_eq(first, "-r") {
                'r'
            } else if str_eq(first, "-w") {
                'w'
            } else if str_eq(first, "-a") {
                'a'
            } else {
                return HistoryBuiltin::Print { limit: parse_usize(first) };
            };
            if args.len() > 1 {
                let path = args[1].clone();
                assert(path@ == strings_view(args@)[1]);
                if ch == 'r' {
                    HistoryBuiltin::ReadFile(path)
                } else if ch == 'w' {
                    HistoryBuiltin::WriteFile(path)
                } else {
                    HistoryBuiltin::AppendFile(path)
                }
            } else {
                HistoryBuiltin::MissingFilename(ch)
            }
        } else {
            HistoryBuiltin::Print { limit: None }
        }
    }

    /// Lists the history, asks for a file to be read, written or appended,
    /// or complains of a missing path. The history itself is not changed here.
    pub fn run(self, history: &History) -> (r: BuiltinOutcome)
        ensures
            history_outcome(self@, history, r@),
    {
        match self {
            HistoryBuiltin::Print { limit } => {
                let out = history.write_to(limit);
                let ghost ls = strings_view(out@);
                let r = BuiltinOutcome::listing(out);
                assert(history.is_listing(limit, ls) && r@ == listing(ls));
                r
            },
            HistoryBuiltin::ReadFile(p) => BuiltinOutcome::effect_only(BuiltinEffect::ReadHistory(p)),
            HistoryBuiltin::WriteFile(p) => BuiltinOutcome::effect_only(BuiltinEffect::WriteHistory(p)),
            HistoryBuiltin::AppendFile(p) => BuiltinOutcome::effect_only(BuiltinEffect::AppendHistory(p)),
            HistoryBuiltin::MissingFilename(c) => {
                let mut line = owned("history: -");
                string_push(&mut line, c);
                string_append(&mut line, ": missing filename");
                BuiltinOutcome::err_line(line)
            },
        }
    }
}

} // verus!
