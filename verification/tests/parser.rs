use rshell::command::{redirects_of, CommandKind, Fd, WriteMode};
use rshell::command_parser::{
    builtin_commands, get_command_type, parse_args, parse_command, parse_pipeline, parse_redirect_op, parse_redirects,
    split_pipeline, PipelineError,
};
use rshell::shell_state::executables::ExecutableMap;

fn strings(ws: &[&str]) -> Vec<String> {
    ws.iter().map(|w| w.to_string()).collect()
}

fn exes() -> ExecutableMap {
    let mut m = ExecutableMap::default();
    m.insert("ls".to_string(), "/bin/ls".to_string());
    m.insert("cat".to_string(), "/usr/bin/cat".to_string());
    m.insert("echo".to_string(), "/bin/echo".to_string());
    m
}

#[test]
fn plain_words_split_on_blanks() {
    assert_eq!(parse_args("ls  -l\t/tmp "), strings(&["ls", "-l", "/tmp"]));
    assert_eq!(parse_args(""), Vec::<String>::new());
    assert_eq!(parse_args("   \t "), Vec::<String>::new());
}

#[test]
fn plain_words_read_back_law_example() {
    let ws = strings(&["alpha", "b-2", "c.txt"]);
    assert_eq!(parse_args(&ws.join(" ")), ws);
}

#[test]
fn single_quotes_are_literal() {
    assert_eq!(parse_args("'a b \"c\" \\d'"), strings(&["a b \"c\" \\d"]));
    assert_eq!(parse_args("echo 'x  y'z"), strings(&["echo", "x  yz"]));
}

#[test]
fn double_quotes_escape_only_quote_and_backslash() {
    assert_eq!(parse_args("\"a \\\" b \\\\ c \\n\""), strings(&["a \" b \\ c \\n"]));
    assert_eq!(parse_args("\"it's\""), strings(&["it's"]));
    assert_eq!(parse_args("\"end\\"), strings(&["end\\"]));
}

#[test]
fn backslash_outside_quotes_takes_next_char() {
    assert_eq!(parse_args("a\\ b c"), strings(&["a b", "c"]));
    assert_eq!(parse_args("x\\"), strings(&["x"]));
    assert_eq!(parse_args("\\'q"), strings(&["'q"]));
}

#[test]
fn empty_quotes_make_no_word() {
    assert_eq!(parse_args("'' \"\" a"), strings(&["a"]));
}

#[test]
fn split_pipeline_at_unquoted_bars() {
    assert_eq!(split_pipeline("a | b|c"), vec!["a ", " b", "c"]);
    assert_eq!(split_pipeline("echo 'a|b' \"c|d\" e\\|f"), vec!["echo 'a|b' \"c|d\" e\\|f"]);
    assert_eq!(split_pipeline(""), vec![""]);
    assert_eq!(split_pipeline("|"), vec!["", ""]);
}

#[test]
fn segments_rejoin_law_example() {
    let line = "cat 'x|y' | grep \"a|b\" |wc -l";
    assert_eq!(split_pipeline(line).join("|"), line);
}

#[test]
fn redirect_operators() {
    assert_eq!(parse_redirect_op(">"), Some((Fd::Stdout, WriteMode::Overwrite)));
    assert_eq!(parse_redirect_op("1>"), Some((Fd::Stdout, WriteMode::Overwrite)));
    assert_eq!(parse_redirect_op("2>"), Some((Fd::Stderr, WriteMode::Overwrite)));
    assert_eq!(parse_redirect_op(">>"), Some((Fd::Stdout, WriteMode::Append)));
    assert_eq!(parse_redirect_op("1>>"), Some((Fd::Stdout, WriteMode::Append)));
    assert_eq!(parse_redirect_op("2>>"), Some((Fd::Stderr, WriteMode::Append)));
    assert_eq!(parse_redirect_op("3>"), None);
    assert_eq!(parse_redirect_op(">>>"), None);
}

#[test]
fn redirects_are_separated_from_arguments() {
    let (args, reds) = parse_redirects(strings(&["echo", "hi", ">", "out.txt", "there", "2>>", "err.log"]));
    assert_eq!(args, strings(&["hi", "there"]));
    assert_eq!(reds.len(), 2);
    assert!(reds[0].fd == Fd::Stdout && reds[0].mode == WriteMode::Overwrite && reds[0].target == "out.txt");
    assert!(reds[1].fd == Fd::Stderr && reds[1].mode == WriteMode::Append && reds[1].target == "err.log");
}

#[test]
fn redirects_of_picks_each_stream_in_order() {
    let (_, reds) = parse_redirects(strings(&["ls", ">", "a", "2>", "b", ">>", "c", "1>", "d"]));
    assert_eq!(redirects_of(&reds, Fd::Stdout), vec![0, 2, 3]);
    assert_eq!(redirects_of(&reds, Fd::Stderr), vec![1]);
    let (_, none) = parse_redirects(strings(&["ls", "-l"]));
    assert!(redirects_of(&none, Fd::Stdout).is_empty());
}

#[test]
fn redirect_without_target_is_dropped() {
    let (args, reds) = parse_redirects(strings(&["ls", "a", ">"]));
    assert_eq!(args, strings(&["a"]));
    assert!(reds.is_empty());
}

#[test]
fn no_operator_keeps_all_arguments() {
    let (args, reds) = parse_redirects(strings(&["cat", "a", "b"]));
    assert_eq!(args, strings(&["a", "b"]));
    assert!(reds.is_empty());
    let (args, reds) = parse_redirects(Vec::new());
    assert!(args.is_empty() && reds.is_empty());
}

#[test]
fn command_type_prefers_builtins() {
    let m = exes();
    assert_eq!(get_command_type("echo", &m), Some(CommandKind::Builtin));
    assert_eq!(get_command_type("complete", &m), None);
    assert_eq!(get_command_type("ls", &m), Some(CommandKind::External("/bin/ls".to_string())));
    assert_eq!(get_command_type("nope", &m), None);
}

#[test]
fn parse_command_reports_unknown_name() {
    let m = exes();
    match parse_command("frobnicate x", &m) {
        Err(PipelineError::CommandNotFound(n)) => assert_eq!(n, "frobnicate"),
        _ => panic!("expected an unknown command"),
    }
    match parse_command("", &m) {
        Err(PipelineError::CommandNotFound(n)) => assert_eq!(n, ""),
        _ => panic!("expected an unknown command"),
    }
    let c = parse_command("ls -a > x", &m).unwrap();
    assert_eq!(c.name, "ls");
    assert_eq!(c.args, strings(&["-a"]));
    assert_eq!(c.redirects.len(), 1);
    assert_eq!(c.command_type, CommandKind::External("/bin/ls".to_string()));
}

#[test]
fn parse_pipeline_builds_commands() {
    let m = exes();
    let p = parse_pipeline("  cat f | ls -l ", &m).unwrap();
    assert!(!p.is_background);
    assert_eq!(p.commands.len(), 2);
    assert_eq!(p.commands[0].name, "cat");
    assert_eq!(p.commands[0].args, strings(&["f"]));
    assert_eq!(p.commands[1].name, "ls");
    assert_eq!(p.commands[1].args, strings(&["-l"]));
}

#[test]
fn parse_pipeline_empty_line() {
    let m = exes();
    assert_eq!(parse_pipeline("   ", &m).err(), Some(PipelineError::Empty));
    assert_eq!(parse_pipeline(" | | ", &m).err(), Some(PipelineError::Empty));
}

#[test]
fn parse_pipeline_first_unknown_command() {
    let m = exes();
    assert_eq!(
        parse_pipeline("ls | foo | bar", &m).err(),
        Some(PipelineError::CommandNotFound("foo".to_string()))
    );
}

#[test]
fn trailing_ampersand_runs_in_background() {
    let m = exes();
    let p = parse_pipeline("cat a | ls &", &m).unwrap();
    assert!(p.is_background);
    assert_eq!(p.commands[1].args, Vec::<String>::new());
    assert_eq!(p.commands[0].args, strings(&["a"]));
}

#[test]
fn misplaced_ampersand_is_an_error() {
    let m = exes();
    assert_eq!(parse_pipeline("ls & | cat", &m).err(), Some(PipelineError::UnexpectedAmpersand));
    assert_eq!(parse_pipeline("ls & x", &m).err(), Some(PipelineError::UnexpectedAmpersand));
    let p = parse_pipeline("echo '&'", &m).unwrap();
    assert!(p.is_background);
}

#[test]
fn error_messages() {
    let m = exes();
    let e = parse_pipeline("frob -x", &m).err().unwrap();
    assert_eq!(e.message(), Some("frob: command not found".to_string()));
    let e = parse_pipeline("ls & x", &m).err().unwrap();
    assert_eq!(e.message(), Some("syntax error near unexpected token '&'".to_string()));
    assert_eq!(PipelineError::Empty.message(), None);
}

#[test]
fn parser_builtin_list() {
    assert_eq!(builtin_commands(), vec!["exit", "echo", "type", "pwd", "cd", "jobs", "history", "declare"]);
    let m = exes();
    assert_eq!(
        parse_pipeline("complete -C /s.sh git", &m).err(),
        Some(PipelineError::CommandNotFound("complete".to_string()))
    );
    let mut with_complete = exes();
    with_complete.insert("complete".to_string(), "/bin/complete".to_string());
    assert_eq!(
        get_command_type("complete", &with_complete),
        Some(CommandKind::External("/bin/complete".to_string()))
    );
}

#[test]
fn segment_count_follows_separators() {
    assert_eq!(split_pipeline("").len(), 1);
    assert_eq!(split_pipeline("a|'b|c'|\"d|e\"|f\\|g").len(), 4);
    assert_eq!(split_pipeline("a|'b|c'|\"d|e\"|f\\|g").join("|"), "a|'b|c'|\"d|e\"|f\\|g");
    assert_eq!(split_pipeline("||").len(), 3);
}
