use rshell::bg_jobs::BackgroundJobRegistry;
use rshell::builtins::commands::declare::is_valid_identifier;
use rshell::builtins::registry::{contains, get, names, BuiltinKind};
use rshell::builtins::{builtin_commands, is_builtin_command, run_builtin, BuiltinEffect, BuiltinOutcome};
use rshell::command::Fd;
use rshell::completions::CompletionRegistry;
use rshell::history::History;
use rshell::shell_state::executables::ExecutableMap;
use rshell::shell_state::variables::Variables;

struct State {
    exes: ExecutableMap,
    jobs: BackgroundJobRegistry,
    history: History,
    vars: Variables,
    comps: CompletionRegistry,
}

fn state() -> State {
    let mut exes = ExecutableMap::default();
    exes.insert("ls".to_string(), "/bin/ls".to_string());
    State { exes, jobs: BackgroundJobRegistry::new(), history: History::new(), vars: Variables::new(), comps: CompletionRegistry::new() }
}

fn run(st: &mut State, name: &str, args: &[&str]) -> BuiltinOutcome {
    let args: Vec<String> = args.iter().map(|a| a.to_string()).collect();
    run_builtin(name, &args, &st.exes, &st.jobs, &st.history, &mut st.vars, &mut st.comps)
}

fn out(r: &BuiltinOutcome) -> Vec<String> {
    r.lines.iter().filter(|l| l.fd == Fd::Stdout).map(|l| l.text.clone()).collect()
}

fn err(r: &BuiltinOutcome) -> Vec<String> {
    r.lines.iter().filter(|l| l.fd == Fd::Stderr).map(|l| l.text.clone()).collect()
}

fn s(v: &[&str]) -> Vec<String> {
    v.iter().map(|x| x.to_string()).collect()
}

#[test]
fn table_of_builtins() {
    assert_eq!(names(), vec!["exit", "echo", "type", "pwd", "cd", "jobs", "history", "declare", "complete"]);
    assert_eq!(builtin_commands(), names());
    for n in names() {
        assert!(contains(n));
        assert!(is_builtin_command(n));
    }
    assert_eq!(get("cd"), Some(BuiltinKind::Cd));
    assert_eq!(get("ls"), None);
    assert!(!is_builtin_command("Echo"));
}

#[test]
fn exit_asks_to_leave() {
    let mut st = state();
    let r = run(&mut st, "exit", &["3"]);
    assert!(r.exit && r.lines.is_empty() && r.effect.is_none());
}

#[test]
fn echo_joins_words() {
    let mut st = state();
    let r = run(&mut st, "echo", &["a", "b  c"]);
    assert_eq!(out(&r), s(&["a b  c"]));
    assert!(!r.exit);
    assert_eq!(out(&run(&mut st, "echo", &[])), s(&[""]));
}

#[test]
fn type_reports_each_name() {
    let mut st = state();
    let r = run(&mut st, "type", &["echo", "ls", "nope", "complete"]);
    assert_eq!(out(&r), s(&["echo is a shell builtin", "ls is /bin/ls", "complete is a shell builtin"]));
    assert_eq!(err(&r), s(&["nope: not found"]));
    assert_eq!(r.lines[2].fd, Fd::Stderr);
    assert_eq!(r.lines[2].text, "nope: not found");
}

#[test]
fn pwd_and_cd_ask_for_effects() {
    let mut st = state();
    assert!(matches!(run(&mut st, "pwd", &[]).effect, Some(BuiltinEffect::PrintWorkingDirectory)));
    assert!(matches!(run(&mut st, "cd", &[]).effect, Some(BuiltinEffect::ChangeDirectory(None))));
    assert!(matches!(run(&mut st, "cd", &["~"]).effect, Some(BuiltinEffect::ChangeDirectory(None))));
    match run(&mut st, "cd", &["/tmp", "x"]).effect {
        Some(BuiltinEffect::ChangeDirectory(Some(p))) => assert_eq!(p, "/tmp"),
        _ => panic!("expected a directory change"),
    }
}

#[test]
fn jobs_lists_the_registry() {
    let mut st = state();
    st.jobs.register_job("a".to_string(), "sleep 9".to_string());
    let r = run(&mut st, "jobs", &[]);
    assert_eq!(out(&r), s(&["[1]+  Running                 sleep 9 &"]));
}

#[test]
fn history_requests() {
    let mut st = state();
    st.history.push("ls".to_string());
    st.history.push("pwd".to_string());
    assert_eq!(out(&run(&mut st, "history", &[])), s(&["    1  ls", "    2  pwd"]));
    assert_eq!(out(&run(&mut st, "history", &["1"])), s(&["    2  pwd"]));
    assert_eq!(out(&run(&mut st, "history", &["x"])).len(), 2);
    match run(&mut st, "history", &["-r", "f"]).effect {
        Some(BuiltinEffect::ReadHistory(p)) => assert_eq!(p, "f"),
        _ => panic!("expected a read"),
    }
    match run(&mut st, "history", &["-w", "f"]).effect {
        Some(BuiltinEffect::WriteHistory(p)) => assert_eq!(p, "f"),
        _ => panic!("expected a write"),
    }
    match run(&mut st, "history", &["-a", "f"]).effect {
        Some(BuiltinEffect::AppendHistory(p)) => assert_eq!(p, "f"),
        _ => panic!("expected an append"),
    }
    assert_eq!(err(&run(&mut st, "history", &["-a"])), s(&["history: -a: missing filename"]));
}

#[test]
fn declare_sets_and_prints() {
    let mut st = state();
    assert!(err(&run(&mut st, "declare", &["x_1=a=b"])).is_empty());
    assert_eq!(st.vars.get("x_1").map(|v| v.as_str()), Some("a=b"));
    let r = run(&mut st, "declare", &["-p", "x_1", "y"]);
    assert_eq!(out(&r), s(&["declare -- x_1=\"a=b\""]));
    assert_eq!(err(&r), s(&["bash: declare: y: not found"]));
}

#[test]
fn declare_errors() {
    let mut st = state();
    assert_eq!(err(&run(&mut st, "declare", &["1x=2"])), s(&["declare: `1x=2': not a valid identifier"]));
    assert_eq!(err(&run(&mut st, "declare", &["-q"])), s(&["declare: -q: invalid option"]));
    assert_eq!(err(&run(&mut st, "declare", &["plain"])), s(&["declare: plain: invalid option"]));
    let r = run(&mut st, "declare", &[]);
    assert!(r.lines.is_empty());
}

#[test]
fn identifiers() {
    assert!(is_valid_identifier("_a9"));
    assert!(is_valid_identifier("Z"));
    assert!(!is_valid_identifier(""));
    assert!(!is_valid_identifier("9a"));
    assert!(!is_valid_identifier("a-b"));
    assert!(!is_valid_identifier("é"));
}

#[test]
fn complete_register_print_remove() {
    let mut st = state();
    assert!(err(&run(&mut st, "complete", &["-C", "/s.sh", "git"])).is_empty());
    assert_eq!(st.comps.get("git").map(|v| v.as_str()), Some("/s.sh"));
    assert_eq!(out(&run(&mut st, "complete", &["-p", "git"])), s(&["complete -C '/s.sh' git"]));
    run(&mut st, "complete", &["-r", "git"]);
    assert_eq!(err(&run(&mut st, "complete", &["-p", "git"])), s(&["complete: git: no completion specification"]));
    assert_eq!(err(&run(&mut st, "complete", &["-C", "x"])), s(&["complete: usage: complete -C script command"]));
    assert_eq!(err(&run(&mut st, "complete", &[])), s(&["complete: usage: complete -C script command"]));
}

#[test]
fn unknown_builtin_message() {
    let mut st = state();
    assert_eq!(err(&run(&mut st, "ls", &[])), s(&["panic: unknown builtin 'ls'"]));
}

#[test]
fn variables_read_what_was_written() {
    let mut v = Variables::new();
    assert!(v.get("a").is_none());
    v.set("a".to_string(), "1".to_string());
    v.set("b".to_string(), "2".to_string());
    v.set("a".to_string(), "3".to_string());
    assert_eq!(v.get("a").map(|x| x.as_str()), Some("3"));
    assert_eq!(v.get("b").map(|x| x.as_str()), Some("2"));
}

#[test]
fn completion_registry_reads_what_was_written() {
    let mut c = CompletionRegistry::new();
    assert!(c.get("git").is_none());
    c.register("git".to_string(), "/a.sh".to_string());
    c.register("ls".to_string(), "/b.sh".to_string());
    c.register("git".to_string(), "/c.sh".to_string());
    assert_eq!(c.get("git").map(|x| x.as_str()), Some("/c.sh"));
    c.remove("git");
    assert!(c.get("git").is_none());
    assert_eq!(c.get("ls").map(|x| x.as_str()), Some("/b.sh"));
    c.remove("nothing");
    assert_eq!(c.get("ls").map(|x| x.as_str()), Some("/b.sh"));
}

#[test]
fn declared_value_survives_other_runs() {
    let mut st = state();
    run(&mut st, "declare", &["a=1"]);
    run(&mut st, "declare", &["b=2"]);
    run(&mut st, "echo", &["hi"]);
    run(&mut st, "declare", &["-p", "b"]);
    run(&mut st, "declare", &["9x=3"]);
    let r = run(&mut st, "declare", &["-p", "a"]);
    assert_eq!(out(&r), s(&["declare -- a=\"1\""]));
    assert!(err(&r).is_empty());
    assert!(!r.exit);
}

#[test]
fn registered_script_survives_other_runs() {
    let mut st = state();
    run(&mut st, "complete", &["-C", "/g.sh", "git"]);
    run(&mut st, "complete", &["-C", "/l.sh", "ls"]);
    run(&mut st, "complete", &["-r", "ls"]);
    run(&mut st, "declare", &["x=1"]);
    let r = run(&mut st, "complete", &["-p", "git"]);
    assert_eq!(out(&r), s(&["complete -C '/g.sh' git"]));
    assert!(err(&r).is_empty());
}
