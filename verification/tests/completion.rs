use rshell::autocomplete::{analyze_argument, command_candidates, file_candidate, script_candidates};
use rshell::shell_state::executables::{merge_executables, ExecutableMap};

#[test]
fn command_names_sorted_and_distinct() {
    let mut m = ExecutableMap::default();
    m.insert("echo".to_string(), "/bin/echo".to_string());
    m.insert("env".to_string(), "/usr/bin/env".to_string());
    m.insert("cat".to_string(), "/bin/cat".to_string());
    let cs = command_candidates("e", &m);
    let shown: Vec<&str> = cs.iter().map(|c| c.display.as_str()).collect();
    assert_eq!(shown, vec!["echo", "env", "exit"]);
    assert!(cs.iter().all(|c| c.replacement == format!("{} ", c.display)));
    let all = command_candidates("", &m);
    let mut sorted: Vec<String> = all.iter().map(|c| c.display.clone()).collect();
    let before = sorted.clone();
    sorted.sort();
    sorted.dedup();
    assert_eq!(before, sorted);
    assert_eq!(all.len(), 11);
    assert!(command_candidates("zz", &m).is_empty());
}

#[test]
fn argument_context() {
    assert!(analyze_argument("ech").is_none());
    let c = analyze_argument("git  commit --am").unwrap();
    assert_eq!(c.command, "git");
    assert_eq!(c.word_start, 12);
    assert_eq!(c.current_word, "--am");
    assert_eq!(c.prev_word, "commit");
    let c = analyze_argument("ls ").unwrap();
    assert_eq!(c.current_word, "");
    assert_eq!(c.prev_word, "ls");
    let c = analyze_argument(" ").unwrap();
    assert_eq!(c.command, "");
    assert_eq!(c.prev_word, "");
}

#[test]
fn script_output_candidates() {
    assert!(script_candidates("").is_none());
    let cs = script_candidates("one\ntwo\r\n").unwrap();
    assert_eq!(cs.len(), 2);
    assert_eq!(cs[1].display, "two");
    assert_eq!(cs[1].replacement, "two ");
}

#[test]
fn file_candidates() {
    let d = file_candidate("src".to_string(), "src/".to_string());
    assert_eq!((d.display.as_str(), d.replacement.as_str()), ("src/", "src/"));
    let f = file_candidate("a.rs".to_string(), "a.rs".to_string());
    assert_eq!((f.display.as_str(), f.replacement.as_str()), ("a.rs", "a.rs "));
}

#[test]
fn first_directory_wins() {
    let lists = vec![
        vec![("ls".to_string(), "/bin/ls".to_string())],
        vec![("ls".to_string(), "/usr/bin/ls".to_string()), ("cat".to_string(), "/usr/bin/cat".to_string())],
    ];
    let m = merge_executables(lists);
    assert_eq!(m.len(), 2);
    assert_eq!(m.get("ls").map(|s| s.as_str()), Some("/bin/ls"));
    assert_eq!(m.get("cat").map(|s| s.as_str()), Some("/usr/bin/cat"));
}
