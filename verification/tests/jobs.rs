use rshell::bg_jobs::{done_line, BackgroundJobRegistry};
use rshell::command::{pipeline_text, Command, CommandKind};

#[test]
fn jobs_are_numbered_from_one() {
    let mut r = BackgroundJobRegistry::new();
    assert_eq!(r.next_job_id(), 1);
    assert_eq!(r.register_job("sleep 5".to_string(), "sleep 5".to_string()), 1);
    assert_eq!(r.register_job("b".to_string(), "cat".to_string()), 2);
    assert_eq!(r.next_job_id(), 3);
    assert_eq!(r.jobs.len(), 2);
    assert_eq!(r.jobs[&2].cmd, "cat");
}

#[test]
fn listing_marks_current_and_previous() {
    let mut r = BackgroundJobRegistry::new();
    r.register_job("a".to_string(), "sleep 1".to_string());
    r.register_job("b".to_string(), "sleep 2".to_string());
    r.register_job("c".to_string(), "sleep 3".to_string());
    let lines = r.list_jobs();
    assert_eq!(
        lines,
        vec![
            "[1]   Running                 sleep 1 &".to_string(),
            "[2]-  Running                 sleep 2 &".to_string(),
            "[3]+  Running                 sleep 3 &".to_string(),
        ]
    );
}

#[test]
fn finishing_the_current_job_moves_markers() {
    let mut r = BackgroundJobRegistry::new();
    r.register_job("a".to_string(), "x".to_string());
    r.register_job("b".to_string(), "y".to_string());
    r.register_job("c".to_string(), "z".to_string());
    r.mark_done(3);
    let lines = r.list_jobs();
    assert_eq!(lines[0], "[1]-  Running                 x &");
    assert_eq!(lines[1], "[2]+  Running                 y &");
    assert_eq!(r.drain_completed(), vec![(3, "c".to_string())]);
    assert!(r.drain_completed().is_empty());
}

#[test]
fn finishing_the_previous_job_clears_its_marker() {
    let mut r = BackgroundJobRegistry::new();
    r.register_job("a".to_string(), "x".to_string());
    r.register_job("b".to_string(), "y".to_string());
    r.register_job("c".to_string(), "z".to_string());
    r.mark_done(2);
    assert_eq!(r.list_jobs(), vec!["[1]   Running                 x &".to_string(), "[3]+  Running                 z &".to_string()]);
}

#[test]
fn unknown_job_is_ignored() {
    let mut r = BackgroundJobRegistry::new();
    r.register_job("a".to_string(), "x".to_string());
    r.mark_done(7);
    assert_eq!(r.jobs.len(), 1);
    assert!(r.drain_completed().is_empty());
}

#[test]
fn done_after_register_law_example() {
    let mut r = BackgroundJobRegistry::new();
    let id = r.register_job("ls &".to_string(), "ls".to_string());
    r.mark_done(id);
    assert!(r.jobs.is_empty());
    assert_eq!(r.drain_completed(), vec![(1, "ls &".to_string())]);
    assert_eq!(r.register_job("n".to_string(), "n".to_string()), 2);
}

#[test]
fn done_line_format() {
    assert_eq!(done_line(12, '+', "sleep 3"), "[12]+  Done                    sleep 3");
}

#[test]
fn pipeline_text_shows_names_and_args() {
    let cs = vec![
        Command { name: "cat".to_string(), args: vec!["a".to_string(), "b".to_string()], redirects: vec![], command_type: CommandKind::Builtin },
        Command { name: "wc".to_string(), args: vec![], redirects: vec![], command_type: CommandKind::Builtin },
    ];
    assert_eq!(pipeline_text(&cs), "cat a b | wc");
}

#[test]
fn numbers_are_never_given_twice() {
    let mut r = BackgroundJobRegistry::new();
    let a = r.register_job("a".to_string(), "x".to_string());
    let b = r.register_job("b".to_string(), "y".to_string());
    r.mark_done(b);
    let _ = r.drain_completed();
    r.mark_done(a);
    let c = r.register_job("c".to_string(), "z".to_string());
    assert_eq!((a, b, c), (1, 2, 3));
    assert_eq!(r.jobs[&c].cmd, "z");
    assert_eq!(r.list_jobs(), vec!["[3]+  Running                 z &".to_string()]);
    let d = r.register_job("d".to_string(), "w".to_string());
    assert_eq!(d, 4);
    assert_eq!(r.list_jobs()[0], "[3]-  Running                 z &");
}
