use rshell::session::{on_read, ReadEvent, StepAction};

#[test]
fn read_outcomes_decide_the_next_step() {
    match on_read(ReadEvent::Line("ls -l".to_string())) {
        StepAction::Run(l) => assert_eq!(l, "ls -l"),
        _ => panic!("a line is run"),
    }
    assert!(matches!(on_read(ReadEvent::Interrupted), StepAction::Stop));
    assert!(matches!(on_read(ReadEvent::EndOfInput), StepAction::Stop));
    match on_read(ReadEvent::Failed("broken pipe".to_string())) {
        StepAction::StopWithMessage(m) => assert_eq!(m, "shell: broken pipe"),
        _ => panic!("a failed read stops with a message"),
    }
}
