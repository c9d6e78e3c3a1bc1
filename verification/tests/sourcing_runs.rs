use rust_shell::sourcing::{source_open_message, SourceEvent, SourceRun, SourceStep};
use rust_shell::status::CommandStatus;

fn ran(step: SourceStep) -> String {
    match step {
        SourceStep::Run(l) => l,
        _ => panic!("expected a line to run"),
    }
}

#[test]
fn no_files_finish_at_once() {
    let (_, step) = SourceRun::start(0);
    assert!(matches!(step, SourceStep::Finished(CommandStatus::NORMAL)));
}

#[test]
fn lines_run_in_order_and_empty_ones_are_skipped() {
    let (mut run, step) = SourceRun::start(1);
    assert!(matches!(step, SourceStep::OpenNextFile));
    assert!(matches!(run.next(SourceEvent::Opened), SourceStep::ReadLine));
    assert_eq!(ran(run.next(SourceEvent::Line("echo a".to_string()))), "echo a");
    assert!(matches!(run.next(SourceEvent::LineDone(CommandStatus::ERROR(2))), SourceStep::ReadLine));
    assert!(matches!(run.next(SourceEvent::Line(String::new())), SourceStep::ReadLine));
    assert_eq!(ran(run.next(SourceEvent::Line("ls".to_string()))), "ls");
    assert!(matches!(run.next(SourceEvent::LineDone(CommandStatus::NORMAL)), SourceStep::ReadLine));
    assert!(matches!(run.next(SourceEvent::FileDone), SourceStep::Finished(CommandStatus::NORMAL)));
}

#[test]
fn unopened_file_fails_but_the_others_still_run() {
    let (mut run, _) = SourceRun::start(2);
    assert!(matches!(run.next(SourceEvent::OpenFailed), SourceStep::OpenNextFile));
    assert!(matches!(run.next(SourceEvent::Opened), SourceStep::ReadLine));
    assert_eq!(ran(run.next(SourceEvent::Line("x".to_string()))), "x");
    assert!(matches!(run.next(SourceEvent::LineDone(CommandStatus::NORMAL)), SourceStep::ReadLine));
    assert!(matches!(run.next(SourceEvent::FileDone), SourceStep::Finished(CommandStatus::ERROR(1))));
    let (mut run, _) = SourceRun::start(1);
    assert!(matches!(run.next(SourceEvent::OpenFailed), SourceStep::Finished(CommandStatus::ERROR(1))));
}

#[test]
fn exit_line_stops_everything() {
    let (mut run, _) = SourceRun::start(2);
    assert!(matches!(run.next(SourceEvent::Opened), SourceStep::ReadLine));
    assert_eq!(ran(run.next(SourceEvent::Line("exit 4".to_string()))), "exit 4");
    assert!(matches!(run.next(SourceEvent::LineDone(CommandStatus::EXIT(4))), SourceStep::Finished(CommandStatus::EXIT(4))));
    assert!(!run.accepts(&SourceEvent::FileDone));
    assert!(!run.accepts(&SourceEvent::Opened));
}

#[test]
fn accepts_follows_the_stage() {
    let (mut run, _) = SourceRun::start(1);
    assert!(run.accepts(&SourceEvent::Opened));
    assert!(run.accepts(&SourceEvent::OpenFailed));
    assert!(!run.accepts(&SourceEvent::FileDone));
    run.next(SourceEvent::Opened);
    assert!(run.accepts(&SourceEvent::Line("a".to_string())));
    assert!(!run.accepts(&SourceEvent::LineDone(CommandStatus::NORMAL)));
}

#[test]
fn open_failure_message_names_the_file() {
    assert_eq!(source_open_message("/x/rc"), "cannot open file: /x/rc");
}
