use zerosh::message::{Notice, ShellMsg};
use zerosh::shell::{Input, Session, Shell, Turn};

#[test]
fn shell_keeps_the_name_of_its_history() {
    assert_eq!(Shell::new("/tmp/history").logfile(), "/tmp/history");
    assert_eq!(Shell::new("").logfile(), "");
}

#[test]
fn prompt_shows_whether_the_last_command_failed() {
    let mut session = Session::new();
    assert_eq!(session.prompt(), "ZeroSh $ ");
    assert_eq!(session.reply(ShellMsg::Continue(127)), None);
    assert_eq!(session.prompt(), "ZeroSh ! ");
    assert_eq!(session.reply(ShellMsg::Continue(-1)), None);
    assert_eq!(session.prompt(), "ZeroSh ! ");
    assert_eq!(session.reply(ShellMsg::Continue(0)), None);
    assert_eq!(session.prompt(), "ZeroSh $ ");
}

#[test]
fn line_goes_to_the_worker_as_it_is_and_trimmed_to_the_history() {
    let mut session = Session::new();
    match session.read(Input::Line("  ls -l \t".to_string())) {
        Turn::Submit { history, line } => {
            assert_eq!(history.as_deref(), Some("ls -l"));
            assert_eq!(line, "  ls -l \t");
        }
        other => panic!("{:?}", other),
    }
    assert!(!session.last);
}

#[test]
fn blank_line_is_passed_over() {
    let mut session = Session::new();
    for line in ["", " ", "\t \u{3000}\n"] {
        assert!(matches!(session.read(Input::Line(line.to_string())), Turn::Again));
    }
    assert_eq!(session, Session::new());
}

#[test]
fn interruption_is_told_and_the_shell_reads_on() {
    let mut session = Session::new();
    assert!(matches!(session.read(Input::Interrupted), Turn::Tell(Notice::Interrupted)));
    assert_eq!(session, Session::new());
}

#[test]
fn end_of_the_input_is_the_command_exit() {
    let mut session = Session::new();
    match session.read(Input::Eof) {
        Turn::Submit { history, line } => {
            assert_eq!(history, None);
            assert_eq!(line, "exit");
        }
        other => panic!("{:?}", other),
    }
    assert!(session.last);
    assert_eq!(session.reply(ShellMsg::Quit(4)), Some(4));
}

#[test]
fn failure_to_read_leaves_with_one() {
    let mut session = Session::new();
    match session.read(Input::Failed("bad terminal".to_string())) {
        Turn::Leave(notice, code) => {
            assert_eq!(notice.text(), "ZeroSh: Error: bad terminal");
            assert_eq!(code, 1);
        }
        other => panic!("{:?}", other),
    }
}

#[test]
fn answer_to_quit_is_the_exit_code() {
    let mut session = Session::new();
    assert_eq!(session.reply(ShellMsg::Quit(3)), Some(3));
    assert_eq!(session.prev, 0);
}
