use e4pty::error::{Error, ErrorKind};
use e4pty::pty::{exit_code, kill_unsupported, Finish, FinishEvent, Progress};
use e4pty::{Pty, WindowSize};

fn finish(events: Vec<FinishEvent<&'static str>>) -> Option<Result<(Vec<u8>, i32), &'static str>> {
    let mut state: Finish<&'static str> = Finish::new();
    for event in events {
        match state.on_event(event) {
            Progress::Done(result) => return Some(result),
            Progress::Pending(next) => state = next,
        }
    }
    None
}

fn output(bytes: &[u8]) -> FinishEvent<&'static str> {
    FinishEvent::Output(bytes.to_vec())
}

#[test]
fn window_sizes() {
    assert_eq!(WindowSize::default(), WindowSize { rows: 24, cols: 80 });
    assert_eq!(WindowSize::new(30, 100), WindowSize { rows: 30, cols: 100 });
}

#[test]
fn handles_are_independent() {
    let pty = Pty::new("ctl", 2u8, 'r');
    assert_eq!(pty.split(), ("ctl", 2u8, 'r'));
    let pty = Pty::from((1u8, 2u16, 3u32));
    assert_eq!(pty.ctl, 1);
    assert_eq!(pty.writer, 2);
    assert_eq!(pty.reader, 3);
}

#[test]
fn exit_codes() {
    assert_eq!(exit_code(Some(0), None), 0);
    assert_eq!(exit_code(Some(42), None), 42);
    assert_eq!(exit_code(None, Some(15)), 143);
    assert_eq!(exit_code(None, Some(9)), 137);
    assert_eq!(exit_code(None, None), 1);
    assert_eq!(exit_code(Some(3), Some(9)), 3);
}

#[test]
fn kill_may_be_unsupported() {
    match kill_unsupported() {
        Error::IO(e) => {
            assert_eq!(e.kind, ErrorKind::Unsupported);
            assert_eq!(e.message, "this pty backend does not support kill");
        }
        other => panic!("{:?}", other),
    }
}

#[test]
fn finish_drains_to_the_end() {
    let done = finish(vec![
        output(b"ab"),
        FinishEvent::Exited(7),
        output(b""),
        output(b"c"),
        FinishEvent::Eof,
    ]);
    assert_eq!(done, Some(Ok((b"abc".to_vec(), 7))));
}

#[test]
fn finish_in_either_order() {
    let eof_first = finish(vec![output(b"x"), FinishEvent::Eof, FinishEvent::Exited(0)]);
    let exit_first = finish(vec![output(b"x"), FinishEvent::Exited(0), FinishEvent::Eof]);
    assert_eq!(eof_first, Some(Ok((b"x".to_vec(), 0))));
    assert_eq!(eof_first, exit_first);
}

#[test]
fn finish_never_skips_the_drain() {
    assert_eq!(finish(vec![FinishEvent::Exited(0), output(b"late")]), None);
    assert_eq!(finish(vec![output(b"late"), FinishEvent::Eof]), None);
    assert_eq!(finish(vec![FinishEvent::WaitFailed("wait"), output(b"x")]), None);
}

#[test]
fn finish_reports_errors() {
    assert_eq!(finish(vec![FinishEvent::ReadFailed("read")]), Some(Err("read")));
    assert_eq!(
        finish(vec![FinishEvent::Exited(0), FinishEvent::ReadFailed("read")]),
        Some(Err("read"))
    );
    assert_eq!(
        finish(vec![FinishEvent::Eof, FinishEvent::WaitFailed("wait")]),
        Some(Err("wait"))
    );
    assert_eq!(
        finish(vec![FinishEvent::WaitFailed("wait"), FinishEvent::Eof]),
        Some(Err("wait"))
    );
}
