use e4pty::backend::setup::{
    Setup, SetupCall, SetupStep, CHILD_STDERR, CHILD_STDIN, CHILD_STDOUT, PAIR_MASTER,
    PAIR_SLAVE, READER, SLOTS, WRITER,
};
use e4pty::backend::unix::{
    read_step, term_size, window_change, ReadOutcome, ReadStep, TermSize,
};
use e4pty::WindowSize;

const SIZE: TermSize = TermSize { ws_row: 40, ws_col: 120, ws_xpixel: 0, ws_ypixel: 0 };

fn session() -> Setup {
    Setup::new(WindowSize::new(40, 120))
}

fn blocking() -> Setup {
    Setup::blocking(WindowSize::new(40, 120))
}

/// The calls made until nothing comes next, where the call with the number
/// `failing` does not work.
fn run(setup: Setup, failing: Option<usize>) -> (Vec<SetupCall>, SetupStep) {
    let mut setup = setup;
    let mut calls = Vec::new();
    loop {
        match setup.next() {
            SetupStep::Call(call) => {
                setup.on_result(failing != Some(calls.len()));
                calls.push(call);
            }
            end => {
                setup.on_result(true);
                assert_eq!(setup.next(), end);
                return (calls, end);
            }
        }
    }
}

#[test]
fn window_of_the_driver() {
    assert_eq!(term_size(WindowSize::new(40, 120)), SIZE);
    assert_eq!(window_change(120, 40), SIZE);
}

#[test]
fn session_is_opened_step_by_step() {
    let (calls, end) = run(session(), None);
    assert_eq!(end, SetupStep::Open);
    assert_eq!(
        calls,
        [
            SetupCall::Resolve,
            SetupCall::OpenPty(SIZE),
            SetupCall::MarkUtf8(PAIR_MASTER),
            SetupCall::Duplicate(PAIR_SLAVE, CHILD_STDIN),
            SetupCall::Duplicate(PAIR_SLAVE, CHILD_STDERR),
            SetupCall::Duplicate(PAIR_SLAVE, CHILD_STDOUT),
            SetupCall::Duplicate(PAIR_MASTER, READER),
            SetupCall::Spawn,
            SetupCall::DuplicatePlain(READER, WRITER),
            SetupCall::MarkCloexec(WRITER),
            SetupCall::MakeNonblocking(WRITER),
            SetupCall::Register(WRITER),
            SetupCall::MakeNonblocking(READER),
            SetupCall::Register(READER),
        ]
    );
}

#[test]
fn blocking_session_is_opened_step_by_step() {
    let (calls, end) = run(blocking(), None);
    assert_eq!(end, SetupStep::Open);
    assert_eq!(
        calls,
        [
            SetupCall::OpenPty(SIZE),
            SetupCall::MarkUtf8(PAIR_MASTER),
            SetupCall::Resolve,
            SetupCall::Duplicate(PAIR_SLAVE, CHILD_STDIN),
            SetupCall::Duplicate(PAIR_SLAVE, CHILD_STDERR),
            SetupCall::Duplicate(PAIR_SLAVE, CHILD_STDOUT),
            SetupCall::Duplicate(PAIR_MASTER, READER),
            SetupCall::Spawn,
            SetupCall::DuplicatePlain(READER, WRITER),
            SetupCall::MarkCloexec(WRITER),
        ]
    );
}

#[test]
fn a_failed_call_ends_the_setup() {
    let kinds: [(fn() -> Setup, usize); 2] = [(session, 14), (blocking, 10)];
    for (make, total) in kinds {
        for failing in 0..total {
            let (calls, end) = run(make(), Some(failing));
            if matches!(calls[failing], SetupCall::MarkUtf8(_)) {
                assert_eq!(end, SetupStep::Open);
                assert_eq!(calls.len(), total);
            } else {
                assert_eq!(end, SetupStep::Failed);
                assert_eq!(calls.len(), failing + 1);
            }
        }
    }
}

/// What a slot holds: 'm' for a master or 's' for a slave, and whether it is
/// close-on-exec.
type Slot = Option<(char, bool)>;

/// Performs the calls on a table of slots, and tells what is left and whether
/// the master is in non-blocking mode.
fn kept(setup: Setup) -> (Vec<Slot>, bool) {
    let mut slots: Vec<Slot> = vec![None; SLOTS];
    let mut resolved = false;
    let mut nonblocking = false;
    for call in run(setup, None).0 {
        match call {
            SetupCall::Resolve => resolved = true,
            SetupCall::OpenPty(_) => {
                slots[PAIR_MASTER] = Some(('m', true));
                slots[PAIR_SLAVE] = Some(('s', true));
            }
            SetupCall::Duplicate(from, to) => {
                assert!(slots[to].is_none());
                slots[to] = Some((slots[from].unwrap().0, true));
            }
            SetupCall::DuplicatePlain(from, to) => {
                assert!(slots[to].is_none());
                slots[to] = Some((slots[from].unwrap().0, false));
            }
            SetupCall::Spawn => {
                assert!(resolved);
                assert!(slots.iter().flatten().all(|slot| slot.1));
                for slot in [PAIR_SLAVE, CHILD_STDIN, CHILD_STDERR, CHILD_STDOUT] {
                    assert_eq!(slots[slot].unwrap().0, 's');
                    slots[slot] = None;
                }
                assert_eq!(slots[PAIR_MASTER].unwrap().0, 'm');
                slots[PAIR_MASTER] = None;
            }
            SetupCall::MarkCloexec(slot) => slots[slot] = Some((slots[slot].unwrap().0, true)),
            SetupCall::MakeNonblocking(slot) => {
                assert_eq!(slots[slot].unwrap().0, 'm');
                nonblocking = true;
            }
            SetupCall::MarkUtf8(slot) | SetupCall::Register(slot) => {
                assert_eq!(slots[slot].unwrap().0, 'm');
            }
        }
    }
    (slots, nonblocking)
}

#[test]
fn parent_keeps_two_masters() {
    for (slots, _) in [kept(session()), kept(blocking())] {
        for slot in 0..SLOTS {
            let wanted = slot == READER || slot == WRITER;
            assert_eq!(slots[slot].map(|s| s.0), if wanted { Some('m') } else { None });
        }
    }
}

#[test]
fn no_child_inherits_a_master() {
    for (slots, _) in [kept(session()), kept(blocking())] {
        assert_eq!(slots[READER], Some(('m', true)));
        assert_eq!(slots[WRITER], Some(('m', true)));
    }
}

#[test]
fn reactor_gets_a_nonblocking_master() {
    assert!(kept(session()).1);
    assert!(!kept(blocking()).1);
}

#[test]
fn vanished_slave_is_the_end() {
    let eio = ReadOutcome::Failed { raw: Some(5), interrupted: false };
    assert_eq!(read_step(eio), ReadStep::Eof);
    assert_eq!(read_step(ReadOutcome::Read(0)), ReadStep::Eof);
    let system = rustix::io::Errno::IO.raw_os_error();
    let outcome = ReadOutcome::Failed { raw: Some(system), interrupted: false };
    assert_eq!(read_step(outcome), ReadStep::Eof);
}

#[test]
fn other_reads() {
    assert_eq!(read_step(ReadOutcome::Read(17)), ReadStep::Deliver(17));
    assert_eq!(read_step(ReadOutcome::WouldBlock), ReadStep::Retry);
    let interrupted = ReadOutcome::Failed { raw: Some(4), interrupted: true };
    assert_eq!(read_step(interrupted), ReadStep::Retry);
    for raw in [None, Some(0), Some(4), Some(9)] {
        let failed = ReadOutcome::Failed { raw, interrupted: false };
        assert_eq!(read_step(failed), ReadStep::Fail);
    }
}
