use e4pty::backend::windows::argv::{
    command_line, found_program, nul_terminated, quote_arg, quote_program,
};
use e4pty::backend::windows::ctl::{
    coord, kill_step, reported_exit, wait_action, wait_done, ConptyCore, Coord, ExitState,
    KillEvent, KillStep, WaitAction, WaitStage,
};
use e4pty::backend::windows::env_block::build_env_block;
use e4pty::backend::windows::io::{
    broken_pipe, data_msg, read_chunk, window_change, write_result, ReadPoll, Received, WinReader,
    Writer, WriterAction, WriterEvent, WriterMsg,
};
use e4pty::backend::windows::setup::{Handle, WinCall, WinSetup, WinStep};
use e4pty::error::ErrorKind;
use e4pty::WindowSize;

fn wide(text: &str) -> Vec<u16> {
    text.encode_utf16().collect()
}

fn narrow(units: &[u16]) -> String {
    String::from_utf16(units).unwrap()
}

fn quoted(arg: &str) -> String {
    narrow(&quote_arg(&wide(arg)))
}

fn var(name: &str, value: &str) -> (Vec<u16>, Vec<u16>) {
    (wide(name), wide(value))
}

#[test]
fn plain_arguments_stay_as_they_are() {
    assert_eq!(quoted("plain"), "plain");
    assert_eq!(quoted("C:\\dir\\"), "C:\\dir\\");
    assert_eq!(quoted("\\\\server\\share"), "\\\\server\\share");
}

#[test]
fn arguments_with_blanks_are_wrapped() {
    assert_eq!(quoted(""), "\"\"");
    assert_eq!(quoted("a b"), "\"a b\"");
    assert_eq!(quoted("a\tb"), "\"a\tb\"");
    assert_eq!(quoted("C:\\my dir\\"), "\"C:\\my dir\\\\\"");
    assert_eq!(quoted("a\\b c"), "\"a\\b c\"");
}

#[test]
fn quotes_are_escaped() {
    assert_eq!(quoted("say \"hi\""), "\"say \\\"hi\\\"\"");
    assert_eq!(quoted("a\"b"), "\"a\\\"b\"");
    assert_eq!(quoted("a\\\"b"), "\"a\\\\\\\"b\"");
    assert_eq!(quoted("a\\\\\"b"), "\"a\\\\\\\\\\\"b\"");
}

#[test]
fn command_line_of_program_and_arguments() {
    let line = command_line(&wide("C:\\sh.exe"), &[wide("-c"), wide("echo a"), wide("")]);
    assert_eq!(narrow(&line), "C:\\sh.exe -c \"echo a\" \"\"\0");
    let line = command_line(&wide("C:\\Program Files\\x.exe"), &[]);
    assert_eq!(narrow(&line), "\"C:\\Program Files\\x.exe\"\0");
    assert_eq!(narrow(&quote_program(&wide("a b\\"))), "\"a b\\\"");
}

/// Splits a command line by the standard argv rules.
fn split(line: &[u16]) -> Vec<String> {
    let text: Vec<char> = narrow(line).chars().take_while(|c| *c != '\0').collect();
    let mut args = Vec::new();
    let mut i = 0;
    let mut program = String::new();
    let stop = if text[0] == '"' { '"' } else { ' ' };
    if stop == '"' {
        i = 1;
    }
    while i < text.len() && text[i] != stop {
        program.push(text[i]);
        i += 1;
    }
    i += 1;
    args.push(program);
    while i < text.len() {
        if text[i] == ' ' || text[i] == '\t' {
            i += 1;
            continue;
        }
        let mut arg = String::new();
        let mut inside = false;
        while i < text.len() && (inside || (text[i] != ' ' && text[i] != '\t')) {
            let mut slashes = 0;
            while i < text.len() && text[i] == '\\' {
                slashes += 1;
                i += 1;
            }
            if i < text.len() && text[i] == '"' {
                arg.push_str(&"\\".repeat(slashes / 2));
                if slashes % 2 == 1 {
                    arg.push('"');
                } else {
                    inside = !inside;
                }
                i += 1;
            } else {
                arg.push_str(&"\\".repeat(slashes));
                if i < text.len() && (inside || (text[i] != ' ' && text[i] != '\t')) {
                    arg.push(text[i]);
                    i += 1;
                }
            }
        }
        args.push(arg);
    }
    args
}

#[test]
fn command_lines_split_back() {
    let args = [
        "", "a", "a b", "\\", "\\\\", "a\\", "a b\\", "a b\\\\", "\"", "\\\"", "\\\\\" x", "\t",
        "say \"hi there\"", "tail\\\"",
    ];
    let list: Vec<Vec<u16>> = args.iter().map(|a| wide(a)).collect();
    for program in ["C:\\bin\\sh.exe", "C:\\Program Files\\sh.exe"] {
        let found = split(&command_line(&wide(program), &list));
        assert_eq!(found[0], program);
        assert_eq!(found[1..], args);
    }
}

#[test]
fn searched_programs() {
    let mut buf = wide("C:\\x.exe");
    buf.resize(260, 0);
    assert_eq!(found_program(8, buf.clone()), Some(wide("C:\\x.exe")));
    assert_eq!(found_program(0, buf.clone()), None);
    assert_eq!(found_program(260, buf.clone()), Some(buf.clone()));
    assert_eq!(found_program(261, buf.clone()), None);
    assert_eq!(found_program(500, vec![0; 260]), None);
    assert_eq!(nul_terminated(&wide("ab")), [97, 98, 0]);
}

#[test]
fn environment_block() {
    let block = build_env_block(vec![var("A", "1"), var("B", "")]);
    assert_eq!(narrow(&block), "A=1\0B=\0\0");
}

#[test]
fn environment_block_without_variables() {
    assert_eq!(build_env_block(Vec::new()), [0, 0]);
}

#[test]
fn environment_names_merge_by_case() {
    let block = build_env_block(vec![
        var("Path", "old"),
        var("X", "1"),
        var("PATH", "new"),
        var("pathext", "e"),
    ]);
    assert_eq!(narrow(&block), "Path=new\0X=1\0pathext=e\0\0");
    let block = build_env_block(vec![var("ä", "1"), var("Ä", "2"), var("[", "3"), var("{", "4")]);
    assert_eq!(narrow(&block), "ä=1\0Ä=2\0[=3\0{=4\0\0");
}

#[test]
fn console_dimensions() {
    assert_eq!(coord(WindowSize::new(40, 120)), Coord { x: 120, y: 40 });
    assert_eq!(coord(WindowSize::new(0x7fff, 0x8000)), Coord { x: -0x8000, y: 0x7fff });
    assert_eq!(coord(WindowSize::new(0xffff, 0)), Coord { x: 0, y: -1 });
}

#[test]
fn resize_after_close_is_a_noop() {
    let mut core = ConptyCore::new(7isize);
    let size = WindowSize::new(40, 120);
    assert_eq!(core.resize(size), Some((7, Coord { x: 120, y: 40 })));
    assert_eq!(core.close(), Some(7));
    assert_eq!(core.resize(size), None);
    assert_eq!(core.close(), None);
}

#[test]
fn exit_states() {
    let mut state = ExitState::new();
    assert!(!state.has_code());
    assert_eq!(state.get(), None);
    state.set(-1);
    assert!(state.has_code());
    assert_eq!(state.get(), Some(-1));
    assert_eq!(state.get(), Some(-1));
}

#[test]
fn reported_exits() {
    assert_eq!(reported_exit(Some(0)), 0);
    assert_eq!(reported_exit(Some(0x7fff_ffff)), i32::MAX);
    assert_eq!(reported_exit(Some(0xc000_013a)), -0x3fff_fec6);
    assert_eq!(reported_exit(Some(0xffff_ffff)), -1);
    assert_eq!(reported_exit(None), 1);
}

/// What the waiter thread does for a child of which the system reports this.
fn waited(report: Option<u32>) -> Vec<WaitAction> {
    let mut stage = WaitStage::Running;
    let mut actions = Vec::new();
    loop {
        let action = wait_action(stage);
        if action == WaitAction::Stop {
            assert_eq!(wait_done(stage, report), stage);
            return actions;
        }
        actions.push(action);
        let reads = action == WaitAction::ReadCode;
        stage = wait_done(stage, if reads { report } else { None });
    }
}

#[test]
fn console_closes_after_the_code() {
    for (report, code) in [(Some(3), 3), (Some(0xffff_ffff), -1), (None, 1)] {
        assert_eq!(
            waited(report),
            [
                WaitAction::AwaitEnd,
                WaitAction::ReadCode,
                WaitAction::Publish(code),
                WaitAction::Grace,
                WaitAction::CloseConsole,
            ]
        );
    }
}

#[test]
fn kills() {
    assert_eq!(kill_step(KillEvent::Asked, true), KillStep::Done);
    assert_eq!(kill_step(KillEvent::Asked, false), KillStep::Open);
    assert_eq!(kill_step(KillEvent::Opened(true), false), KillStep::Terminate);
    assert_eq!(kill_step(KillEvent::Opened(false), true), KillStep::Done);
    assert_eq!(kill_step(KillEvent::Opened(false), false), KillStep::Fail);
    assert_eq!(kill_step(KillEvent::Terminated(true), false), KillStep::Done);
    assert_eq!(kill_step(KillEvent::Terminated(false), true), KillStep::Done);
    assert_eq!(kill_step(KillEvent::Terminated(false), false), KillStep::Fail);
}

#[test]
fn writes_are_taken_whole_or_refused() {
    assert!(matches!(data_msg(b"ls\n"), WriterMsg::Data(d) if d == b"ls\n"));
    assert!(matches!(window_change(120, 40), WriterMsg::Resize { cols: 120, rows: 40 }));
    assert_eq!(write_result(3, true).unwrap(), 3);
    let error = write_result(3, false).unwrap_err();
    assert_eq!(error.kind, ErrorKind::BrokenPipe);
    assert_eq!(error.message, "pty session closed");
    assert_eq!(broken_pipe().kind, ErrorKind::BrokenPipe);
}

#[test]
fn input_is_written_in_order() {
    let mut writer = Writer::new();
    let mut console: Vec<u8> = Vec::new();
    let mut messages = vec![
        WriterMsg::Eof,
        WriterMsg::Data(b"defgh".to_vec()),
        WriterMsg::Resize { cols: 100, rows: 30 },
        WriterMsg::Data(Vec::new()),
        WriterMsg::Data(b"abc".to_vec()),
    ];
    let mut resized = Vec::new();
    let mut action = WriterAction::Receive;
    loop {
        let event = match action {
            WriterAction::Stop => break,
            WriterAction::Write => {
                let n = writer.unwritten().len().min(2);
                console.extend_from_slice(&writer.unwritten()[..n]);
                WriterEvent::Wrote(n as u32)
            }
            WriterAction::Resize(size) => {
                resized.push(size);
                WriterEvent::Received(messages.pop().unwrap())
            }
            WriterAction::Receive => match messages.pop() {
                Some(msg) => WriterEvent::Received(msg),
                None => WriterEvent::Closed,
            },
        };
        action = writer.on_event(event);
    }
    assert_eq!(console, b"abcdefgh");
    assert_eq!(resized, [WindowSize::new(30, 100)]);
    assert!(messages.is_empty());
    assert!(writer.unwritten().is_empty());
}

#[test]
fn writer_stops_with_its_console() {
    for event in [WriterEvent::Wrote(0), WriterEvent::WriteFailed] {
        let mut writer = Writer::new();
        let data = WriterEvent::Received(data_msg(b"xy"));
        assert_eq!(writer.on_event(data), WriterAction::Write);
        assert_eq!(writer.on_event(event), WriterAction::Stop);
        assert_eq!(writer.unwritten(), b"xy");
    }
    assert_eq!(Writer::new().on_event(WriterEvent::Closed), WriterAction::Stop);
}

#[test]
fn chunks_of_the_reader_thread() {
    assert_eq!(read_chunk(b"abcd", Some(2)), Some(b"ab".to_vec()));
    assert_eq!(read_chunk(b"abcd", Some(4)), Some(b"abcd".to_vec()));
    assert_eq!(read_chunk(b"abcd", Some(0)), None);
    assert_eq!(read_chunk(b"abcd", None), None);
}

fn bytes(poll: ReadPoll) -> Vec<u8> {
    match poll {
        ReadPoll::Ready(bytes) => bytes,
        other => panic!("not ready: {:?}", other),
    }
}

#[test]
fn no_output_is_lost() {
    let mut reader = WinReader::new();
    let mut chunks = vec![b"world".to_vec(), b"hello ".to_vec()];
    let mut out = Vec::new();
    for room in [1usize, 4, 0, 3, 2, 9, 1].repeat(4) {
        let poll = match reader.poll_read(room) {
            ReadPoll::Receive => {
                let received = match chunks.pop() {
                    Some(chunk) => Received::Chunk(chunk),
                    None => Received::Closed,
                };
                reader.on_receive(room, received)
            }
            poll => poll,
        };
        let got = bytes(poll);
        assert!(got.len() <= room);
        out.extend(got);
    }
    assert_eq!(out, b"hello world");
}

#[test]
fn reader_waits_and_ends() {
    let mut reader = WinReader::new();
    assert!(matches!(reader.poll_read(4), ReadPoll::Receive));
    assert!(matches!(reader.on_receive(4, Received::Pending), ReadPoll::Pending));
    assert_eq!(bytes(reader.on_receive(4, Received::Chunk(b"abcdef".to_vec()))), b"abcd");
    assert!(bytes(reader.poll_read(0)).is_empty());
    assert_eq!(bytes(reader.poll_read(4)), b"ef");
    assert!(matches!(reader.poll_read(4), ReadPoll::Receive));
    assert!(bytes(reader.on_receive(4, Received::Closed)).is_empty());
}

/// The calls made until nothing comes next, where the call with the number
/// `failing` does not work, with what is then open.
fn open_session(failing: Option<usize>) -> (Vec<WinCall>, WinStep, Vec<Handle>) {
    let mut setup = WinSetup::new(WindowSize::new(40, 120));
    let mut calls = Vec::new();
    let mut open: Vec<Handle> = Vec::new();
    loop {
        match setup.next() {
            WinStep::Call(call) => {
                let ok = failing != Some(calls.len());
                if let WinCall::Close(handle) = call {
                    assert!(open.contains(&handle));
                    open.retain(|h| *h != handle);
                } else if ok {
                    let opened: &[Handle] = match call {
                        WinCall::CreateOutputPipe => &[Handle::ConoutNear, Handle::ConoutFar],
                        WinCall::CreateInputPipe => &[Handle::ConinFar, Handle::ConinNear],
                        WinCall::CreateConsole(_) => &[Handle::Console],
                        WinCall::InitAttributes => &[Handle::Attributes],
                        WinCall::CreateProcess => &[Handle::Thread, Handle::Process],
                        _ => &[],
                    };
                    for handle in opened {
                        assert!(!open.contains(handle));
                        open.push(*handle);
                    }
                }
                setup.on_result(ok);
                calls.push(call);
            }
            end => {
                setup.on_result(true);
                assert_eq!(setup.next(), end);
                return (calls, end, open);
            }
        }
    }
}

#[test]
fn console_session_is_opened_step_by_step() {
    let (calls, end, open) = open_session(None);
    assert_eq!(end, WinStep::Open);
    assert_eq!(
        calls,
        [
            WinCall::Resolve,
            WinCall::CreateOutputPipe,
            WinCall::CreateInputPipe,
            WinCall::CreateConsole(Coord { x: 120, y: 40 }),
            WinCall::InitAttributes,
            WinCall::AttachConsole,
            WinCall::FindProgram,
            WinCall::CreateProcess,
            WinCall::Close(Handle::Attributes),
            WinCall::Close(Handle::ConoutFar),
            WinCall::Close(Handle::ConinFar),
            WinCall::Close(Handle::Thread),
        ]
    );
    assert_eq!(
        open,
        [Handle::ConoutNear, Handle::ConinNear, Handle::Console, Handle::Process]
    );
}

#[test]
fn failed_console_session_leaves_nothing_open() {
    for failing in 0..8 {
        let (calls, end, open) = open_session(Some(failing));
        assert_eq!(end, WinStep::Failed);
        assert!(open.is_empty());
        assert!(calls[failing + 1..].iter().all(|c| matches!(c, WinCall::Close(_))));
    }
    let (calls, _, _) = open_session(Some(7));
    assert_eq!(
        calls[8..],
        [
            WinCall::Close(Handle::Attributes),
            WinCall::Close(Handle::Console),
            WinCall::Close(Handle::ConinNear),
            WinCall::Close(Handle::ConinFar),
            WinCall::Close(Handle::ConoutFar),
            WinCall::Close(Handle::ConoutNear),
        ]
    );
    for failing in 8..12 {
        let (calls, end, _) = open_session(Some(failing));
        assert_eq!(end, WinStep::Open);
        assert_eq!(calls.len(), 12);
    }
}
