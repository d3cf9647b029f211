//! The platform-independent part of a pty session: the window, the bundle
//! of handles, the exit code, and the safe teardown order.

use vstd::prelude::*;

use crate::error::{Error, ErrorKind, IoError};

verus! {

/// Desired terminal dimensions for a freshly created pty.
#[derive(Debug, Clone, Copy, PartialEq, Eq, Structural)]
pub struct WindowSize {
    /// Number of text rows (lines).
    pub rows: u16,
    /// Number of columns per row.
    pub cols: u16,
}

impl WindowSize {
    /// A `rows` x `cols` window.
    pub fn new(rows: u16, cols: u16) -> (size: WindowSize)
        ensures
            size == (WindowSize { rows, cols }),
    {
        WindowSize { rows, cols }
    }
}

impl Default for WindowSize {
    /// The classic 24 x 80 terminal.
    fn default() -> (size: WindowSize)
        ensures
            size == (WindowSize { rows: 24, cols: 80 }),
    {
        WindowSize { rows: 24, cols: 80 }
    }
}

/// The three handles of one spawned pty session.
///
/// Fields are public, so the bundle can be destructured directly; the
/// handles are independent objects and are meant to live in separate
/// tasks (reader task, writer task, supervisor).
pub struct Pty<C, W, R> {
    /// Lifecycle control (wait for exit).
    pub ctl: C,
    /// Input / resize side.
    pub writer: W,
    /// Output side.
    pub reader: R,
}

impl<C, W, R> Pty<C, W, R> {
    /// Bundle three handles into a [`Pty`].
    pub fn new(ctl: C, writer: W, reader: R) -> (pty: Self)
        ensures
            pty == (Pty { ctl, writer, reader }),
    {
        Pty { ctl, writer, reader }
    }

    /// Consume the bundle and return the three handles separately.
    pub fn split(self) -> (handles: (C, W, R))
        ensures
            handles == (self.ctl, self.writer, self.reader),
    {
        (self.ctl, self.writer, self.reader)
    }
}

impl<C, W, R> From<(C, W, R)> for Pty<C, W, R> {
    fn from(handles: (C, W, R)) -> (pty: Self)
        ensures
            pty == (Pty { ctl: handles.0, writer: handles.1, reader: handles.2 }),
    {
        Pty { ctl: handles.0, writer: handles.1, reader: handles.2 }
    }
}

impl<C, W, R> vstd::std_specs::convert::FromSpecImpl<(C, W, R)> for Pty<C, W, R> {
    open spec fn obeys_from_spec() -> bool {
        true
    }

    open spec fn from_spec(handles: (C, W, R)) -> Self {
        Pty { ctl: handles.0, writer: handles.1, reader: handles.2 }
    }
}

/// What a finished child reports: the code it exited with, or the signal
/// that killed it.
pub open spec fn reported_code(code: Option<i32>, signal: Option<i32>) -> int {
    match (code, signal) {
        (Some(code), _) => code as int,
        (None, Some(signal)) => 128 + signal,
        (None, None) => 1,
    }
}

/// The exit code of a child, the shell way: a normal exit yields its code, a
/// child killed by a signal `128 + signal` (`SIGTERM` yields 143), and
/// anything else 1.
pub fn exit_code(code: Option<i32>, signal: Option<i32>) -> (reported: i32)
    requires
        reported_code(code, signal) <= i32::MAX,
    ensures
        reported == reported_code(code, signal),
        code matches Some(c) ==> reported == c,
        code is None ==> (signal matches Some(s) ==> reported == 128 + s),
        code is None && signal is None ==> reported == 1,
{
    match code {
        Some(code) => code,
        None => match signal {
            Some(signal) => 128 + signal,
            None => 1,
        },
    }
}

/// The error of a control handle that cannot kill its child.
pub fn kill_unsupported() -> (error: Error)
    ensures
        error matches Error::IO(e) && e.kind == ErrorKind::Unsupported && e.message@
            == "this pty backend does not support kill"@,
{
    Error::IO(IoError::new(ErrorKind::Unsupported, "this pty backend does not support kill"))
}

// ---------------------------------------------------------------------
// Teardown
// ---------------------------------------------------------------------
/// Something that happened while a session is being finished.
#[derive(Debug)]
pub enum FinishEvent<E> {
    /// The reader delivered output.
    Output(Vec<u8>),
    /// The reader reached its end.
    Eof,
    /// The reader failed.
    ReadFailed(E),
    /// The child was reaped with this exit code.
    Exited(i32),
    /// Waiting for the child failed.
    WaitFailed(E),
}

/// A session that is being finished: its output is drained to the end, and
/// its exit code is collected whenever it comes.
///
/// The end of the output and the exit of the child are independent of each
/// other, and either may come first. The drain decides: a result is given
/// out only once the output has ended, or the reader has failed.
#[derive(Debug)]
pub struct Finish<E> {
    output: Vec<u8>,
    at_eof: bool,
    exit: Option<Result<i32, E>>,
}

/// What [`Finish`] has seen so far.
pub struct FinishView<E> {
    /// All output so far, in order.
    pub output: Seq<u8>,
    /// Whether the output has ended.
    pub at_eof: bool,
    /// What waiting for the child gave, once it did.
    pub exit: Option<Result<i32, E>>,
}

/// A [`FinishEvent`] by its bytes.
pub enum FinishInput<E> {
    /// The reader delivered output.
    Output(Seq<u8>),
    /// The reader reached its end.
    Eof,
    /// The reader failed.
    ReadFailed(E),
    /// The child was reaped with this exit code.
    Exited(i32),
    /// Waiting for the child failed.
    WaitFailed(E),
}

/// How far a session is: still going, or finished with its output and exit
/// code or with an error.
pub enum FinishOutcome<E> {
    /// More has to happen.
    Pending(FinishView<E>),
    /// It is over.
    Done(Result<(Seq<u8>, i32), E>),
}

impl<E> FinishView<E> {
    /// Where a session starts.
    pub open spec fn start() -> FinishView<E> {
        FinishView { output: Seq::empty(), at_eof: false, exit: None }
    }

    /// What is due when the output has ended, given what is known of the
    /// child.
    pub open spec fn settled(self) -> FinishOutcome<E> {
        match (self.at_eof, self.exit) {
            (true, Some(Ok(code))) => FinishOutcome::Done(Ok((self.output, code))),
            (true, Some(Err(e))) => FinishOutcome::Done(Err(e)),
            _ => FinishOutcome::Pending(self),
        }
    }

    /// What one event leads to. Once the output has ended nothing is read
    /// any more, and only the first report on the child counts.
    pub open spec fn step(self, event: FinishInput<E>) -> FinishOutcome<E> {
        match event {
            FinishInput::Output(chunk) => if self.at_eof {
                self.settled()
            } else {
                FinishView { output: self.output + chunk, ..self }.settled()
            },
            FinishInput::Eof => FinishView { at_eof: true, ..self }.settled(),
            FinishInput::ReadFailed(e) => if self.at_eof {
                self.settled()
            } else {
                FinishOutcome::Done(Err(e))
            },
            FinishInput::Exited(code) => if self.exit is Some {
                self.settled()
            } else {
                FinishView { exit: Some(Ok(code)), ..self }.settled()
            },
            FinishInput::WaitFailed(e) => if self.exit is Some {
                self.settled()
            } else {
                FinishView { exit: Some(Err(e)), ..self }.settled()
            },
        }
    }

    /// What a series of events leads to.
    pub open spec fn run(self, events: Seq<FinishInput<E>>) -> FinishOutcome<E>
        decreases events.len(),
    {
        if events.len() == 0 {
            FinishOutcome::Pending(self)
        } else {
            match self.step(events[0]) {
                FinishOutcome::Pending(next) => next.run(events.skip(1)),
                FinishOutcome::Done(result) => FinishOutcome::Done(result),
            }
        }
    }
}

impl<E> FinishEvent<E> {
    /// The event by its bytes.
    pub open spec fn input(self) -> FinishInput<E> {
        match self {
            FinishEvent::Output(chunk) => FinishInput::Output(chunk@),
            FinishEvent::Eof => FinishInput::Eof,
            FinishEvent::ReadFailed(e) => FinishInput::ReadFailed(e),
            FinishEvent::Exited(code) => FinishInput::Exited(code),
            FinishEvent::WaitFailed(e) => FinishInput::WaitFailed(e),
        }
    }
}

/// The result of handing [`Finish`] an event.
#[derive(Debug)]
pub enum Progress<E> {
    /// More has to happen.
    Pending(Finish<E>),
    /// The session is over: its whole output with the exit code, or the
    /// first error that counts.
    Done(Result<(Vec<u8>, i32), E>),
}

impl<E> Progress<E> {
    /// The outcome by its bytes.
    pub open spec fn outcome(self) -> FinishOutcome<E> {
        match self {
            Progress::Pending(finish) => FinishOutcome::Pending(finish@),
            Progress::Done(Ok((output, code))) => FinishOutcome::Done(Ok((output@, code))),
            Progress::Done(Err(e)) => FinishOutcome::Done(Err(e)),
        }
    }
}

impl<E> View for Finish<E> {
    type V = FinishView<E>;

    closed spec fn view(&self) -> FinishView<E> {
        FinishView { output: self.output@, at_eof: self.at_eof, exit: self.exit }
    }
}

impl<E> Finish<E> {
    /// A session of which nothing has been read yet.
    pub fn new() -> (finish: Finish<E>)
        ensures
            finish@ == FinishView::<E>::start(),
    {
        Finish { output: Vec::new(), at_eof: false, exit: None }
    }

    fn settle(self) -> (progress: Progress<E>)
        ensures
            progress.outcome() == self@.settled(),
    {
        if self.at_eof {
            match self.exit {
                Some(Ok(code)) => Progress::Done(Ok((self.output, code))),
                Some(Err(e)) => Progress::Done(Err(e)),
                None => Progress::Pending(
                    Finish { output: self.output, at_eof: true, exit: None },
                ),
            }
        } else {
            Progress::Pending(self)
        }
    }

    /// Takes one event in.
    pub fn on_event(self, event: FinishEvent<E>) -> (progress: Progress<E>)
        ensures
            progress.outcome() == self@.step(event.input()),
    {
        let mut next: Finish<E> = self;
        match event {
            FinishEvent::Output(chunk) => {
                if !next.at_eof {
                    let mut chunk: Vec<u8> = chunk;
                    next.output.append(&mut chunk);
                }
            },
            FinishEvent::Eof => {
                next.at_eof = true;
            },
            FinishEvent::ReadFailed(e) => {
                if !next.at_eof {
                    return Progress::Done(Err(e));
                }
            },
            FinishEvent::Exited(code) => {
                if next.exit.is_none() {
                    next.exit = Some(Ok(code));
                }
            },
            FinishEvent::WaitFailed(e) => {
                if next.exit.is_none() {
                    next.exit = Some(Err(e));
                }
            },
        }
        next.settle()
    }
}

/// Whether a series of events holds the end of the output.
pub open spec fn reaches_eof<E>(events: Seq<FinishInput<E>>) -> bool {
    exists|i: int| 0 <= i < events.len() && (#[trigger] events[i]) is Eof
}

/// The output delivered before the end of the output, all of it if the end
/// is not reached.
pub open spec fn drained<E>(events: Seq<FinishInput<E>>) -> Seq<u8>
    decreases events.len(),
{
    if events.len() == 0 {
        Seq::empty()
    } else {
        match events[0] {
            FinishInput::Eof => Seq::empty(),
            FinishInput::Output(chunk) => chunk + drained(events.skip(1)),
            _ => drained(events.skip(1)),
        }
    }
}

/// A session that ends well has been drained to its end: the end of the
/// output was seen, the child reported the code, and the output handed out is
/// everything that was delivered, in order and without loss. This is so
/// whatever the order in which output, end and exit came.
pub proof fn law_finish_drains_first<E>(events: Seq<FinishInput<E>>, output: Seq<u8>, code: i32)
    requires
        FinishView::<E>::start().run(events) == FinishOutcome::<E>::Done(Ok((output, code))),
    ensures
        reaches_eof(events),
        events.contains(FinishInput::Exited(code)),
        output == drained(events),
{
    lemma_run(FinishView::<E>::start(), events, output, code);
    assert(Seq::<u8>::empty() + drained(events) == drained(events));
}

/// [`law_finish_drains_first`] from any point on.
proof fn lemma_run<E>(
    state: FinishView<E>,
    events: Seq<FinishInput<E>>,
    output: Seq<u8>,
    code: i32,
)
    requires
        state.settled() is Pending,
        state.run(events) == FinishOutcome::<E>::Done(Ok((output, code))),
    ensures
        !state.at_eof ==> reaches_eof(events) && output == state.output + drained(events),
        state.at_eof ==> output == state.output,
        state.exit is None ==> events.contains(FinishInput::Exited(code)),
        state.exit is Some ==> state.exit == Some(Ok::<i32, E>(code)),
    decreases events.len(),
{
    if events.len() > 0 {
        let rest = events.skip(1);
        match state.step(events[0]) {
            FinishOutcome::Pending(next) => {
                lemma_run(next, rest, output, code);
                if reaches_eof(rest) {
                    let i = choose|i: int| 0 <= i < rest.len() && (#[trigger] rest[i]) is Eof;
                    assert(events[i + 1] is Eof);
                }
                if rest.contains(FinishInput::Exited(code)) {
                    let i = choose|i: int|
                        0 <= i < rest.len() && rest[i] == FinishInput::<E>::Exited(code);
                    assert(events[i + 1] == FinishInput::<E>::Exited(code));
                }
                assert(events[0] is Eof ==> next.at_eof);
                if events[0] is Exited {
                    assert(events.contains(events[0]));
                }
                if !state.at_eof {
                    match events[0] {
                        FinishInput::Output(chunk) => {
                            assert((state.output + chunk) + drained(rest) == state.output + (chunk
                                + drained(rest)));
                        },
                        FinishInput::Eof => {
                            assert(state.output + Seq::<u8>::empty() == state.output);
                        },
                        _ => {},
                    }
                }
            },
            FinishOutcome::Done(result) => {
                assert(events.contains(events[0]));
                assert(state.output + Seq::<u8>::empty() == state.output);
            },
        }
    }
}

/// The exit of the child and the end of the output lead to the same result in
/// either order.
pub proof fn law_finish_takes_either_order<E>(state: FinishView<E>, code: i32)
    requires
        !state.at_eof,
        state.exit is None,
    ensures
        state.run(seq![FinishInput::Eof, FinishInput::Exited(code)]) == FinishOutcome::<E>::Done(
            Ok((state.output, code)),
        ),
        state.run(seq![FinishInput::Exited(code), FinishInput::Eof]) == FinishOutcome::<E>::Done(
            Ok((state.output, code)),
        ),
{
    reveal_with_fuel(FinishView::run, 3);
    let eof_first = seq![FinishInput::<E>::Eof, FinishInput::Exited(code)];
    let exit_first = seq![FinishInput::<E>::Exited(code), FinishInput::Eof];
    assert(eof_first.skip(1)[0] == FinishInput::<E>::Exited(code));
    assert(exit_first.skip(1)[0] is Eof);
}

/// The exit of the child alone never finishes a session: as long as neither
/// the end of the output nor a read failure has come, more has to happen.
pub proof fn law_finish_never_skips_the_drain<E>(events: Seq<FinishInput<E>>)
    requires
        forall|i: int|
            0 <= i < events.len() ==> !((#[trigger] events[i]) is Eof) && !(events[i] is ReadFailed),
    ensures
        FinishView::<E>::start().run(events) is Pending,
{
    lemma_no_drain(FinishView::<E>::start(), events);
}

/// [`law_finish_never_skips_the_drain`] from any point on.
proof fn lemma_no_drain<E>(state: FinishView<E>, events: Seq<FinishInput<E>>)
    requires
        !state.at_eof,
        forall|i: int|
            0 <= i < events.len() ==> !((#[trigger] events[i]) is Eof) && !(events[i] is ReadFailed),
    ensures
        state.run(events) is Pending,
    decreases events.len(),
{
    if events.len() > 0 {
        assert(!(events[0] is Eof) && !(events[0] is ReadFailed));
        let rest = events.skip(1);
        assert forall|i: int| 0 <= i < rest.len() implies !((#[trigger] rest[i]) is Eof) && !(
        rest[i] is ReadFailed) by {
            assert(rest[i] == events[i + 1]);
        }
        match state.step(events[0]) {
            FinishOutcome::Pending(next) => lemma_no_drain(next, rest),
            FinishOutcome::Done(_) => {},
        }
    }
}

/// Every exit has its code: that of the child itself wherever there is one,
/// else 128 more than the signal, so that two signals are never confused, and
/// 1 where there is neither.
pub proof fn law_exit_codes(code: i32, signal: Option<i32>, a: i32, b: i32)
    ensures
        reported_code(Some(code), signal) == code,
        reported_code(None, Some(a)) - 128 == a,
        reported_code(None, Some(a)) == reported_code(None, Some(b)) ==> a == b,
        reported_code(None, None) == 1,
{
}

/// What a session is told and what it answers is what the caller hands in and
/// gets: no byte of the output, no code and no error is changed on the way.
pub proof fn law_finish_hands_on_what_it_gets<E>(
    chunk: Vec<u8>,
    code: i32,
    e: E,
    finish: Finish<E>,
)
    ensures
        FinishEvent::<E>::Output(chunk).input() == FinishInput::<E>::Output(chunk@),
        FinishEvent::<E>::Eof.input() == FinishInput::<E>::Eof,
        FinishEvent::<E>::ReadFailed(e).input() == FinishInput::<E>::ReadFailed(e),
        FinishEvent::<E>::Exited(code).input() == FinishInput::<E>::Exited(code),
        FinishEvent::<E>::WaitFailed(e).input() == FinishInput::<E>::WaitFailed(e),
        Progress::<E>::Pending(finish).outcome() == FinishOutcome::<E>::Pending(finish@),
        Progress::<E>::Done(Ok((chunk, code))).outcome() == FinishOutcome::<E>::Done(
            Ok((chunk@, code)),
        ),
        Progress::<E>::Done(Err(e)).outcome() == FinishOutcome::<E>::Done(Err(e)),
{
}

/// The events of a reader that delivers these chunks.
pub open spec fn delivered<E>(chunks: Seq<Seq<u8>>) -> Seq<FinishInput<E>> {
    chunks.map_values(|c: Seq<u8>| FinishInput::<E>::Output(c))
}

/// Delivered chunks are added to the output, and the events after them go on
/// from there.
proof fn lemma_delivered<E>(
    state: FinishView<E>,
    chunks: Seq<Seq<u8>>,
    rest: Seq<FinishInput<E>>,
)
    requires
        !state.at_eof,
    ensures
        state.run(delivered::<E>(chunks) + rest) == (FinishView {
            output: state.output + chunks.flatten(),
            ..state
        }).run(rest),
    decreases chunks.len(),
{
    let events = delivered::<E>(chunks) + rest;
    if chunks.len() == 0 {
        assert(events == rest);
        assert(state.output + chunks.flatten() == state.output);
    } else {
        let next = FinishView { output: state.output + chunks[0], ..state };
        assert(events[0] == FinishInput::<E>::Output(chunks[0]));
        assert(chunks.drop_first() == chunks.skip(1));
        assert(events.skip(1) == delivered::<E>(chunks.skip(1)) + rest);
        lemma_delivered(next, chunks.skip(1), rest);
        assert(next.output + chunks.skip(1).flatten() == state.output + chunks.flatten());
    }
}

/// All output is returned: whatever chunks the reader delivers before and
/// after the exit of the child, the result is these chunks, one after the
/// other, with the code of the exit. An exit after the end of the output
/// gives the same.
pub proof fn law_finish_returns_all_output<E>(
    before: Seq<Seq<u8>>,
    after: Seq<Seq<u8>>,
    code: i32,
)
    ensures
        FinishView::<E>::start().run(
            delivered::<E>(before) + (seq![FinishInput::Exited(code)] + (delivered::<E>(after)
                + seq![FinishInput::Eof])),
        ) == FinishOutcome::<E>::Done(Ok((before.flatten() + after.flatten(), code))),
        FinishView::<E>::start().run(
            delivered::<E>(before) + seq![FinishInput::Eof, FinishInput::Exited(code)],
        ) == FinishOutcome::<E>::Done(Ok((before.flatten(), code))),
{
    reveal_with_fuel(FinishView::run, 3);
    let start = FinishView::<E>::start();
    let end = seq![FinishInput::<E>::Eof];
    let tail = delivered::<E>(after) + end;
    let from_exit = seq![FinishInput::<E>::Exited(code)] + tail;
    lemma_delivered(start, before, from_exit);
    assert(start.output + before.flatten() == before.flatten());
    let drained_once = FinishView { output: before.flatten(), ..start };
    let exited = FinishView { exit: Some(Ok::<i32, E>(code)), ..drained_once };
    assert(from_exit[0] == FinishInput::<E>::Exited(code));
    assert(from_exit.skip(1) == tail);
    assert(drained_once.run(from_exit) == exited.run(tail));
    lemma_delivered(exited, after, end);
    let both = seq![FinishInput::<E>::Eof, FinishInput::Exited(code)];
    lemma_delivered(start, before, both);
    law_finish_takes_either_order(drained_once, code);
}

/// Errors are reported as they are: that of the reader as soon as it comes
/// while there is output to read, that of the wait once the output has ended.
pub proof fn law_finish_reports_the_error<E>(state: FinishView<E>, e: E)
    ensures
        !state.at_eof ==> state.step(FinishInput::ReadFailed(e)) == FinishOutcome::<E>::Done(
            Err(e),
        ),
        state.at_eof && state.exit is None ==> state.step(FinishInput::WaitFailed(e))
            == FinishOutcome::<E>::Done(Err(e)),
        !state.at_eof && state.exit is None ==> state.run(
            seq![FinishInput::WaitFailed(e), FinishInput::Eof],
        ) == FinishOutcome::<E>::Done(Err(e)),
{
    reveal_with_fuel(FinishView::run, 3);
    let events = seq![FinishInput::<E>::WaitFailed(e), FinishInput::Eof];
    assert(events.skip(1)[0] is Eof);
}

/// What comes too late changes nothing: output and read errors once the
/// output has ended, and a second report on the child.
pub proof fn law_late_reports_change_nothing<E>(
    state: FinishView<E>,
    chunk: Seq<u8>,
    code: i32,
    e: E,
)
    ensures
        state.at_eof && state.exit is None ==> {
            &&& state.step(FinishInput::Output(chunk)) == FinishOutcome::<E>::Pending(state)
            &&& state.step(FinishInput::ReadFailed(e)) == FinishOutcome::<E>::Pending(state)
        },
        !state.at_eof && state.exit is Some ==> {
            &&& state.step(FinishInput::Exited(code)) == FinishOutcome::<E>::Pending(state)
            &&& state.step(FinishInput::WaitFailed(e)) == FinishOutcome::<E>::Pending(state)
        },
{
}

} // verus!
