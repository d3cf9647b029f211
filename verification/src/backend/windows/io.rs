//! The I/O threads and their async fronts.
//!
//! ConPTY pipes only do blocking I/O, so dedicated threads own them. A
//! writer thread takes [`WriterMsg`]s off a channel and performs them one by
//! one; [`Writer`] decides what it does next. A reader thread pumps chunks of
//! output into a channel; [`WinReader`] hands them to callers whose buffers
//! may be smaller than a chunk.

use vstd::prelude::*;

use crate::error::{ErrorKind, IoError};
use crate::pty::WindowSize;

verus! {

// ---------------------------------------------------------------------
// The writing side
// ---------------------------------------------------------------------
/// Messages flowing from the async writer to the writer thread.
#[derive(Debug)]
pub enum WriterMsg {
    /// Input bytes for the child's stdin.
    Data(Vec<u8>),
    /// Terminal resize (`ResizePseudoConsole`).
    Resize {
        /// New number of columns.
        cols: u16,
        /// New number of rows.
        rows: u16,
    },
    /// Close the input pipe (EOF on the child's stdin) and stop.
    Eof,
}

/// The message for a write of `buf`: all of it is taken at once.
pub fn data_msg(buf: &[u8]) -> (msg: WriterMsg)
    ensures
        msg matches WriterMsg::Data(data) && data@ == buf@,
{
    WriterMsg::Data(vstd::slice::slice_to_vec(buf))
}

/// The message for a resize to `width` columns and `height` rows.
pub fn window_change(width: u16, height: u16) -> (msg: WriterMsg)
    ensures
        msg == (WriterMsg::Resize { cols: width, rows: height }),
{
    WriterMsg::Resize { cols: width, rows: height }
}

/// The error of a session whose writer thread is gone.
pub fn broken_pipe() -> (error: IoError)
    ensures
        error.kind == ErrorKind::BrokenPipe,
        error.message@ == "pty session closed"@,
{
    IoError::new(ErrorKind::BrokenPipe, "pty session closed")
}

/// What a write of `len` bytes reports, where `sent` says whether the writer
/// thread took the message: all bytes, or a broken pipe.
pub fn write_result(len: usize, sent: bool) -> (result: Result<usize, IoError>)
    ensures
        match result {
            Ok(n) => sent && n == len,
            Err(e) => !sent && e.kind == ErrorKind::BrokenPipe && e.message@
                == "pty session closed"@,
        },
{
    if sent {
        Ok(len)
    } else {
        Err(broken_pipe())
    }
}

/// Something that happened to the writer thread.
#[derive(Debug)]
pub enum WriterEvent {
    /// A message came.
    Received(WriterMsg),
    /// No message will come any more.
    Closed,
    /// The system took so many bytes.
    Wrote(u32),
    /// The system refused the write.
    WriteFailed,
}

/// What the writer thread does next.
#[derive(Debug, Clone, Copy, PartialEq, Eq, Structural)]
pub enum WriterAction {
    /// Wait for the next message.
    Receive,
    /// Write what is unwritten.
    Write,
    /// Resize the console, then wait for the next message.
    Resize(WindowSize),
    /// Stop and close the input pipe, which is what delivers EOF.
    Stop,
}

/// A [`WriterEvent`] by its bytes.
pub enum WriterInput {
    /// Input bytes came.
    Data(Seq<u8>),
    /// A resize came.
    Resize(WindowSize),
    /// The end of the input came, or no message will come any more.
    End,
    /// The system took so many bytes.
    Wrote(nat),
    /// The system refused the write.
    WriteFailed,
}

impl WriterEvent {
    /// The event by its bytes.
    pub open spec fn input(self) -> WriterInput {
        match self {
            WriterEvent::Received(WriterMsg::Data(data)) => WriterInput::Data(data@),
            WriterEvent::Received(WriterMsg::Resize { cols, rows }) => WriterInput::Resize(
                WindowSize { rows, cols },
            ),
            WriterEvent::Received(WriterMsg::Eof) => WriterInput::End,
            WriterEvent::Closed => WriterInput::End,
            WriterEvent::Wrote(n) => WriterInput::Wrote(n as nat),
            WriterEvent::WriteFailed => WriterInput::WriteFailed,
        }
    }
}

/// The bytes that the system takes of `unwritten` when it reports `n`.
pub open spec fn taken(unwritten: Seq<u8>, n: nat) -> Seq<u8> {
    if n <= unwritten.len() {
        unwritten.take(n as int)
    } else {
        unwritten
    }
}

/// What is left unwritten after an event.
pub open spec fn unwritten_after(unwritten: Seq<u8>, event: WriterInput) -> Seq<u8> {
    match event {
        WriterInput::Data(data) => data,
        WriterInput::Wrote(n) => unwritten.skip(taken(unwritten, n).len() as int),
        _ => unwritten,
    }
}

/// What the writer thread does while all is well: it writes until nothing is
/// left, and then takes the next message.
pub open spec fn continued(unwritten: Seq<u8>) -> WriterAction {
    if unwritten.len() == 0 {
        WriterAction::Receive
    } else {
        WriterAction::Write
    }
}

/// What the writer thread does after an event. A write that takes nothing is
/// as good as a refusal: the console is gone.
pub open spec fn writer_action(unwritten: Seq<u8>, event: WriterInput) -> WriterAction {
    match event {
        WriterInput::Resize(size) => WriterAction::Resize(size),
        WriterInput::End => WriterAction::Stop,
        WriterInput::WriteFailed => WriterAction::Stop,
        WriterInput::Data(_) => continued(unwritten_after(unwritten, event)),
        WriterInput::Wrote(n) => if n == 0 {
            WriterAction::Stop
        } else {
            continued(unwritten_after(unwritten, event))
        },
    }
}

/// The writer thread between two calls: the message it is writing and how
/// far it has got.
#[derive(Debug)]
pub struct Writer {
    data: Vec<u8>,
    offset: usize,
}

impl View for Writer {
    type V = Seq<u8>;

    /// What is still to be written.
    closed spec fn view(&self) -> Seq<u8> {
        if self.offset <= self.data@.len() {
            self.data@.skip(self.offset as int)
        } else {
            Seq::empty()
        }
    }
}

impl Writer {
    /// A writer with nothing to write.
    pub fn new() -> (writer: Writer)
        ensures
            writer@ == Seq::<u8>::empty(),
    {
        let writer = Writer { data: Vec::new(), offset: 0 };
        assert(writer@ == Seq::<u8>::empty());
        writer
    }

    /// What is still to be written.
    pub fn unwritten(&self) -> (rest: &[u8])
        ensures
            rest@ == self@,
    {
        let len: usize = self.data.len();
        let from: usize = if self.offset <= len {
            self.offset
        } else {
            len
        };
        let rest: &[u8] = vstd::slice::slice_subrange(self.data.as_slice(), from, len);
        assert(rest@ == self@);
        rest
    }

    /// Takes one event in and says what to do next.
    pub fn on_event(&mut self, event: WriterEvent) -> (action: WriterAction)
        ensures
            final(self)@ == unwritten_after(old(self)@, event.input()),
            action == writer_action(old(self)@, event.input()),
    {
        match event {
            WriterEvent::Received(WriterMsg::Data(data)) => {
                self.data = data;
                self.offset = 0;
                assert(self@ == data@);
                self.next()
            },
            WriterEvent::Received(WriterMsg::Resize { cols, rows }) => {
                WriterAction::Resize(WindowSize { rows, cols })
            },
            WriterEvent::Received(WriterMsg::Eof) => WriterAction::Stop,
            WriterEvent::Closed => WriterAction::Stop,
            WriterEvent::Wrote(n) => {
                let ghost before = self@;
                let len: usize = self.data.len();
                if self.offset <= len && n as usize <= len - self.offset {
                    self.offset = self.offset + n as usize;
                } else {
                    self.offset = len;
                }
                assert(self@ == unwritten_after(before, WriterInput::Wrote(n as nat)));
                if n == 0 {
                    WriterAction::Stop
                } else {
                    self.next()
                }
            },
            WriterEvent::WriteFailed => WriterAction::Stop,
        }
    }

    fn next(&self) -> (action: WriterAction)
        ensures
            action == continued(self@),
    {
        if self.offset < self.data.len() {
            WriterAction::Write
        } else {
            WriterAction::Receive
        }
    }
}

/// Whether a series of events is one that a writer thread sees: it takes a
/// new message only when everything is written, and nothing happens after it
/// has stopped.
pub open spec fn in_turn(unwritten: Seq<u8>, events: Seq<WriterInput>) -> bool
    decreases events.len(),
{
    events.len() == 0 || {
        &&& (events[0] is Data || events[0] is Resize || events[0] is End) ==> unwritten.len() == 0
        &&& if writer_action(unwritten, events[0]) is Stop {
            events.len() == 1
        } else {
            in_turn(unwritten_after(unwritten, events[0]), events.skip(1))
        }
    }
}

/// What the system has taken in the course of a series of events.
pub open spec fn written(unwritten: Seq<u8>, events: Seq<WriterInput>) -> Seq<u8>
    decreases events.len(),
{
    if events.len() == 0 {
        Seq::empty()
    } else {
        let now = match events[0] {
            WriterInput::Wrote(n) => taken(unwritten, n),
            _ => Seq::empty(),
        };
        now + written(unwritten_after(unwritten, events[0]), events.skip(1))
    }
}

/// What is unwritten at the end of a series of events.
pub open spec fn left_over(unwritten: Seq<u8>, events: Seq<WriterInput>) -> Seq<u8>
    decreases events.len(),
{
    if events.len() == 0 {
        unwritten
    } else {
        left_over(unwritten_after(unwritten, events[0]), events.skip(1))
    }
}

/// The input bytes that came in the course of a series of events.
pub open spec fn submitted(events: Seq<WriterInput>) -> Seq<u8>
    decreases events.len(),
{
    if events.len() == 0 {
        Seq::empty()
    } else {
        let now = match events[0] {
            WriterInput::Data(data) => data,
            _ => Seq::empty(),
        };
        now + submitted(events.skip(1))
    }
}

/// Input reaches the child unchanged: however the system splits the writes,
/// what it has taken and what is left over are, one after the other, the
/// bytes of the messages in the order in which they came.
pub proof fn law_input_is_written_in_order(unwritten: Seq<u8>, events: Seq<WriterInput>)
    requires
        in_turn(unwritten, events),
    ensures
        written(unwritten, events) + left_over(unwritten, events) == unwritten + submitted(events),
    decreases events.len(),
{
    let none = Seq::<u8>::empty();
    if events.len() == 0 {
        assert(none + unwritten == unwritten + none);
    } else {
        let next = unwritten_after(unwritten, events[0]);
        let rest = events.skip(1);
        if writer_action(unwritten, events[0]) is Stop {
            assert(in_turn(next, rest));
        }
        law_input_is_written_in_order(next, rest);
        let later = written(next, rest) + left_over(next, rest);
        match events[0] {
            WriterInput::Wrote(n) => {
                let now = taken(unwritten, n);
                assert(now + next == unwritten);
                assert(now + written(next, rest) + left_over(next, rest) == now + later);
                assert(now + (next + submitted(rest)) == (now + next) + submitted(rest));
                assert(none + submitted(rest) == submitted(rest));
            },
            WriterInput::Data(data) => {
                assert(none + written(next, rest) == written(next, rest));
                assert(unwritten + (data + submitted(rest)) == data + submitted(rest));
            },
            _ => {
                assert(none + written(next, rest) == written(next, rest));
                assert(none + submitted(rest) == submitted(rest));
            },
        }
    }
}

// ---------------------------------------------------------------------
// The reading side
// ---------------------------------------------------------------------
/// The chunk that the reader thread passes on after a read into `buf`, where
/// `read` is the number of bytes the system gave, if the read worked. Without
/// a chunk the console is closed and the thread stops.
pub fn read_chunk(buf: &[u8], read: Option<u32>) -> (chunk: Option<Vec<u8>>)
    requires
        read matches Some(n) ==> n <= buf@.len(),
    ensures
        match read {
            Some(n) => if n > 0 {
                chunk matches Some(bytes) && bytes@ == buf@.take(n as int)
            } else {
                chunk is None
            },
            None => chunk is None,
        },
{
    match read {
        Some(n) => {
            if n > 0 {
                Some(
                    vstd::slice::slice_to_vec(
                        vstd::slice::slice_subrange(buf, 0, n as usize),
                    ),
                )
            } else {
                None
            }
        },
        None => None,
    }
}

/// What the channel of the reader thread gave.
#[derive(Debug)]
pub enum Received {
    /// Nothing yet.
    Pending,
    /// A chunk of output.
    Chunk(Vec<u8>),
    /// The reader thread saw the console close.
    Closed,
}

/// How a read goes on.
#[derive(Debug)]
pub enum ReadPoll {
    /// Ask the channel.
    Receive,
    /// Nothing to read yet.
    Pending,
    /// These bytes are read. None at all, for a caller with room, means the
    /// end of the output.
    Ready(Vec<u8>),
}

/// Read half: drains the reader thread's channel. A chunk that is larger than
/// the caller's buffer is kept, so no bytes are lost.
#[derive(Debug)]
pub struct WinReader {
    pending: Option<Vec<u8>>,
}

impl View for WinReader {
    type V = Option<Seq<u8>>;

    /// What is left of the last chunk, if anything is.
    closed spec fn view(&self) -> Option<Seq<u8>> {
        match self.pending {
            Some(chunk) => Some(chunk@),
            None => None,
        }
    }
}

/// The part of a chunk that fits into `room` bytes.
pub open spec fn fitting(chunk: Seq<u8>, room: nat) -> Seq<u8> {
    if chunk.len() <= room {
        chunk
    } else {
        chunk.take(room as int)
    }
}

/// The part of a chunk that does not fit into `room` bytes.
pub open spec fn remainder(chunk: Seq<u8>, room: nat) -> Option<Seq<u8>> {
    if chunk.len() <= room {
        None
    } else {
        Some(chunk.skip(room as int))
    }
}

impl WinReader {
    /// A reader that has received nothing.
    pub fn new() -> (reader: WinReader)
        ensures
            reader@ is None,
    {
        WinReader { pending: None }
    }

    fn hand_out(&mut self, chunk: Vec<u8>, room: usize) -> (bytes: Vec<u8>)
        ensures
            bytes@ == fitting(chunk@, room as nat),
            final(self)@ == remainder(chunk@, room as nat),
    {
        if chunk.len() <= room {
            self.pending = None;
            chunk
        } else {
            let mut chunk: Vec<u8> = chunk;
            let ghost whole = chunk@;
            let rest: Vec<u8> = chunk.split_off(room);
            assert(rest@ == whole.skip(room as int));
            assert(chunk@ == whole.take(room as int));
            self.pending = Some(rest);
            chunk
        }
    }

    /// Starts a read by a caller with `room` bytes of space.
    pub fn poll_read(&mut self, room: usize) -> (poll: ReadPoll)
        ensures
            room == 0 ==> {
                &&& poll matches ReadPoll::Ready(bytes) && bytes@.len() == 0
                &&& final(self)@ == old(self)@
            },
            room > 0 ==> match old(self)@ {
                Some(chunk) => {
                    &&& poll matches ReadPoll::Ready(bytes) && bytes@ == fitting(
                        chunk,
                        room as nat,
                    )
                    &&& final(self)@ == remainder(chunk, room as nat)
                },
                None => poll is Receive && final(self)@ is None,
            },
            poll matches ReadPoll::Ready(bytes) ==> forall|chunks: Seq<Seq<u8>>| #[trigger]
                read_once(old(self)@, chunks, room as nat) == (bytes@, final(self)@, chunks),
    {
        if room == 0 {
            return ReadPoll::Ready(Vec::new());
        }
        match self.pending.take() {
            Some(chunk) => ReadPoll::Ready(self.hand_out(chunk, room)),
            None => ReadPoll::Receive,
        }
    }

    /// Goes on with a read that had to ask the channel.
    pub fn on_receive(&mut self, room: usize, received: Received) -> (poll: ReadPoll)
        requires
            old(self)@ is None,
            room > 0,
        ensures
            match received {
                Received::Pending => poll is Pending && final(self)@ is None,
                Received::Chunk(chunk) => {
                    &&& poll matches ReadPoll::Ready(bytes) && bytes@ == fitting(
                        chunk@,
                        room as nat,
                    )
                    &&& final(self)@ == remainder(chunk@, room as nat)
                },
                Received::Closed => {
                    &&& poll matches ReadPoll::Ready(bytes) && bytes@.len() == 0
                    &&& final(self)@ is None
                },
            },
            poll matches ReadPoll::Ready(bytes) ==> match received {
                Received::Chunk(chunk) => forall|chunks: Seq<Seq<u8>>|
                    chunks.len() > 0 && chunks[0] == chunk@ ==> #[trigger] read_once(
                        old(self)@,
                        chunks,
                        room as nat,
                    ) == (bytes@, final(self)@, chunks.skip(1)),
                _ => read_once(old(self)@, Seq::empty(), room as nat) == (
                    bytes@,
                    final(self)@,
                    Seq::<Seq<u8>>::empty(),
                ),
            },
    {
        match received {
            Received::Pending => ReadPoll::Pending,
            Received::Chunk(chunk) => ReadPoll::Ready(self.hand_out(chunk, room)),
            Received::Closed => ReadPoll::Ready(Vec::new()),
        }
    }
}

/// The bytes that a reader holds back.
pub open spec fn held(pending: Option<Seq<u8>>) -> Seq<u8> {
    match pending {
        Some(chunk) => chunk,
        None => Seq::empty(),
    }
}

/// What one read by a caller with `room` bytes of space hands out, where
/// `chunks` are the chunks still in the channel.
pub open spec fn read_once(pending: Option<Seq<u8>>, chunks: Seq<Seq<u8>>, room: nat) -> (
    Seq<u8>,
    Option<Seq<u8>>,
    Seq<Seq<u8>>,
) {
    if room == 0 {
        (Seq::empty(), pending, chunks)
    } else if pending is Some {
        (fitting(pending->0, room), remainder(pending->0, room), chunks)
    } else if chunks.len() > 0 {
        (fitting(chunks[0], room), remainder(chunks[0], room), chunks.skip(1))
    } else {
        (Seq::empty(), None, chunks)
    }
}

/// What a series of reads hands out in all, and what is then held back and
/// still in the channel.
pub open spec fn read_all(pending: Option<Seq<u8>>, chunks: Seq<Seq<u8>>, rooms: Seq<nat>) -> (
    Seq<u8>,
    Option<Seq<u8>>,
    Seq<Seq<u8>>,
)
    decreases rooms.len(),
{
    if rooms.len() == 0 {
        (Seq::empty(), pending, chunks)
    } else {
        let (bytes, pending2, chunks2) = read_once(pending, chunks, rooms[0]);
        let (later, pending3, chunks3) = read_all(pending2, chunks2, rooms.skip(1));
        (bytes + later, pending3, chunks3)
    }
}

/// No output is lost, repeated or moved, however small the buffers of the
/// callers are: what the reads hand out, what is held back and what is still
/// in the channel are, one after the other, the output that was there.
pub proof fn law_no_output_is_lost(
    pending: Option<Seq<u8>>,
    chunks: Seq<Seq<u8>>,
    rooms: Seq<nat>,
)
    ensures
        ({
            let (bytes, pending2, chunks2) = read_all(pending, chunks, rooms);
            bytes + held(pending2) + chunks2.flatten() == held(pending) + chunks.flatten()
        }),
    decreases rooms.len(),
{
    let none = Seq::<u8>::empty();
    if rooms.len() == 0 {
        assert(none + held(pending) == held(pending));
    } else {
        let (now, pending2, chunks2) = read_once(pending, chunks, rooms[0]);
        let (later, pending3, chunks3) = read_all(pending2, chunks2, rooms.skip(1));
        law_no_output_is_lost(pending2, chunks2, rooms.skip(1));
        assert(now + (held(pending2) + chunks2.flatten()) == held(pending) + chunks.flatten()) by {
            if rooms[0] == 0 {
                assert(none + (held(pending) + chunks.flatten()) == held(pending)
                    + chunks.flatten());
            } else if pending is Some {
                lemma_parts(pending->0, rooms[0]);
                assert(now + (held(pending2) + chunks.flatten()) == (now + held(pending2))
                    + chunks.flatten());
            } else if chunks.len() > 0 {
                lemma_parts(chunks[0], rooms[0]);
                assert(chunks.drop_first() == chunks.skip(1));
                assert(chunks.flatten() == chunks[0] + chunks.skip(1).flatten());
                assert(now + (held(pending2) + chunks2.flatten()) == (now + held(pending2))
                    + chunks2.flatten());
                assert(none + chunks.flatten() == chunks.flatten());
            } else {
                assert(none + (none + chunks.flatten()) == none + chunks.flatten());
            }
        }
        assert((now + later) + held(pending3) + chunks3.flatten() == now + (later + held(pending3)
            + chunks3.flatten()));
    }
}

/// A caller with room that gets no bytes is at the end of the output: with
/// chunks that all hold something, as the reader thread passes them on, this
/// happens if and only if nothing is held back and the channel is drained.
/// What is held back is never empty.
pub proof fn law_empty_read_is_the_end(
    pending: Option<Seq<u8>>,
    chunks: Seq<Seq<u8>>,
    room: nat,
)
    requires
        room > 0,
        pending is Some ==> pending->0.len() > 0,
        forall|i: int| 0 <= i < chunks.len() ==> (#[trigger] chunks[i]).len() > 0,
    ensures
        read_once(pending, chunks, room).0.len() == 0 <==> pending is None && chunks.len() == 0,
        read_once(pending, chunks, room).1 is Some ==> read_once(
            pending,
            chunks,
            room,
        ).1->0.len() > 0,
{
    if chunks.len() > 0 {
        assert(chunks[0].len() > 0);
    }
}

/// The two parts of a chunk make the chunk.
proof fn lemma_parts(chunk: Seq<u8>, room: nat)
    ensures
        fitting(chunk, room) + held(remainder(chunk, room)) == chunk,
{
    if chunk.len() <= room {
        assert(chunk + Seq::<u8>::empty() == chunk);
    } else {
        assert(chunk.take(room as int) + chunk.skip(room as int) == chunk);
    }
}

// ---------------------------------------------------------------------
// What every message, write and read has to satisfy
// ---------------------------------------------------------------------
/// What the writer thread is told is what the caller sent: every byte of the
/// data and the very size of a resize.
pub proof fn law_writer_hears_what_was_sent(data: Vec<u8>, cols: u16, rows: u16, n: u32)
    ensures
        WriterEvent::Received(WriterMsg::Data(data)).input() == WriterInput::Data(data@),
        WriterEvent::Received(WriterMsg::Resize { cols, rows }).input() == WriterInput::Resize(
            WindowSize { rows, cols },
        ),
        WriterEvent::Received(WriterMsg::Eof).input() == WriterInput::End,
        WriterEvent::Closed.input() == WriterInput::End,
        WriterEvent::Wrote(n).input() == WriterInput::Wrote(n as nat),
        WriterEvent::WriteFailed.input() == WriterInput::WriteFailed,
{
}

/// The writer asks for the next message only when nothing is left unwritten:
/// after a message, and after a write that took something, it writes whenever
/// there is something left, and else receives.
pub proof fn law_writer_writes_before_it_receives(unwritten: Seq<u8>, event: WriterInput)
    ensures
        writer_action(unwritten, event) is Receive ==> unwritten_after(unwritten, event).len()
            == 0,
        writer_action(unwritten, event) is Write ==> unwritten_after(unwritten, event).len() > 0,
        event is Data ==> (unwritten_after(unwritten, event).len() > 0 <==> writer_action(
            unwritten,
            event,
        ) is Write),
        (event matches WriterInput::Wrote(n) && n > 0) ==> (unwritten_after(
            unwritten,
            event,
        ).len() > 0 <==> writer_action(unwritten, event) is Write),
        event is Data || (event matches WriterInput::Wrote(n) && n > 0) ==> !(writer_action(
            unwritten,
            event,
        ) is Stop),
{
}

/// The writer stops exactly when the input has ended or the console takes
/// nothing any more, and resizes exactly when it was told to, to that size.
pub proof fn law_writer_stops_and_resizes_as_told(
    unwritten: Seq<u8>,
    event: WriterInput,
    size: WindowSize,
)
    ensures
        writer_action(unwritten, event) is Stop <==> event is End || event is WriteFailed || event
            == WriterInput::Wrote(0),
        writer_action(unwritten, event) == WriterAction::Resize(size) <==> event
            == WriterInput::Resize(size),
{
}

/// What is left unwritten: all of a new message; what follows the bytes that
/// a write took; and the same as before after anything else.
pub proof fn law_writer_keeps_what_is_unwritten(
    unwritten: Seq<u8>,
    data: Seq<u8>,
    n: nat,
    event: WriterInput,
)
    ensures
        unwritten_after(unwritten, WriterInput::Data(data)) == data,
        n <= unwritten.len() ==> unwritten.take(n as int) + unwritten_after(
            unwritten,
            WriterInput::Wrote(n),
        ) == unwritten,
        n > unwritten.len() ==> unwritten_after(unwritten, WriterInput::Wrote(n)).len() == 0,
        event is Resize || event is End || event is WriteFailed ==> unwritten_after(
            unwritten,
            event,
        ) == unwritten,
{
    if n <= unwritten.len() {
        assert(unwritten.take(n as int) + unwritten.skip(n as int) == unwritten);
    }
}

/// Whether an event can follow an action: a message, or the end of them,
/// follows a wait for one, and a write is answered.
pub open spec fn answers(action: WriterAction, event: WriterInput) -> bool {
    match action {
        WriterAction::Receive => event is Data || event is Resize || event is End,
        WriterAction::Resize(_) => event is Data || event is Resize || event is End,
        WriterAction::Write => event is Wrote || event is WriteFailed,
        WriterAction::Stop => false,
    }
}

/// Whether a series of events is one that happens to a thread that does what
/// the writer says, `action` to begin with.
pub open spec fn performed(
    action: WriterAction,
    unwritten: Seq<u8>,
    events: Seq<WriterInput>,
) -> bool
    decreases events.len(),
{
    events.len() == 0 || {
        &&& answers(action, events[0])
        &&& performed(
            writer_action(unwritten, events[0]),
            unwritten_after(unwritten, events[0]),
            events.skip(1),
        )
    }
}

/// A thread that does what the writer says takes each message in turn.
proof fn lemma_performed_in_turn(
    action: WriterAction,
    unwritten: Seq<u8>,
    events: Seq<WriterInput>,
)
    requires
        performed(action, unwritten, events),
        !(action is Write) ==> unwritten.len() == 0,
    ensures
        in_turn(unwritten, events),
    decreases events.len(),
{
    if events.len() > 0 {
        let next = writer_action(unwritten, events[0]);
        let rest = events.skip(1);
        assert(performed(next, unwritten_after(unwritten, events[0]), rest));
        if next is Stop {
            assert(rest.len() == 0);
        } else {
            lemma_performed_in_turn(next, unwritten_after(unwritten, events[0]), rest);
        }
    }
}

/// No input is lost: in a thread that starts by waiting for a message and
/// then does what the writer says, what the system has taken and what is left
/// over are, one after the other, the bytes of all messages in the order in
/// which they came.
pub proof fn law_thread_loses_no_input(events: Seq<WriterInput>)
    requires
        performed(WriterAction::Receive, Seq::empty(), events),
    ensures
        written(Seq::empty(), events) + left_over(Seq::empty(), events) == submitted(events),
{
    let none = Seq::<u8>::empty();
    lemma_performed_in_turn(WriterAction::Receive, none, events);
    law_input_is_written_in_order(none, events);
    assert(none + submitted(events) == submitted(events));
}

/// A read hands out as much of a chunk as fits, from its front, and holds
/// back exactly the rest.
pub proof fn law_reads_hand_out_what_fits(chunk: Seq<u8>, room: nat)
    ensures
        fitting(chunk, room).len() == if chunk.len() <= room {
            chunk.len()
        } else {
            room
        },
        forall|i: int| 0 <= i < fitting(chunk, room).len() ==> #[trigger] fitting(chunk, room)[i]
            == chunk[i],
        remainder(chunk, room) is None <==> chunk.len() <= room,
        remainder(chunk, room) matches Some(rest) ==> fitting(chunk, room) + rest == chunk,
{
    lemma_parts(chunk, room);
}

/// A read never gives more than there is room for, takes the held back bytes
/// before any chunk, and takes at most one chunk.
pub proof fn law_reads_keep_to_their_room(
    pending: Option<Seq<u8>>,
    chunks: Seq<Seq<u8>>,
    room: nat,
)
    ensures
        ({
            let (bytes, pending2, chunks2) = read_once(pending, chunks, room);
            &&& bytes.len() <= room
            &&& pending is Some || room == 0 ==> chunks2 == chunks
            &&& room == 0 ==> pending2 == pending
            &&& pending is None && chunks.len() > 0 && room > 0 ==> chunks2 == chunks.skip(1)
        }),
{
}

} // verus!
