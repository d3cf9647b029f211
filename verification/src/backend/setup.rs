//! Opening a session on Unix, step by step.
//!
//! The descriptors of a session live in numbered slots. [`Setup`] says which
//! call comes next and on which slots, and goes on or gives up depending on
//! how the call went:
//! 1. resolve the script to a program and its arguments;
//! 2. `openpty` with the requested window size;
//! 3. mark the terminal as UTF-8 so the line discipline handles multi-byte
//!    input correctly (a terminal that refuses is used as it is);
//! 4. three copies of the slave side for the child's stdio, and one of the
//!    master for the parent;
//! 5. spawn the child, which takes the stdio copies and the original pair
//!    with it;
//! 6. a second copy of the master for writes, marked close-on-exec, and both
//!    copies switched to non-blocking mode and registered with the reactor.
//!
//! Every copy but the one for writes is close-on-exec from the start.
//!
//! A session over blocking files ([`Setup::blocking`]) resolves the script
//! only once the terminal is there, and ends with the close-on-exec mark.
//!
//! After that the parent holds two master descriptors and no slave at all
//! ([`law_parent_keeps_no_slave`]): the end of the output depends on the
//! child's session alone. Both are close-on-exec, so that no later child
//! inherits them ([`law_no_child_inherits_a_descriptor`]).

use vstd::prelude::*;

use crate::backend::unix::{term_size, TermSize};
use crate::pty::WindowSize;

verus! {

/// Slot of the master that `openpty` returns.
pub const PAIR_MASTER: usize = 0;

/// Slot of the slave that `openpty` returns.
pub const PAIR_SLAVE: usize = 1;

/// Slot of the child's standard input.
pub const CHILD_STDIN: usize = 2;

/// Slot of the child's standard error.
pub const CHILD_STDERR: usize = 3;

/// Slot of the child's standard output.
pub const CHILD_STDOUT: usize = 4;

/// Slot of the master that the parent reads from.
pub const READER: usize = 5;

/// Slot of the master that the parent writes to.
pub const WRITER: usize = 6;

/// How many slots there are.
pub const SLOTS: usize = 7;

/// A call to make while a session is opened.
#[derive(Debug, Clone, Copy, PartialEq, Eq, Structural)]
pub enum SetupCall {
    /// Resolve the script to the command that the child runs.
    Resolve,
    /// Open a pair into [`PAIR_MASTER`] and [`PAIR_SLAVE`], both
    /// close-on-exec.
    OpenPty(TermSize),
    /// Mark the terminal of a master as UTF-8.
    MarkUtf8(usize),
    /// Duplicate the descriptor of the first slot into the second. The copy
    /// is close-on-exec.
    Duplicate(usize, usize),
    /// Duplicate the descriptor of the first slot into the second. The copy
    /// is not close-on-exec.
    DuplicatePlain(usize, usize),
    /// Spawn the command on [`CHILD_STDIN`], [`CHILD_STDERR`] and
    /// [`CHILD_STDOUT`], as the leader of a new session with the slave of the
    /// pair as its controlling terminal. The pair and the three copies go to
    /// the child: the parent closes its own.
    Spawn,
    /// Make the descriptor close-on-exec, which keeps it out of later
    /// children.
    MarkCloexec(usize),
    /// Switch the descriptor, and with it every copy of it, to non-blocking
    /// mode.
    MakeNonblocking(usize),
    /// Register the descriptor with the reactor.
    Register(usize),
}

/// What comes next.
#[derive(Debug, Clone, Copy, PartialEq, Eq, Structural)]
pub enum SetupStep {
    /// Make this call.
    Call(SetupCall),
    /// The session is open on [`READER`] and [`WRITER`].
    Open,
    /// A call failed: drop what is held and report its error.
    Failed,
}

/// The calls of a session with this window size, in order.
pub open spec fn session_calls(size: TermSize) -> Seq<SetupCall> {
    seq![
        SetupCall::Resolve,
        SetupCall::OpenPty(size),
        SetupCall::MarkUtf8(PAIR_MASTER),
        SetupCall::Duplicate(PAIR_SLAVE, CHILD_STDIN),
        SetupCall::Duplicate(PAIR_SLAVE, CHILD_STDERR),
        SetupCall::Duplicate(PAIR_SLAVE, CHILD_STDOUT),
        SetupCall::Duplicate(PAIR_MASTER, READER),
        SetupCall::Spawn,
        SetupCall::DuplicatePlain(READER, WRITER),
        SetupCall::MarkCloexec(WRITER),
        SetupCall::MakeNonblocking(WRITER),
        SetupCall::Register(WRITER),
        SetupCall::MakeNonblocking(READER),
        SetupCall::Register(READER),
    ]
}

/// The calls of a session over blocking files, in order.
pub open spec fn blocking_calls(size: TermSize) -> Seq<SetupCall> {
    seq![
        SetupCall::OpenPty(size),
        SetupCall::MarkUtf8(PAIR_MASTER),
        SetupCall::Resolve,
        SetupCall::Duplicate(PAIR_SLAVE, CHILD_STDIN),
        SetupCall::Duplicate(PAIR_SLAVE, CHILD_STDERR),
        SetupCall::Duplicate(PAIR_SLAVE, CHILD_STDOUT),
        SetupCall::Duplicate(PAIR_MASTER, READER),
        SetupCall::Spawn,
        SetupCall::DuplicatePlain(READER, WRITER),
        SetupCall::MarkCloexec(WRITER),
    ]
}

/// Whether these calls open exactly one terminal, with the rows and columns of
/// the window and without pixel dimensions.
pub open spec fn opens_once(calls: Seq<SetupCall>, window: WindowSize) -> bool {
    exists|n: int|
        0 <= n < calls.len() && (#[trigger] calls[n]) == SetupCall::OpenPty(
            TermSize { ws_row: window.rows, ws_col: window.cols, ws_xpixel: 0, ws_ypixel: 0 },
        ) && forall|m: int| 0 <= m < calls.len() && (#[trigger] calls[m]) is OpenPty ==> m == n
}

/// Whether a session goes on although this call failed.
pub open spec fn may_fail(call: SetupCall) -> bool {
    call is MarkUtf8
}

/// A session that is being opened.
#[derive(Debug)]
pub struct Setup {
    calls: Vec<SetupCall>,
    made: usize,
    failed: bool,
}

/// How far a session is.
pub struct SetupView {
    /// The calls it takes.
    pub calls: Seq<SetupCall>,
    /// How many of them have been made.
    pub made: nat,
    /// Whether the last one failed for good.
    pub failed: bool,
}

impl SetupView {
    /// Where a session starts.
    pub open spec fn start(calls: Seq<SetupCall>) -> SetupView {
        SetupView { calls, made: 0, failed: false }
    }

    /// What comes next.
    pub open spec fn next(self) -> SetupStep {
        if self.failed {
            SetupStep::Failed
        } else if self.made < self.calls.len() {
            SetupStep::Call(self.calls[self.made as int])
        } else {
            SetupStep::Open
        }
    }

    /// How far the session is once the next call has been made with this
    /// result. Without a call to make nothing changes.
    pub open spec fn after(self, ok: bool) -> SetupView {
        match self.next() {
            SetupStep::Call(call) => SetupView {
                made: self.made + 1,
                failed: !ok && !may_fail(call),
                ..self
            },
            _ => self,
        }
    }

    /// How far the session is after a series of calls with these results.
    pub open spec fn after_all(self, results: Seq<bool>) -> SetupView
        decreases results.len(),
    {
        if results.len() == 0 {
            self
        } else {
            self.after(results[0]).after_all(results.skip(1))
        }
    }
}

impl View for Setup {
    type V = SetupView;

    closed spec fn view(&self) -> SetupView {
        SetupView { calls: self.calls@, made: self.made as nat, failed: self.failed }
    }
}

impl Setup {
    /// A session with a window of this size, of which nothing is open yet.
    pub fn new(window: WindowSize) -> (setup: Setup)
        ensures
            setup@ == SetupView::start(
                session_calls(
                    TermSize {
                        ws_row: window.rows,
                        ws_col: window.cols,
                        ws_xpixel: 0,
                        ws_ypixel: 0,
                    },
                ),
            ),
            opens_once(setup@.calls, window),
    {
        let size: TermSize = term_size(window);
        let calls: Vec<SetupCall> =
            vec![
            SetupCall::Resolve,
            SetupCall::OpenPty(size),
            SetupCall::MarkUtf8(PAIR_MASTER),
            SetupCall::Duplicate(PAIR_SLAVE, CHILD_STDIN),
            SetupCall::Duplicate(PAIR_SLAVE, CHILD_STDERR),
            SetupCall::Duplicate(PAIR_SLAVE, CHILD_STDOUT),
            SetupCall::Duplicate(PAIR_MASTER, READER),
            SetupCall::Spawn,
            SetupCall::DuplicatePlain(READER, WRITER),
            SetupCall::MarkCloexec(WRITER),
            SetupCall::MakeNonblocking(WRITER),
            SetupCall::Register(WRITER),
            SetupCall::MakeNonblocking(READER),
            SetupCall::Register(READER),
        ];
        assert(calls@ == session_calls(size));
        assert(calls@[1] == SetupCall::OpenPty(size));
        Setup { calls, made: 0, failed: false }
    }

    /// A session over blocking files with a window of this size, of which
    /// nothing is open yet.
    pub fn blocking(window: WindowSize) -> (setup: Setup)
        ensures
            setup@ == SetupView::start(
                blocking_calls(
                    TermSize {
                        ws_row: window.rows,
                        ws_col: window.cols,
                        ws_xpixel: 0,
                        ws_ypixel: 0,
                    },
                ),
            ),
            opens_once(setup@.calls, window),
    {
        let size: TermSize = term_size(window);
        let calls: Vec<SetupCall> =
            vec![
            SetupCall::OpenPty(size),
            SetupCall::MarkUtf8(PAIR_MASTER),
            SetupCall::Resolve,
            SetupCall::Duplicate(PAIR_SLAVE, CHILD_STDIN),
            SetupCall::Duplicate(PAIR_SLAVE, CHILD_STDERR),
            SetupCall::Duplicate(PAIR_SLAVE, CHILD_STDOUT),
            SetupCall::Duplicate(PAIR_MASTER, READER),
            SetupCall::Spawn,
            SetupCall::DuplicatePlain(READER, WRITER),
            SetupCall::MarkCloexec(WRITER),
        ];
        assert(calls@ == blocking_calls(size));
        assert(calls@[0] == SetupCall::OpenPty(size));
        Setup { calls, made: 0, failed: false }
    }

    /// What comes next.
    pub fn next(&self) -> (step: SetupStep)
        ensures
            step == self@.next(),
    {
        if self.failed {
            SetupStep::Failed
        } else if self.made < self.calls.len() {
            SetupStep::Call(self.calls[self.made])
        } else {
            SetupStep::Open
        }
    }

    /// Goes on after the call that came next, which worked or did not.
    pub fn on_result(&mut self, ok: bool)
        ensures
            final(self)@ == old(self)@.after(ok),
    {
        if !self.failed && self.made < self.calls.len() {
            self.failed = match self.calls[self.made] {
                SetupCall::MarkUtf8(_) => false,
                _ => !ok,
            };
            self.made = self.made + 1;
        }
    }
}

// ---------------------------------------------------------------------
// What the parent holds
// ---------------------------------------------------------------------
/// The two sides of a pty.
pub enum Side {
    /// The side a parent talks to.
    Master,
    /// The side a child is attached to.
    Slave,
}

/// A descriptor of the parent.
pub struct Descriptor {
    /// The side of the pty it refers to.
    pub side: Side,
    /// Whether it is close-on-exec: a later child does not inherit it.
    pub cloexec: bool,
}

/// What the parent holds of a session that is being opened.
pub struct Held {
    /// Whether the script has been resolved.
    pub command: bool,
    /// The descriptors, by slot.
    pub slots: Map<usize, Descriptor>,
    /// Whether the master is in non-blocking mode, which all of its
    /// descriptors share.
    pub nonblocking: bool,
}

/// Whether a slot holds a descriptor of this side.
pub open spec fn holds(held: Held, slot: usize, side: Side) -> bool {
    held.slots.contains_key(slot) && held.slots[slot].side == side
}

/// Whether every descriptor that the parent holds is close-on-exec.
pub open spec fn all_cloexec(held: Held) -> bool {
    forall|slot: usize| #[trigger] held.slots.contains_key(slot) ==> held.slots[slot].cloexec
}

/// Whether a call finds what it works on, and puts nothing over a descriptor.
pub open spec fn possible(held: Held, call: SetupCall) -> bool {
    match call {
        SetupCall::Resolve => !held.command,
        SetupCall::OpenPty(_) => !held.slots.contains_key(PAIR_MASTER)
            && !held.slots.contains_key(PAIR_SLAVE),
        SetupCall::MarkUtf8(slot) => holds(held, slot, Side::Master),
        SetupCall::Duplicate(from, to) => held.slots.contains_key(from)
            && !held.slots.contains_key(to) && to < SLOTS,
        SetupCall::DuplicatePlain(from, to) => held.slots.contains_key(from)
            && !held.slots.contains_key(to) && to < SLOTS,
        SetupCall::Spawn => {
            &&& held.command
            &&& holds(held, PAIR_MASTER, Side::Master)
            &&& holds(held, PAIR_SLAVE, Side::Slave)
            &&& holds(held, CHILD_STDIN, Side::Slave)
            &&& holds(held, CHILD_STDERR, Side::Slave)
            &&& holds(held, CHILD_STDOUT, Side::Slave)
        },
        SetupCall::MarkCloexec(slot) => holds(held, slot, Side::Master),
        SetupCall::MakeNonblocking(slot) => holds(held, slot, Side::Master),
        SetupCall::Register(slot) => holds(held, slot, Side::Master),
    }
}

/// What the parent holds after a call that worked.
pub open spec fn held_after(held: Held, call: SetupCall) -> Held {
    match call {
        SetupCall::Resolve => Held { command: true, ..held },
        SetupCall::OpenPty(_) => Held {
            slots: held.slots.insert(
                PAIR_MASTER,
                Descriptor { side: Side::Master, cloexec: true },
            ).insert(PAIR_SLAVE, Descriptor { side: Side::Slave, cloexec: true }),
            ..held
        },
        SetupCall::Duplicate(from, to) => Held {
            slots: held.slots.insert(to, Descriptor { cloexec: true, ..held.slots[from] }),
            ..held
        },
        SetupCall::DuplicatePlain(from, to) => Held {
            slots: held.slots.insert(to, Descriptor { cloexec: false, ..held.slots[from] }),
            ..held
        },
        SetupCall::Spawn => Held {
            command: false,
            slots: held.slots.remove(PAIR_MASTER).remove(PAIR_SLAVE).remove(CHILD_STDIN).remove(
                CHILD_STDERR,
            ).remove(CHILD_STDOUT),
            ..held
        },
        SetupCall::MarkCloexec(slot) => Held {
            slots: held.slots.insert(slot, Descriptor { cloexec: true, ..held.slots[slot] }),
            ..held
        },
        SetupCall::MakeNonblocking(_) => Held { nonblocking: true, ..held },
        SetupCall::MarkUtf8(_) | SetupCall::Register(_) => held,
    }
}

/// What the parent holds after the first `made` calls.
pub open spec fn held_by_parent(calls: Seq<SetupCall>, made: nat) -> Held
    decreases made,
{
    if made == 0 {
        Held { command: false, slots: Map::empty(), nonblocking: false }
    } else {
        held_after(held_by_parent(calls, (made - 1) as nat), calls[made as int - 1])
    }
}

/// Whether every call of `calls` is possible, everything is close-on-exec when
/// the child is spawned, and at the end the parent holds the two masters,
/// both close-on-exec, and nothing else.
spec fn sound(calls: Seq<SetupCall>) -> bool {
    let end = held_by_parent(calls, calls.len());
    &&& forall|made: nat|
        made < calls.len() ==> possible(
            #[trigger] held_by_parent(calls, made),
            calls[made as int],
        )
    &&& forall|made: nat|
        made < calls.len() && calls[made as int] is Spawn ==> all_cloexec(
            #[trigger] held_by_parent(calls, made),
        )
    &&& end.slots.dom() == set![READER, WRITER]
    &&& end.slots[READER] == (Descriptor { side: Side::Master, cloexec: true })
    &&& end.slots[WRITER] == (Descriptor { side: Side::Master, cloexec: true })
}

/// One more call adds what [`held_after`] says.
proof fn lemma_held_next(calls: Seq<SetupCall>, made: nat)
    ensures
        held_by_parent(calls, made + 1) == held_after(
            held_by_parent(calls, made),
            calls[made as int],
        ),
{
}

/// A master that no child inherits.
spec fn master() -> Descriptor {
    Descriptor { side: Side::Master, cloexec: true }
}

/// A slave that no child inherits.
spec fn slave() -> Descriptor {
    Descriptor { side: Side::Slave, cloexec: true }
}

/// The descriptors that the parent holds when it spawns the child.
spec fn slots_before_spawn() -> Map<usize, Descriptor> {
    map![
        PAIR_MASTER => master(),
        PAIR_SLAVE => slave(),
        CHILD_STDIN => slave(),
        CHILD_STDERR => slave(),
        CHILD_STDOUT => slave(),
        READER => master(),
    ]
}

/// From an open pair and a resolved script to the spawned child and the
/// second master: the part that both kinds of session share.
proof fn lemma_middle(calls: Seq<SetupCall>, size: TermSize)
    requires
        calls.len() >= 10,
        forall|i: int| 3 <= i < 10 ==> #[trigger] calls[i] == blocking_calls(size)[i],
        held_by_parent(calls, 3) == (Held {
            command: true,
            slots: map![PAIR_MASTER => master(), PAIR_SLAVE => slave()],
            nonblocking: false,
        }),
    ensures
        forall|made: nat|
            3 <= made < 10 ==> possible(
                #[trigger] held_by_parent(calls, made),
                calls[made as int],
            ),
        all_cloexec(held_by_parent(calls, 7)),
        held_by_parent(calls, 10) == (Held {
            command: false,
            slots: map![READER => master(), WRITER => master()],
            nonblocking: false,
        }),
{
    let wanted = blocking_calls(size);
    assert(forall|i: int| 3 <= i < 10 ==> #[trigger] calls[i] == wanted[i]);
    lemma_held_next(calls, 3);
    lemma_held_next(calls, 4);
    lemma_held_next(calls, 5);
    lemma_held_next(calls, 6);
    assert(held_by_parent(calls, 7).slots =~= slots_before_spawn());
    lemma_held_next(calls, 7);
    assert(held_by_parent(calls, 8).slots =~= map![READER => master()]);
    lemma_held_next(calls, 8);
    lemma_held_next(calls, 9);
    assert(held_by_parent(calls, 10).slots =~= map![READER => master(), WRITER => master()]);
    assert forall|made: nat| 3 <= made < 10 implies possible(
        #[trigger] held_by_parent(calls, made),
        calls[made as int],
    ) by {
        assert(made == 3 || made == 4 || made == 5 || made == 6 || made == 7 || made == 8 || made
            == 9);
    }
}

/// The calls of a session, one by one.
proof fn lemma_session(size: TermSize)
    ensures
        sound(session_calls(size)),
        held_by_parent(session_calls(size), 14).nonblocking,
{
    let calls = session_calls(size);
    lemma_held_next(calls, 0);
    lemma_held_next(calls, 1);
    lemma_held_next(calls, 2);
    assert(held_by_parent(calls, 3).slots =~= map![
        PAIR_MASTER => master(),
        PAIR_SLAVE => slave(),
    ]);
    lemma_middle(calls, size);
    lemma_held_next(calls, 10);
    lemma_held_next(calls, 11);
    lemma_held_next(calls, 12);
    lemma_held_next(calls, 13);
    assert(held_by_parent(calls, 14).slots.dom() =~= set![READER, WRITER]);
    assert forall|made: nat| made < calls.len() implies possible(
        #[trigger] held_by_parent(calls, made),
        calls[made as int],
    ) by {
        assert(made == 0 || made == 1 || made == 2 || 3 <= made < 10 || made == 10 || made == 11
            || made == 12 || made == 13);
    }
}

/// The calls of a session over blocking files, one by one.
proof fn lemma_blocking(size: TermSize)
    ensures
        sound(blocking_calls(size)),
        !held_by_parent(blocking_calls(size), 10).nonblocking,
{
    let calls = blocking_calls(size);
    lemma_held_next(calls, 0);
    lemma_held_next(calls, 1);
    lemma_held_next(calls, 2);
    assert(held_by_parent(calls, 3).slots =~= map![
        PAIR_MASTER => master(),
        PAIR_SLAVE => slave(),
    ]);
    lemma_middle(calls, size);
    assert(held_by_parent(calls, 10).slots.dom() =~= set![READER, WRITER]);
    assert forall|made: nat| made < calls.len() implies possible(
        #[trigger] held_by_parent(calls, made),
        calls[made as int],
    ) by {
        assert(made == 0 || made == 1 || made == 2 || 3 <= made < 10);
    }
}

/// Every call finds what it works on, if the calls before it worked; above
/// all, the script is resolved and the child's three stdio descriptors are
/// slaves when the child is spawned.
pub proof fn law_calls_find_their_descriptors(size: TermSize, calls: Seq<SetupCall>, made: nat)
    requires
        calls == session_calls(size) || calls == blocking_calls(size),
        made < calls.len(),
    ensures
        possible(held_by_parent(calls, made), calls[made as int]),
{
    lemma_session(size);
    lemma_blocking(size);
    assert(possible(held_by_parent(calls, made), calls[made as int]));
}

/// Once a session is open the parent holds exactly two descriptors of it,
/// both of them masters: no slave of its own keeps the output from ending.
pub proof fn law_parent_keeps_no_slave(size: TermSize, calls: Seq<SetupCall>)
    requires
        calls == session_calls(size) || calls == blocking_calls(size),
    ensures
        held_by_parent(calls, calls.len()).slots.dom() == set![READER, WRITER],
        holds(held_by_parent(calls, calls.len()), READER, Side::Master),
        holds(held_by_parent(calls, calls.len()), WRITER, Side::Master),
{
    lemma_session(size);
    lemma_blocking(size);
}

/// No child inherits a descriptor of the parent: all that the parent holds are
/// close-on-exec when the child is spawned, which keeps the parent's own
/// master and the pair from its program, and again once the session is open,
/// which keeps both masters from every later child.
pub proof fn law_no_child_inherits_a_descriptor(
    size: TermSize,
    calls: Seq<SetupCall>,
    made: nat,
)
    requires
        calls == session_calls(size) || calls == blocking_calls(size),
        made == calls.len() || (made < calls.len() && calls[made as int] is Spawn),
    ensures
        all_cloexec(held_by_parent(calls, made)),
{
    lemma_session(size);
    lemma_blocking(size);
    let held = held_by_parent(calls, made);
    if made == calls.len() {
        assert forall|slot: usize| #[trigger]
            held.slots.contains_key(slot) implies held.slots[slot].cloexec by {
            assert(set![READER, WRITER].contains(slot));
        }
    }
}

/// Once a session is open its master is in non-blocking mode, for the reading
/// and for the writing descriptor; over blocking files it is not.
pub proof fn law_reactor_gets_a_nonblocking_master(size: TermSize)
    ensures
        held_by_parent(session_calls(size), session_calls(size).len()).nonblocking,
        !held_by_parent(blocking_calls(size), blocking_calls(size).len()).nonblocking,
{
    lemma_session(size);
    lemma_blocking(size);
}

/// A session is open if and only if every call was made and worked, except
/// that the terminal may refuse to be marked as UTF-8.
pub proof fn law_open_means_all_worked(calls: Seq<SetupCall>, results: Seq<bool>)
    requires
        results.len() == calls.len(),
    ensures
        SetupView::start(calls).after_all(results).next() == SetupStep::Open <==> forall|i: int|
            0 <= i < calls.len() ==> (#[trigger] results[i] || may_fail(calls[i])),
{
    lemma_after_all(SetupView::start(calls), results);
}

/// [`law_open_means_all_worked`] from any call on.
proof fn lemma_after_all(view: SetupView, results: Seq<bool>)
    requires
        !view.failed,
        view.made + results.len() == view.calls.len(),
    ensures
        view.after_all(results).next() == SetupStep::Open <==> forall|i: int|
            0 <= i < results.len() ==> (#[trigger] results[i] || may_fail(
                view.calls[view.made + i],
            )),
    decreases results.len(),
{
    if results.len() > 0 {
        let next = view.after(results[0]);
        let rest = results.skip(1);
        let call = view.calls[view.made as int];
        if next.failed {
            lemma_failed_stays(next, rest);
            assert(!results[0] && !may_fail(call));
        } else {
            lemma_after_all(next, rest);
            assert(results[0] || may_fail(call));
            if forall|i: int|
                0 <= i < rest.len() ==> (#[trigger] rest[i] || may_fail(
                    next.calls[next.made + i],
                )) {
                assert forall|i: int| 0 <= i < results.len() implies (#[trigger] results[i]
                    || may_fail(view.calls[view.made + i])) by {
                    if i > 0 {
                        assert(rest[i - 1] == results[i]);
                    }
                }
            } else {
                let i = choose|i: int|
                    0 <= i < rest.len() && !(#[trigger] rest[i] || may_fail(
                        next.calls[next.made + i],
                    ));
                assert(!(results[i + 1] || may_fail(view.calls[view.made + (i + 1)])));
            }
        }
    }
}

/// A failed session stays failed: no further call is made.
proof fn lemma_failed_stays(view: SetupView, results: Seq<bool>)
    requires
        view.failed,
    ensures
        view.after_all(results) == view,
    decreases results.len(),
{
    if results.len() > 0 {
        lemma_failed_stays(view, results.skip(1));
    }
}

/// The results of `n` calls that all worked.
pub open spec fn all_worked(n: nat) -> Seq<bool> {
    Seq::new(n, |i: int| true)
}

/// Calls that all work are counted.
proof fn lemma_all_worked(view: SetupView, n: nat)
    requires
        !view.failed,
        view.made <= view.calls.len(),
    ensures
        view.after_all(all_worked(n)) == (SetupView {
            made: if view.made + n <= view.calls.len() {
                view.made + n
            } else {
                view.calls.len()
            },
            ..view
        }),
    decreases n,
{
    if n > 0 {
        assert(all_worked(n).skip(1) == all_worked((n - 1) as nat));
        lemma_all_worked(view.after(true), (n - 1) as nat);
    }
}

/// As long as the calls work, they come one after the other in their order,
/// and the session is open when the last one has worked, and no sooner.
pub proof fn law_calls_come_in_order(calls: Seq<SetupCall>, n: nat)
    ensures
        n < calls.len() ==> SetupView::start(calls).after_all(all_worked(n)).next()
            == SetupStep::Call(calls[n as int]),
        n >= calls.len() ==> SetupView::start(calls).after_all(all_worked(n)).next()
            == SetupStep::Open,
{
    lemma_all_worked(SetupView::start(calls), n);
}

/// A call that fails ends the session, and the mark as UTF-8 is the only call
/// of which the result does not matter. A session that has ended makes no
/// further call.
pub proof fn law_failed_call_ends_the_session(view: SetupView, ok: bool)
    requires
        view.made < view.calls.len(),
    ensures
        !view.failed && !(view.calls[view.made as int] is MarkUtf8) ==> view.after(false).next()
            == SetupStep::Failed,
        !view.failed && view.calls[view.made as int] is MarkUtf8 ==> view.after(false)
            == view.after(true),
        !view.failed ==> view.after(true) == (SetupView { made: view.made + 1, ..view }),
        view.failed ==> view.next() == SetupStep::Failed && view.after(ok) == view,
{
}

/// The terminal has the requested window: of the calls that a session makes,
/// exactly one opens a terminal, and its rows and columns are those of the
/// window. This holds of both kinds of session.
pub proof fn law_terminal_has_the_requested_window(window: WindowSize, calls: Seq<SetupCall>)
    requires
        calls == session_calls(
            TermSize { ws_row: window.rows, ws_col: window.cols, ws_xpixel: 0, ws_ypixel: 0 },
        ) || calls == blocking_calls(
            TermSize { ws_row: window.rows, ws_col: window.cols, ws_xpixel: 0, ws_ypixel: 0 },
        ),
    ensures
        exists|n: nat| #[trigger]
            SetupView::start(calls).after_all(all_worked(n)).next() matches SetupStep::Call(
                SetupCall::OpenPty(_),
            ),
        forall|n: nat|
            #[trigger] SetupView::start(calls).after_all(all_worked(n)).next() matches
                SetupStep::Call(SetupCall::OpenPty(size)) ==> size.ws_row == window.rows && size.ws_col == window.cols && size.ws_xpixel == 0
                && size.ws_ypixel == 0,
        forall|n: nat, m: nat|
            (#[trigger] SetupView::start(calls).after_all(all_worked(n)).next() matches
                SetupStep::Call(SetupCall::OpenPty(_))) && (#[trigger] SetupView::start(
                calls,
            ).after_all(all_worked(m)).next() matches SetupStep::Call(SetupCall::OpenPty(_)))
                ==> n == m,
{
    let start = SetupView::start(calls);
    assert forall|n: nat| true implies (#[trigger] start.after_all(all_worked(n)).next() == if n
        < calls.len() {
        SetupStep::Call(calls[n as int])
    } else {
        SetupStep::Open
    }) by {
        law_calls_come_in_order(calls, n);
    }
    if calls[0] is OpenPty {
        assert(start.after_all(all_worked(0)).next() == SetupStep::Call(calls[0]));
    } else {
        assert(start.after_all(all_worked(1)).next() == SetupStep::Call(calls[1]));
    }
}

/// The size of the window matters to the terminal alone: sessions with
/// different windows make the same calls on the same slots, but for the one
/// that opens the terminal.
pub proof fn law_window_matters_to_the_terminal_alone(a: TermSize, b: TermSize, i: int)
    ensures
        session_calls(a).len() == session_calls(b).len(),
        blocking_calls(a).len() == blocking_calls(b).len(),
        0 <= i < session_calls(a).len() ==> session_calls(a)[i] == session_calls(b)[i] || (
        session_calls(a)[i] == SetupCall::OpenPty(a) && session_calls(b)[i] == SetupCall::OpenPty(
            b,
        )),
        0 <= i < blocking_calls(a).len() ==> blocking_calls(a)[i] == blocking_calls(b)[i] || (
        blocking_calls(a)[i] == SetupCall::OpenPty(a) && blocking_calls(b)[i]
            == SetupCall::OpenPty(b)),
{
}

} // verus!
