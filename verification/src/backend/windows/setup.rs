//! Opening a session on Windows, step by step.
//!
//! [`WinSetup`] says which call comes next, and goes on or takes everything
//! back depending on how the call went:
//! 1. resolve the script to a program and its arguments;
//! 2. a pipe for the output of the console and one for its input;
//! 3. the pseudoconsole, on the far ends of the pipes;
//! 4. the attribute list that attaches a process to the pseudoconsole;
//! 5. the absolute path of the program, and the process;
//! 6. closing what only the start of the process needed: the attribute list,
//!    the far ends (the pseudoconsole has its own copies of them) and the
//!    primary thread of the process.
//!
//! When a call fails, every handle that is open is closed, the latest first,
//! before the error is reported. No handle is closed twice and none is left
//! behind ([`law_handles_are_closed_once`], [`law_open_session_holds`]).

use vstd::prelude::*;

use crate::backend::windows::ctl::{coord, coord_of, Coord};
use crate::pty::WindowSize;

verus! {

/// Something that has to be closed.
#[derive(Debug, Clone, Copy, PartialEq, Eq, Structural)]
pub enum Handle {
    /// The end of the output pipe that the parent reads from.
    ConoutNear,
    /// The end of the output pipe that the console writes to.
    ConoutFar,
    /// The end of the input pipe that the console reads from.
    ConinFar,
    /// The end of the input pipe that the parent writes to.
    ConinNear,
    /// The pseudoconsole.
    Console,
    /// The attribute list for the start of the process.
    Attributes,
    /// The primary thread of the process.
    Thread,
    /// The process.
    Process,
}

/// A call to make while a session is opened.
#[derive(Debug, Clone, Copy, PartialEq, Eq, Structural)]
pub enum WinCall {
    /// Resolve the script to the command that the child runs.
    Resolve,
    /// Create the pipe for the output of the console.
    CreateOutputPipe,
    /// Create the pipe for the input of the console.
    CreateInputPipe,
    /// Create a pseudoconsole of this size on the far ends of the pipes.
    CreateConsole(Coord),
    /// Initialize an attribute list of one entry.
    InitAttributes,
    /// Put the pseudoconsole into the attribute list.
    AttachConsole,
    /// Search for the program.
    FindProgram,
    /// Create the process, with the attribute list.
    CreateProcess,
    /// Close this handle.
    Close(Handle),
}

/// What comes next.
#[derive(Debug, Clone, Copy, PartialEq, Eq, Structural)]
pub enum WinStep {
    /// Make this call.
    Call(WinCall),
    /// The session is open.
    Open,
    /// A call failed and nothing is open any more: report its error.
    Failed,
}

/// The calls of a session with a console of this size, in order.
pub open spec fn win_calls(size: Coord) -> Seq<WinCall> {
    seq![
        WinCall::Resolve,
        WinCall::CreateOutputPipe,
        WinCall::CreateInputPipe,
        WinCall::CreateConsole(size),
        WinCall::InitAttributes,
        WinCall::AttachConsole,
        WinCall::FindProgram,
        WinCall::CreateProcess,
        WinCall::Close(Handle::Attributes),
        WinCall::Close(Handle::ConoutFar),
        WinCall::Close(Handle::ConinFar),
        WinCall::Close(Handle::Thread),
    ]
}

/// The handles that a call opens when it works.
pub open spec fn opened_by(call: WinCall) -> Set<Handle> {
    match call {
        WinCall::CreateOutputPipe => set![Handle::ConoutNear, Handle::ConoutFar],
        WinCall::CreateInputPipe => set![Handle::ConinFar, Handle::ConinNear],
        WinCall::CreateConsole(_) => set![Handle::Console],
        WinCall::InitAttributes => set![Handle::Attributes],
        WinCall::CreateProcess => set![Handle::Thread, Handle::Process],
        _ => Set::empty(),
    }
}

/// The handles that are open after a call that worked.
pub open spec fn open_after(open: Set<Handle>, call: WinCall) -> Set<Handle> {
    match call {
        WinCall::Close(handle) => open.remove(handle),
        _ => open.union(opened_by(call)),
    }
}

/// The handle to close next when everything is taken back: the latest.
pub open spec fn latest(open: Set<Handle>) -> Option<Handle> {
    if open.contains(Handle::Process) {
        Some(Handle::Process)
    } else if open.contains(Handle::Thread) {
        Some(Handle::Thread)
    } else if open.contains(Handle::Attributes) {
        Some(Handle::Attributes)
    } else if open.contains(Handle::Console) {
        Some(Handle::Console)
    } else if open.contains(Handle::ConinNear) {
        Some(Handle::ConinNear)
    } else if open.contains(Handle::ConinFar) {
        Some(Handle::ConinFar)
    } else if open.contains(Handle::ConoutFar) {
        Some(Handle::ConoutFar)
    } else if open.contains(Handle::ConoutNear) {
        Some(Handle::ConoutNear)
    } else {
        None
    }
}

// ---------------------------------------------------------------------
// Open handles
// ---------------------------------------------------------------------
/// Which handles are open.
#[derive(Debug, Clone, Copy)]
struct OpenHandles {
    conout_near: bool,
    conout_far: bool,
    conin_far: bool,
    conin_near: bool,
    console: bool,
    attributes: bool,
    thread: bool,
    process: bool,
}

impl OpenHandles {
    spec fn has(self, handle: Handle) -> bool {
        match handle {
            Handle::ConoutNear => self.conout_near,
            Handle::ConoutFar => self.conout_far,
            Handle::ConinFar => self.conin_far,
            Handle::ConinNear => self.conin_near,
            Handle::Console => self.console,
            Handle::Attributes => self.attributes,
            Handle::Thread => self.thread,
            Handle::Process => self.process,
        }
    }

    spec fn view(self) -> Set<Handle> {
        Set::new(|handle: Handle| self.has(handle))
    }

    fn none() -> (open: OpenHandles)
        ensures
            open.view() == Set::<Handle>::empty(),
    {
        let open = OpenHandles {
            conout_near: false,
            conout_far: false,
            conin_far: false,
            conin_near: false,
            console: false,
            attributes: false,
            thread: false,
            process: false,
        };
        assert(open.view() =~= Set::<Handle>::empty());
        open
    }

    fn mark(&mut self, handle: Handle, open: bool)
        ensures
            open ==> final(self).view() == old(self).view().insert(handle),
            !open ==> final(self).view() == old(self).view().remove(handle),
    {
        let ghost before = self.view();
        match handle {
            Handle::ConoutNear => self.conout_near = open,
            Handle::ConoutFar => self.conout_far = open,
            Handle::ConinFar => self.conin_far = open,
            Handle::ConinNear => self.conin_near = open,
            Handle::Console => self.console = open,
            Handle::Attributes => self.attributes = open,
            Handle::Thread => self.thread = open,
            Handle::Process => self.process = open,
        }
        assert(open ==> self.view() =~= before.insert(handle));
        assert(!open ==> self.view() =~= before.remove(handle));
    }

    fn latest(&self) -> (handle: Option<Handle>)
        ensures
            handle == latest(self.view()),
    {
        if self.process {
            Some(Handle::Process)
        } else if self.thread {
            Some(Handle::Thread)
        } else if self.attributes {
            Some(Handle::Attributes)
        } else if self.console {
            Some(Handle::Console)
        } else if self.conin_near {
            Some(Handle::ConinNear)
        } else if self.conin_far {
            Some(Handle::ConinFar)
        } else if self.conout_far {
            Some(Handle::ConoutFar)
        } else if self.conout_near {
            Some(Handle::ConoutNear)
        } else {
            None
        }
    }

    fn apply(&mut self, call: WinCall)
        ensures
            final(self).view() == open_after(old(self).view(), call),
    {
        let ghost before = self.view();
        match call {
            WinCall::CreateOutputPipe => {
                self.mark(Handle::ConoutNear, true);
                self.mark(Handle::ConoutFar, true);
            },
            WinCall::CreateInputPipe => {
                self.mark(Handle::ConinFar, true);
                self.mark(Handle::ConinNear, true);
            },
            WinCall::CreateConsole(_) => self.mark(Handle::Console, true),
            WinCall::InitAttributes => self.mark(Handle::Attributes, true),
            WinCall::CreateProcess => {
                self.mark(Handle::Thread, true);
                self.mark(Handle::Process, true);
            },
            WinCall::Close(handle) => self.mark(handle, false),
            WinCall::Resolve | WinCall::AttachConsole | WinCall::FindProgram => {},
        }
        assert(self.view() =~= open_after(before, call));
    }
}

// ---------------------------------------------------------------------
// The session
// ---------------------------------------------------------------------
/// A session that is being opened.
#[derive(Debug)]
pub struct WinSetup {
    calls: Vec<WinCall>,
    made: usize,
    failed: bool,
    open: OpenHandles,
}

/// How far a session is.
#[verifier::ext_equal]
pub struct WinSetupView {
    /// The calls it takes.
    pub calls: Seq<WinCall>,
    /// How many of them have worked.
    pub made: nat,
    /// Whether one of them failed.
    pub failed: bool,
    /// The handles that are open.
    pub open: Set<Handle>,
}

impl WinSetupView {
    /// Where a session starts.
    pub open spec fn start(size: Coord) -> WinSetupView {
        WinSetupView { calls: win_calls(size), made: 0, failed: false, open: Set::empty() }
    }

    /// What comes next.
    pub open spec fn next(self) -> WinStep {
        if self.failed {
            match latest(self.open) {
                Some(handle) => WinStep::Call(WinCall::Close(handle)),
                None => WinStep::Failed,
            }
        } else if self.made < self.calls.len() {
            WinStep::Call(self.calls[self.made as int])
        } else {
            WinStep::Open
        }
    }

    /// How far the session is once the next call has been made with this
    /// result. A handle counts as closed however the call to close it went.
    /// Without a call to make nothing changes.
    pub open spec fn after(self, ok: bool) -> WinSetupView {
        match self.next() {
            WinStep::Call(call) => if self.failed {
                WinSetupView { open: open_after(self.open, call), ..self }
            } else if ok || call is Close {
                WinSetupView { made: self.made + 1, open: open_after(self.open, call), ..self }
            } else {
                WinSetupView { failed: true, ..self }
            },
            _ => self,
        }
    }

    /// How far the session is after a series of calls with these results.
    pub open spec fn after_all(self, results: Seq<bool>) -> WinSetupView
        decreases results.len(),
    {
        if results.len() == 0 {
            self
        } else {
            self.after_all(results.drop_last()).after(results.last())
        }
    }
}

impl View for WinSetup {
    type V = WinSetupView;

    closed spec fn view(&self) -> WinSetupView {
        WinSetupView {
            calls: self.calls@,
            made: self.made as nat,
            failed: self.failed,
            open: self.open.view(),
        }
    }
}

impl WinSetup {
    /// A session with a window of this size, of which nothing is open yet.
    pub fn new(window: WindowSize) -> (setup: WinSetup)
        ensures
            setup@ == WinSetupView::start(coord_of(window)),
    {
        let size: Coord = coord(window);
        let calls: Vec<WinCall> =
            vec![
            WinCall::Resolve,
            WinCall::CreateOutputPipe,
            WinCall::CreateInputPipe,
            WinCall::CreateConsole(size),
            WinCall::InitAttributes,
            WinCall::AttachConsole,
            WinCall::FindProgram,
            WinCall::CreateProcess,
            WinCall::Close(Handle::Attributes),
            WinCall::Close(Handle::ConoutFar),
            WinCall::Close(Handle::ConinFar),
            WinCall::Close(Handle::Thread),
        ];
        assert(calls@ == win_calls(size));
        let setup = WinSetup { calls, made: 0, failed: false, open: OpenHandles::none() };
        assert(setup@ == WinSetupView::start(size));
        setup
    }

    /// What comes next.
    pub fn next(&self) -> (step: WinStep)
        ensures
            step == self@.next(),
    {
        if self.failed {
            match self.open.latest() {
                Some(handle) => WinStep::Call(WinCall::Close(handle)),
                None => WinStep::Failed,
            }
        } else if self.made < self.calls.len() {
            WinStep::Call(self.calls[self.made])
        } else {
            WinStep::Open
        }
    }

    /// Goes on after the call that came next, which worked or did not.
    pub fn on_result(&mut self, ok: bool)
        ensures
            final(self)@ == old(self)@.after(ok),
    {
        if let WinStep::Call(call) = self.next() {
            let close: bool = match call {
                WinCall::Close(_) => true,
                _ => false,
            };
            if self.failed {
                self.open.apply(call);
            } else if ok || close {
                assert(self.made < self.calls.len());
                self.open.apply(call);
                self.made = self.made + 1;
            } else {
                self.failed = true;
            }
        }
    }
}

// ---------------------------------------------------------------------
// Laws
// ---------------------------------------------------------------------
/// The handles that are open after the first `made` calls, if all worked.
pub open spec fn open_at(size: Coord, made: nat) -> Set<Handle>
    decreases made,
{
    if made == 0 {
        Set::empty()
    } else {
        open_after(open_at(size, (made - 1) as nat), win_calls(size)[made as int - 1])
    }
}

/// What holds of a session at any time: before a failure the open handles are
/// those of the calls made, and afterwards no others.
spec fn on_track(view: WinSetupView, size: Coord) -> bool {
    &&& view.calls == win_calls(size)
    &&& view.made <= view.calls.len()
    &&& !view.failed ==> view.open =~= open_at(size, view.made)
    &&& view.failed ==> view.open.subset_of(open_at(size, view.made))
}

/// A session stays on track.
proof fn lemma_on_track(size: Coord, results: Seq<bool>)
    ensures
        on_track(WinSetupView::start(size).after_all(results), size),
    decreases results.len(),
{
    if results.len() > 0 {
        lemma_on_track(size, results.drop_last());
        let before = WinSetupView::start(size).after_all(results.drop_last());
        let after = before.after(results.last());
        assert(WinSetupView::start(size).after_all(results) == after);
        assert(before.failed ==> (before.next() matches WinStep::Call(call) ==> call is Close));
        assert(!before.failed && before.made < before.calls.len() ==> open_at(
            size,
            before.made + 1,
        ) == open_after(open_at(size, before.made), win_calls(size)[before.made as int]));
    }
}

/// What the calls of a session open, one by one.
proof fn lemma_open_at(size: Coord)
    ensures
        forall|made: nat|
            made < 12 ==> match win_calls(size)[made as int] {
                WinCall::Close(handle) => (#[trigger] open_at(size, made)).contains(handle),
                call => open_at(size, made).disjoint(opened_by(call)),
            },
        open_at(size, 12) == set![
            Handle::ConoutNear,
            Handle::ConinNear,
            Handle::Console,
            Handle::Process,
        ],
{
    reveal_with_fuel(open_at, 13);
    assert(open_at(size, 12) =~= set![
        Handle::ConoutNear,
        Handle::ConinNear,
        Handle::Console,
        Handle::Process,
    ]);
    assert forall|made: nat| made < 12 implies match win_calls(size)[made as int] {
        WinCall::Close(handle) => (#[trigger] open_at(size, made)).contains(handle),
        call => open_at(size, made).disjoint(opened_by(call)),
    } by {
        assert(made == 0 || made == 1 || made == 2 || made == 3 || made == 4 || made == 5 || made
            == 6 || made == 7 || made == 8 || made == 9 || made == 10 || made == 11);
    }
}

/// No handle is closed that is not open, and none is opened over an open one:
/// so each is closed at most once for every time it is opened. This holds at
/// any point of any session, whichever calls fail.
pub proof fn law_handles_are_closed_once(size: Coord, results: Seq<bool>)
    ensures
        ({
            let now = WinSetupView::start(size).after_all(results);
            match now.next() {
                WinStep::Call(WinCall::Close(handle)) => now.open.contains(handle) && !now.after(
                    true,
                ).open.contains(handle) && now.after(false).open == now.after(true).open,
                WinStep::Call(call) => now.open.disjoint(opened_by(call)),
                _ => true,
            }
        }),
{
    lemma_on_track(size, results);
    lemma_open_at(size);
}

/// A session that is open holds the near ends of the two pipes, the
/// pseudoconsole and the process, and nothing else; a session that failed
/// holds nothing at all.
pub proof fn law_open_session_holds(size: Coord, results: Seq<bool>)
    ensures
        ({
            let end = WinSetupView::start(size).after_all(results);
            &&& end.next() is Open ==> end.open == set![
                Handle::ConoutNear,
                Handle::ConinNear,
                Handle::Console,
                Handle::Process,
            ]
            &&& end.next() is Failed ==> end.open == Set::<Handle>::empty()
        }),
{
    lemma_on_track(size, results);
    lemma_open_at(size);
    let end = WinSetupView::start(size).after_all(results);
    if end.next() is Failed {
        assert forall|handle: Handle| !end.open.contains(handle) by {
            match handle {
                Handle::ConoutNear => {},
                Handle::ConoutFar => {},
                Handle::ConinFar => {},
                Handle::ConinNear => {},
                Handle::Console => {},
                Handle::Attributes => {},
                Handle::Thread => {},
                Handle::Process => {},
            }
        }
        assert(end.open =~= Set::<Handle>::empty());
    }
}

/// Once a call has failed no further one is made but to close handles.
pub proof fn law_failure_only_closes(view: WinSetupView, ok: bool)
    requires
        view.failed,
    ensures
        view.next() is Failed || (view.next() matches WinStep::Call(call) && call is Close),
        view.after(ok).failed,
        view.after(ok).made == view.made,
{
}

/// The results of `n` calls that all worked.
pub open spec fn all_worked(n: nat) -> Seq<bool> {
    Seq::new(n, |i: int| true)
}

/// Calls that all work are counted.
proof fn lemma_all_worked(size: Coord, n: nat)
    ensures
        ({
            let now = WinSetupView::start(size).after_all(all_worked(n));
            &&& now.calls == win_calls(size)
            &&& !now.failed
            &&& now.made == if n <= 12 {
                n
            } else {
                12
            }
        }),
    decreases n,
{
    if n > 0 {
        assert(all_worked(n).drop_last() == all_worked((n - 1) as nat));
        assert(all_worked(n).last());
        lemma_all_worked(size, (n - 1) as nat);
    }
}

/// As long as the calls work, they come one after the other in their order,
/// and the session is open when the last one has been made, and no sooner.
pub proof fn law_calls_come_in_order(size: Coord, n: nat)
    ensures
        n < win_calls(size).len() ==> WinSetupView::start(size).after_all(all_worked(n)).next()
            == WinStep::Call(win_calls(size)[n as int]),
        n >= win_calls(size).len() ==> WinSetupView::start(size).after_all(all_worked(n)).next()
            == WinStep::Open,
{
    lemma_all_worked(size, n);
}

/// The console has the requested window: of the calls that a session makes,
/// exactly one creates a console, and its columns and rows are those of the
/// window, in their 16 bits.
pub proof fn law_console_has_the_requested_window(window: WindowSize)
    ensures
        exists|n: nat| #[trigger]
            WinSetupView::start(coord_of(window)).after_all(all_worked(n)).next() matches
                WinStep::Call(WinCall::CreateConsole(_)),
        forall|n: nat|
            #[trigger] WinSetupView::start(coord_of(window)).after_all(all_worked(n)).next()
                matches WinStep::Call(WinCall::CreateConsole(size)) ==> (size.x
                - window.cols) % 0x10000 == 0 && (size.y - window.rows) % 0x10000 == 0,
        forall|n: nat, m: nat|
            (#[trigger] WinSetupView::start(coord_of(window)).after_all(all_worked(n)).next()
                matches WinStep::Call(WinCall::CreateConsole(_))) && (#[trigger] WinSetupView::start(
                coord_of(window),
            ).after_all(all_worked(m)).next() matches WinStep::Call(WinCall::CreateConsole(_)))
                ==> n == m,
{
    let size = coord_of(window);
    let start = WinSetupView::start(size);
    let calls = win_calls(size);
    assert forall|n: nat| true implies (#[trigger] start.after_all(all_worked(n)).next() == if n
        < calls.len() {
        WinStep::Call(calls[n as int])
    } else {
        WinStep::Open
    }) by {
        law_calls_come_in_order(size, n);
    }
    assert(start.after_all(all_worked(3)).next() == WinStep::Call(calls[3]));
}

/// The size of the window matters to the console alone: sessions with
/// different windows make the same calls, but for the one that creates the
/// console.
pub proof fn law_window_matters_to_the_console_alone(a: Coord, b: Coord, i: int)
    ensures
        win_calls(a).len() == win_calls(b).len(),
        0 <= i < win_calls(a).len() ==> win_calls(a)[i] == win_calls(b)[i] || (win_calls(a)[i]
            == WinCall::CreateConsole(a) && win_calls(b)[i] == WinCall::CreateConsole(b)),
{
}

/// A call that fails is noticed, unless it only closes a handle, and one that
/// works is never taken for a failure.
pub proof fn law_failure_is_noticed(view: WinSetupView)
    requires
        !view.failed,
        view.made < view.calls.len(),
    ensures
        !(view.calls[view.made as int] is Close) ==> view.after(false).failed && view.after(
            false,
        ).open == view.open,
        !view.after(true).failed && view.after(true).made == view.made + 1,
        view.calls[view.made as int] is Close ==> view.after(false) == view.after(true),
{
}

/// When a handle was opened, in the course of a session.
pub open spec fn opened_as(handle: Handle) -> nat {
    match handle {
        Handle::ConoutNear => 1,
        Handle::ConoutFar => 2,
        Handle::ConinFar => 3,
        Handle::ConinNear => 4,
        Handle::Console => 5,
        Handle::Attributes => 6,
        Handle::Thread => 7,
        Handle::Process => 8,
    }
}

/// Everything is taken back, the latest first: as long as a handle is open,
/// the one that was opened last is closed.
pub proof fn law_latest_is_closed_first(open: Set<Handle>, handle: Handle)
    ensures
        latest(open) is None ==> !open.contains(handle),
        latest(open) matches Some(last) ==> open.contains(last) && (open.contains(handle)
            ==> opened_as(handle) <= opened_as(last)),
{
}

} // verus!
