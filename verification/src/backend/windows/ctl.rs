//! The control half: the shared ConPTY handle, the exit code of the child, the
//! waiter thread, and how a child is killed.

use vstd::prelude::*;

use crate::pty::WindowSize;

verus! {

// ---------------------------------------------------------------------
// The pseudoconsole
// ---------------------------------------------------------------------
/// Console dimensions as the ConPTY calls take them.
#[derive(Debug, Clone, Copy, PartialEq, Eq, Structural)]
pub struct Coord {
    /// Columns.
    pub x: i16,
    /// Rows.
    pub y: i16,
}

/// The signed number with the same 16 bits.
pub open spec fn signed16(n: u16) -> int {
    if n < 0x8000 {
        n as int
    } else {
        n - 0x10000
    }
}

/// The signed number with the same 16 bits.
fn as_signed16(n: u16) -> (signed: i16)
    ensures
        signed == signed16(n),
{
    if n < 0x8000 {
        n as i16
    } else {
        (n as i32 - 0x10000) as i16
    }
}

/// The console dimensions of a window, each reinterpreted as signed.
pub open spec fn coord_of(size: WindowSize) -> Coord {
    Coord { x: signed16(size.cols) as i16, y: signed16(size.rows) as i16 }
}

/// The console dimensions of a window.
pub fn coord(size: WindowSize) -> (coord: Coord)
    ensures
        coord == coord_of(size),
        coord.x == signed16(size.cols),
        coord.y == signed16(size.rows),
{
    Coord { x: as_signed16(size.cols), y: as_signed16(size.rows) }
}

/// The shared ConPTY handle. `None` after [`ConptyCore::close`], so a
/// resize racing with teardown is a no-op instead of a use-after-close.
#[derive(Debug)]
pub struct ConptyCore<H> {
    hpcon: Option<H>,
}

impl<H> View for ConptyCore<H> {
    type V = Option<H>;

    closed spec fn view(&self) -> Option<H> {
        self.hpcon
    }
}

impl<H: Copy> ConptyCore<H> {
    /// An open pseudoconsole.
    pub fn new(hpcon: H) -> (core: ConptyCore<H>)
        ensures
            core@ == Some(hpcon),
    {
        ConptyCore { hpcon: Some(hpcon) }
    }

    /// The call that a resize needs: the handle and the new dimensions, or
    /// nothing once the pseudoconsole is closed.
    pub fn resize(&self, size: WindowSize) -> (call: Option<(H, Coord)>)
        ensures
            match self@ {
                Some(h) => call == Some((h, coord_of(size))),
                None => call is None,
            },
    {
        match self.hpcon {
            Some(h) => Some((h, coord(size))),
            None => None,
        }
    }

    /// The handle to close, the first time; nothing afterwards.
    pub fn close(&mut self) -> (closed: Option<H>)
        ensures
            closed == old(self)@,
            final(self)@ is None,
    {
        let closed: Option<H> = self.hpcon;
        self.hpcon = None;
        closed
    }
}

// ---------------------------------------------------------------------
// The exit code
// ---------------------------------------------------------------------
/// Exit status of the spawned child, produced by the dedicated waiter thread
/// and consumed by `wait`.
#[derive(Debug)]
pub struct ExitState {
    code: Option<i32>,
}

impl View for ExitState {
    type V = Option<i32>;

    closed spec fn view(&self) -> Option<i32> {
        self.code
    }
}

impl ExitState {
    /// A child that is still running.
    pub fn new() -> (state: ExitState)
        ensures
            state@ is None,
    {
        ExitState { code: None }
    }

    /// Publishes the exit code.
    pub fn set(&mut self, code: i32)
        ensures
            final(self)@ == Some(code),
    {
        self.code = Some(code);
    }

    /// Whether the code has been published.
    pub fn has_code(&self) -> (has: bool)
        ensures
            has == (self@ is Some),
    {
        self.code.is_some()
    }

    /// The code, once it has been published. Asking does not take it away:
    /// every later `wait` gets the same.
    pub fn get(&self) -> (code: Option<i32>)
        ensures
            code == self@,
    {
        self.code
    }
}

/// The signed number with the same 32 bits.
pub open spec fn signed32(n: u32) -> int {
    if n < 0x8000_0000 {
        n as int
    } else {
        n - 0x1_0000_0000
    }
}

/// What is published for what the system reports of a process that has ended:
/// the same 32 bits, or 1 if the report failed.
pub open spec fn published_for(raw: Option<u32>) -> i32 {
    match raw {
        Some(n) => signed32(n) as i32,
        None => 1,
    }
}

/// The exit code to publish for what the system reports of a process that
/// has ended: the same 32 bits, or 1 if the report failed.
pub fn reported_exit(raw: Option<u32>) -> (code: i32)
    ensures
        code == published_for(raw),
        raw matches Some(n) ==> code == signed32(n),
{
    match raw {
        Some(n) => if n < 0x8000_0000 {
            n as i32
        } else {
            (n as i64 - 0x1_0000_0000) as i32
        },
        None => 1,
    }
}

// ---------------------------------------------------------------------
// The waiter thread
// ---------------------------------------------------------------------
/// How far the waiter thread is.
#[derive(Debug, Clone, Copy, PartialEq, Eq, Structural)]
pub enum WaitStage {
    /// The child is running.
    Running,
    /// The child has ended.
    Ended,
    /// The exit code of the child is known.
    Known(i32),
    /// The exit code has been published.
    Published,
    /// The console has had its time to render what is left.
    Rested,
    /// The pseudoconsole is closed.
    Closed,
}

/// What the waiter thread does.
#[derive(Debug, Clone, Copy, PartialEq, Eq, Structural)]
pub enum WaitAction {
    /// Park until the child has ended.
    AwaitEnd,
    /// Ask the system for the exit code.
    ReadCode,
    /// Publish the exit code.
    Publish(i32),
    /// Give the console a short time to render what is left.
    Grace,
    /// Close the pseudoconsole, so that readers see the end of the output.
    CloseConsole,
    /// Stop.
    Stop,
}

/// What the waiter thread does next.
pub open spec fn action_at(stage: WaitStage) -> WaitAction {
    match stage {
        WaitStage::Running => WaitAction::AwaitEnd,
        WaitStage::Ended => WaitAction::ReadCode,
        WaitStage::Known(code) => WaitAction::Publish(code),
        WaitStage::Published => WaitAction::Grace,
        WaitStage::Rested => WaitAction::CloseConsole,
        WaitStage::Closed => WaitAction::Stop,
    }
}

/// How far the waiter thread is once it has done that. `report` is what the
/// system reported as the exit code, where it was asked.
pub open spec fn stage_after(stage: WaitStage, report: Option<u32>) -> WaitStage {
    match stage {
        WaitStage::Running => WaitStage::Ended,
        WaitStage::Ended => WaitStage::Known(published_for(report)),
        WaitStage::Known(_) => WaitStage::Published,
        WaitStage::Published => WaitStage::Rested,
        WaitStage::Rested => WaitStage::Closed,
        WaitStage::Closed => WaitStage::Closed,
    }
}

/// Decides what the waiter thread does next.
pub fn wait_action(stage: WaitStage) -> (action: WaitAction)
    ensures
        action == action_at(stage),
{
    match stage {
        WaitStage::Running => WaitAction::AwaitEnd,
        WaitStage::Ended => WaitAction::ReadCode,
        WaitStage::Known(code) => WaitAction::Publish(code),
        WaitStage::Published => WaitAction::Grace,
        WaitStage::Rested => WaitAction::CloseConsole,
        WaitStage::Closed => WaitAction::Stop,
    }
}

/// Goes on once the waiter thread has done what came next.
pub fn wait_done(stage: WaitStage, report: Option<u32>) -> (next: WaitStage)
    ensures
        next == stage_after(stage, report),
{
    match stage {
        WaitStage::Running => WaitStage::Ended,
        WaitStage::Ended => WaitStage::Known(reported_exit(report)),
        WaitStage::Known(_) => WaitStage::Published,
        WaitStage::Published => WaitStage::Rested,
        WaitStage::Rested => WaitStage::Closed,
        WaitStage::Closed => WaitStage::Closed,
    }
}

/// What the waiter thread does from a stage on, as long as reports come and
/// until it stops.
pub open spec fn wait_trace(stage: WaitStage, reports: Seq<Option<u32>>) -> Seq<WaitAction>
    decreases reports.len(),
{
    if reports.len() == 0 || action_at(stage) is Stop {
        Seq::empty()
    } else {
        seq![action_at(stage)] + wait_trace(stage_after(stage, reports[0]), reports.skip(1))
    }
}

/// The pseudoconsole is closed exactly once when the child has ended, after
/// its exit code has been published and after the grace period: this is all
/// that the waiter thread does, in this order.
pub proof fn law_console_closes_after_the_code(reports: Seq<Option<u32>>)
    requires
        reports.len() >= 5,
    ensures
        wait_trace(WaitStage::Running, reports) == seq![
            WaitAction::AwaitEnd,
            WaitAction::ReadCode,
            WaitAction::Publish(published_for(reports[1])),
            WaitAction::Grace,
            WaitAction::CloseConsole,
        ],
{
    reveal_with_fuel(wait_trace, 6);
    assert(reports.skip(1)[0] == reports[1]);
    assert(wait_trace(WaitStage::Running, reports) =~= seq![
        WaitAction::AwaitEnd,
        WaitAction::ReadCode,
        WaitAction::Publish(published_for(reports[1])),
        WaitAction::Grace,
        WaitAction::CloseConsole,
    ]);
}

// ---------------------------------------------------------------------
// Killing the child
// ---------------------------------------------------------------------
/// Where a kill has got to.
#[derive(Debug, Clone, Copy, PartialEq, Eq, Structural)]
pub enum KillEvent {
    /// The caller asked for it.
    Asked,
    /// The process was opened, or not.
    Opened(bool),
    /// The process was terminated, or not.
    Terminated(bool),
}

/// What a kill does next.
#[derive(Debug, Clone, Copy, PartialEq, Eq, Structural)]
pub enum KillStep {
    /// Open the process.
    Open,
    /// Terminate the process just opened.
    Terminate,
    /// Report success.
    Done,
    /// Report the error of the call that failed.
    Fail,
}

/// The next step of a kill, where `exited` says whether the exit code of the
/// child is in.
pub open spec fn kill_decision(event: KillEvent, exited: bool) -> KillStep {
    match event {
        KillEvent::Asked => if exited {
            KillStep::Done
        } else {
            KillStep::Open
        },
        KillEvent::Opened(ok) => if ok {
            KillStep::Terminate
        } else if exited {
            KillStep::Done
        } else {
            KillStep::Fail
        },
        KillEvent::Terminated(ok) => if ok || exited {
            KillStep::Done
        } else {
            KillStep::Fail
        },
    }
}

/// Decides the next step of a kill. A child that has already exited is left
/// alone, and a call that lost the race against the exit is no error.
pub fn kill_step(event: KillEvent, exited: bool) -> (step: KillStep)
    ensures
        step == kill_decision(event, exited),
{
    match event {
        KillEvent::Asked => if exited {
            KillStep::Done
        } else {
            KillStep::Open
        },
        KillEvent::Opened(ok) => if ok {
            KillStep::Terminate
        } else if exited {
            KillStep::Done
        } else {
            KillStep::Fail
        },
        KillEvent::Terminated(ok) => if ok || exited {
            KillStep::Done
        } else {
            KillStep::Fail
        },
    }
}

/// Killing a child that has exited does nothing and succeeds, and a kill that
/// is overtaken by the exit does not fail either.
pub proof fn law_kill_after_exit_is_noop(state: ExitState, event: KillEvent)
    requires
        state@ is Some,
    ensures
        kill_decision(KillEvent::Asked, state@ is Some) == KillStep::Done,
        kill_decision(event, state@ is Some) != KillStep::Fail,
{
}

// ---------------------------------------------------------------------
// What the numbers and decisions have to satisfy
// ---------------------------------------------------------------------
/// The console gets the dimensions of the window, columns before rows: as
/// they are where they fit, and else the signed numbers with the same 16
/// bits.
pub proof fn law_console_has_the_dimensions_of_the_window(size: WindowSize)
    ensures
        (coord_of(size).x - size.cols) % 0x10000 == 0,
        (coord_of(size).y - size.rows) % 0x10000 == 0,
        size.cols < 0x8000 ==> coord_of(size).x == size.cols,
        size.rows < 0x8000 ==> coord_of(size).y == size.rows,
{
}

/// The exit code is the reported one, as it is where it fits, and else the
/// signed number with the same 32 bits; a failed report gives 1.
pub proof fn law_exit_code_is_the_reported_one(n: u32)
    ensures
        (published_for(Some(n)) - n) % 0x1_0000_0000 == 0,
        n < 0x8000_0000 ==> published_for(Some(n)) == n,
        published_for(None) == 1,
{
}

/// A kill fails exactly when a call was refused and the child is still there;
/// it opens the process exactly when it was asked for and the child is still
/// there; and it terminates exactly what it has opened.
pub proof fn law_kill_goes_through_with_it(event: KillEvent, exited: bool)
    ensures
        kill_decision(event, exited) is Fail <==> !exited && (event == KillEvent::Opened(false)
            || event == KillEvent::Terminated(false)),
        kill_decision(event, exited) is Open <==> !exited && event is Asked,
        kill_decision(event, exited) is Terminate <==> event == KillEvent::Opened(true),
{
}

} // verus!
