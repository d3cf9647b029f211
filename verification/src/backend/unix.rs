//! Unix (Linux / macOS): the window as the terminal driver takes it, and the
//! end of the output.
//!
//! Reading the pty master after the slave side is gone returns `EIO` on
//! Linux and an end of file elsewhere. [`read_step`] turns both into an end
//! of file, so that every platform behaves the same.

use vstd::prelude::*;

use crate::pty::WindowSize;

verus! {

/// The window size of a terminal driver.
#[derive(Debug, Clone, Copy, PartialEq, Eq, Structural)]
pub struct TermSize {
    /// Rows, in characters.
    pub ws_row: u16,
    /// Columns, in characters.
    pub ws_col: u16,
    /// Width in pixels, unused.
    pub ws_xpixel: u16,
    /// Height in pixels, unused.
    pub ws_ypixel: u16,
}

/// The driver's size for a window, without pixel dimensions.
pub fn term_size(window: WindowSize) -> (size: TermSize)
    ensures
        size == (TermSize {
            ws_row: window.rows,
            ws_col: window.cols,
            ws_xpixel: 0,
            ws_ypixel: 0,
        }),
{
    TermSize { ws_row: window.rows, ws_col: window.cols, ws_xpixel: 0, ws_ypixel: 0 }
}

/// The driver's size after a resize to `width` columns and `height` rows.
pub fn window_change(width: u16, height: u16) -> (size: TermSize)
    ensures
        size == (TermSize { ws_row: height, ws_col: width, ws_xpixel: 0, ws_ypixel: 0 }),
{
    term_size(WindowSize::new(height, width))
}

/// The code of the error `EIO`, on Linux and macOS.
pub const EIO: i32 = 5;

/// How one attempt to read from the master went.
#[derive(Debug, Clone, Copy, PartialEq, Eq, Structural)]
pub enum ReadOutcome {
    /// So many bytes were read.
    Read(usize),
    /// The read failed.
    Failed {
        /// The code of the system error, if there is one.
        raw: Option<i32>,
        /// Whether a signal interrupted the read.
        interrupted: bool,
    },
    /// The master was not ready after all.
    WouldBlock,
}

/// What to do after an attempt to read.
#[derive(Debug, Clone, Copy, PartialEq, Eq, Structural)]
pub enum ReadStep {
    /// Hand on so many bytes.
    Deliver(usize),
    /// Report the end of the output.
    Eof,
    /// Try again once the master is ready.
    Retry,
    /// Report the error.
    Fail,
}

/// What follows from an attempt to read.
pub open spec fn read_decision(outcome: ReadOutcome) -> ReadStep {
    match outcome {
        ReadOutcome::Read(n) => if n == 0 {
            ReadStep::Eof
        } else {
            ReadStep::Deliver(n)
        },
        ReadOutcome::Failed { raw, interrupted } => if raw == Some(EIO) {
            ReadStep::Eof
        } else if interrupted {
            ReadStep::Retry
        } else {
            ReadStep::Fail
        },
        ReadOutcome::WouldBlock => ReadStep::Retry,
    }
}

/// Decides what to do after an attempt to read.
pub fn read_step(outcome: ReadOutcome) -> (step: ReadStep)
    ensures
        step == read_decision(outcome),
{
    match outcome {
        ReadOutcome::Read(n) => if n == 0 {
            ReadStep::Eof
        } else {
            ReadStep::Deliver(n)
        },
        ReadOutcome::Failed { raw, interrupted } => {
            let slave_gone: bool = match raw {
                Some(code) => code == EIO,
                None => false,
            };
            if slave_gone {
                ReadStep::Eof
            } else if interrupted {
                ReadStep::Retry
            } else {
                ReadStep::Fail
            }
        },
        ReadOutcome::WouldBlock => ReadStep::Retry,
    }
}

/// A vanished slave side is the end of the output and never an error, just
/// like a read of nothing.
pub proof fn law_vanished_slave_is_eof(interrupted: bool)
    ensures
        read_decision(ReadOutcome::Failed { raw: Some(EIO), interrupted }) == read_decision(
            ReadOutcome::Read(0),
        ),
        read_decision(ReadOutcome::Read(0)) == ReadStep::Eof,
{
}

/// The end of the output is reported for nothing else: a read that gave
/// bytes, an interrupted one and any other error are told apart from it.
pub proof fn law_eof_is_not_made_up(outcome: ReadOutcome)
    ensures
        read_decision(outcome) is Eof <==> (outcome == ReadOutcome::Read(0) || (outcome matches
            ReadOutcome::Failed { raw: Some(code), .. } && code == EIO)),
{
}

/// A read that gave bytes hands on exactly these.
pub proof fn law_read_hands_on_all_bytes(n: usize)
    requires
        n > 0,
    ensures
        read_decision(ReadOutcome::Read(n)) == ReadStep::Deliver(n),
{
}

/// Bytes are handed on only where they were read, and as many.
pub proof fn law_bytes_are_not_made_up(outcome: ReadOutcome, n: usize)
    ensures
        read_decision(outcome) == ReadStep::Deliver(n) ==> outcome == ReadOutcome::Read(n) && n > 0,
{
}

/// A read is tried again exactly when the master was not ready or a signal
/// came in between, and reported as failed exactly when the system refused it
/// for another reason than a vanished slave.
pub proof fn law_errors_are_told_apart(outcome: ReadOutcome)
    ensures
        read_decision(outcome) is Retry <==> outcome is WouldBlock || (outcome matches
            ReadOutcome::Failed { raw, interrupted } && interrupted && raw != Some(5i32)),
        read_decision(outcome) is Fail <==> (outcome matches ReadOutcome::Failed {
            raw,
            interrupted,
        } && !interrupted && raw != Some(5i32)),
{
}

} // verus!
