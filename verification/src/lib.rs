//! Minimal PTY (pseudo-terminal) abstraction: the verified core.
//!
//! One API over Unix `openpty` (Linux, macOS) and Windows ConPTY: spawn a
//! process attached to a pty, read its output, write input to it, resize the
//! terminal window and collect the exit status, with identical semantics on
//! every supported platform. This crate holds what the session decides and
//! computes; the program around it performs the system calls.
//!
//! - [`script`] says what to run and turns it into a command or a
//!   self-cleaning temp file; [`command`] does so for borrowed descriptions;
//! - [`spawn`] configures a session: window, working directory, environment;
//! - [`pty`] holds the window, the bundle of handles, the exit code and the
//!   teardown order;
//! - [`backend`] holds what differs between the platforms.

pub mod backend;
pub mod command;
pub mod environment;
pub mod error;
pub mod os_text;
pub mod prelude;
pub mod pty;
pub mod script;
pub mod spawn;
pub mod words;

pub use error::Error;
pub use os_text::OsText;
pub use pty::{Pty, WindowSize};
pub use script::{Script, Shell};
pub use spawn::{openpty, PtyBuilder};
