//! Error types shared by the whole library.

use vstd::prelude::*;
use vstd::string::StringExecFns;

verus! {

/// What went wrong in an I/O error that the library raises itself.
#[derive(Debug, Clone, Copy, PartialEq, Eq, Structural)]
pub enum ErrorKind {
    /// A parameter was incorrect.
    InvalidInput,
    /// The other end is gone.
    BrokenPipe,
    /// The operation is not available here.
    Unsupported,
    /// A failure of another kind.
    Other,
}

/// An I/O error: its kind and its message.
#[derive(Debug)]
pub struct IoError {
    /// What went wrong.
    pub kind: ErrorKind,
    /// The message shown to a user.
    pub message: String,
}

impl IoError {
    /// An error of the given kind with the given message.
    pub fn new(kind: ErrorKind, message: &str) -> (error: IoError)
        ensures
            error.kind == kind,
            error.message@ == message@,
    {
        IoError { kind, message: message.to_owned() }
    }
}

/// An error code of the operating system with its text.
#[derive(Debug)]
pub struct OsError {
    /// The raw code.
    pub code: i32,
    /// The system's text for it.
    pub text: String,
}

/// Errors produced by the library.
#[derive(Debug)]
pub enum Error {
    /// An I/O error (spawn failures, pipe and terminal I/O, invalid command
    /// lines).
    IO(IoError),
    /// A call of the Unix `openpty` sequence failed.
    Errno(OsError),
    /// A Win32 call of the ConPTY setup or teardown failed.
    Windows(OsError),
}

impl Error {
    /// The text of [`Error::describe`].
    pub open spec fn description(&self) -> Seq<char> {
        match self {
            Error::IO(e) => "io error: "@ + e.message@,
            Error::Errno(e) => "openpty error: "@ + e.text@,
            Error::Windows(e) => "openpty error: "@ + e.text@,
        }
    }

    /// The error as a user reads it.
    pub fn describe(&self) -> (text: String)
        ensures
            text@ == self.description(),
    {
        match self {
            Error::IO(e) => {
                let mut text: String = "io error: ".to_owned();
                text.append(e.message.as_str());
                text
            },
            Error::Errno(e) => {
                let mut text: String = "openpty error: ".to_owned();
                text.append(e.text.as_str());
                text
            },
            Error::Windows(e) => {
                let mut text: String = "openpty error: ".to_owned();
                text.append(e.text.as_str());
                text
            },
        }
    }
}

impl From<IoError> for Error {
    fn from(error: IoError) -> (wrapped: Error)
        ensures
            wrapped == Error::IO(error),
    {
        Error::IO(error)
    }
}

impl vstd::std_specs::convert::FromSpecImpl<IoError> for Error {
    open spec fn obeys_from_spec() -> bool {
        true
    }

    open spec fn from_spec(error: IoError) -> Error {
        Error::IO(error)
    }
}

/// The text of an error keeps the whole message: it ends with it, and what
/// stands before it says only where the error comes from.
pub proof fn law_description_ends_with_the_message(error: Error)
    ensures
        ({
            let message = match error {
                Error::IO(e) => e.message@,
                Error::Errno(e) => e.text@,
                Error::Windows(e) => e.text@,
            };
            let text = error.description();
            let front = if error is IO {
                10int
            } else {
                15int
            };
            &&& text.len() == front + message.len()
            &&& text.skip(front) == message
            &&& error is IO ==> text.take(front) == "io error: "@
            &&& !(error is IO) ==> text.take(front) == "openpty error: "@
        }),
{
    reveal_strlit("io error: ");
    reveal_strlit("openpty error: ");
    let message = match error {
        Error::IO(e) => e.message@,
        Error::Errno(e) => e.text@,
        Error::Windows(e) => e.text@,
    };
    if error is IO {
        assert(error.description().skip(10) =~= message);
        assert(error.description().take(10) =~= "io error: "@);
    } else {
        assert(error.description().skip(15) =~= message);
        assert(error.description().take(15) =~= "openpty error: "@);
    }
}

} // verus!
