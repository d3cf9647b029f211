//! What each platform decides and computes, apart from the system calls.

pub mod setup;
pub mod unix;
pub mod windows;
