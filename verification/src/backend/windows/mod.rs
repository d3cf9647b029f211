//! Windows (ConPTY): the opening of a session, command line, environment
//! block, the I/O threads and the control half.

pub mod argv;
pub mod ctl;
pub mod env_block;
pub mod io;
pub mod setup;
