//! Everything needed to describe a pty session.

pub use crate::os_text::OsText;
pub use crate::pty::{Pty, WindowSize};
pub use crate::script::{Script, Shell};
pub use crate::spawn::{openpty, PtyBuilder};
