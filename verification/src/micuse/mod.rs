//! Whether some application on this machine captures from the virtual
//! microphone, judged from what the system reports of its audio objects.
use vstd::prelude::*;

pub mod macos;
pub mod unsupported;
pub mod windows;

verus! {

/// What is known of the use of the virtual microphone.
#[derive(Debug, Clone, Copy, PartialEq, Eq, Structural)]
pub enum MicUse {
    /// Another process captures input.
    InUse,
    /// No other process does.
    Idle,
    /// The system cannot tell.
    Unsupported,
}

} // verus!
