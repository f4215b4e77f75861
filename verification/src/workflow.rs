//! The phases of one dictation, as the tray and the overlay see them.

use vstd::prelude::*;

verus! {

/// Where the dictation workflow stands.
#[derive(Debug, Clone, Copy, PartialEq, Eq, Hash, Structural)]
pub enum WorkflowMode {
    Idle,
    Starting,
    Recording,
    Processing,
    Error,
}

} // verus!
