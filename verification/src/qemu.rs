//! Exit codes for the emulator's debug-exit device.
//!
//! Writing the code to the device is one port output at the boundary; the
//! codes themselves — offset so that neither collides with the emulator's
//! own exit values — are fixed here.

use vstd::prelude::*;

verus! {

/// Exit code written to the debug-exit device when the kernel leaves the
/// emulator.
#[derive(Debug, Clone, Copy, PartialEq, Eq, Structural)]
pub enum QemuExitCode {
    Success,
    Failed,
}

impl QemuExitCode {
    /// The value the device is given for this exit code.
    pub open spec fn spec_code(self) -> u32 {
        match self {
            QemuExitCode::Success => 0x10,
            QemuExitCode::Failed => 0x11,
        }
    }

    /// The value the device is given for this exit code.
    pub fn code(self) -> (c: u32)
        ensures
            c == self.spec_code(),
    {
        match self {
            QemuExitCode::Success => 0x10,
            QemuExitCode::Failed => 0x11,
        }
    }
}

} // verus!
