//! The exit signal to the host test harness.
//!
//! In a diagnostic configuration the kernel reports success or failure by
//! writing a code to a fixed I/O port; the port write itself is hardware
//! glue, the codes are fixed here.
use vstd::prelude::*;

verus! {

/// The exit outcome reported to the host.
#[derive(Debug, Clone, Copy, PartialEq, Eq, Structural)]
pub enum ExitCode {
    Success,
    Failed,
}

impl ExitCode {
    /// The value written to the exit port for this outcome.
    pub open spec fn spec_code(self) -> u32 {
        match self {
            ExitCode::Success => 0x10,
            ExitCode::Failed => 0x11,
        }
    }

    /// The port value for this outcome; the two outcomes never collide.
    pub fn code(self) -> (r: u32)
        ensures
            r == self.spec_code(),
            ExitCode::Success.spec_code() != ExitCode::Failed.spec_code(),
    {
        match self {
            ExitCode::Success => 0x10,
            ExitCode::Failed => 0x11,
        }
    }
}

} // verus!
