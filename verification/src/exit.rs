use vstd::prelude::*;

verus! {

/// The I/O port of QEMU's `isa-debug-exit` device.
pub const EXIT_PORT: u16 = 0xf4;

/// The code a test run reports to QEMU on leaving.
#[derive(Debug, Clone, Copy, PartialEq, Eq, Structural)]
pub enum QemuExitCode {
    Success,
    Failed,
}

impl QemuExitCode {
    /// The value written to the exit port.
    pub fn value(&self) -> (r: u32)
        ensures
            r == (match *self {
                QemuExitCode::Success => 0x10u32,
                QemuExitCode::Failed => 0x11u32,
            }),
    {
        match self {
            QemuExitCode::Success => 0x10,
            QemuExitCode::Failed => 0x11,
        }
    }
}

} // verus!
