use vstd::prelude::*;

verus! {

/// The first interrupt vector of the primary PIC.
pub const PIC_1_OFFSET: u8 = 32;
/// The first interrupt vector of the secondary PIC.
pub const PIC_2_OFFSET: u8 = 40;
/// The I/O port of the PS/2 keyboard's data register.
pub const KEYBOARD_PORT: u16 = 0x60;

/// The hardware interrupts the system handles.
#[derive(Debug, Clone, Copy, PartialEq, Eq, Structural)]
pub enum InterruptIndex {
    Timer,
    Keyboard,
}

impl InterruptIndex {
    /// The interrupt vector: the timer is the primary PIC's first line, the keyboard its second.
    pub fn as_u8(&self) -> (r: u8)
        ensures
            r == (match *self {
                InterruptIndex::Timer => PIC_1_OFFSET,
                InterruptIndex::Keyboard => (PIC_1_OFFSET + 1) as u8,
            }),
    {
        match self {
            InterruptIndex::Timer => PIC_1_OFFSET,
            InterruptIndex::Keyboard => PIC_1_OFFSET + 1,
        }
    }
}

} // verus!
