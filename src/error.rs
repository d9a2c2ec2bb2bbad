use vstd::prelude::*;

verus! {

/// Why the machine stopped before reaching a halt instruction. Every error
/// carries the program counter at which it was detected.
#[derive(Debug, Clone, Copy, PartialEq, Eq, Structural)]
pub enum Error {
    /// Division with a zero divisor.
    DivisionByZero { pc: u32 },
    /// A program load onto array 0 that jumps to itself (reported only when enabled).
    InfiniteLoop { pc: u32 },
    /// An identifier that names no active array.
    InactiveArray { pc: u32, array: u32 },
    /// An output word above 255.
    InvalidChar { pc: u32, ch: u32 },
    /// Opcode 14 or 15.
    InvalidOp { pc: u32, op: u32 },
    /// An offset past the end of an active array.
    OutOfBounds { pc: u32, array: u32, offset: u32, len: u32 },
    /// An allocation while every 32-bit identifier names an active array.
    OutOfIdentifiers { pc: u32 },
}

} // verus!
