use vstd::prelude::*;

verus! {

/// The fatal conditions of a simulated run. None of them is recoverable.
#[derive(Debug, Clone, Copy, PartialEq, Eq, Structural)]
pub enum Fault {
    /// A memory access touched a byte at or past the end of memory.
    /// `addr` is the address the access started at.
    OutOfBounds { addr: u32 },
    /// The opcode, or for opcode 0 the 11-bit function key, has no meaning.
    /// `instr` is the whole instruction word.
    UnknownInstruction { instr: u32 },
    /// `div` or `divu` with a zero divisor.
    DivideByZero,
    /// After a step the heap pointer lay above the stack pointer.
    StackHeapCollision { heap: u32, stack: u32 },
    /// The run loop used up its step budget before reaching the sentinel.
    StepLimit,
}

} // verus!
