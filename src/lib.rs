//! An instruction-set simulator for a 32-bit MIPS-derived machine.
//!
//! `memory` is the flat byte store, `mips_state` the register file and word
//! access on top of it, and `mips_cpu` the fetch-decode-execute engine, the
//! run loop and the stack/heap chunk walkers. `fault` names the fatal
//! conditions and `theorems` states and proves the machine's laws.
pub mod fault;
pub mod memory;
pub mod mips_state;
pub mod mips_cpu;
pub mod theorems;
