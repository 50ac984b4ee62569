use vstd::prelude::*;

use crate::fault::Fault;
use crate::memory::Memory;

verus! {

/// Number of register slots: 32 general-purpose registers, the program
/// counter, HI and LO.
pub const NUM_REGS: u32 = 35;

/// Register slot of the program counter.
pub const PC: u32 = 32;

/// Register slot of HI: upper product half, or division remainder.
pub const HI: u32 = 33;

/// Register slot of LO: lower product half, or division quotient.
pub const LO: u32 = 34;

/// The character-output port: a word stored here is emitted, not stored.
pub const PRINT_ADDR: u32 = 0xFFFF_000C;

/// The mathematical state of the machine: every register slot and every
/// byte of memory.
pub struct CpuModel {
    pub regs: Seq<u32>,
    pub mem: Seq<u8>,
}

/// A model is well formed when it has all register slots, register 0 reads
/// zero, and every byte has a `u32` address.
pub open spec fn model_wf(m: CpuModel) -> bool {
    &&& m.regs.len() == NUM_REGS
    &&& m.regs[0] == 0
    &&& m.mem.len() <= u32::MAX
}

/// The register file after writing `v` to slot `i`; writes to register 0
/// are discarded.
pub open spec fn set_reg(regs: Seq<u32>, i: int, v: u32) -> Seq<u32> {
    if i == 0 {
        regs
    } else {
        regs.update(i, v)
    }
}

/// The four bytes at `a` lie inside memory.
pub open spec fn word_fits(mem: Seq<u8>, a: int) -> bool {
    0 <= a && a + 4 <= mem.len()
}

/// The little-endian word at `a`: the byte at `a` is the least significant.
pub open spec fn word_at(mem: Seq<u8>, a: int) -> u32 {
    (mem[a] + mem[a + 1] * 0x100 + mem[a + 2] * 0x1_0000 + mem[a + 3] * 0x100_0000) as u32
}

/// Memory after storing `w` little-endian at `a`.
pub open spec fn store_word(mem: Seq<u8>, a: int, w: u32) -> Seq<u8> {
    mem.update(a, (w % 0x100) as u8).update(a + 1, (w / 0x100 % 0x100) as u8).update(
        a + 2,
        (w / 0x1_0000 % 0x100) as u8,
    ).update(a + 3, (w / 0x100_0000) as u8)
}

/// The register file and the memory of one simulated machine.
pub struct MIPSState {
    mem: Memory,
    regs: Vec<u32>,
}

impl View for MIPSState {
    type V = CpuModel;

    closed spec fn view(&self) -> CpuModel {
        CpuModel { regs: self.regs@, mem: self.mem@ }
    }
}

impl MIPSState {
    pub open spec fn wf(&self) -> bool {
        model_wf(self@)
    }

    /// A machine over `mem` with every register zero.
    pub fn new(mem: Memory) -> (r: MIPSState)
        requires
            mem.wf(),
        ensures
            r.wf(),
            r@.mem == mem@,
            r@.regs == Seq::new(NUM_REGS as nat, |i: int| 0u32),
    {
        let mut regs: Vec<u32> = Vec::new();
        let mut i: u32 = 0;
        while i < NUM_REGS
            invariant
                i <= NUM_REGS,
                regs@ == Seq::new(i as nat, |k: int| 0u32),
            decreases NUM_REGS - i,
        {
            regs.push(0u32);
            i = i + 1;
            assert(regs@ =~= Seq::new(i as nat, |k: int| 0u32));
        }
        MIPSState { mem, regs }
    }

    /// The value of register slot `addr`.
    pub fn read_reg(&self, addr: u32) -> (r: u32)
        requires
            self.wf(),
            addr < NUM_REGS,
        ensures
            r == self@.regs[addr as int],
    {
        self.regs[addr as usize]
    }

    /// Writes `word` to register slot `addr`; a write to register 0 is
    /// silently dropped.
    pub fn write_reg(&mut self, addr: u32, word: u32)
        requires
            old(self).wf(),
            addr < NUM_REGS,
        ensures
            final(self).wf(),
            final(self)@.regs == set_reg(old(self)@.regs, addr as int, word),
            final(self)@.mem == old(self)@.mem,
    {
        if addr != 0 {
            self.regs.set(addr as usize, word);
        }
    }

    /// The little-endian word at `addr`. No alignment is required.
    pub fn read_mem(&self, addr: u32) -> (r: Result<u32, Fault>)
        requires
            self.wf(),
        ensures
            word_fits(self@.mem, addr as int) ==> r == Ok::<u32, Fault>(
                word_at(self@.mem, addr as int),
            ),
            !word_fits(self@.mem, addr as int) ==> r == Err::<u32, Fault>(
                Fault::OutOfBounds { addr },
            ),
    {
        let size = self.mem.size();
        if size < 4 || addr > size - 4 {
            return Err(Fault::OutOfBounds { addr });
        }
        let b0 = match self.mem.read(addr) { Ok(b) => b, Err(e) => return Err(e) };
        let b1 = match self.mem.read(addr + 1) { Ok(b) => b, Err(e) => return Err(e) };
        let b2 = match self.mem.read(addr + 2) { Ok(b) => b, Err(e) => return Err(e) };
        let b3 = match self.mem.read(addr + 3) { Ok(b) => b, Err(e) => return Err(e) };
        Ok(b0 as u32 + (b1 as u32) * 0x100 + (b2 as u32) * 0x1_0000 + (b3 as u32) * 0x100_0000)
    }

    /// Stores `word` little-endian at `addr`. A store to the output port
    /// leaves memory alone and hands the word back as `Some`, to be emitted
    /// as a character.
    pub fn write_mem(&mut self, addr: u32, word: u32) -> (r: Result<Option<u32>, Fault>)
        requires
            old(self).wf(),
        ensures
            final(self).wf(),
            final(self)@.regs == old(self)@.regs,
            addr == PRINT_ADDR ==> r == Ok::<Option<u32>, Fault>(Some(word)) && final(self)@.mem
                == old(self)@.mem,
            addr != PRINT_ADDR && word_fits(old(self)@.mem, addr as int) ==> r == Ok::<
                Option<u32>,
                Fault,
            >(None) && final(self)@.mem == store_word(old(self)@.mem, addr as int, word),
            addr != PRINT_ADDR && !word_fits(old(self)@.mem, addr as int) ==> r == Err::<
                Option<u32>,
                Fault,
            >(Fault::OutOfBounds { addr }) && final(self)@.mem == old(self)@.mem,
    {
        if addr == PRINT_ADDR {
            return Ok(Some(word));
        }
        let size = self.mem.size();
        if size < 4 || addr > size - 4 {
            return Err(Fault::OutOfBounds { addr });
        }
        let _ = self.mem.write(addr, (word % 0x100) as u8);
        let _ = self.mem.write(addr + 1, (word / 0x100 % 0x100) as u8);
        let _ = self.mem.write(addr + 2, (word / 0x1_0000 % 0x100) as u8);
        let _ = self.mem.write(addr + 3, (word / 0x100_0000) as u8);
        Ok(None)
    }

    /// The number of bytes of memory.
    pub fn size(&self) -> (r: u32)
        requires
            self.wf(),
        ensures
            r == self@.mem.len(),
    {
        self.mem.size()
    }
}

} // verus!
