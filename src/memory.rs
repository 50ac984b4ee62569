use vstd::prelude::*;

use crate::fault::Fault;

verus! {

/// A byte-addressable, growable linear memory.
pub struct Memory {
    mem: Vec<u8>,
}

impl View for Memory {
    type V = Seq<u8>;

    closed spec fn view(&self) -> Seq<u8> {
        self.mem@
    }
}

impl Memory {
    /// Every byte is addressable by a `u32`.
    pub open spec fn wf(&self) -> bool {
        self@.len() <= u32::MAX
    }

    /// A zero-filled memory of `num_bytes` bytes.
    pub fn new(num_bytes: u32) -> (r: Memory)
        ensures
            r.wf(),
            r@ == Seq::new(num_bytes as nat, |i: int| 0u8),
    {
        let mut mem: Vec<u8> = Vec::new();
        let mut i: u32 = 0;
        while i < num_bytes
            invariant
                i <= num_bytes,
                mem@ == Seq::new(i as nat, |k: int| 0u8),
            decreases num_bytes - i,
        {
            mem.push(0u8);
            i = i + 1;
            assert(mem@ =~= Seq::new(i as nat, |k: int| 0u8));
        }
        Memory { mem }
    }

    /// A memory whose contents are exactly `mem`.
    pub fn from_vec(mem: Vec<u8>) -> (r: Memory)
        requires
            mem@.len() <= u32::MAX,
        ensures
            r.wf(),
            r@ == mem@,
    {
        Memory { mem }
    }

    /// The byte at `address`.
    pub fn read(&self, address: u32) -> (r: Result<u8, Fault>)
        ensures
            address < self@.len() ==> r == Ok::<u8, Fault>(self@[address as int]),
            address >= self@.len() ==> r == Err::<u8, Fault>(Fault::OutOfBounds { addr: address }),
    {
        if (address as usize) < self.mem.len() {
            Ok(self.mem[address as usize])
        } else {
            Err(Fault::OutOfBounds { addr: address })
        }
    }

    /// Stores `value` at `address`; memory is left as it was when the
    /// address is out of bounds.
    pub fn write(&mut self, address: u32, value: u8) -> (r: Result<(), Fault>)
        ensures
            address < old(self)@.len() ==> r == Ok::<(), Fault>(()) && final(self)@ == old(
                self,
            )@.update(address as int, value),
            address >= old(self)@.len() ==> r == Err::<(), Fault>(
                Fault::OutOfBounds { addr: address },
            ) && final(self)@ == old(self)@,
    {
        if (address as usize) < self.mem.len() {
            self.mem.set(address as usize, value);
            Ok(())
        } else {
            Err(Fault::OutOfBounds { addr: address })
        }
    }

    /// Grows memory with zero bytes until it holds `new_size` bytes.
    /// Shrinking is not supported.
    pub fn resize(&mut self, new_size: u32)
        requires
            old(self)@.len() <= new_size,
        ensures
            final(self).wf(),
            final(self)@ == old(self)@ + Seq::new((new_size - old(self)@.len()) as nat, |i: int| 0u8),
    {
        let ghost start = self.mem@;
        while self.mem.len() < new_size as usize
            invariant
                start.len() <= self.mem@.len() <= new_size,
                self.mem@ == start + Seq::new((self.mem@.len() - start.len()) as nat, |i: int| 0u8),
            decreases new_size - self.mem@.len(),
        {
            self.mem.push(0u8);
            assert(self.mem@ =~= start + Seq::new((self.mem@.len() - start.len()) as nat, |i: int| 0u8));
        }
    }

    /// Appends the whole contents of `other`.
    pub fn concat(&mut self, other: Memory)
        requires
            old(self)@.len() + other@.len() <= u32::MAX,
        ensures
            final(self).wf(),
            final(self)@ == old(self)@ + other@,
    {
        let mut tail = other.mem;
        self.mem.append(&mut tail);
    }

    /// The number of bytes.
    pub fn size(&self) -> (r: u32)
        requires
            self.wf(),
        ensures
            r == self@.len(),
    {
        self.mem.len() as u32
    }
}

} // verus!
