//! The physical memory of the guest, as far as compilation reads it.
use vstd::prelude::*;

verus! {

/// The bytes of memory. Addresses past the end read as zero.
pub struct Ram {
    pub bytes: Vec<u8>,
}

impl View for Ram {
    type V = Seq<u8>;

    open spec fn view(&self) -> Seq<u8> {
        self.bytes@
    }
}

/// Memory ends at least one page below the end of the address space.
pub open spec fn ram_wf(ram: Seq<u8>) -> bool {
    ram.len() <= 0xFFFF_F000
}

/// The byte at an address.
pub open spec fn byte_at(ram: Seq<u8>, address: int) -> u8 {
    if 0 <= address < ram.len() {
        ram[address]
    } else {
        0
    }
}

/// The `n` bytes at an address, low bytes first.
pub open spec fn word_at(ram: Seq<u8>, address: int, n: nat) -> int
    decreases n,
{
    if n == 0 {
        0
    } else {
        byte_at(ram, address) + 256 * word_at(ram, address + 1, (n - 1) as nat)
    }
}

impl Ram {
    /// The byte at an address.
    pub fn read8(&self, address: u32) -> (b: u8)
        ensures
            b == byte_at(self@, address as int),
    {
        if (address as usize) < self.bytes.len() {
            self.bytes[address as usize]
        } else {
            0
        }
    }

    fn byte(&self, address: u64) -> (b: u8)
        ensures
            b == byte_at(self@, address as int),
    {
        if address < self.bytes.len() as u64 {
            self.bytes[address as usize]
        } else {
            0
        }
    }

    /// The eight bytes at an address.
    pub fn read64(&self, address: u32) -> (v: u64)
        ensures
            v == word_at(self@, address as int, 8),
    {
        let a: u64 = address as u64;
        reveal_with_fuel(word_at, 9);
        let low: u64 = self.byte(a) as u64 + 0x100 * self.byte(a + 1) as u64 + 0x1_0000 * self.byte(
            a + 2,
        ) as u64 + 0x100_0000 * self.byte(a + 3) as u64;
        let high: u64 = self.byte(a + 4) as u64 + 0x100 * self.byte(a + 5) as u64 + 0x1_0000
            * self.byte(a + 6) as u64 + 0x100_0000 * self.byte(a + 7) as u64;
        low + 0x1_0000_0000 * high
    }
}

} // verus!
