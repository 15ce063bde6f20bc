//! Guest memory by virtual address, in words: what the accessors of the CPU give, with a fault
//! where a page is not mapped or may not be written.
use vstd::prelude::*;
use std::collections::HashMap;

verus! {

broadcast use vstd::std_specs::hash::group_hash_axioms;

/// What a virtual page is mapped to.
#[derive(Clone, Copy, Debug, PartialEq, Eq, Structural)]
pub struct Frame {
    pub number: u32,
    pub writable: bool,
}

/// Guest memory by virtual address.
pub struct VirtualMemory {
    pub ram: Vec<u8>,
    pub pages: HashMap<u32, Frame>,
}

/// What a [`VirtualMemory`] holds.
pub struct Space {
    pub ram: Seq<u8>,
    pub pages: Map<u32, Frame>,
}

impl View for VirtualMemory {
    type V = Space;

    open spec fn view(&self) -> Space {
        Space { ram: self.ram@, pages: self.pages@ }
    }
}

/// An address a few bytes further.
pub open spec fn beyond(v: i32, n: i32) -> u32 {
    v.wrapping_add(n) as u32
}

/// A word from its bytes, low byte first.
pub open spec fn joined(b0: u8, b1: u8, b2: u8, b3: u8) -> i32 {
    ((b0 + 256 * b1 + 65536 * b2 + 16777216 * b3) as u32) as i32
}

/// A byte of a word, low byte first.
pub open spec fn byte_of(w: i32, k: int) -> u8 {
    let v = w as u32;
    if k == 0 {
        (v % 256) as u8
    } else if k == 1 {
        (v / 256 % 256) as u8
    } else if k == 2 {
        (v / 65536 % 256) as u8
    } else {
        (v / 16777216) as u8
    }
}

impl Space {
    pub open spec fn wf(self) -> bool {
        &&& self.ram.len() <= u32::MAX
        &&& forall|p: u32| #[trigger]
            self.pages.contains_key(p) ==> self.pages[p].number < 0x10_0000
    }

    /// Where the byte of a virtual address stands.
    pub open spec fn place(self, v: u32) -> Option<int> {
        let page = v / 0x1000;
        if self.pages.contains_key(page) && self.pages[page].number * 0x1000 + v % 0x1000
            < self.ram.len() {
            Some(self.pages[page].number * 0x1000 + v % 0x1000)
        } else {
            None
        }
    }

    /// The byte can be written.
    pub open spec fn can_write(self, v: u32) -> bool {
        self.place(v) is Some && self.pages[v / 0x1000].writable
    }

    pub open spec fn byte(self, v: u32) -> Option<u8> {
        match self.place(v) {
            Some(p) => Some(self.ram[p]),
            None => None,
        }
    }

    /// The word at a virtual address.
    #[verifier::opaque]
    pub open spec fn word(self, v: i32) -> Option<i32> {
        match (
            self.byte(v as u32),
            self.byte(beyond(v, 1)),
            self.byte(beyond(v, 2)),
            self.byte(beyond(v, 3)),
        ) {
            (Some(a), Some(b), Some(c), Some(d)) => Some(joined(a, b, c, d)),
            _ => None,
        }
    }

    /// The half-word at a virtual address.
    #[verifier::opaque]
    pub open spec fn half(self, v: i32) -> Option<i32> {
        match (self.byte(v as u32), self.byte(beyond(v, 1))) {
            (Some(a), Some(b)) => Some((a + 256 * b) as i32),
            _ => None,
        }
    }

    /// With another word at a virtual address.
    #[verifier::opaque]
    pub open spec fn with_word(self, v: i32, w: i32) -> Option<Space> {
        if self.can_write(v as u32) && self.can_write(beyond(v, 1)) && self.can_write(beyond(v, 2))
            && self.can_write(beyond(v, 3)) {
            Some(
                Space {
                    ram: self.ram.update(self.place(v as u32)->0, byte_of(w, 0)).update(
                        self.place(beyond(v, 1))->0,
                        byte_of(w, 1),
                    ).update(self.place(beyond(v, 2))->0, byte_of(w, 2)).update(
                        self.place(beyond(v, 3))->0,
                        byte_of(w, 3),
                    ),
                    ..self
                },
            )
        } else {
            None
        }
    }
}

impl VirtualMemory {
    fn locate(&self, v: u32) -> (r: Option<usize>)
        requires
            self@.wf(),
        ensures
            match r {
                Some(p) => self@.place(v) == Some(p as int) && p < self.ram@.len(),
                None => self@.place(v) is None,
            },
    {
        match self.pages.get(&(v / 0x1000)) {
            Some(frame) => {
                let p: u64 = frame.number as u64 * 0x1000 + (v % 0x1000) as u64;
                if p < self.ram.len() as u64 {
                    Some(p as usize)
                } else {
                    None
                }
            },
            None => None,
        }
    }

    fn locate_for_write(&self, v: u32) -> (r: Option<usize>)
        requires
            self@.wf(),
        ensures
            match r {
                Some(p) => self@.can_write(v) && self@.place(v) == Some(p as int) && p
                    < self.ram@.len(),
                None => !self@.can_write(v),
            },
    {
        match self.locate(v) {
            Some(p) => match self.pages.get(&(v / 0x1000)) {
                Some(frame) => if frame.writable {
                    Some(p)
                } else {
                    None
                },
                None => None,
            },
            None => None,
        }
    }

    /// The byte at a virtual address.
    pub fn safe_read8(&self, v: i32) -> (r: Option<u8>)
        requires
            self@.wf(),
        ensures
            r == self@.byte(v as u32),
    {
        match self.locate(v as u32) {
            Some(p) => Some(self.ram[p]),
            None => None,
        }
    }

    /// The half-word at a virtual address.
    pub fn safe_read16(&self, v: i32) -> (r: Option<i32>)
        requires
            self@.wf(),
        ensures
            r == self@.half(v),
            r is Some ==> 0 <= r->0 <= 0xFFFF,
    {
        reveal(Space::half);
        match (self.safe_read8(v), self.safe_read8(v.wrapping_add(1))) {
            (Some(a), Some(b)) => Some(a as i32 + 256 * b as i32),
            _ => None,
        }
    }

    /// The word at a virtual address.
    pub fn safe_read32s(&self, v: i32) -> (r: Option<i32>)
        requires
            self@.wf(),
        ensures
            r == self@.word(v),
    {
        reveal(Space::word);
        let a: u8 = match self.safe_read8(v) {
            Some(b) => b,
            None => return None,
        };
        let b: u8 = match self.safe_read8(v.wrapping_add(1)) {
            Some(b) => b,
            None => return None,
        };
        let c: u8 = match self.safe_read8(v.wrapping_add(2)) {
            Some(b) => b,
            None => return None,
        };
        let d: u8 = match self.safe_read8(v.wrapping_add(3)) {
            Some(b) => b,
            None => return None,
        };
        Some((a as u32 + 256 * b as u32 + 65536 * c as u32 + 16777216 * d as u32) as i32)
    }

    /// Writes a word at a virtual address. Returns whether it did; nothing is written where one
    /// byte cannot be.
    pub fn safe_write32(&mut self, v: i32, w: i32) -> (r: bool)
        requires
            old(self)@.wf(),
        ensures
            final(self)@.wf(),
            match old(self)@.with_word(v, w) {
                Some(s) => r && final(self)@ == s,
                None => !r && final(self)@ == old(self)@,
            },
    {
        reveal(Space::with_word);
        let p0: usize = match self.locate_for_write(v as u32) {
            Some(p) => p,
            None => return false,
        };
        let p1: usize = match self.locate_for_write(v.wrapping_add(1) as u32) {
            Some(p) => p,
            None => return false,
        };
        let p2: usize = match self.locate_for_write(v.wrapping_add(2) as u32) {
            Some(p) => p,
            None => return false,
        };
        let p3: usize = match self.locate_for_write(v.wrapping_add(3) as u32) {
            Some(p) => p,
            None => return false,
        };
        let u: u32 = w as u32;
        self.ram.set(p0, (u % 256) as u8);
        self.ram.set(p1, (u / 256 % 256) as u8);
        self.ram.set(p2, (u / 65536 % 256) as u8);
        self.ram.set(p3, (u / 16777216) as u8);
        true
    }
}

proof fn lemma_bytes_join(w: i32)
    ensures
        joined(byte_of(w, 0), byte_of(w, 1), byte_of(w, 2), byte_of(w, 3)) == w,
{
    let v = w as u32;
    assert(v % 256 + 256 * (v / 256 % 256) + 65536 * (v / 65536 % 256) + 16777216 * (v / 16777216)
        == v);
    assert((w as u32) as i32 == w) by (bit_vector);
}

/// The bytes of a number that they make up.
#[verifier::spinoff_prover]
proof fn lemma_digits(b0: int, b1: int, b2: int, b3: int)
    requires
        0 <= b0 < 256,
        0 <= b1 < 256,
        0 <= b2 < 256,
        0 <= b3 < 256,
    ensures
        ({
            let u = b0 + 256 * b1 + 65536 * b2 + 16777216 * b3;
            &&& 0 <= u < 0x1_0000_0000
            &&& u % 256 == b0
            &&& u / 256 % 256 == b1
            &&& u / 65536 % 256 == b2
            &&& u / 16777216 == b3
        }),
{
    let u = b0 + 256 * b1 + 65536 * b2 + 16777216 * b3;
    let h1 = b1 + 256 * b2 + 65536 * b3;
    let h2 = b2 + 256 * b3;
    vstd::arithmetic::div_mod::lemma_fundamental_div_mod_converse(u, 256, h1, b0);
    vstd::arithmetic::div_mod::lemma_fundamental_div_mod_converse(h1, 256, h2, b1);
    vstd::arithmetic::div_mod::lemma_fundamental_div_mod_converse(u, 65536, h2, b0 + 256 * b1);
    vstd::arithmetic::div_mod::lemma_fundamental_div_mod_converse(h2, 256, b3, b2);
    vstd::arithmetic::div_mod::lemma_fundamental_div_mod_converse(
        u,
        16777216,
        b3,
        b0 + 256 * b1 + 65536 * b2,
    );
}

/// The bytes of a word are the ones that it was joined from.
#[verifier::spinoff_prover]
pub proof fn lemma_bytes_come_back(b0: u8, b1: u8, b2: u8, b3: u8)
    ensures
        byte_of(joined(b0, b1, b2, b3), 0) == b0,
        byte_of(joined(b0, b1, b2, b3), 1) == b1,
        byte_of(joined(b0, b1, b2, b3), 2) == b2,
        byte_of(joined(b0, b1, b2, b3), 3) == b3,
{
    lemma_digits(b0 as int, b1 as int, b2 as int, b3 as int);
    let u = (b0 + 256 * b1 + 65536 * b2 + 16777216 * b3) as u32;
    crate::codegen_value_laws::lemma_cast(u);
}

proof fn lemma_next_addresses(v: i32)
    ensures
        forall|i: i32, j: i32|
            0 <= i < j < 4 ==> #[trigger] beyond(v, i) % 0x1000 != #[trigger] beyond(v, j) % 0x1000,
        beyond(v, 0) == v as u32,
{
    assert forall|i: i32, j: i32| 0 <= i < j < 4 implies #[trigger] beyond(v, i) % 0x1000
        != #[trigger] beyond(v, j) % 0x1000 by {
        lemma_beyond(v, i);
        lemma_beyond(v, j);
    }
    lemma_beyond(v, 0);
}

proof fn bits_of_word(v: i32)
    by (bit_vector)
    ensures
        v >= 0 ==> v as u32 == v,
        v < 0 ==> v as u32 == v + 0x1_0000_0000,
{
}

proof fn lemma_beyond(v: i32, n: i32)
    requires
        0 <= n < 4,
    ensures
        beyond(v, n) == (v as u32 + n) % 0x1_0000_0000,
{
    let r = v.wrapping_add(n);
    assert(r == v + n || r == v + n - 0x1_0000_0000);
    bits_of_word(v);
    bits_of_word(r);
}

/// A word that was written reads back, also where it crosses into another page.
pub proof fn law_a_written_word_reads_back(s: Space, v: i32, w: i32)
    requires
        s.wf(),
        s.with_word(v, w) is Some,
    ensures
        (s.with_word(v, w)->0).word(v) == Some(w),
        (s.with_word(v, w)->0).wf(),
{
    reveal(Space::with_word);
    reveal(Space::word);
    lemma_bytes_join(w);
    lemma_next_addresses(v);
    let p0 = s.place(beyond(v, 0))->0;
    let p1 = s.place(beyond(v, 1))->0;
    let p2 = s.place(beyond(v, 2))->0;
    let p3 = s.place(beyond(v, 3))->0;
    assert(p0 % 0x1000 == beyond(v, 0) % 0x1000);
    assert(p1 % 0x1000 == beyond(v, 1) % 0x1000);
    assert(p2 % 0x1000 == beyond(v, 2) % 0x1000);
    assert(p3 % 0x1000 == beyond(v, 3) % 0x1000);
}

/// Pages are mapped as they were.
pub open spec fn same_pages(s: Space, t: Space) -> bool {
    s.pages == t.pages && s.ram.len() == t.ram.len()
}

/// Whether a word can be written depends on the pages alone, and a write keeps them.
pub proof fn lemma_pages_decide(s: Space, t: Space, v: i32, a: i32, b: i32)
    requires
        same_pages(s, t),
    ensures
        s.with_word(v, a) is Some <==> t.with_word(v, b) is Some,
        s.with_word(v, a) is Some ==> same_pages(s, s.with_word(v, a)->0),
{
    reveal(Space::with_word);
}

/// Memory is as it was once a word that was overwritten is put back, and where a word is
/// overwritten with itself.
pub proof fn lemma_word_put_back(s: Space, v: i32, w: i32)
    requires
        s.with_word(v, w) is Some,
    ensures
        s.word(v) is Some,
        (s.with_word(v, w)->0).with_word(v, s.word(v)->0) == Some(s),
        s.with_word(v, s.word(v)->0) == Some(s),
{
    reveal(Space::word);
    reveal(Space::with_word);
    let x = s.word(v)->0;
    let t = s.with_word(v, w)->0;
    lemma_bytes_come_back(
        s.byte(v as u32)->0,
        s.byte(beyond(v, 1))->0,
        s.byte(beyond(v, 2))->0,
        s.byte(beyond(v, 3))->0,
    );
    assert((t.with_word(v, x)->0).ram =~= s.ram);
    assert((s.with_word(v, x)->0).ram =~= s.ram);
}

} // verus!
