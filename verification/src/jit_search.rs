//! The search for basic blocks: from the entry points of a page along the jumps, within a
//! budget of pages.
use vstd::prelude::*;
use crate::cpu_state::PAGE_MASK;
use crate::guest_ram;
use crate::guest_ram::Ram;
use crate::jit_blocks;
use crate::jit_blocks::{
    is_near_end_of_page, AnalysisType, BasicBlock, BasicBlockType, Listing, Step,
};
use crate::jit_exits::has_addr;
use std::collections::HashMap;

verus! {

broadcast use vstd::std_specs::hash::group_hash_axioms;

/// A basic block while the search goes on.
#[derive(Clone, Copy, Debug, PartialEq, Eq, Structural)]
pub struct Span {
    pub addr: u32,
    pub virt_addr: i32,
    pub last_instruction_addr: u32,
    pub end_addr: u32,
    pub is_entry_block: bool,
    pub ty: BasicBlockType,
    pub has_sti: bool,
    pub number_of_instructions: u32,
}

/// What the search reads.
pub struct Guest {
    pub ram: Ram,
    pub listing: Listing,
    /// The physical page of each mapped virtual page.
    pub translation: HashMap<u32, u32>,
    /// The offsets at which each physical page has been entered.
    pub entry_points: HashMap<u32, Vec<u16>>,
    /// The offsets at which the compiled code of each physical page can be entered.
    pub compiled: HashMap<u32, Vec<u16>>,
    /// The most frequent targets of computed jumps, by the address of the jump.
    pub hot_targets: HashMap<u32, Vec<u32>>,
    pub cs_offset: u32,
    pub max_pages: u32,
    /// The search does not grow into these addresses; none where the end is zero.
    pub exclude_lo: u32,
    pub exclude_hi: u32,
    /// The search follows frequent computed jumps.
    pub indirect_regions: bool,
}

impl Guest {
    pub open spec fn wf(self) -> bool {
        &&& forall|page: u32| #[trigger]
            self.translation@.contains_key(page) ==> self.translation@[page] < 0xF_FFFF
        &&& forall|a: u32|
            self.listing@.contains_key(a) ==> a < (#[trigger] self.listing@[a]).end
                && self.listing@[a].end / 0x1000 == a / 0x1000
    }

    /// The physical address behind a virtual one.
    pub open spec fn translated(self, virt: i32) -> Option<u32> {
        let page = virt as u32 / 0x1000;
        if self.translation@.contains_key(page) {
            Some((self.translation@[page] * 0x1000 + virt as u32 % 0x1000) as u32)
        } else {
            None
        }
    }

    pub open spec fn excluded(self, target: u32) -> bool {
        self.exclude_hi != 0 && self.exclude_lo <= target < self.exclude_hi
    }

    /// The page has been entered somewhere that its compiled code does not know.
    pub open spec fn has_new_entries(self, page: u32) -> bool {
        self.entry_points@.contains_key(page) && exists|i: int|
            0 <= i < self.entry_points@[page]@.len() && !(self.compiled@.contains_key(page)
                && self.compiled@[page]@.contains(#[trigger] self.entry_points@[page]@[i]))
    }

    /// The page has been entered at this very address.
    pub open spec fn registered(self, virt: u32) -> bool {
        match self.translated(virt as i32) {
            Some(phys) => self.entry_points@.contains_key(phys / 0x1000)
                && self.entry_points@[phys / 0x1000]@.contains((phys % 0x1000) as u16),
            None => false,
        }
    }
}

/// The sequence with one more element, unless it is there.
pub open spec fn with<T>(s: Seq<T>, x: T) -> Seq<T> {
    if s.contains(x) {
        s
    } else {
        s.push(x)
    }
}

/// An offset on the page of a virtual address.
pub open spec fn on_page(virt: i32, low: u32) -> i32 {
    (virt & PAGE_MASK) | (low as i32)
}

/// A block starts at the address.
pub open spec fn holds(blocks: Seq<Span>, addr: u32) -> bool {
    exists|i: int| 0 <= i < blocks.len() && (#[trigger] blocks[i]).addr == addr
}

/// How many of the first `n` blocks come before the address.
pub open spec fn place(blocks: Seq<Span>, addr: u32, n: nat) -> nat
    decreases n,
{
    if n == 0 || blocks[n - 1].addr < addr {
        n
    } else {
        place(blocks, addr, (n - 1) as nat)
    }
}

/// How far the search has come.
pub struct Hunt {
    /// Virtual addresses that are still to be visited, the next one last.
    pub to_visit: Seq<i32>,
    /// Virtual addresses at which compiled code must be enterable.
    pub marked: Seq<i32>,
    /// The blocks so far, by ascending address.
    pub blocks: Seq<Span>,
    /// The physical pages that the search has entered.
    pub pages: Seq<u32>,
    /// Physical pages that have nothing new.
    pub blacklist: Seq<u32>,
}

impl Hunt {
    pub open spec fn later(self, virt: i32) -> Hunt {
        Hunt { to_visit: self.to_visit.push(virt), ..self }
    }

    pub open spec fn mark(self, virt: i32) -> Hunt {
        Hunt { marked: with(self.marked, virt), ..self }
    }

    /// The entry points of a page are visited and marked, the first `n` of them.
    pub open spec fn entered(self, virt: i32, offsets: Seq<u16>, n: nat) -> Hunt
        decreases n,
    {
        if n == 0 {
            self
        } else {
            let addr = on_page(virt, offsets[n - 1] as u32);
            self.entered(virt, offsets, (n - 1) as nat).later(addr).mark(addr)
        }
    }

    /// A jump to a virtual address is followed, where the search may go there: the physical
    /// address.
    #[verifier::opaque]
    pub open spec fn followed(self, g: Guest, virt: i32) -> (Hunt, Option<u32>) {
        if jit_blocks::near_end_of_page(virt as u32) {
            (self, None)
        } else {
            match g.translated(virt) {
                None => (self, None),
                Some(phys) => {
                    let page = phys / 0x1000;
                    if self.blacklist.contains(page) {
                        (self, None)
                    } else if self.pages.contains(page) {
                        (self.later(virt), Some(phys))
                    } else if self.pages.len() >= g.max_pages || (self.pages.len() > 0
                        && g.excluded(virt as u32)) {
                        (self, None)
                    } else if g.has_new_entries(page) {
                        let offsets = g.entry_points@[page]@;
                        let h = self.entered(virt, offsets, offsets.len());
                        (Hunt { pages: h.pages.push(page), ..h }.later(virt), Some(phys))
                    } else {
                        (Hunt { blacklist: self.blacklist.push(page), ..self }, None)
                    }
                },
            }
        }
    }

    /// The first `n` frequent targets of a computed jump are followed.
    pub open spec fn grown(self, g: Guest, targets: Seq<u32>, n: nat) -> Hunt
        decreases n,
    {
        if n == 0 {
            self
        } else {
            let h = self.grown(g, targets, (n - 1) as nat);
            let target = targets[n - 1];
            if g.excluded(target) || !g.registered(target) {
                h
            } else {
                let (f, to) = h.followed(g, target as i32);
                if to is Some {
                    f.mark(target as i32)
                } else {
                    f
                }
            }
        }
    }
}

/// Where a jump of `offset` bytes from a virtual address goes.
pub open spec fn jump_target(virt: i32, offset: i32, is_32: bool, cs_offset: u32) -> i32 {
    if is_32 {
        virt.wrapping_add(offset)
    } else {
        (cs_offset as i32).wrapping_add(
            virt.wrapping_sub(cs_offset as i32).wrapping_add(offset) & 0xFFFF,
        )
    }
}

impl Span {
    pub open spec fn start(phys: u32, virt: i32) -> Span {
        Span {
            addr: phys,
            virt_addr: virt,
            last_instruction_addr: 0,
            end_addr: 0,
            is_entry_block: false,
            ty: BasicBlockType::Exit,
            has_sti: false,
            number_of_instructions: 0,
        }
    }

    /// With one more instruction.
    pub open spec fn plus(self, addr: u32, end: u32) -> Span {
        Span {
            last_instruction_addr: addr,
            end_addr: end,
            number_of_instructions: (self.number_of_instructions + 1) as u32,
            ..self
        }
    }
}

impl Hunt {
    /// The end of a block at a jump. `virt` is the address after it.
    #[verifier::opaque]
    pub open spec fn at_jump(self, g: Guest, virt: i32, span: Span, step: Step) -> (Hunt, Span) {
        match step.ty {
            AnalysisType::Jump { offset, is_32, condition } => {
                let target = jump_target(virt, offset, is_32, g.cs_offset);
                match condition {
                    Some(condition) => {
                        let (h, to) = self.later(virt).followed(g, target);
                        let ty = BasicBlockType::ConditionalJump {
                            next_block_addr: if jit_blocks::near_end_of_page(step.end) {
                                None
                            } else {
                                Some(step.end)
                            },
                            next_block_branch_taken_addr: to,
                            condition,
                            jump_offset: offset,
                            jump_offset_is_32: is_32,
                        };
                        (h, Span { ty, ..span })
                    },
                    None => {
                        let back = if step.no_next_instruction {
                            self
                        } else {
                            self.mark(virt).later(virt)
                        };
                        let (h, to) = back.followed(g, target);
                        let ty = BasicBlockType::Normal {
                            next_block_addr: to,
                            jump_offset: offset,
                            jump_offset_is_32: is_32,
                        };
                        (h, Span { ty, ..span })
                    },
                }
            },
            _ => (self, span),
        }
    }

    /// The end of a block at an instruction that is no jump to a known address.
    #[verifier::opaque]
    pub open spec fn at_boundary(self, g: Guest, virt: i32, span: Span, step: Step) -> (Hunt, Span) {
        let back = if step.no_next_instruction {
            self
        } else {
            self.mark(virt).later(virt)
        };
        if step.absolute_jump {
            let at = span.last_instruction_addr;
            let h = if g.indirect_regions && g.hot_targets@.contains_key(at) {
                back.grown(g, g.hot_targets@[at]@, g.hot_targets@[at]@.len())
            } else {
                back
            };
            (h, Span { ty: BasicBlockType::AbsoluteEip, ..span })
        } else {
            (back, span)
        }
    }

    /// The block from the instruction at `addr` on; `span` is the part before it. An address
    /// without a listed instruction ends the block.
    #[verifier::opaque]
    pub open spec fn scanned(self, g: Guest, span: Span, addr: u32) -> (Hunt, Span)
        decreases u32::MAX - addr,
    {
        if !g.listing@.contains_key(addr) {
            (self, span)
        } else {
            let step = g.listing@[addr];
            let end = step.end;
            let virt = on_page(span.virt_addr, end & 0xFFF);
            if end <= addr || (step.ty is STI && jit_blocks::near_end_of_page(end)) {
                (self, span)
            } else {
                let s = span.plus(addr, end);
                match step.ty {
                    AnalysisType::Jump { .. } => self.at_jump(g, virt, s, step),
                    AnalysisType::BlockBoundary => self.at_boundary(g, virt, s, step),
                    _ => if s.has_sti {
                        (self.mark(virt).later(virt), s)
                    } else if step.ty is Normal && holds(self.blocks, end) {
                        let ty = BasicBlockType::Normal {
                            next_block_addr: Some(end),
                            jump_offset: 0,
                            jump_offset_is_32: true,
                        };
                        (self, Span { ty, ..s })
                    } else {
                        let t = Span { has_sti: step.ty is STI, ..s };
                        if jit_blocks::near_end_of_page(end) {
                            (self, t)
                        } else {
                            self.scanned(g, t, end)
                        }
                    },
                }
            }
        }
    }

    /// A block joins the others. The block before it is visited again where the two overlap.
    #[verifier::opaque]
    pub open spec fn joined(self, span: Span) -> Hunt {
        let p = place(self.blocks, span.addr, self.blocks.len());
        if p > 0 && !self.blocks[p - 1].has_sti && span.addr < self.blocks[p - 1].end_addr {
            Hunt {
                to_visit: self.to_visit.push(self.blocks[p - 1].virt_addr),
                blocks: self.blocks.update(p - 1, span),
                ..self
            }
        } else {
            Hunt { blocks: self.blocks.insert(p as int, span), ..self }
        }
    }

    /// The next address has been visited.
    #[verifier::opaque]
    pub open spec fn visited(self, g: Guest) -> Hunt {
        let virt = self.to_visit.last();
        let h = Hunt { to_visit: self.to_visit.drop_last(), ..self };
        match g.translated(virt) {
            None => h,
            Some(phys) => if holds(h.blocks, phys) || jit_blocks::near_end_of_page(phys) {
                h
            } else {
                let (f, span) = h.scanned(g, Span::start(phys, virt), phys);
                if span.number_of_instructions == 0 {
                    f
                } else {
                    f.joined(span)
                }
            },
        }
    }

    /// The search after at most `n` more visits.
    #[verifier::opaque]
    pub open spec fn finished(self, g: Guest, n: nat) -> Hunt
        decreases n,
    {
        if n == 0 || self.to_visit.len() == 0 {
            self
        } else {
            self.visited(g).finished(g, (n - 1) as nat)
        }
    }

    /// The search starts at the first `n` of these virtual addresses.
    pub open spec fn seeded(self, g: Guest, starts: Seq<i32>, n: nat) -> Hunt
        decreases n,
    {
        if n == 0 {
            self
        } else {
            self.seeded(g, starts, (n - 1) as nat).followed(g, starts[n - 1]).0
        }
    }

    pub open spec fn empty() -> Hunt {
        Hunt {
            to_visit: Seq::empty(),
            marked: Seq::empty(),
            blocks: Seq::empty(),
            pages: Seq::empty(),
            blacklist: Seq::empty(),
        }
    }

    /// Blocks ascend, hold at least one instruction each, and do not leave their page.
    pub open spec fn wf(self) -> bool {
        &&& forall|i: int, j: int|
            0 <= i < j < self.blocks.len() ==> (#[trigger] self.blocks[i]).addr < (
            #[trigger] self.blocks[j]).addr
        &&& forall|i: int| 0 <= i < self.blocks.len() ==> (#[trigger] self.blocks[i]).wf()
    }
}

/// The search has not entered more pages than it may.
pub open spec fn within(h: Hunt, g: Guest) -> bool {
    h.pages.len() <= g.max_pages
}

impl Span {
    pub open spec fn wf(self) -> bool {
        &&& self.addr <= self.last_instruction_addr < self.end_addr <= 0xFFFF_F000
        &&& self.end_addr / 0x1000 == self.addr / 0x1000
        &&& 0 < self.number_of_instructions <= self.end_addr - self.addr
    }

    /// What holds of a block whose instructions so far end at `addr`.
    pub open spec fn open_at(self, addr: u32) -> bool {
        &&& self.addr / 0x1000 == addr / 0x1000
        &&& self.addr <= addr < 0xFFFF_F000
        &&& if self.number_of_instructions == 0 {
            addr == self.addr
        } else {
            self.end_addr == addr && self.wf()
        }
    }
}

/// The search while it runs.
pub struct Search {
    pub to_visit: Vec<i32>,
    pub marked: Vec<i32>,
    pub blocks: Vec<Span>,
    pub pages: Vec<u32>,
    pub blacklist: Vec<u32>,
}

impl View for Search {
    type V = Hunt;

    open spec fn view(&self) -> Hunt {
        Hunt {
            to_visit: self.to_visit@,
            marked: self.marked@,
            blocks: self.blocks@,
            pages: self.pages@,
            blacklist: self.blacklist@,
        }
    }
}

fn has_i32(v: &Vec<i32>, x: i32) -> (r: bool)
    ensures
        r == v@.contains(x),
{
    let n: usize = v.len();
    let mut i: usize = 0;
    while i < n
        invariant
            i <= n,
            n == v@.len(),
            forall|j: int| 0 <= j < i ==> v@[j] != x,
        decreases n - i,
    {
        if v[i] == x {
            return true;
        }
        i = i + 1;
    }
    false
}

fn has_u16(v: &Vec<u16>, x: u16) -> (r: bool)
    ensures
        r == v@.contains(x),
{
    let n: usize = v.len();
    let mut i: usize = 0;
    while i < n
        invariant
            i <= n,
            n == v@.len(),
            forall|j: int| 0 <= j < i ==> v@[j] != x,
        decreases n - i,
    {
        if v[i] == x {
            return true;
        }
        i = i + 1;
    }
    false
}

/// Whether an offset is not among the known ones.
fn has_other(offsets: &Vec<u16>, known: &Vec<u16>) -> (r: bool)
    ensures
        r == exists|i: int| 0 <= i < offsets@.len() && !known@.contains(#[trigger] offsets@[i]),
{
    let n: usize = offsets.len();
    let mut i: usize = 0;
    while i < n
        invariant
            i <= n,
            n == offsets@.len(),
            forall|j: int| 0 <= j < i ==> known@.contains(#[trigger] offsets@[j]),
        decreases n - i,
    {
        if !has_u16(known, offsets[i]) {
            return true;
        }
        i = i + 1;
    }
    false
}

impl Guest {
    /// The physical address behind a virtual one.
    pub fn translate_address(&self, virt: i32) -> (r: Option<u32>)
        requires
            self.wf(),
        ensures
            r == self.translated(virt),
            r is Some ==> r->0 < 0xFFFF_F000,
    {
        let page: u32 = virt as u32 / 0x1000;
        match self.translation.get(&page) {
            Some(p) => Some(*p * 0x1000 + virt as u32 % 0x1000),
            None => None,
        }
    }

    /// Whether the search must not grow to the address.
    pub fn region_target_excluded(&self, target: u32) -> (r: bool)
        ensures
            r == self.excluded(target),
    {
        self.exclude_hi != 0 && target >= self.exclude_lo && target < self.exclude_hi
    }

    fn page_is_new(&self, page: u32) -> (r: bool)
        ensures
            r == self.has_new_entries(page),
    {
        match self.entry_points.get(&page) {
            None => false,
            Some(offsets) => match self.compiled.get(&page) {
                None => {
                    if offsets.len() > 0 {
                        assert(self.entry_points@[page]@[0] == offsets@[0]);
                        true
                    } else {
                        false
                    }
                },
                Some(known) => has_other(offsets, known),
            },
        }
    }

    fn is_registered(&self, virt: u32) -> (r: bool)
        requires
            self.wf(),
        ensures
            r == self.registered(virt),
    {
        match self.translate_address(virt as i32) {
            Some(phys) => match self.entry_points.get(&(phys / 0x1000)) {
                Some(offsets) => has_u16(offsets, (phys % 0x1000) as u16),
                None => false,
            },
            None => false,
        }
    }
}

/// Offsets in a page.
pub proof fn lemma_offset(addr: u32)
    ensures
        addr & 0xFFF < 0x1000,
        addr & 0xFFF == addr % 0x1000,
{
    assert(addr & 0xFFF < 0x1000 && addr & 0xFFF == addr % 0x1000) by (bit_vector);
}

proof fn bits_of_page(virt: i32, low: u32, m: i32)
    by (bit_vector)
    requires
        m == -4096i32,
        low < 0x1000u32,
    ensures
        (((virt & m) | (low as i32)) as u32) / 0x1000u32 == (virt as u32) / 0x1000u32,
        (((virt & m) | (low as i32)) as u32) % 0x1000u32 == low,
{
}

/// An offset on the page of an address is on that page.
pub proof fn lemma_on_page(virt: i32, low: u32)
    requires
        low < 0x1000,
    ensures
        on_page(virt, low) as u32 / 0x1000 == virt as u32 / 0x1000,
        on_page(virt, low) as u32 % 0x1000 == low,
{
    bits_of_page(virt, low, PAGE_MASK);
}

fn virt_on_page(virt: i32, low: u32) -> (r: i32)
    requires
        low < 0x10000,
    ensures
        r == on_page(virt, low),
{
    (virt & PAGE_MASK) | (low as i32)
}

/// Whether a block starts at the address.
fn has_block(blocks: &Vec<Span>, addr: u32) -> (r: bool)
    ensures
        r == holds(blocks@, addr),
{
    let n: usize = blocks.len();
    let mut i: usize = 0;
    while i < n
        invariant
            i <= n,
            n == blocks@.len(),
            forall|j: int| 0 <= j < i ==> (#[trigger] blocks@[j]).addr != addr,
        decreases n - i,
    {
        if blocks[i].addr == addr {
            return true;
        }
        i = i + 1;
    }
    false
}

impl Search {
    fn mark(&mut self, virt: i32)
        ensures
            final(self)@ == old(self)@.mark(virt),
    {
        if !has_i32(&self.marked, virt) {
            self.marked.push(virt);
        }
    }

    fn later(&mut self, virt: i32)
        ensures
            final(self)@ == old(self)@.later(virt),
    {
        self.to_visit.push(virt);
    }

    fn enter(&mut self, virt: i32, offsets: &Vec<u16>)
        ensures
            final(self)@ == old(self)@.entered(virt, offsets@, offsets@.len()),
    {
        let n: usize = offsets.len();
        let mut i: usize = 0;
        while i < n
            invariant
                i <= n,
                n == offsets@.len(),
                self@ == old(self)@.entered(virt, offsets@, i as nat),
            decreases n - i,
        {
            let addr: i32 = virt_on_page(virt, offsets[i] as u32);
            self.later(addr);
            self.mark(addr);
            i = i + 1;
        }
    }

    /// Follows a jump to a virtual address, where the search may go there.
    fn follow_jump(&mut self, g: &Guest, virt: i32) -> (r: Option<u32>)
        requires
            g.wf(),
        ensures
            (final(self)@, r) == old(self)@.followed(*g, virt),
            final(self)@.blocks == old(self)@.blocks,
            within(old(self)@, *g) ==> within(final(self)@, *g),
    {
        reveal(Hunt::followed);
        proof {
            entered_keeps(
                self@,
                virt,
                g.entry_points@[(g.translated(virt)->0) / 0x1000]@,
                g.entry_points@[(g.translated(virt)->0) / 0x1000]@.len(),
            );
        }
        if is_near_end_of_page(virt as u32) {
            return None;
        }
        let phys: u32 = match g.translate_address(virt) {
            Some(phys) => phys,
            None => return None,
        };
        let page: u32 = phys / 0x1000;
        if has_addr(&self.blacklist, page) {
            return None;
        }
        if has_addr(&self.pages, page) {
            self.later(virt);
            return Some(phys);
        }
        if self.pages.len() >= g.max_pages as usize || (self.pages.len() > 0
            && g.region_target_excluded(virt as u32)) {
            return None;
        }
        if g.page_is_new(page) {
            if let Some(offsets) = g.entry_points.get(&page) {
                self.enter(virt, offsets);
            }
            self.pages.push(page);
            self.later(virt);
            Some(phys)
        } else {
            self.blacklist.push(page);
            None
        }
    }

    fn grow(&mut self, g: &Guest, targets: &Vec<u32>)
        requires
            g.wf(),
        ensures
            final(self)@ == old(self)@.grown(*g, targets@, targets@.len()),
            final(self)@.blocks == old(self)@.blocks,
            within(old(self)@, *g) ==> within(final(self)@, *g),
    {
        let n: usize = targets.len();
        let mut i: usize = 0;
        while i < n
            invariant
                i <= n,
                n == targets@.len(),
                g.wf(),
                self@ == old(self)@.grown(*g, targets@, i as nat),
                self@.blocks == old(self)@.blocks,
                within(old(self)@, *g) ==> within(self@, *g),
            decreases n - i,
        {
            let target: u32 = targets[i];
            if !g.region_target_excluded(target) && g.is_registered(target) {
                if self.follow_jump(g, target as i32).is_some() {
                    self.mark(target as i32);
                }
            }
            i = i + 1;
        }
    }

    fn end_at_jump(&mut self, g: &Guest, virt: i32, span: Span, step: Step) -> (r: Span)
        requires
            g.wf(),
        ensures
            (final(self)@, r) == old(self)@.at_jump(*g, virt, span, step),
            final(self)@.blocks == old(self)@.blocks,
            r == (Span { ty: r.ty, ..span }),
            within(old(self)@, *g) ==> within(final(self)@, *g),
    {
        reveal(Hunt::at_jump);
        if let AnalysisType::Jump { offset, is_32, condition } = step.ty {
            let cs: i32 = g.cs_offset as i32;
            let target: i32 = if is_32 {
                virt.wrapping_add(offset)
            } else {
                cs.wrapping_add(virt.wrapping_sub(cs).wrapping_add(offset) & 0xFFFF)
            };
            match condition {
                Some(condition) => {
                    self.later(virt);
                    let next_block_addr: Option<u32> = if is_near_end_of_page(step.end) {
                        None
                    } else {
                        Some(step.end)
                    };
                    let to: Option<u32> = self.follow_jump(g, target);
                    Span {
                        ty: BasicBlockType::ConditionalJump {
                            next_block_addr,
                            next_block_branch_taken_addr: to,
                            condition,
                            jump_offset: offset,
                            jump_offset_is_32: is_32,
                        },
                        ..span
                    }
                },
                None => {
                    if !step.no_next_instruction {
                        self.mark(virt);
                        self.later(virt);
                    }
                    let to: Option<u32> = self.follow_jump(g, target);
                    Span {
                        ty: BasicBlockType::Normal {
                            next_block_addr: to,
                            jump_offset: offset,
                            jump_offset_is_32: is_32,
                        },
                        ..span
                    }
                },
            }
        } else {
            span
        }
    }

    fn end_at_boundary(&mut self, g: &Guest, virt: i32, span: Span, step: Step) -> (r: Span)
        requires
            g.wf(),
        ensures
            (final(self)@, r) == old(self)@.at_boundary(*g, virt, span, step),
            final(self)@.blocks == old(self)@.blocks,
            r == (Span { ty: r.ty, ..span }),
            within(old(self)@, *g) ==> within(final(self)@, *g),
    {
        reveal(Hunt::at_boundary);
        if !step.no_next_instruction {
            self.mark(virt);
            self.later(virt);
        }
        if step.absolute_jump {
            if g.indirect_regions {
                if let Some(targets) = g.hot_targets.get(&span.last_instruction_addr) {
                    self.grow(g, targets);
                }
            }
            Span { ty: BasicBlockType::AbsoluteEip, ..span }
        } else {
            span
        }
    }

    fn scan(&mut self, g: &Guest, start: Span) -> (r: Span)
        requires
            g.wf(),
            start.open_at(start.addr),
            start.number_of_instructions == 0,
        ensures
            (final(self)@, r) == old(self)@.scanned(*g, start, start.addr),
            final(self)@.blocks == old(self)@.blocks,
            r.addr == start.addr,
            r.number_of_instructions > 0 ==> r.wf(),
            within(old(self)@, *g) ==> within(final(self)@, *g),
    {
        let mut span: Span = start;
        let mut addr: u32 = start.addr;
        let ghost goal = self@.scanned(*g, start, start.addr);
        loop
            invariant
                g.wf(),
                span.open_at(addr),
                span.addr == start.addr,
                self@.scanned(*g, span, addr) == goal,
                goal == old(self)@.scanned(*g, start, start.addr),
                self@.blocks == old(self)@.blocks,
                within(old(self)@, *g) ==> within(self@, *g),
            decreases u32::MAX - addr,
        {
            reveal_with_fuel(Hunt::scanned, 1);
            let step: Step = match g.listing.at(addr) {
                Some(step) => step,
                None => return span,
            };
            let end: u32 = step.end;
            proof {
                lemma_offset(end);
            }
            let virt: i32 = virt_on_page(span.virt_addr, end & 0xFFF);
            if let AnalysisType::STI = step.ty {
                if is_near_end_of_page(end) {
                    return span;
                }
            }
            span = Span {
                last_instruction_addr: addr,
                end_addr: end,
                number_of_instructions: span.number_of_instructions + 1,
                ..span
            };
            match step.ty {
                AnalysisType::Jump { .. } => {
                    return self.end_at_jump(g, virt, span, step);
                },
                AnalysisType::BlockBoundary => {
                    return self.end_at_boundary(g, virt, span, step);
                },
                AnalysisType::STI => {
                    if span.has_sti {
                        self.mark(virt);
                        self.later(virt);
                        return span;
                    }
                    span.has_sti = true;
                },
                AnalysisType::Normal => {
                    if span.has_sti {
                        self.mark(virt);
                        self.later(virt);
                        return span;
                    }
                    if has_block(&self.blocks, end) {
                        return Span {
                            ty: BasicBlockType::Normal {
                                next_block_addr: Some(end),
                                jump_offset: 0,
                                jump_offset_is_32: true,
                            },
                            ..span
                        };
                    }
                },
            }
            if is_near_end_of_page(end) {
                return span;
            }
            addr = end;
        }
    }

    fn join(&mut self, span: Span)
        requires
            old(self)@.wf(),
            span.wf(),
            !holds(old(self)@.blocks, span.addr),
        ensures
            final(self)@ == old(self)@.joined(span),
            final(self)@.wf(),
            final(self)@.pages == old(self)@.pages,
    {
        reveal(Hunt::joined);
        let mut p: usize = self.blocks.len();
        while p > 0 && self.blocks[p - 1].addr >= span.addr
            invariant
                p <= self@.blocks.len(),
                self@ == old(self)@,
                place(self@.blocks, span.addr, self@.blocks.len()) == place(
                    self@.blocks,
                    span.addr,
                    p as nat,
                ),
                forall|i: int| p <= i < self@.blocks.len() ==> (#[trigger] self@.blocks[i]).addr >= span.addr,
            decreases p,
        {
            p = p - 1;
        }
        let ghost before = self@.blocks;
        assert(forall|i: int| 0 <= i < before.len() ==> (#[trigger] before[i]).addr != span.addr);
        assert(forall|i: int| 0 <= i < p ==> (#[trigger] before[i]).addr < span.addr);
        if p > 0 && !self.blocks[p - 1].has_sti && span.addr < self.blocks[p - 1].end_addr {
            self.to_visit.push(self.blocks[p - 1].virt_addr);
            self.blocks.set(p - 1, span);
        } else {
            self.blocks.insert(p, span);
            assert(forall|i: int|
                0 <= i < self@.blocks.len() ==> #[trigger] self@.blocks[i] == (if i < p {
                    before[i]
                } else if i == p {
                    span
                } else {
                    before[i - 1]
                }));
        }
    }

    fn visit(&mut self, g: &Guest)
        requires
            g.wf(),
            old(self)@.wf(),
            old(self)@.to_visit.len() > 0,
        ensures
            final(self)@ == old(self)@.visited(*g),
            final(self)@.wf(),
            within(old(self)@, *g) ==> within(final(self)@, *g),
    {
        reveal(Hunt::visited);
        let virt: i32 = match self.to_visit.pop() {
            Some(virt) => virt,
            None => 0,
        };
        if let Some(phys) = g.translate_address(virt) {
            if !has_block(&self.blocks, phys) && !is_near_end_of_page(phys) {
                let start: Span = Span {
                    addr: phys,
                    virt_addr: virt,
                    last_instruction_addr: 0,
                    end_addr: 0,
                    is_entry_block: false,
                    ty: BasicBlockType::Exit,
                    has_sti: false,
                    number_of_instructions: 0,
                };
                let span: Span = self.scan(g, start);
                if span.number_of_instructions > 0 {
                    self.join(span);
                }
            }
        }
    }

    fn run(&mut self, g: &Guest)
        requires
            g.wf(),
            old(self)@.wf(),
        ensures
            final(self)@ == old(self)@.finished(*g, u64::MAX as nat),
            final(self)@.wf(),
            within(old(self)@, *g) ==> within(final(self)@, *g),
    {
        let mut fuel: u64 = u64::MAX;
        let ghost goal = self@.finished(*g, fuel as nat);
        while fuel > 0 && self.to_visit.len() > 0
            invariant
                g.wf(),
                self@.wf(),
                self@.finished(*g, fuel as nat) == goal,
                within(old(self)@, *g) ==> within(self@, *g),
            decreases fuel,
        {
            reveal_with_fuel(Hunt::finished, 1);
            self.visit(g);
            fuel = fuel - 1;
        }
        reveal_with_fuel(Hunt::finished, 1);
    }
}

/// Entering a page changes nothing but the addresses to visit and the marks.
pub proof fn entered_keeps(h: Hunt, virt: i32, offsets: Seq<u16>, n: nat)
    ensures
        h.entered(virt, offsets, n).blocks == h.blocks,
        h.entered(virt, offsets, n).pages == h.pages,
        h.entered(virt, offsets, n).blacklist == h.blacklist,
    decreases n,
{
    if n > 0 {
        entered_keeps(h, virt, offsets, (n - 1) as nat);
    }
}

/// The edge to a block, unless no block starts there.
pub open spec fn kept(to: Option<u32>, blocks: Seq<Span>) -> Option<u32> {
    if to is Some && !holds(blocks, to->0) {
        None
    } else {
        to
    }
}

/// A block with its mark, and without edges to blocks that are not there.
pub open spec fn settled(span: Span, blocks: Seq<Span>, marked: Seq<i32>) -> Span {
    let ty = match span.ty {
        BasicBlockType::Normal { next_block_addr, jump_offset, jump_offset_is_32 } => {
            BasicBlockType::Normal {
                next_block_addr: kept(next_block_addr, blocks),
                jump_offset,
                jump_offset_is_32,
            }
        },
        BasicBlockType::ConditionalJump {
            next_block_addr,
            next_block_branch_taken_addr,
            condition,
            jump_offset,
            jump_offset_is_32,
        } => {
            BasicBlockType::ConditionalJump {
                next_block_addr: kept(next_block_addr, blocks),
                next_block_branch_taken_addr: kept(next_block_branch_taken_addr, blocks),
                condition,
                jump_offset,
                jump_offset_is_32,
            }
        },
        ty => ty,
    };
    Span { ty, is_entry_block: marked.contains(span.virt_addr), ..span }
}

/// All blocks, settled.
pub open spec fn all_settled(h: Hunt) -> Seq<Span> {
    h.blocks.map_values(|span: Span| settled(span, h.blocks, h.marked))
}

fn keep(to: Option<u32>, blocks: &Vec<Span>) -> (r: Option<u32>)
    ensures
        r == kept(to, blocks@),
{
    match to {
        Some(addr) => if has_block(blocks, addr) {
            to
        } else {
            None
        },
        None => None,
    }
}

fn settle(search: &Search) -> (r: Vec<Span>)
    ensures
        r@ == all_settled(search@),
{
    let n: usize = search.blocks.len();
    let mut r: Vec<Span> = Vec::new();
    let mut i: usize = 0;
    while i < n
        invariant
            i <= n,
            n == search@.blocks.len(),
            r@ == all_settled(search@).take(i as int),
        decreases n - i,
    {
        let span: Span = search.blocks[i];
        let ty: BasicBlockType = match span.ty {
            BasicBlockType::Normal { next_block_addr, jump_offset, jump_offset_is_32 } => {
                BasicBlockType::Normal {
                    next_block_addr: keep(next_block_addr, &search.blocks),
                    jump_offset,
                    jump_offset_is_32,
                }
            },
            BasicBlockType::ConditionalJump {
                next_block_addr,
                next_block_branch_taken_addr,
                condition,
                jump_offset,
                jump_offset_is_32,
            } => {
                BasicBlockType::ConditionalJump {
                    next_block_addr: keep(next_block_addr, &search.blocks),
                    next_block_branch_taken_addr: keep(
                        next_block_branch_taken_addr,
                        &search.blocks,
                    ),
                    condition,
                    jump_offset,
                    jump_offset_is_32,
                }
            },
            ty => ty,
        };
        r.push(Span { ty, is_entry_block: has_i32(&search.marked, span.virt_addr), ..span });
        i = i + 1;
        assert(r@ =~= all_settled(search@).take(i as int));
    }
    assert(all_settled(search@).take(n as int) =~= all_settled(search@));
    r
}

/// A block remembers at most so many return addresses.
pub const RET_SPEC_MAX_CANDIDATES: usize = 4;

/// The last of the first `n` blocks that starts at the address.
pub open spec fn span_at(blocks: Seq<Span>, addr: u32, n: nat) -> Option<Span>
    decreases n,
{
    if n == 0 {
        None
    } else if blocks[n - 1].addr == addr {
        Some(blocks[n - 1])
    } else {
        span_at(blocks, addr, (n - 1) as nat)
    }
}

/// The virtual address after a block.
pub open spec fn fall_through(span: Span) -> i32 {
    on_page(span.virt_addr, span.end_addr & 0xFFF)
}

/// The block that a call at the end of a block goes to. Control comes back after the block,
/// so that address is marked.
pub open spec fn callee(span: Span, marked: Seq<i32>) -> Option<u32> {
    match span.ty {
        BasicBlockType::Normal { next_block_addr: Some(to), .. } => {
            if to != span.end_addr && marked.contains(fall_through(span)) {
                Some(to)
            } else {
                None
            }
        },
        _ => None,
    }
}

/// A walk through the blocks of a callee.
pub struct Walk {
    pub stack: Seq<u32>,
    pub visited: Seq<u32>,
    /// How many more instructions may be walked over.
    pub budget: u32,
    /// The blocks that end in a return.
    pub rets: Seq<u32>,
}

/// The blocks in which the callee returns, if every way through it ends in a return, within
/// the budget and without calls.
#[verifier::opaque]
pub open spec fn walked(
    w: Walk,
    blocks: Seq<Span>,
    marked: Seq<i32>,
    ram: Seq<u8>,
) -> Option<Seq<u32>>
    decreases w.budget, w.stack.len(),
{
    if w.stack.len() == 0 {
        Some(w.rets)
    } else {
        let addr = w.stack.last();
        let rest = w.stack.drop_last();
        if w.visited.contains(addr) {
            walked(Walk { stack: rest, ..w }, blocks, marked, ram)
        } else {
            match span_at(blocks, addr, blocks.len()) {
                None => None,
                Some(b) => {
                    if b.has_sti || b.number_of_instructions > w.budget
                        || b.number_of_instructions == 0 {
                        None
                    } else {
                        let v = Walk {
                            stack: rest,
                            visited: w.visited.push(addr),
                            budget: (w.budget - b.number_of_instructions) as u32,
                            ..w
                        };
                        match b.ty {
                            BasicBlockType::AbsoluteEip => {
                                let op = guest_ram::byte_at(ram, b.last_instruction_addr as int);
                                if op == 0xC3 || op == 0xC2 {
                                    walked(
                                        Walk { rets: w.rets.push(addr), ..v },
                                        blocks,
                                        marked,
                                        ram,
                                    )
                                } else {
                                    None
                                }
                            },
                            BasicBlockType::Normal { next_block_addr: Some(to), .. } => {
                                if callee(b, marked) is Some {
                                    None
                                } else {
                                    walked(
                                        Walk { stack: rest.push(to), ..v },
                                        blocks,
                                        marked,
                                        ram,
                                    )
                                }
                            },
                            BasicBlockType::ConditionalJump {
                                next_block_addr: Some(next),
                                next_block_branch_taken_addr: Some(taken),
                                ..
                            } => walked(
                                Walk { stack: rest.push(next).push(taken), ..v },
                                blocks,
                                marked,
                                ram,
                            ),
                            _ => None,
                        }
                    }
                },
            }
        }
    }
}

/// Return addresses, virtual and physical, each with the block that returns there: those of the
/// calls in the first `n` blocks.
pub open spec fn notes(
    blocks: Seq<Span>,
    marked: Seq<i32>,
    ram: Seq<u8>,
    budget: u32,
    n: nat,
) -> Seq<(u32, (i32, u32))>
    decreases n,
{
    if n == 0 {
        Seq::empty()
    } else {
        let before = notes(blocks, marked, ram, budget, (n - 1) as nat);
        let span = blocks[n - 1];
        match callee(span, marked) {
            Some(to) if holds(blocks, span.end_addr) => {
                let start = Walk {
                    stack: seq![to],
                    visited: Seq::empty(),
                    budget,
                    rets: Seq::empty(),
                };
                match walked(start, blocks, marked, ram) {
                    Some(rets) => before + noted(rets, (fall_through(span), span.end_addr)),
                    None => before,
                }
            },
            _ => before,
        }
    }
}

/// Each of the blocks may return to `back`.
pub open spec fn noted(rets: Seq<u32>, back: (i32, u32)) -> Seq<(u32, (i32, u32))> {
    rets.map_values(|addr: u32| (addr, back))
}

/// The return addresses of a block among the first `n` notes.
pub open spec fn candidates(notes: Seq<(u32, (i32, u32))>, addr: u32, n: nat) -> Seq<(i32, u32)>
    decreases n,
{
    if n == 0 {
        Seq::empty()
    } else {
        let before = candidates(notes, addr, (n - 1) as nat);
        let (at, back) = notes[n - 1];
        if at == addr && before.len() < RET_SPEC_MAX_CANDIDATES && !before.contains(back) {
            before.push(back)
        } else {
            before
        }
    }
}

fn find_span(blocks: &Vec<Span>, addr: u32) -> (r: Option<Span>)
    ensures
        r == span_at(blocks@, addr, blocks@.len()),
        r is Some ==> r->0.addr == addr && blocks@.contains(r->0),
{
    let mut n: usize = blocks.len();
    while n > 0
        invariant
            n <= blocks@.len(),
            span_at(blocks@, addr, blocks@.len()) == span_at(blocks@, addr, n as nat),
        decreases n,
    {
        n = n - 1;
        if blocks[n].addr == addr {
            return Some(blocks[n]);
        }
    }
    None
}

fn fall_through_virt(span: Span) -> (r: i32)
    ensures
        r == fall_through(span),
{
    let end: u32 = span.end_addr;
    proof {
        lemma_offset(end);
    }
    virt_on_page(span.virt_addr, end & 0xFFF)
}

fn find_callee(span: Span, marked: &Vec<i32>) -> (r: Option<u32>)
    ensures
        r == callee(span, marked@),
{
    if let BasicBlockType::Normal { next_block_addr: Some(to), .. } = span.ty {
        if to != span.end_addr && has_i32(marked, fall_through_virt(span)) {
            return Some(to);
        }
    }
    None
}

fn find_returns(blocks: &Vec<Span>, marked: &Vec<i32>, ram: &Ram, start: u32, limit: u32) -> (r:
    Option<Vec<u32>>)
    requires
        forall|i: int| 0 <= i < blocks@.len() ==> (#[trigger] blocks@[i]).number_of_instructions > 0,
    ensures
        ({
            let w = Walk {
                stack: seq![start],
                visited: Seq::empty(),
                budget: limit,
                rets: Seq::empty(),
            };
            match r {
                Some(rets) => walked(w, blocks@, marked@, ram@) == Some(rets@),
                None => walked(w, blocks@, marked@, ram@) is None,
            }
        }),
{
    let mut visited: Vec<u32> = Vec::new();
    let mut stack: Vec<u32> = Vec::new();
    stack.push(start);
    let mut budget: u32 = limit;
    let mut rets: Vec<u32> = Vec::new();
    let ghost goal = walked(
        Walk { stack: seq![start], visited: Seq::empty(), budget: limit, rets: Seq::empty() },
        blocks@,
        marked@,
        ram@,
    );
    assert(stack@ =~= seq![start]);
    assert(visited@ =~= Seq::empty());
    assert(rets@ =~= Seq::empty());
    while stack.len() > 0
        invariant
            forall|i: int|
                0 <= i < blocks@.len() ==> (#[trigger] blocks@[i]).number_of_instructions > 0,
            goal == walked(
                Walk {
                    stack: seq![start],
                    visited: Seq::empty(),
                    budget: limit,
                    rets: Seq::empty(),
                },
                blocks@,
                marked@,
                ram@,
            ),
            walked(
                Walk { stack: stack@, visited: visited@, budget, rets: rets@ },
                blocks@,
                marked@,
                ram@,
            ) == goal,
        decreases budget, stack@.len(),
    {
        reveal_with_fuel(walked, 1);
        let addr: u32 = match stack.pop() {
            Some(addr) => addr,
            None => 0,
        };
        if has_addr(&visited, addr) {
            continue ;
        }
        visited.push(addr);
        let b: Span = match find_span(blocks, addr) {
            Some(b) => b,
            None => return None,
        };
        assert(b.number_of_instructions > 0) by {
            let i = blocks@.index_of(b);
            assert(blocks@[i] == b);
        }
        if b.has_sti || b.number_of_instructions > budget {
            return None;
        }
        budget = budget - b.number_of_instructions;
        match b.ty {
            BasicBlockType::AbsoluteEip => {
                let op: u8 = ram.read8(b.last_instruction_addr);
                if op == 0xC3 || op == 0xC2 {
                    rets.push(addr);
                } else {
                    return None;
                }
            },
            BasicBlockType::Normal { next_block_addr: Some(to), .. } => {
                if find_callee(b, marked).is_some() {
                    return None;
                }
                stack.push(to);
            },
            BasicBlockType::ConditionalJump {
                next_block_addr: Some(next),
                next_block_branch_taken_addr: Some(taken),
                ..
            } => {
                stack.push(next);
                stack.push(taken);
            },
            _ => return None,
        }
    }
    reveal_with_fuel(walked, 1);
    Some(rets)
}

fn find_notes(blocks: &Vec<Span>, marked: &Vec<i32>, ram: &Ram, limit: u32) -> (r: Vec<
    (u32, (i32, u32)),
>)
    requires
        forall|i: int| 0 <= i < blocks@.len() ==> (#[trigger] blocks@[i]).number_of_instructions > 0,
    ensures
        r@ == notes(blocks@, marked@, ram@, limit, blocks@.len()),
{
    let n: usize = blocks.len();
    let mut r: Vec<(u32, (i32, u32))> = Vec::new();
    let mut i: usize = 0;
    while i < n
        invariant
            i <= n,
            n == blocks@.len(),
            forall|i: int|
                0 <= i < blocks@.len() ==> (#[trigger] blocks@[i]).number_of_instructions > 0,
            r@ == notes(blocks@, marked@, ram@, limit, i as nat),
        decreases n - i,
    {
        let span: Span = blocks[i];
        if let Some(to) = find_callee(span, marked) {
            if has_block(blocks, span.end_addr) {
                if let Some(rets) = find_returns(blocks, marked, ram, to, limit) {
                    let ghost before = r@;
                    let back: (i32, u32) = (fall_through_virt(span), span.end_addr);
                    let m: usize = rets.len();
                    let mut j: usize = 0;
                    assert(r@ =~= before + noted(rets@, back).take(0));
                    while j < m
                        invariant
                            j <= m,
                            m == rets@.len(),
                            r@ == before + noted(rets@, back).take(j as int),
                        decreases m - j,
                    {
                        r.push((rets[j], back));
                        j = j + 1;
                        assert(r@ =~= before + noted(rets@, back).take(j as int));
                    }
                    assert(noted(rets@, back).take(m as int) =~= noted(rets@, back));
                }
            }
        }
        i = i + 1;
    }
    r
}

fn find_candidates(notes: &Vec<(u32, (i32, u32))>, addr: u32) -> (r: Vec<(i32, u32)>)
    ensures
        r@ == candidates(notes@, addr, notes@.len()),
{
    let n: usize = notes.len();
    let mut r: Vec<(i32, u32)> = Vec::new();
    let mut i: usize = 0;
    while i < n
        invariant
            i <= n,
            n == notes@.len(),
            r@ == candidates(notes@, addr, i as nat),
        decreases n - i,
    {
        let (at, back): (u32, (i32, u32)) = notes[i];
        if at == addr && r.len() < RET_SPEC_MAX_CANDIDATES {
            let m: usize = r.len();
            let mut known: bool = false;
            let mut j: usize = 0;
            while j < m
                invariant
                    j <= m,
                    m == r@.len(),
                    known == exists|k: int| 0 <= k < j && #[trigger] r@[k] == back,
                decreases m - j,
            {
                if r[j].0 == back.0 && r[j].1 == back.1 {
                    assert(r@[j as int] == back);
                    known = true;
                }
                j = j + 1;
            }
            if !known {
                r.push(back);
            }
        }
        i = i + 1;
    }
    r
}

/// The blocks are the given ones, with their return addresses.
pub open spec fn describes(
    blocks: Seq<BasicBlock>,
    spans: Seq<Span>,
    notes: Seq<(u32, (i32, u32))>,
) -> bool {
    &&& blocks.len() == spans.len()
    &&& forall|i: int|
        0 <= i < blocks.len() ==> span_of(#[trigger] blocks[i]) == spans[i]
            && blocks[i].ret_speculation@ == candidates(notes, spans[i].addr, notes.len())
}

/// A block without its return addresses.
pub open spec fn span_of(b: BasicBlock) -> Span {
    Span {
        addr: b.addr,
        virt_addr: b.virt_addr,
        last_instruction_addr: b.last_instruction_addr,
        end_addr: b.end_addr,
        is_entry_block: b.is_entry_block,
        ty: b.ty,
        has_sti: b.has_sti,
        number_of_instructions: b.number_of_instructions,
    }
}

fn make_blocks(spans: &Vec<Span>, notes: &Vec<(u32, (i32, u32))>) -> (r: Vec<BasicBlock>)
    ensures
        describes(r@, spans@, notes@),
{
    let n: usize = spans.len();
    let mut r: Vec<BasicBlock> = Vec::new();
    let mut i: usize = 0;
    while i < n
        invariant
            i <= n,
            n == spans@.len(),
            describes(r@, spans@.take(i as int), notes@),
        decreases n - i,
    {
        let span: Span = spans[i];
        let ret_speculation: Vec<(i32, u32)> = find_candidates(notes, span.addr);
        r.push(
            BasicBlock {
                addr: span.addr,
                virt_addr: span.virt_addr,
                last_instruction_addr: span.last_instruction_addr,
                end_addr: span.end_addr,
                is_entry_block: span.is_entry_block,
                ty: span.ty,
                has_sti: span.has_sti,
                number_of_instructions: span.number_of_instructions,
                ret_speculation,
            },
        );
        i = i + 1;
        assert(spans@.take(i as int).drop_last() =~= spans@.take(i - 1));
    }
    assert(spans@.take(n as int) =~= spans@);
    r
}

/// Budgets of a search.
#[derive(Clone, Copy, Debug, PartialEq, Eq, Structural)]
pub struct Limits {
    pub max_pages: u32,
    /// Pages, where the search follows computed jumps.
    pub region_max_pages: u32,
    /// Pages, where it starts on a page that is executed often.
    pub tier2_max_pages: u32,
    /// Blocks remember the addresses that their returns may go to.
    pub ret_speculation: bool,
    /// Instructions of a callee.
    pub ret_spec_max_instr: u32,
    pub tier2_ret_spec_max_instr: u32,
}

pub open spec fn larger(a: u32, b: u32) -> u32 {
    if a < b {
        b
    } else {
        a
    }
}

impl Limits {
    /// How many pages one search may enter.
    pub open spec fn pages(self, regions: bool, tier2: bool, is_32: bool) -> u32 {
        let base = if regions {
            larger(self.max_pages, self.region_max_pages)
        } else {
            self.max_pages
        };
        if !is_32 {
            1
        } else if tier2 {
            larger(base, self.tier2_max_pages)
        } else {
            base
        }
    }

    pub open spec fn instructions(self, tier2: bool) -> u32 {
        if tier2 {
            self.tier2_ret_spec_max_instr
        } else {
            self.ret_spec_max_instr
        }
    }

    fn page_budget(&self, regions: bool, tier2: bool, is_32: bool) -> (r: u32)
        ensures
            r == self.pages(regions, tier2, is_32),
    {
        if !is_32 {
            return 1;
        }
        let mut r: u32 = self.max_pages;
        if regions && r < self.region_max_pages {
            r = self.region_max_pages;
        }
        if tier2 && r < self.tier2_max_pages {
            r = self.tier2_max_pages;
        }
        r
    }
}

/// One of the starts lies on a page that is executed often.
pub open spec fn starts_hot(g: Guest, starts: Seq<i32>, tier2_pages: Seq<u32>) -> bool {
    exists|i: int|
        0 <= i < starts.len() && {
            let phys = g.translated(#[trigger] starts[i]);
            phys is Some && tier2_pages.contains(phys->0 / 0x1000)
        }
}

fn any_hot(g: &Guest, starts: &Vec<i32>, tier2_pages: &Vec<u32>) -> (r: bool)
    requires
        g.wf(),
    ensures
        r == starts_hot(*g, starts@, tier2_pages@),
{
    let n: usize = starts.len();
    let mut i: usize = 0;
    while i < n
        invariant
            i <= n,
            n == starts@.len(),
            g.wf(),
            forall|j: int|
                0 <= j < i ==> {
                    let phys = g.translated(#[trigger] starts@[j]);
                    !(phys is Some && tier2_pages@.contains(phys->0 / 0x1000))
                },
        decreases n - i,
    {
        if let Some(phys) = g.translate_address(starts[i]) {
            if has_addr(tier2_pages, phys / 0x1000) {
                return true;
            }
        }
        i = i + 1;
    }
    false
}

/// The search from these virtual addresses, at its end.
pub open spec fn hunted(g: Guest, starts: Seq<i32>) -> Hunt {
    Hunt::empty().seeded(g, starts, starts.len()).finished(g, u64::MAX as nat)
}

/// The return addresses that the blocks remember.
pub open spec fn remembered(h: Hunt, g: Guest, limits: Limits, tier2: bool) -> Seq<
    (u32, (i32, u32)),
> {
    if limits.ret_speculation {
        notes(
            all_settled(h),
            h.marked,
            g.ram@,
            limits.instructions(tier2),
            all_settled(h).len(),
        )
    } else {
        Seq::empty()
    }
}

/// Finds the basic blocks that control can reach from the given virtual addresses, and the
/// physical pages that the search entered. The blocks ascend by address. The search stops
/// after `u64::MAX` visits.
pub fn jit_find_basic_blocks(
    guest: &mut Guest,
    starts: &Vec<i32>,
    limits: &Limits,
    tier2_pages: &Vec<u32>,
    is_32: bool,
) -> (r: (Vec<BasicBlock>, Vec<u32>))
    requires
        old(guest).wf(),
    ensures
        ({
            let tier2 = starts_hot(*old(guest), starts@, tier2_pages@);
            let g = Guest {
                max_pages: limits.pages(old(guest).indirect_regions, tier2, is_32),
                ..*old(guest)
            };
            let h = hunted(g, starts@);
            &&& *final(guest) == g
            &&& describes(r.0@, all_settled(h), remembered(h, g, *limits, tier2))
            &&& r.1@ == h.pages
            &&& r.1@.len() <= g.max_pages
        }),
        jit_blocks::blocks_wf(r.0@),
        forall|i: int| 0 <= i < r.0@.len() ==> (#[trigger] r.0@[i]).end_addr <= 0xFFFF_F000,
        forall|i: int, j: int|
            0 <= i < j < r.0@.len() ==> (#[trigger] r.0@[i]).addr < (#[trigger] r.0@[j]).addr,
{
    let tier2: bool = any_hot(guest, starts, tier2_pages);
    guest.max_pages = limits.page_budget(guest.indirect_regions, tier2, is_32);
    let mut search: Search = Search {
        to_visit: Vec::new(),
        marked: Vec::new(),
        blocks: Vec::new(),
        pages: Vec::new(),
        blacklist: Vec::new(),
    };
    assert(search@ == Hunt::empty());
    let n: usize = starts.len();
    let mut i: usize = 0;
    while i < n
        invariant
            i <= n,
            n == starts@.len(),
            guest.wf(),
            search@ == Hunt::empty().seeded(*guest, starts@, i as nat),
            search@.wf(),
            within(search@, *guest),
        decreases n - i,
    {
        search.follow_jump(guest, starts[i]);
        i = i + 1;
    }
    search.run(guest);
    let spans: Vec<Span> = settle(&search);
    let back: Vec<(u32, (i32, u32))> = if limits.ret_speculation {
        let budget: u32 = if tier2 {
            limits.tier2_ret_spec_max_instr
        } else {
            limits.ret_spec_max_instr
        };
        find_notes(&spans, &search.marked, &guest.ram, budget)
    } else {
        Vec::new()
    };
    let blocks: Vec<BasicBlock> = make_blocks(&spans, &back);
    assert forall|i: int| 0 <= i < blocks@.len() implies (#[trigger] blocks@[i]).addr
        == search@.blocks[i].addr && blocks@[i].end_addr == search@.blocks[i].end_addr by {
        assert(span_of(blocks@[i]) == spans@[i]);
    }
    (blocks, search.pages)
}

/// Every edge of a block that the search found goes to a block that it found.
pub proof fn law_edges_stay_inside(h: Hunt, i: int)
    requires
        0 <= i < h.blocks.len(),
    ensures
        match all_settled(h)[i].ty {
            BasicBlockType::Normal { next_block_addr, .. } => {
                next_block_addr is Some ==> holds(all_settled(h), next_block_addr->0)
            },
            BasicBlockType::ConditionalJump { next_block_addr, next_block_branch_taken_addr, .. } => {
                &&& next_block_addr is Some ==> holds(all_settled(h), next_block_addr->0)
                &&& next_block_branch_taken_addr is Some ==> holds(
                    all_settled(h),
                    next_block_branch_taken_addr->0,
                )
            },
            _ => true,
        },
{
    assert forall|addr: u32| holds(h.blocks, addr) implies #[trigger] holds(all_settled(h), addr) by {
        let j = choose|j: int| 0 <= j < h.blocks.len() && (#[trigger] h.blocks[j]).addr == addr;
        assert(all_settled(h)[j].addr == addr);
    }
}

} // verus!
