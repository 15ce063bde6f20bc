//! Where compiled code is entered: for each virtual page the function that holds its code, and
//! for each offset on the page the block to start with.
//!
//! The blocks of a page stand in a slab of 4096 cells. A cell holds the index of the block plus
//! one, so that a cell of zero means that there is none.
use vstd::prelude::*;

verus! {

/// Slabs; slab 0 is never used.
pub const DISPATCH_SLAB_COUNT: usize = 4096;

/// Cells of one slab.
pub const SLAB_CELLS: usize = 0x1000;

/// Virtual pages.
pub const DISPATCH_PAGES: usize = 0x10_0000;

/// The block of an address that has none.
pub const NO_STATE: u16 = 0xFFFF;

/// What the last damaged slab looked like.
#[derive(Clone, Copy, Debug, PartialEq, Eq, Structural)]
pub struct SlabDamage {
    pub slab: u32,
    pub published: u32,
    pub live: u32,
}

/// The dispatch table.
pub struct DispatchTable {
    /// For each page: the state flags of its code, the index of its function and its slab,
    /// from the highest bits down. Zero for a page without code.
    pub meta: Vec<u64>,
    pub slabs: Vec<u16>,
    /// The slabs that are not in use, the next one last.
    pub free: Vec<u16>,
    /// How many cells of each slab were in use when it was published.
    pub live: Vec<u16>,
    pub high_water: u32,
    pub overflows: u32,
    pub damage: SlabDamage,
}

pub open spec fn packed(state_flags: u32, wasm_table_index: u16, slab: int) -> u64 {
    (state_flags * 0x1_0000_0000 + wasm_table_index * 0x1_0000 + slab) as u64
}

pub open spec fn flags_of(meta: u64) -> u32 {
    (meta / 0x1_0000_0000) as u32
}

pub open spec fn index_of(meta: u64) -> u16 {
    (meta / 0x1_0000 % 0x1_0000) as u16
}

pub open spec fn slab_of(meta: u64) -> int {
    (meta % 0x1_0000) as int
}

/// The cells of a slab with the first `n` entries, each an offset and a block.
pub open spec fn cells(entries: Seq<(u16, u16)>, n: nat) -> Seq<u16>
    decreases n,
{
    if n == 0 {
        Seq::new(SLAB_CELLS as nat, |i: int| 0u16)
    } else {
        let before = cells(entries, (n - 1) as nat);
        let (offset, state) = entries[n - 1];
        if state == NO_STATE {
            before
        } else {
            before.update(offset as int, (state + 1) as u16)
        }
    }
}

/// The slabs with one of them replaced.
pub open spec fn with_slab(slabs: Seq<u16>, slab: int, cells: Seq<u16>) -> Seq<u16> {
    Seq::new(
        slabs.len(),
        |i: int|
            if slab * SLAB_CELLS <= i < slab * SLAB_CELLS + SLAB_CELLS {
                cells[i - slab * SLAB_CELLS]
            } else {
                slabs[i]
            },
    )
}

impl DispatchTable {
    /// Every slab is either free or belongs to one page.
    pub open spec fn wf(self) -> bool {
        &&& self.meta@.len() == DISPATCH_PAGES
        &&& self.slabs@.len() == DISPATCH_SLAB_COUNT * SLAB_CELLS
        &&& self.live@.len() == DISPATCH_SLAB_COUNT
        &&& self.free@.no_duplicates()
        &&& forall|i: int|
            0 <= i < self.free@.len() ==> 1 <= #[trigger] self.free@[i] < DISPATCH_SLAB_COUNT
        &&& forall|p: int|
            0 <= p < DISPATCH_PAGES && #[trigger] self.meta@[p] != 0 ==> {
                &&& 1 <= slab_of(self.meta@[p]) < DISPATCH_SLAB_COUNT
                &&& !self.free@.contains(slab_of(self.meta@[p]) as u16)
            }
        &&& forall|p: int, q: int|
            0 <= p < q < DISPATCH_PAGES && #[trigger] self.meta@[p] != 0 && #[trigger] self.meta@[q]
                != 0 ==> slab_of(self.meta@[p]) != slab_of(self.meta@[q])
    }

    /// The word of a page.
    pub open spec fn word(self, page: u32) -> u64 {
        self.meta@[page as int % DISPATCH_PAGES as int]
    }

    /// The block at an address of a page, by the word of the page.
    pub open spec fn state_at(self, meta: u64, virt_address: u32) -> u16 {
        let cell = self.slabs@[slab_of(meta) * SLAB_CELLS + virt_address as int % 0x1000];
        if cell == 0 {
            NO_STATE
        } else {
            (cell - 1) as u16
        }
    }

    /// The slab that a page is published in.
    pub open spec fn slab_for(self, page: u32) -> int {
        if self.word(page) != 0 {
            slab_of(self.word(page))
        } else {
            self.free@.last() as int
        }
    }

    /// There is a slab for the page.
    pub open spec fn can_publish(self, page: u32) -> bool {
        self.word(page) != 0 || self.free@.len() > 0
    }
}

/// What a [`DispatchTable`] holds.
#[verifier::ext_equal]
pub struct Dispatched {
    pub meta: Seq<u64>,
    pub slabs: Seq<u16>,
    pub free: Seq<u16>,
    pub live: Seq<u16>,
    pub high_water: u32,
    pub overflows: u32,
    pub damage: SlabDamage,
}

impl View for DispatchTable {
    type V = Dispatched;

    open spec fn view(&self) -> Dispatched {
        Dispatched {
            meta: self.meta@,
            slabs: self.slabs@,
            free: self.free@,
            live: self.live@,
            high_water: self.high_water,
            overflows: self.overflows,
            damage: self.damage,
        }
    }
}

impl Dispatched {
    /// The word of a page.
    pub open spec fn word(self, page: u32) -> u64 {
        self.meta[page as int % DISPATCH_PAGES as int]
    }

    /// The block at an address of a page, by the word of the page.
    pub open spec fn state_at(self, meta: u64, virt_address: u32) -> u16 {
        let cell = self.slabs[slab_of(meta) * SLAB_CELLS + virt_address as int % 0x1000];
        if cell == 0 {
            NO_STATE
        } else {
            (cell - 1) as u16
        }
    }

    /// With the blocks of a page published.
    pub open spec fn published(
        self,
        page: u32,
        wasm_table_index: u16,
        entries: Seq<(u16, u16)>,
        state_flags: u32,
    ) -> Dispatched {
        let fresh = self.word(page) == 0;
        if fresh && self.free.len() == 0 {
            Dispatched {
                overflows: if self.overflows < u32::MAX {
                    (self.overflows + 1) as u32
                } else {
                    u32::MAX
                },
                ..self
            }
        } else {
            let slab = if fresh {
                self.free.last() as int
            } else {
                slab_of(self.word(page))
            };
            let in_use = DISPATCH_SLAB_COUNT - self.free.len();
            let slabs = with_slab(self.slabs, slab, cells(entries, entries.len()));
            Dispatched {
                meta: self.meta.update(
                    page as int % DISPATCH_PAGES as int,
                    packed(state_flags, wasm_table_index, slab),
                ),
                slabs,
                free: if fresh {
                    self.free.drop_last()
                } else {
                    self.free
                },
                live: self.live.update(
                    slab,
                    used_cells(slabs, slab, SLAB_CELLS as nat) as u16,
                ),
                high_water: if fresh && in_use > self.high_water {
                    in_use as u32
                } else {
                    self.high_water
                },
                ..self
            }
        }
    }

    /// With the code of a page taken back.
    pub open spec fn cleared(self, page: u32) -> Dispatched {
        if self.word(page) == 0 {
            self
        } else {
            let slab = slab_of(self.word(page));
            Dispatched {
                meta: self.meta.update(page as int % DISPATCH_PAGES as int, 0),
                free: self.free.push(slab as u16),
                live: self.live.update(slab, 0),
                ..self
            }
        }
    }
}

/// Distinct numbers from 1 to below `n` are fewer than `n`.
proof fn distinct_below(s: Seq<u16>, n: nat)
    requires
        1 <= n <= 0x1_0000,
        s.no_duplicates(),
        forall|i: int| 0 <= i < s.len() ==> 1 <= #[trigger] s[i] < n,
    ensures
        s.len() <= n - 1,
    decreases n,
{
    if n == 1 {
        if s.len() > 0 {
            assert(1 <= s[0] < n);
        }
    } else {
        let top = (n - 1) as u16;
        if s.contains(top) {
            let i = s.index_of(top);
            let r = s.remove(i);
            assert forall|j: int| 0 <= j < r.len() implies 1 <= #[trigger] r[j] < n - 1 by {
                let k = if j < i {
                    j
                } else {
                    j + 1
                };
                assert(r[j] == s[k]);
            }
            assert(r.no_duplicates()) by {
                assert forall|a: int, b: int| 0 <= a < r.len() && 0 <= b < r.len() && a != b implies r[a]
                    != r[b] by {
                    let x = if a < i {
                        a
                    } else {
                        a + 1
                    };
                    let y = if b < i {
                        b
                    } else {
                        b + 1
                    };
                    assert(r[a] == s[x] && r[b] == s[y]);
                }
            }
            distinct_below(r, (n - 1) as nat);
        } else {
            assert forall|j: int| 0 <= j < s.len() implies 1 <= #[trigger] s[j] < n - 1 by {
                assert(s.contains(s[j]));
            }
            distinct_below(s, (n - 1) as nat);
        }
    }
}

/// A table without code.
pub fn dispatch_meta_init() -> (t: DispatchTable)
    ensures
        t.wf(),
        t.free@ == Seq::new((DISPATCH_SLAB_COUNT - 1) as nat, |i: int| (i + 1) as u16),
        forall|p: u32| #[trigger] t.word(p) == 0,
        t@.intact(),
        t.high_water == 0,
        t.overflows == 0,
        t.damage == (SlabDamage { slab: 0, published: 0, live: 0 }),
{
    let mut meta: Vec<u64> = Vec::new();
    let mut i: usize = 0;
    while i < DISPATCH_PAGES
        invariant
            i <= DISPATCH_PAGES,
            meta@.len() == i,
            forall|j: int| 0 <= j < i ==> #[trigger] meta@[j] == 0,
        decreases DISPATCH_PAGES - i,
    {
        meta.push(0);
        i = i + 1;
    }
    let mut slabs: Vec<u16> = Vec::new();
    i = 0;
    while i < DISPATCH_SLAB_COUNT * SLAB_CELLS
        invariant
            i <= DISPATCH_SLAB_COUNT * SLAB_CELLS,
            slabs@.len() == i,
        decreases DISPATCH_SLAB_COUNT * SLAB_CELLS - i,
    {
        slabs.push(0);
        i = i + 1;
    }
    let mut live: Vec<u16> = Vec::new();
    i = 0;
    while i < DISPATCH_SLAB_COUNT
        invariant
            i <= DISPATCH_SLAB_COUNT,
            live@.len() == i,
            forall|j: int| 0 <= j < i ==> #[trigger] live@[j] == 0,
        decreases DISPATCH_SLAB_COUNT - i,
    {
        live.push(0);
        i = i + 1;
    }
    let mut free: Vec<u16> = Vec::new();
    i = 1;
    while i < DISPATCH_SLAB_COUNT
        invariant
            1 <= i <= DISPATCH_SLAB_COUNT,
            free@.len() == i - 1,
            forall|j: int| 0 <= j < i - 1 ==> #[trigger] free@[j] == j + 1,
        decreases DISPATCH_SLAB_COUNT - i,
    {
        free.push(i as u16);
        i = i + 1;
    }
    assert(free@ =~= Seq::new((DISPATCH_SLAB_COUNT - 1) as nat, |i: int| (i + 1) as u16));
    DispatchTable {
        meta,
        slabs,
        free,
        live,
        high_water: 0,
        overflows: 0,
        damage: SlabDamage { slab: 0, published: 0, live: 0 },
    }
}

/// The word of a virtual page.
pub fn dispatch_meta_get(t: &DispatchTable, page: u32) -> (r: u64)
    requires
        t.wf(),
    ensures
        r == t.word(page),
{
    t.meta[page as usize % DISPATCH_PAGES]
}

pub fn dispatch_meta_state_flags(meta: u64) -> (r: u32)
    ensures
        r == flags_of(meta),
{
    (meta / 0x1_0000_0000) as u32
}

pub fn dispatch_meta_table_index(meta: u64) -> (r: u16)
    ensures
        r == index_of(meta),
{
    (meta / 0x1_0000 % 0x1_0000) as u16
}

/// The block at an address, by the word of its page; [`NO_STATE`] where there is none.
pub fn dispatch_state_lookup(t: &DispatchTable, meta: u64, virt_address: u32) -> (r: u16)
    requires
        t.wf(),
        1 <= slab_of(meta) < DISPATCH_SLAB_COUNT,
    ensures
        r == t.state_at(meta, virt_address),
{
    let slab: usize = (meta % 0x1_0000) as usize;
    let cell: u16 = t.slabs[slab * SLAB_CELLS + virt_address as usize % 0x1000];
    if cell == 0 {
        NO_STATE
    } else {
        cell - 1
    }
}

fn fill_slab(slabs: &mut Vec<u16>, slab: usize, entries: &Vec<(u16, u16)>)
    requires
        slab < DISPATCH_SLAB_COUNT,
        old(slabs)@.len() == DISPATCH_SLAB_COUNT * SLAB_CELLS,
        forall|i: int| 0 <= i < entries@.len() ==> (#[trigger] entries@[i]).0 < SLAB_CELLS,
    ensures
        final(slabs)@ == with_slab(old(slabs)@, slab as int, cells(entries@, entries@.len())),
{
    let base: usize = slab * SLAB_CELLS;
    let mut i: usize = 0;
    while i < SLAB_CELLS
        invariant
            i <= SLAB_CELLS,
            slab < DISPATCH_SLAB_COUNT,
            base == slab * SLAB_CELLS,
            slabs@.len() == old(slabs)@.len() == DISPATCH_SLAB_COUNT * SLAB_CELLS,
            forall|j: int|
                0 <= j < slabs@.len() ==> #[trigger] slabs@[j] == (if base <= j < base + i {
                    0u16
                } else {
                    old(slabs)@[j]
                }),
        decreases SLAB_CELLS - i,
    {
        slabs.set(base + i, 0);
        i = i + 1;
    }
    assert(slabs@ =~= with_slab(old(slabs)@, slab as int, cells(entries@, 0)));
    let n: usize = entries.len();
    i = 0;
    while i < n
        invariant
            i <= n,
            n == entries@.len(),
            slab < DISPATCH_SLAB_COUNT,
            base == slab * SLAB_CELLS,
            slabs@.len() == old(slabs)@.len() == DISPATCH_SLAB_COUNT * SLAB_CELLS,
            forall|i: int| 0 <= i < entries@.len() ==> (#[trigger] entries@[i]).0 < SLAB_CELLS,
            cells(entries@, i as nat).len() == SLAB_CELLS,
            slabs@ == with_slab(old(slabs)@, slab as int, cells(entries@, i as nat)),
        decreases n - i,
    {
        let (offset, state): (u16, u16) = entries[i];
        assert(entries@[i as int].0 < SLAB_CELLS);
        if state != NO_STATE {
            slabs.set(base + offset as usize, state + 1);
        }
        i = i + 1;
        assert(slabs@ =~= with_slab(old(slabs)@, slab as int, cells(entries@, i as nat)));
    }
}

/// Publishes the blocks of a page, each an offset and an index. Where no slab is left, the page
/// stays without code.
pub fn dispatch_meta_set(
    t: &mut DispatchTable,
    virt_page: u32,
    wasm_table_index: u16,
    entries: &Vec<(u16, u16)>,
    state_flags: u32,
)
    requires
        old(t).wf(),
        forall|i: int| 0 <= i < entries@.len() ==> (#[trigger] entries@[i]).0 < SLAB_CELLS,
    ensures
        final(t).wf(),
        final(t)@ == old(t)@.published(virt_page, wasm_table_index, entries@, state_flags),
{
    let page: usize = virt_page as usize % DISPATCH_PAGES;
    let existing: u64 = t.meta[page];
    let slab: usize = if existing != 0 {
        (existing % 0x1_0000) as usize
    } else {
        proof {
            distinct_below(t.free@, DISPATCH_SLAB_COUNT as nat);
        }
        match t.free.pop() {
            None => {
                t.overflows = t.overflows.saturating_add(1);
                return ;
            },
            Some(s) => {
                let in_use: u32 = (DISPATCH_SLAB_COUNT - 1 - t.free.len()) as u32;
                if in_use > t.high_water {
                    t.high_water = in_use;
                }
                proof {
                    let f = old(t).free@;
                    assert(f[f.len() - 1] == s);
                    assert(f.contains(s));
                    assert forall|x: u16| t.free@.contains(x) implies f.contains(x) && x != s by {
                        let i = t.free@.index_of(x);
                        assert(f[i] == x);
                    }
                }
                s as usize
            },
        }
    };
    fill_slab(&mut t.slabs, slab, entries);
    let word: u64 = state_flags as u64 * 0x1_0000_0000 + wasm_table_index as u64 * 0x1_0000
        + slab as u64;
    assert(slab_of(word) == slab);
    t.meta.set(page, word);
    let used: u32 = count_used(&t.slabs, slab);
    t.live.set(slab, used as u16);
    proof {
        assert forall|p: int, q: int|
            0 <= p < q < DISPATCH_PAGES && #[trigger] t.meta@[p] != 0 && #[trigger] t.meta@[q] != 0 implies slab_of(
            t.meta@[p],
        ) != slab_of(t.meta@[q]) by {
            if p == page && existing == 0 {
                assert(old(t).meta@[q] != 0);
            }
            if q == page && existing == 0 {
                assert(old(t).meta@[p] != 0);
            }
        }
    }
}

/// Publishes the blocks of a page.
pub fn set_tlb_code(
    t: &mut DispatchTable,
    virt_page: u32,
    wasm_table_index: u16,
    entries: &Vec<(u16, u16)>,
    state_flags: u32,
)
    requires
        old(t).wf(),
        forall|i: int| 0 <= i < entries@.len() ==> (#[trigger] entries@[i]).0 < SLAB_CELLS,
    ensures
        final(t).wf(),
        final(t)@ == old(t)@.published(virt_page, wasm_table_index, entries@, state_flags),
{
    dispatch_meta_set(t, virt_page, wasm_table_index, entries, state_flags);
}

/// Takes the code of a page back. Returns whether it had any.
pub fn dispatch_meta_clear(t: &mut DispatchTable, page: u32) -> (r: bool)
    requires
        old(t).wf(),
    ensures
        final(t).wf(),
        r == (old(t).word(page) != 0),
        final(t)@ == old(t)@.cleared(page),
{
    let at: usize = page as usize % DISPATCH_PAGES;
    let meta: u64 = t.meta[at];
    if meta == 0 {
        return false;
    }
    let slab: usize = (meta % 0x1_0000) as usize;
    t.free.push(slab as u16);
    t.live.set(slab, 0);
    t.meta.set(at, 0);
    proof {
        let f = old(t).free@;
        assert forall|i: int, j: int|
            0 <= i < t.free@.len() && 0 <= j < t.free@.len() && i != j implies t.free@[i]
            != t.free@[j] by {
            if i == f.len() {
                assert(f.contains(f[j]));
            } else if j == f.len() {
                assert(f.contains(f[i]));
            }
        }
        assert forall|p: int| 0 <= p < DISPATCH_PAGES && #[trigger] t.meta@[p] != 0 implies !t.free@.contains(
            slab_of(t.meta@[p]) as u16,
        ) by {
            assert(old(t).meta@[p] != 0);
            assert(old(t).meta@[at as int] != 0);
            let x = slab_of(t.meta@[p]) as u16;
            if t.free@.contains(x) {
                let i = t.free@.index_of(x);
                if i < f.len() {
                    assert(f[i] == x);
                    assert(f.contains(x));
                }
            }
        }
    }
    true
}

/// How many cells of a slab, among the first `n`, are in use.
pub open spec fn used_cells(slabs: Seq<u16>, slab: int, n: nat) -> nat
    decreases n,
{
    if n == 0 {
        0
    } else {
        used_cells(slabs, slab, (n - 1) as nat) + (if slabs[slab * SLAB_CELLS + n - 1] != 0 {
            1nat
        } else {
            0nat
        })
    }
}

impl DispatchTable {
    /// The slab has not as many cells in use as were published in it.
    pub open spec fn damaged(self, slab: int) -> bool {
        self.live@[slab] != 0 && used_cells(self.slabs@, slab, SLAB_CELLS as nat)
            != self.live@[slab]
    }

    /// How many of the slabs below `n` are damaged.
    pub open spec fn damaged_below(self, n: nat) -> nat
        decreases n,
    {
        if n <= 1 {
            0
        } else {
            self.damaged_below((n - 1) as nat) + (if self.damaged(n - 1) {
                1nat
            } else {
                0nat
            })
        }
    }

    /// What is remembered of the last damaged slab below `n`.
    pub open spec fn damage_below(self, n: nat) -> SlabDamage
        decreases n,
    {
        if n <= 1 {
            self.damage
        } else if self.damaged(n - 1) {
            SlabDamage {
                slab: (n - 1) as u32,
                published: self.live@[n - 1] as u32,
                live: used_cells(self.slabs@, n - 1, SLAB_CELLS as nat) as u32,
            }
        } else {
            self.damage_below((n - 1) as nat)
        }
    }
}

fn count_used(slabs: &Vec<u16>, slab: usize) -> (r: u32)
    requires
        slab < DISPATCH_SLAB_COUNT,
        slabs@.len() == DISPATCH_SLAB_COUNT * SLAB_CELLS,
    ensures
        r == used_cells(slabs@, slab as int, SLAB_CELLS as nat),
        r <= SLAB_CELLS,
{
    let mut n: u32 = 0;
    let mut i: usize = 0;
    while i < SLAB_CELLS
        invariant
            i <= SLAB_CELLS,
            slab < DISPATCH_SLAB_COUNT,
            slabs@.len() == DISPATCH_SLAB_COUNT * SLAB_CELLS,
            n == used_cells(slabs@, slab as int, i as nat),
            n <= i,
        decreases SLAB_CELLS - i,
    {
        if slabs[slab * SLAB_CELLS + i] != 0 {
            n = n + 1;
        }
        i = i + 1;
    }
    n
}

/// Counts the slabs that have not as many cells in use as were published in them, and remembers
/// the last one. There is none as long as nothing else wrote into a slab.
pub fn jit_slab_audit(t: &mut DispatchTable) -> (r: u32)
    requires
        old(t).wf(),
    ensures
        final(t).wf(),
        r == old(t).damaged_below(DISPATCH_SLAB_COUNT as nat),
        old(t)@.intact() ==> r == 0,
        *final(t) == (DispatchTable {
            damage: old(t).damage_below(DISPATCH_SLAB_COUNT as nat),
            ..*old(t)
        }),
{
    proof {
        if t@.intact() {
            lemma_nothing_damaged(*t, DISPATCH_SLAB_COUNT as nat);
        }
    }
    let mut damaged: u32 = 0;
    let mut s: usize = 1;
    while s < DISPATCH_SLAB_COUNT
        invariant
            1 <= s <= DISPATCH_SLAB_COUNT,
            t.wf(),
            damaged == old(t).damaged_below(s as nat),
            damaged < s,
            *t == (DispatchTable { damage: old(t).damage_below(s as nat), ..*old(t) }),
        decreases DISPATCH_SLAB_COUNT - s,
    {
        let published: u16 = t.live[s];
        if published != 0 {
            let live: u32 = count_used(&t.slabs, s);
            if live != published as u32 {
                damaged = damaged + 1;
                t.damage = SlabDamage { slab: s as u32, published: published as u32, live };
            }
        }
        s = s + 1;
    }
    damaged
}

/// What is remembered of the last damaged slab: its number, the entries published and found.
pub fn jit_slab_audit_last(t: &DispatchTable, i: u32) -> (r: u32)
    ensures
        r == (if i == 0 {
            t.damage.slab
        } else if i == 1 {
            t.damage.published
        } else if i == 2 {
            t.damage.live
        } else {
            0
        }),
{
    match i {
        0 => t.damage.slab,
        1 => t.damage.published,
        2 => t.damage.live,
        _ => 0,
    }
}

pub fn dispatch_slab_high_water(t: &DispatchTable) -> (r: u32)
    ensures
        r == t.high_water,
{
    t.high_water
}

pub fn dispatch_slab_overflows(t: &DispatchTable) -> (r: u32)
    ensures
        r == t.overflows,
{
    t.overflows
}

/// Bytes of all slabs.
pub fn jit_get_dispatch_slabs_len() -> (r: u32)
    ensures
        r == DISPATCH_SLAB_COUNT * SLAB_CELLS * 2,
{
    (DISPATCH_SLAB_COUNT * SLAB_CELLS * 2) as u32
}

pub fn jit_debug_meta_lo(t: &DispatchTable, vpage: u32) -> (r: u32)
    requires
        t.wf(),
    ensures
        r == t.word(vpage) % 0x1_0000_0000,
{
    (dispatch_meta_get(t, vpage) % 0x1_0000_0000) as u32
}

pub fn jit_debug_meta_hi(t: &DispatchTable, vpage: u32) -> (r: u32)
    requires
        t.wf(),
    ensures
        r == t.word(vpage) / 0x1_0000_0000,
{
    (dispatch_meta_get(t, vpage) / 0x1_0000_0000) as u32
}

/// A cell of the slab of a page; all ones where there is none.
pub fn jit_debug_slab_cell(t: &DispatchTable, vpage: u32, off: u32) -> (r: u32)
    requires
        t.wf(),
    ensures
        r == (if t.word(vpage) == 0 || off >= 0x1000 {
            0xFFFF_FFFF
        } else {
            t.slabs@[slab_of(t.word(vpage)) * SLAB_CELLS + off] as u32
        }),
{
    let meta: u64 = dispatch_meta_get(t, vpage);
    if meta == 0 {
        return 0xFFFF_FFFF;
    }
    let slab: usize = (meta % 0x1_0000) as usize;
    if off >= 0x1000 {
        return 0xFFFF_FFFF;
    }
    t.slabs[slab * SLAB_CELLS + off as usize] as u32
}

/// Entry `i` is the last of the first `n` for its offset.
pub open spec fn is_last(entries: Seq<(u16, u16)>, i: int, n: nat) -> bool {
    0 <= i < n && forall|j: int| i < j < n ==> (#[trigger] entries[j]).0 != entries[i].0
        || entries[j].1 == NO_STATE
}

proof fn cells_hold(entries: Seq<(u16, u16)>, n: nat, offset: u16)
    requires
        n <= entries.len(),
        offset < SLAB_CELLS,
        forall|i: int| 0 <= i < entries.len() ==> (#[trigger] entries[i]).0 < SLAB_CELLS,
    ensures
        cells(entries, n).len() == SLAB_CELLS,
        forall|i: int|
            #![trigger is_last(entries, i, n)]
            is_last(entries, i, n) && entries[i].1 != NO_STATE && entries[i].0 == offset ==> cells(
                entries,
                n,
            )[offset as int] == entries[i].1 + 1,
        (forall|i: int|
            0 <= i < n ==> (#[trigger] entries[i]).0 != offset || entries[i].1 == NO_STATE)
            ==> cells(entries, n)[offset as int] == 0,
    decreases n,
{
    if n > 0 {
        cells_hold(entries, (n - 1) as nat, offset);
        assert forall|i: int|
            #![trigger is_last(entries, i, n)]
            is_last(entries, i, n) && entries[i].1 != NO_STATE && entries[i].0 == offset implies cells(
            entries,
            n,
        )[offset as int] == entries[i].1 + 1 by {
            if i < n - 1 {
                assert(is_last(entries, i, (n - 1) as nat));
            }
        }
    }
}

/// A page that has just been published is entered at the blocks that were published: an
/// address finds the last block published for its offset, and nothing where there was none.
pub proof fn law_published_blocks_are_found(
    slabs: Seq<u16>,
    after: DispatchTable,
    entries: Seq<(u16, u16)>,
    slab: int,
    meta: u64,
    virt: u32,
    i: int,
)
    requires
        slabs.len() == DISPATCH_SLAB_COUNT * SLAB_CELLS,
        1 <= slab < DISPATCH_SLAB_COUNT,
        slab_of(meta) == slab,
        forall|i: int| 0 <= i < entries.len() ==> (#[trigger] entries[i]).0 < SLAB_CELLS,
        after.slabs@ == with_slab(slabs, slab, cells(entries, entries.len())),
    ensures
        is_last(entries, i, entries.len()) && entries[i].1 != NO_STATE && entries[i].0 == virt as int
            % 0x1000 ==> after.state_at(meta, virt) == entries[i].1,
        (forall|i: int|
            0 <= i < entries.len() ==> (#[trigger] entries[i]).0 != virt as int % 0x1000
                || entries[i].1 == NO_STATE) ==> after.state_at(meta, virt) == NO_STATE,
{
    let offset = (virt as int % 0x1000) as u16;
    cells_hold(entries, entries.len(), offset);
    assert(slab * SLAB_CELLS + offset < slabs.len()) by (nonlinear_arith)
        requires
            1 <= slab < DISPATCH_SLAB_COUNT,
            offset < SLAB_CELLS,
            slabs.len() == DISPATCH_SLAB_COUNT * SLAB_CELLS,
    ;
}

impl Dispatched {
    /// Every slab that is named exists, and each has as many cells in use as were published in
    /// it.
    pub open spec fn intact(self) -> bool {
        &&& self.meta.len() == DISPATCH_PAGES
        &&& self.slabs.len() == DISPATCH_SLAB_COUNT * SLAB_CELLS
        &&& self.live.len() == DISPATCH_SLAB_COUNT
        &&& forall|i: int|
            0 <= i < self.free.len() ==> 1 <= #[trigger] self.free[i] < DISPATCH_SLAB_COUNT
        &&& forall|p: int|
            0 <= p < DISPATCH_PAGES && #[trigger] self.meta[p] != 0 ==> 1 <= slab_of(
                self.meta[p],
            ) < DISPATCH_SLAB_COUNT
        &&& forall|s: int|
            0 <= s < DISPATCH_SLAB_COUNT && #[trigger] self.live[s] != 0 ==> used_cells(
                self.slabs,
                s,
                SLAB_CELLS as nat,
            ) == self.live[s]
    }

    /// After some changes, one after the other.
    pub open spec fn changed(self, changes: Seq<Change>) -> Dispatched
        decreases changes.len(),
    {
        if changes.len() == 0 {
            self
        } else {
            let before = self.changed(changes.drop_last());
            match changes.last() {
                Change::Publish { page, wasm_table_index, entries, state_flags } => before.published(
                    page,
                    wasm_table_index,
                    entries,
                    state_flags,
                ),
                Change::TakeBack { page } => before.cleared(page),
            }
        }
    }
}

/// What is done to the table: the blocks of a page are published, or taken back.
pub enum Change {
    Publish { page: u32, wasm_table_index: u16, entries: Seq<(u16, u16)>, state_flags: u32 },
    TakeBack { page: u32 },
}

/// Every entry of the change is for an offset on the page.
pub open spec fn is_on_page(c: Change) -> bool {
    match c {
        Change::Publish { page, wasm_table_index, entries, state_flags } => forall|i: int|
            0 <= i < entries.len() ==> (#[trigger] entries[i]).0 < SLAB_CELLS,
        Change::TakeBack { page } => true,
    }
}

proof fn lemma_used_is_small(slabs: Seq<u16>, slab: int, n: nat)
    ensures
        used_cells(slabs, slab, n) <= n,
    decreases n,
{
    if n > 0 {
        lemma_used_is_small(slabs, slab, (n - 1) as nat);
    }
}

/// The cells of other slabs are not touched.
proof fn lemma_used_elsewhere(slabs: Seq<u16>, slab: int, cells: Seq<u16>, other: int, n: nat)
    requires
        slabs.len() == DISPATCH_SLAB_COUNT * SLAB_CELLS,
        0 <= other < DISPATCH_SLAB_COUNT,
        other != slab,
        n <= SLAB_CELLS,
    ensures
        used_cells(with_slab(slabs, slab, cells), other, n) == used_cells(slabs, other, n),
    decreases n,
{
    if n > 0 {
        lemma_used_elsewhere(slabs, slab, cells, other, (n - 1) as nat);
        let k = (n - 1) as int;
        assert(0 <= other * 0x1000 + k < slabs.len() && !(slab * 0x1000 <= other * 0x1000 + k < slab
            * 0x1000 + 0x1000)) by (nonlinear_arith)
            requires
                other != slab,
                0 <= other < 4096,
                0 <= k < 0x1000,
                slabs.len() == 4096 * 0x1000,
        ;
    }
}

proof fn lemma_change_keeps_intact(t: Dispatched, c: Change)
    requires
        t.intact(),
        is_on_page(c),
    ensures
        (match c {
            Change::Publish { page, wasm_table_index, entries, state_flags } => t.published(
                page,
                wasm_table_index,
                entries,
                state_flags,
            ),
            Change::TakeBack { page } => t.cleared(page),
        }).intact(),
{
    match c {
        Change::Publish { page, wasm_table_index, entries, state_flags } => {
            let u = t.published(page, wasm_table_index, entries, state_flags);
            let fresh = t.word(page) == 0;
            if !(fresh && t.free.len() == 0) {
                let slab = if fresh {
                    t.free.last() as int
                } else {
                    slab_of(t.word(page))
                };
                let cs = cells(entries, entries.len());
                assert(fresh ==> t.free[t.free.len() - 1] == slab);
                law_words_unpack(state_flags, wasm_table_index, slab);
                lemma_used_is_small(u.slabs, slab, SLAB_CELLS as nat);
                assert forall|s: int|
                    0 <= s < DISPATCH_SLAB_COUNT && #[trigger] u.live[s] != 0 implies used_cells(
                    u.slabs,
                    s,
                    SLAB_CELLS as nat,
                ) == u.live[s] by {
                    if s != slab {
                        assert(t.live[s] != 0);
                        lemma_used_elsewhere(t.slabs, slab, cs, s, SLAB_CELLS as nat);
                    }
                }
            }
        },
        Change::TakeBack { page } => {
            let u = t.cleared(page);
            assert forall|s: int|
                0 <= s < DISPATCH_SLAB_COUNT && #[trigger] u.live[s] != 0 implies used_cells(
                u.slabs,
                s,
                SLAB_CELLS as nat,
            ) == u.live[s] by {
                assert(t.live[s] != 0);
            }
        },
    }
}

proof fn lemma_nothing_damaged(t: DispatchTable, n: nat)
    requires
        t@.intact(),
        n <= DISPATCH_SLAB_COUNT,
    ensures
        t.damaged_below(n) == 0,
    decreases n,
{
    if n > 1 {
        lemma_nothing_damaged(t, (n - 1) as nat);
        assert(t@.live[n - 1] != 0 ==> used_cells(t@.slabs, n - 1, SLAB_CELLS as nat)
            == t@.live[n - 1]);
    }
}

/// However often blocks are published and taken back, an audit finds no damage: damage is what
/// something else wrote.
pub proof fn law_only_others_damage_slabs(t: DispatchTable, u: DispatchTable, changes: Seq<Change>)
    requires
        t@.intact(),
        u@ == t@.changed(changes),
        forall|i: int| 0 <= i < changes.len() ==> is_on_page(#[trigger] changes[i]),
    ensures
        u@.intact(),
        u.damaged_below(DISPATCH_SLAB_COUNT as nat) == 0,
{
    lemma_changes_keep_intact(t@, changes);
    lemma_nothing_damaged(u, DISPATCH_SLAB_COUNT as nat);
}

proof fn lemma_changes_keep_intact(t: Dispatched, changes: Seq<Change>)
    requires
        t.intact(),
        forall|i: int| 0 <= i < changes.len() ==> is_on_page(#[trigger] changes[i]),
    ensures
        t.changed(changes).intact(),
    decreases changes.len(),
{
    if changes.len() > 0 {
        let before = changes.drop_last();
        assert forall|i: int| 0 <= i < before.len() implies is_on_page(#[trigger] before[i]) by {
            assert(before[i] == changes[i]);
        }
        lemma_changes_keep_intact(t, before);
        assert(is_on_page(changes[changes.len() - 1]));
        lemma_change_keeps_intact(t.changed(before), changes.last());
    }
}

/// Right after a page was published, with distinct offsets and a block for each, whatever it
/// held before: each offset finds its block, every other one none, and the word of the page
/// gives the state flags and the function.
pub proof fn law_a_published_page_is_entered_as_published(
    t: DispatchTable,
    u: DispatchTable,
    page: u32,
    wasm_table_index: u16,
    entries: Seq<(u16, u16)>,
    state_flags: u32,
)
    requires
        t.wf(),
        t.can_publish(page),
        u@ == t@.published(page, wasm_table_index, entries, state_flags),
        forall|i: int|
            0 <= i < entries.len() ==> (#[trigger] entries[i]).0 < SLAB_CELLS && entries[i].1
                != NO_STATE,
        forall|i: int, j: int|
            0 <= i < j < entries.len() ==> (#[trigger] entries[i]).0 != (#[trigger] entries[j]).0,
    ensures
        flags_of(u.word(page)) == state_flags,
        index_of(u.word(page)) == wasm_table_index,
        1 <= slab_of(u.word(page)) < DISPATCH_SLAB_COUNT,
        forall|i: int, virt: u32|
            #![trigger entries[i], u.state_at(u.word(page), virt)]
            0 <= i < entries.len() && virt as int % 0x1000 == entries[i].0 ==> u.state_at(
                u.word(page),
                virt,
            ) == entries[i].1,
        forall|virt: u32|
            #![trigger u.state_at(u.word(page), virt)]
            (forall|i: int| 0 <= i < entries.len() ==> (#[trigger] entries[i]).0 != virt as int
                % 0x1000) ==> u.state_at(u.word(page), virt) == NO_STATE,
{
    let slab = t.slab_for(page);
    let meta = packed(state_flags, wasm_table_index, slab);
    if t.word(page) == 0 {
        assert(t.free@[t.free@.len() - 1] == slab);
    }
    law_words_unpack(state_flags, wasm_table_index, slab);
    assert(u@.meta == u.meta@);
    assert(u.word(page) == meta);
    assert(u.slabs@ == with_slab(t.slabs@, slab, cells(entries, entries.len())));
    assert forall|i: int, virt: u32|
        #![trigger entries[i], u.state_at(u.word(page), virt)]
        0 <= i < entries.len() && virt as int % 0x1000 == entries[i].0 implies u.state_at(
        u.word(page),
        virt,
    ) == entries[i].1 by {
        assert(is_last(entries, i, entries.len()));
        law_published_blocks_are_found(t.slabs@, u, entries, slab, meta, virt, i);
    }
    assert forall|virt: u32|
        #![trigger u.state_at(u.word(page), virt)]
        (forall|i: int| 0 <= i < entries.len() ==> (#[trigger] entries[i]).0 != virt as int
            % 0x1000) implies u.state_at(u.word(page), virt) == NO_STATE by {
        law_published_blocks_are_found(t.slabs@, u, entries, slab, meta, virt, 0);
    }
}

/// The word of a page gives back the state flags, the function and the slab that went into it.
pub proof fn law_words_unpack(state_flags: u32, wasm_table_index: u16, slab: int)
    requires
        1 <= slab < DISPATCH_SLAB_COUNT,
    ensures
        flags_of(packed(state_flags, wasm_table_index, slab)) == state_flags,
        index_of(packed(state_flags, wasm_table_index, slab)) == wasm_table_index,
        slab_of(packed(state_flags, wasm_table_index, slab)) == slab,
        packed(state_flags, wasm_table_index, slab) != 0,
{
}

/// Publishing one page leaves the blocks of every other page as they were.
pub proof fn law_pages_do_not_share(t: DispatchTable, page: u32, other: u32, cells: Seq<u16>, virt: u32)
    requires
        t.wf(),
        t.can_publish(page),
        t.word(other) != 0,
        page as int % DISPATCH_PAGES as int != other as int % DISPATCH_PAGES as int,
        cells.len() == SLAB_CELLS,
    ensures
        with_slab(t.slabs@, t.slab_for(page), cells)[slab_of(t.word(other)) * SLAB_CELLS
            + virt as int % 0x1000] == t.slabs@[slab_of(t.word(other)) * SLAB_CELLS + virt as int
            % 0x1000],
{
    let p = page as int % DISPATCH_PAGES as int;
    let q = other as int % DISPATCH_PAGES as int;
    let a = t.slab_for(page);
    let b = slab_of(t.word(other));
    assert(t.meta@[q] != 0);
    if t.word(page) != 0 {
        assert(t.meta@[p] != 0);
    } else {
        assert(t.free@.contains(t.free@.last()));
    }
    assert(a != b);
    let o = virt as int % 0x1000;
    assert(!(a * 0x1000 <= b * 0x1000 + o < a * 0x1000 + 0x1000)) by (nonlinear_arith)
        requires
            a != b,
            0 <= o < 0x1000,
    ;
}

} // verus!
