//! Where the search for basic blocks goes, and where it does not.
use vstd::prelude::*;
use crate::guest_ram;
use crate::jit_blocks;
use crate::jit_blocks::{AnalysisType, BasicBlockType, Step};
use crate::jit_search;
use crate::jit_search::{Guest, Hunt, Span, Walk, RET_SPEC_MAX_CANDIDATES};

verus! {

/// The offsets at which pages were entered are offsets.
pub open spec fn entries_wf(g: Guest) -> bool {
    forall|page: u32, i: int|
        g.entry_points@.contains_key(page) && 0 <= i < g.entry_points@[page]@.len()
            ==> #[trigger] g.entry_points@[page]@[i] < 0x1000
}

/// The virtual address is mapped to a page that the search has entered.
pub open spec fn inside(g: Guest, pages: Seq<u32>, virt: i32) -> bool {
    g.translated(virt) is Some && pages.contains(g.translated(virt)->0 / 0x1000)
}

/// A page can be reached by a virtual address that is not excluded.
pub open spec fn is_open(g: Guest, page: u32) -> bool {
    exists|virt: i32|
        {
            &&& #[trigger] g.translated(virt) is Some
            &&& g.translated(virt)->0 / 0x1000 == page
            &&& !g.excluded(virt as u32)
        }
}

/// The search visits addresses of pages that it has entered, its blocks lie in them, and all of
/// them but the first are open to it.
pub open spec fn is_kept_in(h: Hunt, g: Guest) -> bool {
    &&& forall|i: int| 0 <= i < h.to_visit.len() ==> inside(g, h.pages, #[trigger] h.to_visit[i])
    &&& forall|i: int|
        0 <= i < h.blocks.len() ==> g.translated((#[trigger] h.blocks[i]).virt_addr) == Some(
            h.blocks[i].addr,
        ) && h.pages.contains(h.blocks[i].addr / 0x1000)
    &&& forall|i: int| 0 < i < h.pages.len() ==> is_open(g, #[trigger] h.pages[i])
}

/// What a step of the search keeps: it stays where it may be, and forgets no page.
spec fn goes_on(h: Hunt, f: Hunt, g: Guest) -> bool {
    &&& is_kept_in(f, g)
    &&& f.blocks == h.blocks
    &&& forall|page: u32| h.pages.contains(page) ==> #[trigger] f.pages.contains(page)
}

proof fn lemma_more_pages(g: Guest, a: Seq<u32>, b: Seq<u32>, virt: i32)
    requires
        inside(g, a, virt),
        forall|page: u32| a.contains(page) ==> #[trigger] b.contains(page),
    ensures
        inside(g, b, virt),
{
}

/// Another offset of the page of an address.
proof fn lemma_same_page(g: Guest, pages: Seq<u32>, virt: i32, low: u32)
    requires
        g.wf(),
        inside(g, pages, virt),
        low < 0x1000,
    ensures
        inside(g, pages, jit_search::on_page(virt, low)),
{
    jit_search::lemma_on_page(virt, low);
}

proof fn lemma_later(h: Hunt, g: Guest, virt: i32)
    requires
        is_kept_in(h, g),
        inside(g, h.pages, virt),
    ensures
        goes_on(h, h.later(virt), g),
        goes_on(h, h.later(virt).mark(virt), g),
        goes_on(h, h.mark(virt).later(virt), g),
{
}

proof fn lemma_entered(h: Hunt, g: Guest, virt: i32, offsets: Seq<u16>, n: nat)
    requires
        g.wf(),
        n <= offsets.len(),
        forall|i: int| 0 <= i < offsets.len() ==> #[trigger] offsets[i] < 0x1000,
        g.translated(virt) is Some,
    ensures
        ({
            let f = h.entered(virt, offsets, n);
            let page = g.translated(virt)->0 / 0x1000;
            &&& f.blocks == h.blocks
            &&& f.pages == h.pages
            &&& f.to_visit.len() >= h.to_visit.len()
            &&& forall|i: int|
                0 <= i < h.to_visit.len() ==> #[trigger] f.to_visit[i] == h.to_visit[i]
            &&& forall|i: int|
                h.to_visit.len() <= i < f.to_visit.len() ==> g.translated(
                    #[trigger] f.to_visit[i],
                ) is Some && g.translated(f.to_visit[i])->0 / 0x1000 == page
        }),
    decreases n,
{
    if n > 0 {
        lemma_entered(h, g, virt, offsets, (n - 1) as nat);
        jit_search::lemma_on_page(virt, offsets[n - 1] as u32);
    }
}

proof fn lemma_followed(h: Hunt, g: Guest, virt: i32)
    requires
        g.wf(),
        entries_wf(g),
        is_kept_in(h, g),
    ensures
        goes_on(h, h.followed(g, virt).0, g),
{
    reveal(Hunt::followed);
    let f = h.followed(g, virt).0;
    if g.translated(virt) is Some {
        let page = g.translated(virt)->0 / 0x1000;
        let offsets = g.entry_points@[page]@;
        if g.entry_points@.contains_key(page) {
            lemma_entered(h, g, virt, offsets, offsets.len());
        }
        if h.pages.contains(page) {
            lemma_later(h, g, virt);
        } else if f.pages.len() > h.pages.len() {
            let e = h.entered(virt, offsets, offsets.len());
            assert(f.pages == h.pages.push(page));
            assert(f.pages[h.pages.len() as int] == page);
            assert(f.to_visit == e.to_visit.push(virt));
            assert forall|p: u32| h.pages.contains(p) implies #[trigger] f.pages.contains(p) by {
                let i = choose|i: int| 0 <= i < h.pages.len() && h.pages[i] == p;
                assert(f.pages[i] == p);
            }
            assert forall|i: int| 0 <= i < f.to_visit.len() implies inside(
                g,
                f.pages,
                #[trigger] f.to_visit[i],
            ) by {
                if i < h.to_visit.len() {
                    assert(f.to_visit[i] == e.to_visit[i]);
                    lemma_more_pages(g, h.pages, f.pages, h.to_visit[i]);
                } else if i < e.to_visit.len() {
                    assert(f.to_visit[i] == e.to_visit[i]);
                }
            }
            assert forall|i: int| 0 <= i < f.blocks.len() implies f.pages.contains(
                (#[trigger] f.blocks[i]).addr / 0x1000,
            ) by {
                assert(h.pages.contains(h.blocks[i].addr / 0x1000));
            }
            assert forall|i: int| 0 < i < f.pages.len() implies is_open(g, #[trigger] f.pages[i]) by {
                if i == h.pages.len() {
                    assert(g.translated(virt) is Some);
                } else {
                    assert(f.pages[i] == h.pages[i]);
                }
            }
        }
    }
}

proof fn lemma_grown(h: Hunt, g: Guest, targets: Seq<u32>, n: nat)
    requires
        g.wf(),
        entries_wf(g),
        is_kept_in(h, g),
    ensures
        goes_on(h, h.grown(g, targets, n), g),
    decreases n,
{
    if n > 0 {
        let e = h.grown(g, targets, (n - 1) as nat);
        lemma_grown(h, g, targets, (n - 1) as nat);
        lemma_followed(e, g, targets[n - 1] as i32);
    }
}

proof fn lemma_jump(h: Hunt, g: Guest, virt: i32, span: Span, step: Step)
    requires
        g.wf(),
        entries_wf(g),
        is_kept_in(h, g),
        inside(g, h.pages, virt),
    ensures
        goes_on(h, h.at_jump(g, virt, span, step).0, g),
        h.at_jump(g, virt, span, step).1.addr == span.addr,
        h.at_jump(g, virt, span, step).1.virt_addr == span.virt_addr,
{
    reveal(Hunt::at_jump);
    lemma_later(h, g, virt);
    if let AnalysisType::Jump { offset, is_32, .. } = step.ty {
        let target = jit_search::jump_target(virt, offset, is_32, g.cs_offset);
        lemma_followed(h.later(virt), g, target);
        lemma_followed(h.mark(virt).later(virt), g, target);
        lemma_followed(h, g, target);
    }
}

proof fn lemma_boundary(h: Hunt, g: Guest, virt: i32, span: Span, step: Step)
    requires
        g.wf(),
        entries_wf(g),
        is_kept_in(h, g),
        inside(g, h.pages, virt),
    ensures
        goes_on(h, h.at_boundary(g, virt, span, step).0, g),
        h.at_boundary(g, virt, span, step).1.addr == span.addr,
        h.at_boundary(g, virt, span, step).1.virt_addr == span.virt_addr,
{
    reveal(Hunt::at_boundary);
    lemma_later(h, g, virt);
    let at = span.last_instruction_addr;
    if g.hot_targets@.contains_key(at) {
        let targets = g.hot_targets@[at]@;
        lemma_grown(h, g, targets, targets.len());
        lemma_grown(h.mark(virt).later(virt), g, targets, targets.len());
    }
}

proof fn lemma_scanned(h: Hunt, g: Guest, span: Span, addr: u32)
    requires
        g.wf(),
        entries_wf(g),
        is_kept_in(h, g),
        inside(g, h.pages, span.virt_addr),
    ensures
        goes_on(h, h.scanned(g, span, addr).0, g),
        h.scanned(g, span, addr).1.addr == span.addr,
        h.scanned(g, span, addr).1.virt_addr == span.virt_addr,
    decreases u32::MAX - addr,
{
    reveal_with_fuel(Hunt::scanned, 1);
    if g.listing@.contains_key(addr) {
        let step = g.listing@[addr];
        let end = step.end;
        let virt = jit_search::on_page(span.virt_addr, end & 0xFFF);
        jit_search::lemma_offset(end);
        lemma_same_page(g, h.pages, span.virt_addr, end & 0xFFF);
        if end > addr {
            let s = span.plus(addr, end);
            lemma_jump(h, g, virt, s, step);
            lemma_boundary(h, g, virt, s, step);
            lemma_later(h, g, virt);
            let t = Span { has_sti: step.ty is STI, ..s };
            if !jit_blocks::near_end_of_page(end) {
                lemma_scanned(h, g, t, end);
            }
        }
    }
}

proof fn lemma_joined(h: Hunt, g: Guest, span: Span)
    requires
        is_kept_in(h, g),
        g.translated(span.virt_addr) == Some(span.addr),
        h.pages.contains(span.addr / 0x1000),
    ensures
        is_kept_in(h.joined(span), g),
{
    reveal(Hunt::joined);
    let p = jit_search::place(h.blocks, span.addr, h.blocks.len()) as int;
    lemma_place(h.blocks, span.addr, h.blocks.len());
    let f = h.joined(span);
    if f.blocks.len() > h.blocks.len() {
        assert forall|i: int| 0 <= i < f.blocks.len() implies g.translated(
            (#[trigger] f.blocks[i]).virt_addr,
        ) == Some(f.blocks[i].addr) && f.pages.contains(f.blocks[i].addr / 0x1000) by {
            if i < p {
                assert(f.blocks[i] == h.blocks[i]);
            } else if i > p {
                assert(f.blocks[i] == h.blocks[i - 1]);
            }
        }
    } else {
        let last = h.blocks[p - 1];
        assert(inside(g, h.pages, last.virt_addr));
    }
}

proof fn lemma_place(blocks: Seq<Span>, addr: u32, n: nat)
    ensures
        jit_search::place(blocks, addr, n) <= n,
    decreases n,
{
    if n > 0 {
        lemma_place(blocks, addr, (n - 1) as nat);
    }
}

proof fn lemma_visited(h: Hunt, g: Guest)
    requires
        g.wf(),
        entries_wf(g),
        is_kept_in(h, g),
        h.to_visit.len() > 0,
    ensures
        is_kept_in(h.visited(g), g),
{
    reveal(Hunt::visited);
    let virt = h.to_visit.last();
    let e = Hunt { to_visit: h.to_visit.drop_last(), ..h };
    assert(inside(g, h.pages, virt));
    assert(is_kept_in(e, g));
    let phys = g.translated(virt)->0;
    let start = Span::start(phys, virt);
    lemma_scanned(e, g, start, phys);
    let (f, span) = e.scanned(g, start, phys);
    lemma_joined(f, g, span);
}

proof fn lemma_finished(h: Hunt, g: Guest, n: nat)
    requires
        g.wf(),
        entries_wf(g),
        is_kept_in(h, g),
    ensures
        is_kept_in(h.finished(g, n), g),
    decreases n,
{
    reveal_with_fuel(Hunt::finished, 1);
    if n > 0 && h.to_visit.len() > 0 {
        lemma_visited(h, g);
        lemma_finished(h.visited(g), g, (n - 1) as nat);
    }
}

proof fn lemma_seeded(h: Hunt, g: Guest, starts: Seq<i32>, n: nat)
    requires
        g.wf(),
        entries_wf(g),
        is_kept_in(h, g),
    ensures
        is_kept_in(h.seeded(g, starts, n), g),
    decreases n,
{
    if n > 0 {
        lemma_seeded(h, g, starts, (n - 1) as nat);
        lemma_followed(h.seeded(g, starts, (n - 1) as nat), g, starts[n - 1]);
    }
}

/// Every block that the search finds stands at the physical address of its virtual one, in a
/// page that the search reports.
pub proof fn law_found_blocks_lie_in_the_found_pages(g: Guest, starts: Seq<i32>, i: int)
    requires
        g.wf(),
        entries_wf(g),
        0 <= i < jit_search::hunted(g, starts).blocks.len(),
    ensures
        ({
            let h = jit_search::hunted(g, starts);
            &&& g.translated(h.blocks[i].virt_addr) == Some(h.blocks[i].addr)
            &&& h.pages.contains(h.blocks[i].addr / 0x1000)
        }),
{
    lemma_seeded(Hunt::empty(), g, starts, starts.len());
    lemma_finished(Hunt::empty().seeded(g, starts, starts.len()), g, u64::MAX as nat);
}

/// The search does not grow into addresses that are excluded: every page but the one that it
/// starts on can be reached by an address that is not.
pub proof fn law_growth_avoids_excluded_addresses(g: Guest, starts: Seq<i32>, i: int)
    requires
        g.wf(),
        entries_wf(g),
        0 < i < jit_search::hunted(g, starts).pages.len(),
    ensures
        is_open(g, jit_search::hunted(g, starts).pages[i]),
{
    lemma_seeded(Hunt::empty(), g, starts, starts.len());
    lemma_finished(Hunt::empty().seeded(g, starts, starts.len()), g, u64::MAX as nat);
}

/// A block ends in a return.
pub open spec fn is_return(blocks: Seq<Span>, ram: Seq<u8>, addr: u32) -> bool {
    match jit_search::span_at(blocks, addr, blocks.len()) {
        None => false,
        Some(b) => {
            let op = guest_ram::byte_at(ram, b.last_instruction_addr as int);
            b.ty is AbsoluteEip && !b.has_sti && (op == 0xC3 || op == 0xC2)
        },
    }
}

proof fn lemma_walked(w: Walk, blocks: Seq<Span>, marked: Seq<i32>, ram: Seq<u8>)
    requires
        forall|i: int| 0 <= i < w.rets.len() ==> is_return(blocks, ram, #[trigger] w.rets[i]),
        jit_search::walked(w, blocks, marked, ram) is Some,
    ensures
        ({
            let rets = jit_search::walked(w, blocks, marked, ram)->0;
            forall|i: int| 0 <= i < rets.len() ==> is_return(blocks, ram, #[trigger] rets[i])
        }),
    decreases w.budget, w.stack.len(),
{
    reveal_with_fuel(jit_search::walked, 1);
    if w.stack.len() > 0 {
        let addr = w.stack.last();
        let rest = w.stack.drop_last();
        if w.visited.contains(addr) {
            lemma_walked(Walk { stack: rest, ..w }, blocks, marked, ram);
        } else {
            let b = jit_search::span_at(blocks, addr, blocks.len())->0;
            let v = Walk {
                stack: rest,
                visited: w.visited.push(addr),
                budget: (w.budget - b.number_of_instructions) as u32,
                ..w
            };
            match b.ty {
                BasicBlockType::AbsoluteEip => {
                    lemma_walked(Walk { rets: w.rets.push(addr), ..v }, blocks, marked, ram);
                },
                BasicBlockType::Normal { next_block_addr: Some(to), .. } => {
                    lemma_walked(Walk { stack: rest.push(to), ..v }, blocks, marked, ram);
                },
                BasicBlockType::ConditionalJump {
                    next_block_addr: Some(next),
                    next_block_branch_taken_addr: Some(taken),
                    ..
                } => {
                    lemma_walked(
                        Walk { stack: rest.push(next).push(taken), ..v },
                        blocks,
                        marked,
                        ram,
                    );
                },
                _ => {},
            }
        }
    }
}

/// The address follows a call among the first `n` blocks, and a block starts there.
pub open spec fn follows_a_call(
    blocks: Seq<Span>,
    marked: Seq<i32>,
    n: nat,
    back: (i32, u32),
) -> bool {
    exists|i: int|
        {
            &&& 0 <= i < n
            &&& jit_search::callee(#[trigger] blocks[i], marked) is Some
            &&& back == (jit_search::fall_through(blocks[i]), blocks[i].end_addr)
            &&& jit_search::holds(blocks, back.1)
        }
}

/// A return address is remembered only for a block that ends in a return instruction, and only
/// one that follows a call.
pub proof fn law_only_returns_are_remembered(
    blocks: Seq<Span>,
    marked: Seq<i32>,
    ram: Seq<u8>,
    budget: u32,
    n: nat,
    k: int,
)
    requires
        n <= blocks.len(),
        0 <= k < jit_search::notes(blocks, marked, ram, budget, n).len(),
    ensures
        is_return(blocks, ram, jit_search::notes(blocks, marked, ram, budget, n)[k].0),
        follows_a_call(
            blocks,
            marked,
            n,
            jit_search::notes(blocks, marked, ram, budget, n)[k].1,
        ),
    decreases n,
{
    if n > 0 {
        let m = (n - 1) as nat;
        let before = jit_search::notes(blocks, marked, ram, budget, m);
        let span = blocks[m as int];
        if k < before.len() {
            law_only_returns_are_remembered(blocks, marked, ram, budget, m, k);
            let back = before[k].1;
            let i = choose|i: int|
                {
                    &&& 0 <= i < m
                    &&& jit_search::callee(#[trigger] blocks[i], marked) is Some
                    &&& back == (jit_search::fall_through(blocks[i]), blocks[i].end_addr)
                    &&& jit_search::holds(blocks, back.1)
                };
            assert(jit_search::callee(blocks[i], marked) is Some);
        } else {
            let start = Walk {
                stack: seq![jit_search::callee(span, marked)->0],
                visited: Seq::empty(),
                budget,
                rets: Seq::empty(),
            };
            lemma_walked(start, blocks, marked, ram);
            assert(jit_search::callee(blocks[m as int], marked) is Some);
        }
    }
}

/// A block remembers few return addresses, and none twice.
pub proof fn law_few_return_addresses_are_remembered(
    notes: Seq<(u32, (i32, u32))>,
    addr: u32,
    n: nat,
)
    requires
        n <= notes.len(),
    ensures
        jit_search::candidates(notes, addr, n).len() <= RET_SPEC_MAX_CANDIDATES,
        jit_search::candidates(notes, addr, n).no_duplicates(),
    decreases n,
{
    if n > 0 {
        law_few_return_addresses_are_remembered(notes, addr, (n - 1) as nat);
    }
}

} // verus!
