//! Memory operands and the code that computes their addresses.
use vstd::prelude::*;
use crate::cpu_state;
use crate::cpu_state::{AT_SEG_OFFSET, EBP, ESP};
use crate::jit_context::{Ctx, JitContext};
use crate::wasm::{Bin, Width, E};

verus! {

broadcast use crate::wasm::group_code;

/// A memory operand: `first + (second.0 << second.1) + immediate`, in 16 or 32 bits,
/// relative to a segment.
#[derive(Clone, Copy, Debug, PartialEq, Eq)]
pub struct ModrmByte {
    pub segment: u32,
    pub first_reg: Option<u32>,
    pub second_reg: Option<(u32, u8)>,
    pub immediate: i32,
    pub is_16: bool,
}

impl ModrmByte {
    pub open spec fn wf(self) -> bool {
        &&& self.segment < 6
        &&& self.first_reg matches Some(r) ==> r < 8
        &&& self.second_reg matches Some(p) ==> p.0 < 8 && p.1 < 4
    }

    /// A constant displacement from the stack or frame pointer.
    pub open spec fn stack_const(self) -> bool {
        &&& self.first_reg == Some(ESP) || self.first_reg == Some(EBP)
        &&& self.second_reg is None
        &&& !self.is_16
    }

    pub fn is_stack_const(&self) -> (r: bool)
        ensures
            r == self.stack_const(),
    {
        match self.first_reg {
            Some(first) => (first == ESP || first == EBP) && self.second_reg.is_none()
                && !self.is_16,
            None => false,
        }
    }
}

impl Ctx {
    /// The segment adds nothing to the address.
    pub open spec fn segment_is_flat(self, segment: u32) -> bool {
        self.st.cpu.flat_segmentation && segment < 4
    }

    /// The displacement, which also counts what was popped before the address is computed.
    pub open spec fn displacement(self, m: ModrmByte, esp_offset: i32) -> i32 {
        if m.first_reg == Some(ESP) {
            m.immediate.wrapping_add(esp_offset)
        } else {
            m.immediate
        }
    }

    pub open spec fn scaled(self, p: (u32, u8)) -> E {
        if p.1 != 0 {
            self.reg32(p.0 as int).binc(Bin::Shl, p.1 as i32)
        } else {
            self.reg32(p.0 as int)
        }
    }

    /// The sum of the registers and the displacement.
    pub open spec fn linear(self, m: ModrmByte, esp_offset: i32) -> E {
        let d = self.displacement(m, esp_offset);
        let regs = match (m.first_reg, m.second_reg) {
            (Some(r), Some(p)) => Some(self.reg32(r as int).bin(Bin::Add, self.scaled(p))),
            (Some(r), None) => Some(self.reg32(r as int)),
            (None, Some(p)) => Some(self.scaled(p)),
            (None, None) => None,
        };
        match regs {
            Some(x) => if d != 0 {
                x.binc(Bin::Add, d)
            } else {
                x
            },
            None => E::C(d),
        }
    }

    /// The address of a memory operand.
    pub open spec fn address(self, m: ModrmByte, esp_offset: i32) -> E {
        let linear = self.linear(m, esp_offset);
        let cut = if m.is_16 {
            linear.and(0xffff)
        } else {
            linear
        };
        if self.segment_is_flat(m.segment) {
            cut
        } else {
            cut.bin(
                Bin::Add,
                E::fixed(Width::A32, cpu_state::seg_offset_address(m.segment as int) as u32),
            )
        }
    }

    /// The register that alone is the address of the operand, if there is one.
    pub open spec fn lone_register(self, m: ModrmByte) -> Option<u32> {
        if m.second_reg is None && m.immediate == 0 && !m.is_16 && self.segment_is_flat(m.segment) {
            m.first_reg
        } else {
            None
        }
    }
}

fn gen_scaled(ctx: &mut JitContext, r: u32, shift: u8)
    requires
        old(ctx)@.wf(),
        r < 8,
    ensures
        final(ctx)@ == old(ctx)@.val(old(ctx)@.scaled((r, shift))),
{
    ctx.builder.get_local(ctx.st.regs[r as usize]);
    if shift != 0 {
        ctx.builder.binc(Bin::Shl, shift as i32);
    }
}

/// Pushes the sum of the registers and the displacement.
fn gen_linear(ctx: &mut JitContext, m: ModrmByte, esp_offset: i32)
    requires
        old(ctx)@.wf(),
        m.wf(),
    ensures
        final(ctx)@ == old(ctx)@.val(old(ctx)@.linear(m, esp_offset)),
{
    let mut d: i32 = m.immediate;
    let first: u32 = match m.first_reg {
        Some(r) => r,
        None => {
            match m.second_reg {
                Some((r, shift)) => {
                    gen_scaled(ctx, r, shift);
                    if d != 0 {
                        ctx.builder.binc(Bin::Add, d);
                    }
                },
                None => {
                    ctx.builder.const_i32(d);
                },
            }
            return ;
        },
    };
    if first == ESP {
        d = m.immediate.wrapping_add(esp_offset);
    }
    ctx.builder.get_local(ctx.st.regs[first as usize]);
    if let Some((r, shift)) = m.second_reg {
        gen_scaled(ctx, r, shift);
        ctx.builder.bin(Bin::Add);
    }
    if d != 0 {
        ctx.builder.binc(Bin::Add, d);
    }
}

/// Pushes the address of a memory operand.
pub fn gen(ctx: &mut JitContext, m: ModrmByte, esp_offset: i32)
    requires
        old(ctx)@.wf(),
        m.wf(),
    ensures
        final(ctx)@ == old(ctx)@.val(old(ctx)@.address(m, esp_offset)),
{
    gen_linear(ctx, m, esp_offset);
    if m.is_16 {
        ctx.builder.binc(Bin::And, 0xffff);
    }
    if !(ctx.st.cpu.flat_segmentation && m.segment < 4) {
        ctx.builder.load_fixed(Width::A32, AT_SEG_OFFSET + 4 * m.segment);
        ctx.builder.bin(Bin::Add);
    }
}

/// The register that alone is the address of the operand, if there is one.
pub fn get_as_reg_index_if_possible(ctx: &JitContext, m: &ModrmByte) -> (r: Option<u32>)
    ensures
        r == ctx@.lone_register(*m),
{
    if m.second_reg.is_none() && m.immediate == 0 && !m.is_16 && ctx.st.cpu.flat_segmentation
        && m.segment < 4 {
        m.first_reg
    } else {
        None
    }
}

} // verus!
