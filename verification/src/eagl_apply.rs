//! Conversion of shader constants between the layouts and number formats of a graphics engine,
//! by descriptors in guest memory.
use vstd::prelude::*;
use crate::softfloat;
use crate::softfloat::Rest;
use crate::virtual_mem::{Space, VirtualMemory};

verus! {

/// The result for a descriptor of an unknown kind, as a call reports it.
pub const D3DERR_INVALIDCALL: i32 = -2005530516;
pub const APPLY_E_FAIL: i32 = -2147467259;

/// Containers nest no deeper.
pub const APPLY_MAX_DEPTH: u32 = 8;

/// 2 to the 23rd.
pub const SINGLE_ONE: u32 = 0x80_0000;

pub open spec fn single_negative(bits: u32) -> bool {
    bits >= 0x8000_0000
}

pub open spec fn single_exponent(bits: u32) -> int {
    bits as int / SINGLE_ONE as int % 256
}

pub open spec fn single_fraction(bits: u32) -> int {
    bits as int % SINGLE_ONE as int
}

/// The integer part of the magnitude of a single-precision number of at least one.
pub open spec fn single_whole(bits: u32) -> nat {
    softfloat::split(
        (single_fraction(bits) + SINGLE_ONE) as nat,
        150 - single_exponent(bits),
    ).0
}

/// The low half of a single-precision number converted to 64 bits toward zero; zero where it
/// does not fit.
pub open spec fn low_of_single(bits: u32) -> u32 {
    let e = single_exponent(bits);
    if e < 127 || e >= 127 + 63 {
        0
    } else if single_negative(bits) {
        ((-single_whole(bits)) % 0x1_0000_0000) as u32
    } else {
        (single_whole(bits) as int % 0x1_0000_0000) as u32
    }
}

/// The single-precision number nearest to an integer, the even one of two.
pub open spec fn single_of(negative: bool, magnitude: u32) -> u32 {
    let e = 63 - vstd::std_specs::bits::u64_leading_zeros(magnitude as u64);
    let significand = softfloat::rounded(softfloat::split(magnitude as nat, e - 23), false, 0);
    let sign = if negative {
        0x8000_0000int
    } else {
        0
    };
    if magnitude == 0 {
        0
    } else {
        (sign + (126 + e) * SINGLE_ONE + significand) as u32
    }
}

/// A single-precision number loaded and stored: what is no number becomes quiet.
pub open spec fn single_moved(bits: u32) -> u32 {
    if single_exponent(bits) == 255 && single_fraction(bits) != 0 && single_fraction(bits)
        < 0x40_0000 {
        (bits + 0x40_0000) as u32
    } else {
        bits
    }
}

/// The low half of a single-precision number converted to 64 bits toward zero.
pub fn ftol_low32(bits: u32) -> (r: u32)
    ensures
        r == low_of_single(bits),
{
    let e: u32 = bits / SINGLE_ONE % 256;
    if e < 127 || e >= 127 + 63 {
        return 0;
    }
    let full: u64 = (bits % SINGLE_ONE + SINGLE_ONE) as u64;
    let whole: u64 = if e >= 150 {
        let up: u64 = (e - 150) as u64;
        proof {
            let p = vstd::arithmetic::power2::pow2(up as nat);
            vstd::arithmetic::power2::lemma2_to64();
            if up < 39 {
                vstd::arithmetic::power2::lemma_pow2_strictly_increases(up as nat, 39);
            }
            vstd::arithmetic::power2::lemma2_to64_rest();
            assert(p <= 0x80_0000_0000);
            assert(full * p < 0x8000_0000_0000_0000) by (nonlinear_arith)
                requires
                    full < 0x100_0000,
                    0 <= p <= 0x80_0000_0000,
            ;
            vstd::bits::lemma_u64_shl_is_mul(full, up);
        }
        full << up
    } else {
        let down: u64 = (150 - e) as u64;
        proof {
            vstd::bits::lemma_u64_shr_is_div(full, down);
        }
        full >> down
    };
    assert(whole == single_whole(bits));
    let low: u32 = (whole % 0x1_0000_0000) as u32;
    if bits >= 0x8000_0000 {
        if low == 0 {
            0
        } else {
            (0x1_0000_0000u64 - low as u64) as u32
        }
    } else {
        low
    }
}

/// The single-precision number nearest to an integer.
pub fn single_of_int(negative: bool, magnitude: u32) -> (r: u32)
    ensures
        r == single_of(negative, magnitude),
{
    if magnitude == 0 {
        return 0;
    }
    let m: u64 = magnitude as u64;
    proof {
        softfloat::normalized(m);
    }
    let zeros: u32 = m.leading_zeros();
    let z: u64 = zeros as u64;
    proof {
        let top = m << z;
        assert(z >= 32) by (bit_vector)
            requires
                m < 0x1_0000_0000,
                z < 64,
                (m << z) >= 0x8000_0000_0000_0000u64,
                (m << z) >> z == m,
        ;
    }
    let e: u32 = 63 - zeros;
    let sign: u32 = if negative {
        0x8000_0000
    } else {
        0
    };
    let significand: u32 = if e <= 23 {
        let up: u64 = (23 - e) as u64;
        proof {
            let p = vstd::arithmetic::power2::pow2(up as nat);
            assert((m << up) < 0x100_0000u64) by (bit_vector)
                requires
                    z <= 63,
                    up == z - 40,
                    z >= 40,
                    (m << z) >> z == m,
            ;
            vstd::bits::lemma_u64_pow2_no_overflow(up as nat);
            assert(m * p <= u64::MAX) by {
                vstd::arithmetic::power2::lemma2_to64();
                if up < 23 {
                    vstd::arithmetic::power2::lemma_pow2_strictly_increases(up as nat, 23);
                }
                assert(m * p <= u64::MAX) by (nonlinear_arith)
                    requires
                        m < 0x1_0000_0000,
                        0 <= p <= 0x80_0000,
                ;
            }
            vstd::bits::lemma_u64_shl_is_mul(m, up);
        }
        (m << up) as u32
    } else {
        let down: u64 = (e - 23) as u64;
        let (whole, rest): (u64, Rest) = softfloat::split_off(m, e - 23);
        proof {
            vstd::bits::lemma_u64_shr_is_div(m, down);
            assert((m >> down) < 0x100_0000u64) by (bit_vector)
                requires
                    z <= 63,
                    z >= 32,
                    down == 40 - z,
                    z < 40,
                    (m << z) >> z == m,
            ;
        }
        assert(whole < 0x100_0000);
        softfloat::round_magnitude(whole, rest, false, 0) as u32
    };
    assert((126 + e) * SINGLE_ONE <= 157 * SINGLE_ONE);
    sign + (126 + e) * SINGLE_ONE + significand
}

/// A single-precision number loaded and stored.
pub fn move_single(bits: u32) -> (r: u32)
    ensures
        r == single_moved(bits),
{
    if bits / SINGLE_ONE % 256 == 255 && bits % SINGLE_ONE != 0 && bits % SINGLE_ONE < 0x40_0000 {
        bits + 0x40_0000
    } else {
        bits
    }
}

/// A conversion of matrices, as its arguments and its descriptor give it.
#[derive(Clone, Copy, Debug, PartialEq, Eq, Structural)]
pub struct Conversion {
    /// 1 to truth values, 2 to integers, 3 as they are.
    pub mode: u32,
    pub rows: u32,
    pub cols: u32,
    pub src: i32,
    pub dst: i32,
    pub count: u32,
}

/// The conversion that the arguments on the stack ask for.
#[verifier::opaque]
pub open spec fn conversion(s: Space, esp: i32) -> Option<Conversion> {
    match (
        s.word(esp.wrapping_add(4)),
        s.word(esp.wrapping_add(8)),
        s.word(esp.wrapping_add(12)),
        s.word(esp.wrapping_add(16)),
    ) {
        (Some(desc), Some(dst), Some(src), Some(count)) => match (
            s.word(desc),
            s.word(desc.wrapping_add(0x14)),
            s.word(desc.wrapping_add(0x18)),
        ) {
            (Some(mode), Some(rows), Some(cols)) => Some(
                Conversion {
                    mode: mode as u32,
                    rows: rows as u32,
                    cols: cols as u32,
                    src,
                    dst,
                    count: count as u32,
                },
            ),
            _ => None,
        },
        _ => None,
    }
}

/// One cell converted.
pub open spec fn cell(mode: u32, bits: i32) -> i32 {
    if mode == 3 {
        bits
    } else if mode == 2 {
        low_of_single(bits as u32) as i32
    } else if low_of_single(bits as u32) != 0 {
        1
    } else {
        0
    }
}

/// The cells of a row from the `i`-th on are converted; whether all could be.
pub open spec fn row_converted(s: Space, mode: u32, from: i32, to: i32, i: int, n: int) -> (Space, bool)
    decreases n - i,
{
    if i >= n {
        (s, true)
    } else {
        match s.word(from.wrapping_add((i * 4) as i32)) {
            None => (s, false),
            Some(bits) => match s.with_word(to.wrapping_add((i * 4) as i32), cell(mode, bits)) {
                None => (s, false),
                Some(t) => row_converted(t, mode, from, to, i + 1, n),
            },
        }
    }
}

/// At most four rows and columns of a matrix are converted.
pub open spec fn at_most_4(n: u32) -> int {
    if n < 4 {
        n as int
    } else {
        4
    }
}

/// The rows of a matrix from the `i`-th on are converted.
pub open spec fn matrix_converted(s: Space, c: Conversion, from: i32, to: i32, i: int) -> (Space, bool)
    decreases 4 - i,
{
    if i >= at_most_4(c.rows) {
        (s, true)
    } else {
        let (t, ok) = row_converted(
            s,
            c.mode,
            from.wrapping_add((i * 0x10) as i32),
            to.wrapping_add((i * (c.cols * 4)) as i32),
            0,
            at_most_4(c.cols),
        );
        if ok {
            matrix_converted(t, c, from, to, i + 1)
        } else {
            (t, false)
        }
    }
}

/// The matrices from the `i`-th on are converted. A source matrix takes four rows of four
/// words, a converted one only its own rows and columns.
pub open spec fn matrices_converted(s: Space, c: Conversion, i: int) -> (Space, bool)
    decreases c.count - i,
{
    if i >= c.count {
        (s, true)
    } else {
        let (t, ok) = matrix_converted(
            s,
            c,
            c.src.wrapping_add((i * 0x40) as i32),
            c.dst.wrapping_add((i * (c.rows * c.cols * 4)) as i32),
            0,
        );
        if ok {
            matrices_converted(t, c, i + 1)
        } else {
            (t, false)
        }
    }
}

/// What a call of the converter does, and what it returns; nothing where it is left to the
/// guest.
pub open spec fn converted(s: Space, esp: i32) -> (Space, Option<i32>) {
    match conversion(s, esp) {
        None => (s, None),
        Some(c) => {
            if c.mode < 1 || c.mode > 3 {
                (s, Some(D3DERR_INVALIDCALL))
            } else if c.rows > 16 || c.cols > 16 || c.count > 4096 {
                (s, None)
            } else {
                let (t, ok) = matrices_converted(s, c, 0);
                (
                    t,
                    if ok {
                        Some(0i32)
                    } else {
                        None
                    },
                )
            }
        },
    }
}

fn read_conversion(m: &VirtualMemory, esp: i32) -> (r: Option<Conversion>)
    requires
        m@.wf(),
    ensures
        r == conversion(m@, esp),
{
    reveal(conversion);
    let desc: i32 = match m.safe_read32s(esp.wrapping_add(4)) {
        Some(v) => v,
        None => return None,
    };
    let dst: i32 = match m.safe_read32s(esp.wrapping_add(8)) {
        Some(v) => v,
        None => return None,
    };
    let src: i32 = match m.safe_read32s(esp.wrapping_add(12)) {
        Some(v) => v,
        None => return None,
    };
    let count: i32 = match m.safe_read32s(esp.wrapping_add(16)) {
        Some(v) => v,
        None => return None,
    };
    let mode: i32 = match m.safe_read32s(desc) {
        Some(v) => v,
        None => return None,
    };
    let rows: i32 = match m.safe_read32s(desc.wrapping_add(0x14)) {
        Some(v) => v,
        None => return None,
    };
    let cols: i32 = match m.safe_read32s(desc.wrapping_add(0x18)) {
        Some(v) => v,
        None => return None,
    };
    Some(
        Conversion {
            mode: mode as u32,
            rows: rows as u32,
            cols: cols as u32,
            src,
            dst,
            count: count as u32,
        },
    )
}

fn convert_cell(mode: u32, bits: i32) -> (r: i32)
    ensures
        r == cell(mode, bits),
{
    match mode {
        3 => bits,
        2 => ftol_low32(bits as u32) as i32,
        _ => if ftol_low32(bits as u32) != 0 {
            1
        } else {
            0
        },
    }
}

fn convert_row(m: &mut VirtualMemory, mode: u32, from: i32, to: i32, n: i32) -> (r: bool)
    requires
        old(m)@.wf(),
        0 <= n <= 4,
    ensures
        final(m)@.wf(),
        (final(m)@, r) == row_converted(old(m)@, mode, from, to, 0, n as int),
{
    let ghost goal = row_converted(m@, mode, from, to, 0, n as int);
    let mut i: i32 = 0;
    while i < n
        invariant
            m@.wf(),
            0 <= i <= n <= 4,
            row_converted(m@, mode, from, to, i as int, n as int) == goal,
            goal == row_converted(old(m)@, mode, from, to, 0, n as int),
        decreases n - i,
    {
        let bits: i32 = match m.safe_read32s(from.wrapping_add(i * 4)) {
            Some(v) => v,
            None => return false,
        };
        if !m.safe_write32(to.wrapping_add(i * 4), convert_cell(mode, bits)) {
            return false;
        }
        i = i + 1;
    }
    true
}

fn clamp_4(n: u32) -> (r: i32)
    ensures
        r == at_most_4(n),
{
    if n < 4 {
        n as i32
    } else {
        4
    }
}

fn convert_matrix(m: &mut VirtualMemory, c: Conversion, from: i32, to: i32) -> (r: bool)
    requires
        old(m)@.wf(),
        c.rows <= 16,
        c.cols <= 16,
    ensures
        final(m)@.wf(),
        (final(m)@, r) == matrix_converted(old(m)@, c, from, to, 0),
{
    let ghost goal = matrix_converted(m@, c, from, to, 0);
    let rows: i32 = clamp_4(c.rows);
    let cols: i32 = clamp_4(c.cols);
    let stride: i32 = (c.cols * 4) as i32;
    let mut i: i32 = 0;
    while i < rows
        invariant
            m@.wf(),
            0 <= i <= rows <= 4,
            rows == at_most_4(c.rows),
            cols == at_most_4(c.cols),
            stride == c.cols * 4,
            c.cols <= 16,
            matrix_converted(m@, c, from, to, i as int) == goal,
            goal == matrix_converted(old(m)@, c, from, to, 0),
        decreases rows - i,
    {
        assert(0 <= i * stride <= 256) by (nonlinear_arith)
            requires
                0 <= i <= 4,
                0 <= stride <= 64,
        ;
        if !convert_row(
            m,
            c.mode,
            from.wrapping_add(i * 0x10),
            to.wrapping_add(i * stride),
            cols,
        ) {
            return false;
        }
        i = i + 1;
    }
    true
}

/// Converts the matrices of a call. Returns what the call returns; nothing where it is left to
/// the guest.
pub fn handle_eagl_shader_const_convert(m: &mut VirtualMemory, esp: i32) -> (r: Option<i32>)
    requires
        old(m)@.wf(),
    ensures
        final(m)@.wf(),
        (final(m)@, r) == converted(old(m)@, esp),
{
    let c: Conversion = match read_conversion(m, esp) {
        Some(c) => c,
        None => return None,
    };
    if c.mode < 1 || c.mode > 3 {
        return Some(D3DERR_INVALIDCALL);
    }
    if c.rows > 16 || c.cols > 16 || c.count > 4096 {
        return None;
    }
    assert(0 <= c.rows * c.cols <= 256) by (nonlinear_arith)
        requires
            c.rows <= 16,
            c.cols <= 16,
    ;
    let stride: i32 = (c.rows * c.cols * 4) as i32;
    let ghost goal = matrices_converted(m@, c, 0);
    let n: i32 = c.count as i32;
    let mut i: i32 = 0;
    while i < n
        invariant
            m@.wf(),
            0 <= i <= n <= 4096,
            n == c.count,
            c.rows <= 16,
            c.cols <= 16,
            0 <= stride <= 1024,
            stride == c.rows * c.cols * 4,
            1 <= c.mode <= 3,
            conversion(old(m)@, esp) == Some(c),
            matrices_converted(m@, c, i as int) == goal,
            goal == matrices_converted(old(m)@, c, 0),
        decreases n - i,
    {
        assert(0 <= i * stride <= 0x40_0000) by (nonlinear_arith)
            requires
                0 <= i <= 4096,
                0 <= stride <= 1024,
        ;
        if !convert_matrix(
            m,
            c,
            c.src.wrapping_add(i * 0x40),
            c.dst.wrapping_add(i * stride),
        ) {
            return None;
        }
        i = i + 1;
    }
    Some(0)
}

/// How values are converted.
#[derive(Clone, Copy, Debug, PartialEq, Eq, Structural)]
pub enum ApplyFamily {
    /// Integers become single-precision numbers.
    Int,
    /// Single-precision numbers become integers; others are copied.
    Float,
}

/// How values are laid out.
#[derive(Clone, Copy, Debug, PartialEq, Eq, Structural)]
pub enum ApplyLayout {
    /// A column takes whole registers of four words, which the budget counts.
    Register,
    /// A column takes its words, which the budget counts.
    Packed,
}

/// A walk: the places of its four cursors, and how it converts.
#[derive(Clone, Copy, Debug, PartialEq, Eq, Structural)]
pub struct Walk {
    pub family: ApplyFamily,
    pub layout: ApplyLayout,
    pub desc_cur: i32,
    pub src_cur: i32,
    pub dst_cur: i32,
    pub budget: i32,
    /// Values are written, not only read.
    pub commit: bool,
}

/// The shape of the values of a descriptor.
#[derive(Clone, Copy, Debug, PartialEq, Eq, Structural)]
pub struct Shape {
    pub mode: u32,
    pub rows: u32,
    pub cols: u32,
}

/// What is left of a column once the budget has run low; it stays so for the descriptor.
#[derive(Clone, Copy, Debug, PartialEq, Eq, Structural)]
pub struct Clamp {
    pub regs: u32,
    pub elems: u32,
    pub n: u32,
}

/// One value converted.
pub open spec fn applied(family: ApplyFamily, mode: u32, v: i32) -> i32 {
    match family {
        ApplyFamily::Int => if mode == 1 {
            single_of(
                v < 0,
                (if v < 0 {
                    -(v as int)
                } else {
                    v as int
                }) as u32,
            ) as i32
        } else if mode == 2 {
            single_of(false, v as u32) as i32
        } else {
            single_moved(v as u32) as i32
        },
        ApplyFamily::Float => if mode == 3 {
            low_of_single(v as u32) as i32
        } else {
            v
        },
    }
}

impl Clamp {
    pub open spec fn start(rows: u32) -> Clamp {
        Clamp {
            regs: (rows as int / 4 + (if rows % 4 != 0 {
                1int
            } else {
                0
            })) as u32,
            elems: rows,
            n: rows,
        }
    }

    /// With so much of the budget left.
    pub open spec fn under(self, layout: ApplyLayout, left: u32) -> Clamp {
        match layout {
            ApplyLayout::Register => if left < self.regs {
                Clamp { regs: left, elems: (left * 4) as u32, ..self }
            } else {
                self
            },
            ApplyLayout::Packed => if left < self.n {
                Clamp { n: left, ..self }
            } else {
                self
            },
        }
    }

    /// Words of a column.
    pub open spec fn count(self, layout: ApplyLayout) -> u32 {
        match layout {
            ApplyLayout::Register => self.elems,
            ApplyLayout::Packed => self.n,
        }
    }

    /// What a column costs.
    pub open spec fn cost(self, layout: ApplyLayout) -> u32 {
        match layout {
            ApplyLayout::Register => self.regs,
            ApplyLayout::Packed => self.n,
        }
    }

    /// How far the destination moves for a column.
    pub open spec fn stride(self, layout: ApplyLayout) -> int {
        match layout {
            ApplyLayout::Register => self.regs * 16,
            ApplyLayout::Packed => self.n * 4,
        }
    }

    pub open spec fn small(self) -> bool {
        self.regs <= 16 && self.elems <= 64 && self.n <= 64
    }
}

/// The words of column `j` from the `i`-th on are converted; whether all could be.
pub open spec fn column_applied(
    s: Space,
    w: Walk,
    h: Shape,
    from: i32,
    to: i32,
    j: int,
    i: int,
    n: int,
) -> (Space, bool)
    decreases n - i,
{
    if i >= n {
        (s, true)
    } else {
        match s.word(from.wrapping_add(((j + i * h.cols) * 4) as i32)) {
            None => (s, false),
            Some(v) => if !w.commit {
                column_applied(s, w, h, from, to, j, i + 1, n)
            } else {
                match s.with_word(
                    to.wrapping_add((i * 4) as i32),
                    applied(w.family, h.mode, v),
                ) {
                    None => (s, false),
                    Some(t) => column_applied(t, w, h, from, to, j, i + 1, n),
                }
            },
        }
    }
}

/// The columns from the `j`-th on are converted, until the budget is spent.
#[verifier::opaque]
pub open spec fn columns_applied(s: Space, w: Walk, h: Shape, from: i32, c: Clamp, j: int) -> (
    Space,
    Clamp,
    bool,
)
    decreases h.cols - j,
{
    if j >= h.cols {
        (s, c, true)
    } else {
        match (s.word(w.budget), s.word(w.dst_cur)) {
            (None, _) => (s, c, false),
            (Some(left), dst) => if left == 0 {
                (s, c, true)
            } else {
                let d = c.under(w.layout, left as u32);
                match dst {
                    None => (s, d, false),
                    Some(to) => {
                        let (t, ok) = column_applied(
                            s,
                            w,
                            h,
                            from,
                            to,
                            j,
                            0,
                            d.count(w.layout) as int,
                        );
                        if !ok {
                            (t, d, false)
                        } else {
                            match t.with_word(
                                w.dst_cur,
                                to.wrapping_add(d.stride(w.layout) as i32),
                            ) {
                                None => (t, d, false),
                                Some(u) => match u.with_word(
                                    w.budget,
                                    ((left as u32 - d.cost(w.layout)) as u32) as i32,
                                ) {
                                    None => (u, d, false),
                                    Some(x) => columns_applied(x, w, h, from, d, j + 1),
                                },
                            }
                        }
                    },
                }
            },
        }
    }
}

/// The items of a descriptor from the `k`-th on are converted, until the budget is spent.
#[verifier::opaque]
pub open spec fn items_applied(s: Space, w: Walk, h: Shape, c: Clamp, k: int, items: int) -> (
    Space,
    bool,
)
    decreases items - k,
{
    if k >= items {
        (s, true)
    } else {
        match s.word(w.budget) {
            None => (s, false),
            Some(left) => if left == 0 {
                (s, true)
            } else {
                match s.word(w.src_cur) {
                    None => (s, false),
                    Some(from) => {
                        let (t, d, ok) = columns_applied(s, w, h, from, c, 0);
                        if !ok {
                            (t, false)
                        } else {
                            match t.with_word(
                                w.src_cur,
                                from.wrapping_add((h.cols * h.rows * 4) as i32),
                            ) {
                                None => (t, false),
                                Some(u) => items_applied(u, w, h, d, k + 1, items),
                            }
                        }
                    },
                }
            },
        }
    }
}

/// A descriptor of values: what the walk returns, nothing where it gives up.
#[verifier::opaque]
pub open spec fn values_applied(s: Space, w: Walk, d: i32, items: int) -> (Space, Option<i32>) {
    match (s.word(d), s.word(d.wrapping_add(0x14)), s.word(d.wrapping_add(0x18))) {
        (Some(mode), Some(rows), Some(cols)) => {
            let h = Shape { mode: mode as u32, rows: rows as u32, cols: cols as u32 };
            if h.mode < 1 || h.mode > 3 {
                (s, Some(APPLY_E_FAIL))
            } else if h.rows > 64 || h.cols > 64 {
                (s, None)
            } else {
                let (t, ok) = items_applied(s, w, h, Clamp::start(h.rows), 0, items);
                if !ok {
                    (t, None)
                } else {
                    match t.with_word(w.desc_cur, d.wrapping_add(0x1c)) {
                        None => (t, None),
                        Some(u) => (u, Some(0i32)),
                    }
                }
            }
        },
        _ => (s, None),
    }
}

/// The children of a container from the `i`-th on, until the budget is spent or one fails:
/// what the last one returned, and whether the walk goes on.
#[verifier::opaque]
pub open spec fn children_applied(
    s: Space,
    w: Walk,
    child: spec_fn(Space) -> (Space, Option<i32>),
    last: i32,
    i: int,
    n: int,
) -> (Space, Option<i32>)
    decreases n - i,
{
    if i >= n {
        (s, Some(last))
    } else {
        match s.word(w.budget) {
            None => (s, None),
            Some(left) => if left == 0 {
                (s, Some(last))
            } else {
                let (t, r) = child(s);
                match r {
                    None => (t, None),
                    Some(v) => if v < 0 {
                        (t, Some(v))
                    } else {
                        children_applied(t, w, child, v, i + 1, n)
                    },
                }
            },
        }
    }
}

/// The items of a container from the `k`-th on.
#[verifier::opaque]
pub open spec fn containers_applied(
    s: Space,
    w: Walk,
    d: i32,
    child: spec_fn(Space) -> (Space, Option<i32>),
    last: i32,
    k: int,
    items: int,
    n: int,
) -> (Space, Option<i32>)
    decreases items - k,
{
    if k >= items {
        (s, Some(last))
    } else {
        match s.word(w.budget) {
            None => (s, None),
            Some(left) => if left == 0 {
                (s, Some(last))
            } else {
                match s.with_word(w.desc_cur, d.wrapping_add(0x18)) {
                    None => (s, None),
                    Some(t) => {
                        let (u, r) = children_applied(t, w, child, last, 0, n);
                        match r {
                            None => (u, None),
                            Some(v) => if v < 0 {
                                (u, Some(v))
                            } else {
                                containers_applied(u, w, d, child, v, k + 1, items, n)
                            },
                        }
                    },
                }
            },
        }
    }
}

/// The walk that a container does for its children.
pub open spec fn child_walk(w: Walk) -> Walk {
    match w.layout {
        ApplyLayout::Packed => Walk {
            family: ApplyFamily::Float,
            layout: ApplyLayout::Register,
            ..w
        },
        ApplyLayout::Register => w,
    }
}

/// How many items a descriptor has; none counts as one.
pub open spec fn item_count(word: i32) -> u32 {
    if word == 0 {
        1
    } else {
        word as u32
    }
}

/// One level of the walk of a descriptor, given the walk of a child.
#[verifier::opaque]
pub open spec fn level_walked(
    s: Space,
    w: Walk,
    child: spec_fn(Space) -> (Space, Option<i32>),
) -> (Space, Option<i32>) {
    match s.word(w.desc_cur) {
        None => (s, None),
        Some(d) => match (s.word(d.wrapping_add(4)), s.word(d.wrapping_add(0x10))) {
            (Some(class), Some(word)) => {
                let items = item_count(word);
                if items > 1024 {
                    (s, None)
                } else if 0 <= class <= 3 {
                    values_applied(s, w, d, items as int)
                } else if class == 5 {
                    match s.word(d.wrapping_add(0x14)) {
                        None => (s, None),
                        Some(n) => if n as u32 > 64 {
                            (s, None)
                        } else {
                            match s.with_word(w.desc_cur, d.wrapping_add(0x18)) {
                                None => (s, None),
                                Some(t) => containers_applied(
                                    t,
                                    w,
                                    d,
                                    child,
                                    0,
                                    0,
                                    items as int,
                                    n as u32 as int,
                                ),
                            }
                        },
                    }
                } else {
                    (s, Some(APPLY_E_FAIL))
                }
            },
            _ => (s, None),
        },
    }
}

/// The walk of descriptors at a depth.
pub open spec fn walker(w: Walk, depth: u32) -> spec_fn(Space) -> (Space, Option<i32>)
    decreases APPLY_MAX_DEPTH + 1 - depth,
{
    if depth > APPLY_MAX_DEPTH {
        |s: Space| (s, None)
    } else {
        let child = walker(child_walk(w), (depth + 1) as u32);
        |s: Space| level_walked(s, w, child)
    }
}

/// What the walk of a descriptor does, and what it returns; nothing where it gives up.
pub open spec fn walked(s: Space, w: Walk, depth: u32) -> (Space, Option<i32>) {
    walker(w, depth)(s)
}

fn convert_value(family: ApplyFamily, mode: u32, v: i32) -> (r: i32)
    ensures
        r == applied(family, mode, v),
{
    match family {
        ApplyFamily::Int => match mode {
            1 => {
                let magnitude: u32 = if v < 0 {
                    (-(v as i64)) as u32
                } else {
                    v as u32
                };
                single_of_int(v < 0, magnitude) as i32
            },
            2 => single_of_int(false, v as u32) as i32,
            _ => move_single(v as u32) as i32,
        },
        ApplyFamily::Float => match mode {
            3 => ftol_low32(v as u32) as i32,
            _ => v,
        },
    }
}

impl Clamp {
    fn new(rows: u32) -> (r: Clamp)
        requires
            rows <= 64,
        ensures
            r == Clamp::start(rows),
            r.small(),
    {
        let part: u32 = if rows % 4 != 0 {
            1
        } else {
            0
        };
        Clamp { regs: rows / 4 + part, elems: rows, n: rows }
    }

    fn clamp(self, layout: ApplyLayout, left: u32) -> (r: Clamp)
        requires
            self.small(),
        ensures
            r == self.under(layout, left),
            r.small(),
            r.cost(layout) <= left,
    {
        match layout {
            ApplyLayout::Register => if left < self.regs {
                Clamp { regs: left, elems: left * 4, n: self.n }
            } else {
                self
            },
            ApplyLayout::Packed => if left < self.n {
                Clamp { regs: self.regs, elems: self.elems, n: left }
            } else {
                self
            },
        }
    }
}

fn apply_column(
    m: &mut VirtualMemory,
    w: Walk,
    h: Shape,
    from: i32,
    to: i32,
    j: i32,
    n: i32,
) -> (r: bool)
    requires
        old(m)@.wf(),
        0 <= j <= 64,
        0 <= n <= 64,
        h.cols <= 64,
    ensures
        final(m)@.wf(),
        (final(m)@, r) == column_applied(old(m)@, w, h, from, to, j as int, 0, n as int),
{
    let ghost goal = column_applied(m@, w, h, from, to, j as int, 0, n as int);
    let cols: i32 = h.cols as i32;
    let mut i: i32 = 0;
    while i < n
        invariant
            m@.wf(),
            0 <= i <= n <= 64,
            0 <= j <= 64,
            cols == h.cols,
            0 <= cols <= 64,
            column_applied(m@, w, h, from, to, j as int, i as int, n as int) == goal,
            goal == column_applied(old(m)@, w, h, from, to, j as int, 0, n as int),
        decreases n - i,
    {
        assert(0 <= i * cols <= 4096) by (nonlinear_arith)
            requires
                0 <= i <= 64,
                0 <= cols <= 64,
        ;
        let v: i32 = match m.safe_read32s(from.wrapping_add((j + i * cols) * 4)) {
            Some(v) => v,
            None => return false,
        };
        let out: i32 = convert_value(w.family, h.mode, v);
        if w.commit {
            if !m.safe_write32(to.wrapping_add(i * 4), out) {
                return false;
            }
        }
        i = i + 1;
    }
    true
}

fn apply_columns(m: &mut VirtualMemory, w: Walk, h: Shape, from: i32, start: Clamp) -> (r: (
    Clamp,
    bool,
))
    requires
        old(m)@.wf(),
        h.cols <= 64,
        start.small(),
    ensures
        final(m)@.wf(),
        r.0.small(),
        (final(m)@, r.0, r.1) == columns_applied(old(m)@, w, h, from, start, 0),
{
    let ghost goal = columns_applied(m@, w, h, from, start, 0);
    let mut c: Clamp = start;
    let cols: i32 = h.cols as i32;
    let mut j: i32 = 0;
    while j < cols
        invariant
            m@.wf(),
            0 <= j <= cols,
            cols == h.cols,
            0 <= cols <= 64,
            c.small(),
            columns_applied(m@, w, h, from, c, j as int) == goal,
            goal == columns_applied(old(m)@, w, h, from, start, 0),
        decreases cols - j,
    {
        reveal(columns_applied);
        let left: i32 = match m.safe_read32s(w.budget) {
            Some(v) => v,
            None => return (c, false),
        };
        if left == 0 {
            return (c, true);
        }
        let d: Clamp = c.clamp(w.layout, left as u32);
        let to: i32 = match m.safe_read32s(w.dst_cur) {
            Some(v) => v,
            None => return (d, false),
        };
        let n: i32;
        let step: i32;
        let cost: u32;
        match w.layout {
            ApplyLayout::Register => {
                n = d.elems as i32;
                step = (d.regs * 16) as i32;
                cost = d.regs;
            },
            ApplyLayout::Packed => {
                n = d.n as i32;
                step = (d.n * 4) as i32;
                cost = d.n;
            },
        }
        if !apply_column(m, w, h, from, to, j, n) {
            return (d, false);
        }
        if !m.safe_write32(w.dst_cur, to.wrapping_add(step)) {
            return (d, false);
        }
        if !m.safe_write32(w.budget, (left as u32 - cost) as i32) {
            return (d, false);
        }
        c = d;
        j = j + 1;
    }
    assert(columns_applied(m@, w, h, from, c, j as int) == (m@, c, true)) by {
        reveal(columns_applied);
    }
    (c, true)
}

fn apply_items(m: &mut VirtualMemory, w: Walk, h: Shape, items: u32) -> (r: bool)
    requires
        old(m)@.wf(),
        h.rows <= 64,
        h.cols <= 64,
    ensures
        final(m)@.wf(),
        (final(m)@, r) == items_applied(
            old(m)@,
            w,
            h,
            Clamp::start(h.rows),
            0,
            items as int,
        ),
{
    let ghost goal = items_applied(m@, w, h, Clamp::start(h.rows), 0, items as int);
    let mut c: Clamp = Clamp::new(h.rows);
    assert(0 <= h.cols * h.rows <= 4096) by (nonlinear_arith)
        requires
            h.rows <= 64,
            h.cols <= 64,
    ;
    let size: i32 = (h.cols * h.rows * 4) as i32;
    let mut k: u32 = 0;
    while k < items
        invariant
            m@.wf(),
            0 <= k <= items,
            h.cols <= 64,
            size == h.cols * h.rows * 4,
            c.small(),
            items_applied(m@, w, h, c, k as int, items as int) == goal,
            goal == items_applied(old(m)@, w, h, Clamp::start(h.rows), 0, items as int),
        decreases items - k,
    {
        reveal(items_applied);
        let left: i32 = match m.safe_read32s(w.budget) {
            Some(v) => v,
            None => return false,
        };
        if left == 0 {
            return true;
        }
        let from: i32 = match m.safe_read32s(w.src_cur) {
            Some(v) => v,
            None => return false,
        };
        let (d, ok) = apply_columns(m, w, h, from, c);
        if !ok {
            return false;
        }
        if !m.safe_write32(w.src_cur, from.wrapping_add(size)) {
            return false;
        }
        c = d;
        k = k + 1;
    }
    assert(items_applied(m@, w, h, c, k as int, items as int) == (m@, true)) by {
        reveal(items_applied);
    }
    true
}

fn apply_values(m: &mut VirtualMemory, w: Walk, d: i32, items: u32) -> (r: Option<i32>)
    requires
        old(m)@.wf(),
    ensures
        final(m)@.wf(),
        (final(m)@, r) == values_applied(old(m)@, w, d, items as int),
{
    reveal(values_applied);
    let mode: u32 = match m.safe_read32s(d) {
        Some(v) => v as u32,
        None => return None,
    };
    let rows: u32 = match m.safe_read32s(d.wrapping_add(0x14)) {
        Some(v) => v as u32,
        None => return None,
    };
    let cols: u32 = match m.safe_read32s(d.wrapping_add(0x18)) {
        Some(v) => v as u32,
        None => return None,
    };
    if mode < 1 || mode > 3 {
        return Some(APPLY_E_FAIL);
    }
    if rows > 64 || cols > 64 {
        return None;
    }
    if !apply_items(m, w, Shape { mode, rows, cols }, items) {
        return None;
    }
    if !m.safe_write32(w.desc_cur, d.wrapping_add(0x1c)) {
        return None;
    }
    Some(0)
}

fn apply_children(m: &mut VirtualMemory, w: Walk, depth: u32, last: i32, n: u32) -> (r: Option<
    i32,
>)
    requires
        old(m)@.wf(),
        depth <= APPLY_MAX_DEPTH,
    ensures
        final(m)@.wf(),
        (final(m)@, r) == children_applied(
            old(m)@,
            w,
            walker(child_walk(w), (depth + 1) as u32),
            last,
            0,
            n as int,
        ),
    decreases APPLY_MAX_DEPTH + 1 - depth, 0int,
{
    let ghost child = walker(child_walk(w), (depth + 1) as u32);
    let ghost goal = children_applied(m@, w, child, last, 0, n as int);
    let inner: Walk = match w.layout {
        ApplyLayout::Packed => Walk {
            family: ApplyFamily::Float,
            layout: ApplyLayout::Register,
            desc_cur: w.desc_cur,
            src_cur: w.src_cur,
            dst_cur: w.dst_cur,
            budget: w.budget,
            commit: w.commit,
        },
        ApplyLayout::Register => w,
    };
    let mut v: i32 = last;
    let mut i: u32 = 0;
    while i < n
        invariant
            m@.wf(),
            0 <= i <= n,
            depth <= APPLY_MAX_DEPTH,
            inner == child_walk(w),
            child == walker(child_walk(w), (depth + 1) as u32),
            children_applied(m@, w, child, v, i as int, n as int) == goal,
            goal == children_applied(
                old(m)@,
                w,
                walker(child_walk(w), (depth + 1) as u32),
                last,
                0,
                n as int,
            ),
        decreases n - i,
    {
        reveal(children_applied);
        let left: i32 = match m.safe_read32s(w.budget) {
            Some(v) => v,
            None => return None,
        };
        if left == 0 {
            return Some(v);
        }
        match eagl_apply_walk(m, inner, depth + 1) {
            None => return None,
            Some(got) => {
                if got < 0 {
                    return Some(got);
                }
                v = got;
            },
        }
        i = i + 1;
    }
    assert(children_applied(m@, w, child, v, i as int, n as int) == (m@, Some(v))) by {
        reveal(children_applied);
    }
    Some(v)
}

/// Walks a descriptor, and what it contains: converts values from the source to the
/// destination while the budget lasts, and moves the cursors. Returns what the call returns;
/// nothing where the walk gives up.
pub fn eagl_apply_walk(m: &mut VirtualMemory, w: Walk, depth: u32) -> (r: Option<i32>)
    requires
        old(m)@.wf(),
    ensures
        final(m)@.wf(),
        (final(m)@, r) == walked(old(m)@, w, depth),
    decreases APPLY_MAX_DEPTH + 1 - depth, 1int,
{
    reveal(level_walked);
    if depth > APPLY_MAX_DEPTH {
        return None;
    }
    let d: i32 = match m.safe_read32s(w.desc_cur) {
        Some(v) => v,
        None => return None,
    };
    let class: i32 = match m.safe_read32s(d.wrapping_add(4)) {
        Some(v) => v,
        None => return None,
    };
    let items: u32 = match m.safe_read32s(d.wrapping_add(0x10)) {
        Some(v) => if v == 0 {
            1
        } else {
            v as u32
        },
        None => return None,
    };
    if items > 1024 {
        return None;
    }
    if class >= 0 && class <= 3 {
        return apply_values(m, w, d, items);
    }
    if class != 5 {
        return Some(APPLY_E_FAIL);
    }
    let n: u32 = match m.safe_read32s(d.wrapping_add(0x14)) {
        Some(v) => v as u32,
        None => return None,
    };
    if n > 64 {
        return None;
    }
    if !m.safe_write32(w.desc_cur, d.wrapping_add(0x18)) {
        return None;
    }
    let ghost child = walker(child_walk(w), (depth + 1) as u32);
    let ghost goal = containers_applied(m@, w, d, child, 0, 0, items as int, n as int);
    assert(goal == level_walked(old(m)@, w, child));
    assert(goal == walked(old(m)@, w, depth));
    let mut v: i32 = 0;
    let mut k: u32 = 0;
    while k < items
        invariant
            m@.wf(),
            0 <= k <= items,
            depth <= APPLY_MAX_DEPTH,
            child == walker(child_walk(w), (depth + 1) as u32),
            containers_applied(m@, w, d, child, v, k as int, items as int, n as int) == goal,
            goal == walked(old(m)@, w, depth),
        decreases items - k,
    {
        reveal(containers_applied);
        let left: i32 = match m.safe_read32s(w.budget) {
            Some(v) => v,
            None => return None,
        };
        if left == 0 {
            return Some(v);
        }
        if !m.safe_write32(w.desc_cur, d.wrapping_add(0x18)) {
            return None;
        }
        match apply_children(m, w, depth, v, n) {
            None => return None,
            Some(got) => {
                if got < 0 {
                    return Some(got);
                }
                v = got;
            },
        }
        k = k + 1;
    }
    assert(containers_applied(m@, w, d, child, v, k as int, items as int, n as int) == (
        m@,
        Some(v),
    )) by {
        reveal(containers_applied);
    }
    Some(v)
}

/// The walk that the arguments on the stack ask for, and what its cursors hold.
#[verifier::opaque]
pub open spec fn walk_asked(
    s: Space,
    family: ApplyFamily,
    layout: ApplyLayout,
    esp: i32,
) -> Option<(Walk, Seq<i32>)> {
    match (
        s.word(esp.wrapping_add(4)),
        s.word(esp.wrapping_add(8)),
        s.word(esp.wrapping_add(12)),
        s.word(esp.wrapping_add(16)),
    ) {
        (Some(desc_cur), Some(src_cur), Some(dst_cur), Some(budget)) => match (
            s.word(desc_cur),
            s.word(src_cur),
            s.word(dst_cur),
            s.word(budget),
        ) {
            (Some(d), Some(f), Some(t), Some(b)) => Some(
                (
                    Walk { family, layout, desc_cur, src_cur, dst_cur, budget, commit: true },
                    seq![d, f, t, b],
                ),
            ),
            _ => None,
        },
        _ => None,
    }
}

/// Memory with a word put back where that can be done.
pub open spec fn put_back(s: Space, at: i32, v: i32) -> Space {
    match s.with_word(at, v) {
        Some(t) => t,
        None => s,
    }
}

/// Memory with the cursors of a walk put back.
pub open spec fn cursors_back(s: Space, w: Walk, v: Seq<i32>) -> Space {
    put_back(
        put_back(put_back(put_back(s, w.desc_cur, v[0]), w.src_cur, v[1]), w.dst_cur, v[2]),
        w.budget,
        v[3],
    )
}

/// What a call of a converter does, and what it returns. Where the walk gives up, the cursors
/// are put back and the call is left to the guest.
pub open spec fn apply_called(
    s: Space,
    family: ApplyFamily,
    layout: ApplyLayout,
    esp: i32,
) -> (Space, Option<i32>) {
    match walk_asked(s, family, layout, esp) {
        None => (s, None),
        Some((w, v)) => if v[3] as u32 > 4096 {
            (s, None)
        } else {
            let (t, r) = walked(s, w, 0);
            match r {
                Some(_) => (t, r),
                None => (cursors_back(t, w, v), None),
            }
        },
    }
}

/// Does a call of a converter. Returns what the call returns; nothing where it is left to the
/// guest.
pub fn handle_eagl_apply(
    m: &mut VirtualMemory,
    esp: i32,
    family: ApplyFamily,
    layout: ApplyLayout,
) -> (r: Option<i32>)
    requires
        old(m)@.wf(),
    ensures
        final(m)@.wf(),
        (final(m)@, r) == apply_called(old(m)@, family, layout, esp),
{
    reveal(walk_asked);
    let desc_cur: i32 = match m.safe_read32s(esp.wrapping_add(4)) {
        Some(v) => v,
        None => return None,
    };
    let src_cur: i32 = match m.safe_read32s(esp.wrapping_add(8)) {
        Some(v) => v,
        None => return None,
    };
    let dst_cur: i32 = match m.safe_read32s(esp.wrapping_add(12)) {
        Some(v) => v,
        None => return None,
    };
    let budget: i32 = match m.safe_read32s(esp.wrapping_add(16)) {
        Some(v) => v,
        None => return None,
    };
    let d: i32 = match m.safe_read32s(desc_cur) {
        Some(v) => v,
        None => return None,
    };
    let f: i32 = match m.safe_read32s(src_cur) {
        Some(v) => v,
        None => return None,
    };
    let t: i32 = match m.safe_read32s(dst_cur) {
        Some(v) => v,
        None => return None,
    };
    let b: i32 = match m.safe_read32s(budget) {
        Some(v) => v,
        None => return None,
    };
    if b as u32 > 4096 {
        return None;
    }
    let w: Walk = Walk { family, layout, desc_cur, src_cur, dst_cur, budget, commit: true };
    let r: Option<i32> = eagl_apply_walk(m, w, 0);
    if r.is_none() {
        m.safe_write32(desc_cur, d);
        m.safe_write32(src_cur, f);
        m.safe_write32(dst_cur, t);
        m.safe_write32(budget, b);
    }
    r
}

/// Integers to single-precision numbers, in registers.
pub fn handle_eagl_apply_reg_int(m: &mut VirtualMemory, esp: i32) -> (r: Option<i32>)
    requires
        old(m)@.wf(),
    ensures
        final(m)@.wf(),
        (final(m)@, r) == apply_called(
            old(m)@,
            ApplyFamily::Int,
            ApplyLayout::Register,
            esp,
        ),
{
    handle_eagl_apply(m, esp, ApplyFamily::Int, ApplyLayout::Register)
}

/// Single-precision numbers to integers, in registers.
pub fn handle_eagl_apply_reg_float(m: &mut VirtualMemory, esp: i32) -> (r: Option<i32>)
    requires
        old(m)@.wf(),
    ensures
        final(m)@.wf(),
        (final(m)@, r) == apply_called(
            old(m)@,
            ApplyFamily::Float,
            ApplyLayout::Register,
            esp,
        ),
{
    handle_eagl_apply(m, esp, ApplyFamily::Float, ApplyLayout::Register)
}

/// Single-precision numbers to integers, packed.
pub fn handle_eagl_apply_packed(m: &mut VirtualMemory, esp: i32) -> (r: Option<i32>)
    requires
        old(m)@.wf(),
    ensures
        final(m)@.wf(),
        (final(m)@, r) == apply_called(
            old(m)@,
            ApplyFamily::Float,
            ApplyLayout::Packed,
            esp,
        ),
{
    handle_eagl_apply(m, esp, ApplyFamily::Float, ApplyLayout::Packed)
}

} // verus!
