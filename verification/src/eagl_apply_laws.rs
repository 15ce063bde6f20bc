//! What becomes of the numbers that shader constants are converted from.
use vstd::prelude::*;
use vstd::arithmetic::power2::pow2;
use crate::codegen_value_laws;
use crate::codegen_value_laws::word_of;
use crate::eagl_apply;
use crate::eagl_apply::{ApplyFamily, Conversion};
use crate::eagl_batch_laws;
use crate::eagl_batch_laws::are_apart;
use crate::softfloat;
use crate::virtual_mem;
use crate::virtual_mem::Space;

verus! {

/// The exponent field of a single-precision number.
pub open spec fn exponent(bits: u32) -> int {
    bits as int / 0x80_0000 % 256
}

/// The significand of a single-precision number, as an integer of 24 bits.
pub open spec fn significand(bits: u32) -> int {
    bits as int % 0x80_0000 + 0x80_0000
}

/// The integer `w` is the magnitude of a single-precision number without its fraction.
pub open spec fn is_whole(bits: u32, w: int) -> bool {
    let e = exponent(bits);
    let m = significand(bits);
    if e < 127 {
        w == 0
    } else if e < 150 {
        let unit = pow2((150 - e) as nat);
        w * unit <= m < (w + 1) * unit
    } else {
        w == m * pow2((e - 150) as nat)
    }
}

/// A single-precision number without its fraction, as an integer of 64 bits: the low half of it. It
/// is zero for what does not fit, which becomes the smallest integer.
pub open spec fn is_cut(r: u32, bits: u32) -> bool {
    if exponent(bits) >= 190 {
        r == 0
    } else {
        forall|w: int|
            #![trigger is_whole(bits, w)]
            is_whole(bits, w) ==> r == (if bits >= 0x8000_0000 {
                -w
            } else {
                w
            }) % 0x1_0000_0000
    }
}

/// A single-precision number is the nearest to an integer, the even one of two.
pub open spec fn is_nearest(r: u32, negative: bool, magnitude: u32) -> bool {
    let e = exponent(r);
    let m = significand(r);
    if magnitude == 0 {
        r == 0
    } else if e <= 150 {
        &&& r >= 0x8000_0000 <==> negative
        &&& 127 <= e
        &&& m == magnitude * pow2((150 - e) as nat)
    } else {
        let unit = pow2((e - 150) as nat) as int;
        &&& r >= 0x8000_0000 <==> negative
        &&& e < 190
        &&& 2 * (m * unit - magnitude) <= unit
        &&& 2 * (magnitude - m * unit) <= unit
        &&& 2 * (m * unit - magnitude) == unit || 2 * (magnitude - m * unit) == unit ==> m % 2 == 0
    }
}

proof fn lemma_cut(bits: u32)
    ensures
        is_cut(eagl_apply::low_of_single(bits), bits),
{
    let e = exponent(bits);
    let m = significand(bits);
    assert forall|w: int| #[trigger] is_whole(bits, w) && e < 190 implies eagl_apply::low_of_single(
        bits,
    ) == (if bits >= 0x8000_0000 {
        -w
    } else {
        w
    }) % 0x1_0000_0000 by {
        if 127 <= e < 150 {
            let unit = pow2((150 - e) as nat) as int;
            vstd::arithmetic::power2::lemma_pow2_pos((150 - e) as nat);
            vstd::arithmetic::mul::lemma_mul_is_distributive_add_other_way(unit, w, 1);
            vstd::arithmetic::mul::lemma_mul_is_commutative(w, unit);
            vstd::arithmetic::div_mod::lemma_fundamental_div_mod_converse(
                m,
                unit,
                w,
                m - w * unit,
            );
        }
    }
}

/// The magnitude lies between two powers of two.
proof fn lemma_highest(m: u32) -> (e: int)
    requires
        m > 0,
    ensures
        e == 63 - vstd::std_specs::bits::u64_leading_zeros(m as u64),
        0 <= e < 32,
        pow2(e as nat) <= m < pow2((e + 1) as nat),
{
    let x = m as u64;
    softfloat::normalized(x);
    let z = vstd::std_specs::bits::u64_leading_zeros(x) as u64;
    let e = 63 - z;
    vstd::arithmetic::power2::lemma2_to64();
    vstd::arithmetic::power2::lemma2_to64_rest();
    let p = pow2(z as nat);
    vstd::arithmetic::power2::lemma_pow2_pos(z as nat);
    assert(x * p == x << z) by {
        lemma_shift_fits(x, z);
    }
    vstd::arithmetic::power2::lemma_pow2_adds(z as nat, (63 - z) as nat);
    vstd::arithmetic::power2::lemma_pow2_adds(z as nat, (64 - z) as nat);
    let low = pow2((63 - z) as nat);
    let high = pow2((64 - z) as nat);
    assert(low <= x) by (nonlinear_arith)
        requires
            p * low == 0x8000_0000_0000_0000,
            x * p >= 0x8000_0000_0000_0000,
            p > 0,
    ;
    assert(x < high) by (nonlinear_arith)
        requires
            p * high == 0x1_0000_0000_0000_0000,
            x * p < 0x1_0000_0000_0000_0000,
            p > 0,
    ;
    if e >= 32 {
        if e > 32 {
            vstd::arithmetic::power2::lemma_pow2_strictly_increases(32, e as nat);
        }
    }
    e as int
}

/// A shift that loses no bit multiplies.
proof fn lemma_shift_fits(x: u64, z: u64)
    requires
        z < 64,
        (x << z) >> z == x,
    ensures
        x * pow2(z as nat) == x << z,
{
    let y = x << z;
    vstd::bits::lemma_u64_shr_is_div(y, z);
    let p = pow2(z as nat) as int;
    vstd::arithmetic::power2::lemma_pow2_pos(z as nat);
    vstd::arithmetic::div_mod::lemma_fundamental_div_mod(y as int, p);
    assert(p * x <= y) by {
        vstd::arithmetic::div_mod::lemma_mod_bound(y as int, p);
    }
    vstd::arithmetic::mul::lemma_mul_is_commutative(p, x as int);
    vstd::bits::lemma_u64_shl_is_mul(x, z);
}

#[verifier::spinoff_prover]
proof fn lemma_nearest(negative: bool, magnitude: u32)
    ensures
        is_nearest(eagl_apply::single_of(negative, magnitude), negative, magnitude),
{
    if magnitude > 0 {
        let e = lemma_highest(magnitude);
        let r = eagl_apply::single_of(negative, magnitude);
        let parts = softfloat::split(magnitude as nat, e - 23);
        let q = softfloat::rounded(parts, false, 0) as int;
        vstd::arithmetic::power2::lemma2_to64();
        vstd::arithmetic::power2::lemma2_to64_rest();
        if e <= 23 {
            let p = pow2((23 - e) as nat) as int;
            vstd::arithmetic::power2::lemma_pow2_adds(e as nat, (23 - e) as nat);
            vstd::arithmetic::power2::lemma_pow2_adds((e + 1) as nat, (23 - e) as nat);
            vstd::arithmetic::power2::lemma_pow2_pos((23 - e) as nat);
            let low = pow2(e as nat) as int;
            let high = pow2((e + 1) as nat) as int;
            assert(0x80_0000 <= magnitude * p < 0x100_0000) by (nonlinear_arith)
                requires
                    low * p == 0x80_0000,
                    high * p == 0x100_0000,
                    low <= magnitude < high,
                    p > 0,
            ;
            assert(q == magnitude * p);
            lemma_fields(negative, e, q, r);
        } else {
            let unit = pow2((e - 23) as nat) as int;
            vstd::arithmetic::power2::lemma_pow2_adds(23, (e - 23) as nat);
            vstd::arithmetic::power2::lemma_pow2_adds(24, (e - 23) as nat);
            vstd::arithmetic::power2::lemma_pow2_pos((e - 23) as nat);
            let m = magnitude as int;
            let whole = m / unit;
            let left = m % unit;
            vstd::arithmetic::div_mod::lemma_fundamental_div_mod(m, unit);
            vstd::arithmetic::div_mod::lemma_mod_bound(m, unit);
            assert(0x80_0000 <= whole < 0x100_0000) by (nonlinear_arith)
                requires
                    m == unit * whole + left,
                    0 <= left < unit,
                    0x80_0000 * unit <= m < 0x100_0000 * unit,
            ;
            assert(q == whole || q == whole + 1);
            lemma_fields(negative, e, q, r);
            vstd::arithmetic::mul::lemma_mul_is_commutative(unit, whole);
            vstd::arithmetic::mul::lemma_mul_is_distributive_add_other_way(unit, whole, 1);
            if q == 0x100_0000 {
                vstd::arithmetic::power2::lemma_pow2_unfold((e - 22) as nat);
                assert(0x80_0000 * (2 * unit) == q * unit);
            }
        }
    }
}

/// The fields of a number that is put together of an exponent and a significand.
proof fn lemma_fields(negative: bool, e: int, q: int, r: u32)
    requires
        0 <= e < 32,
        0x80_0000 <= q <= 0x100_0000,
        r == ((if negative {
            0x8000_0000int
        } else {
            0
        }) + (126 + e) * 0x80_0000 + q) as u32,
    ensures
        r >= 0x8000_0000 <==> negative,
        q < 0x100_0000 ==> exponent(r) == 127 + e && significand(r) == q,
        q == 0x100_0000 ==> exponent(r) == 128 + e && significand(r) == 0x80_0000,
{
}

/// Conversion of one value. Integers, with a sign or without, become the nearest single-precision
/// numbers, and such numbers are handed on, quiet where they are none. In the other direction
/// numbers lose their fraction, and other words are handed on.
pub proof fn law_values_are_converted(family: ApplyFamily, mode: u32, v: i32)
    ensures
        ({
            let r = eagl_apply::applied(family, mode, v) as u32;
            &&& family is Int && mode == 1 ==> is_nearest(
                r,
                v < 0,
                (if v < 0 {
                    -(v as int)
                } else {
                    v as int
                }) as u32,
            )
            &&& family is Int && mode == 2 ==> is_nearest(r, false, v as u32)
            &&& family is Int && mode == 3 && (exponent(v as u32) != 255 || v as u32 % 0x80_0000
                == 0 || v as u32 % 0x80_0000 >= 0x40_0000) ==> r == v as u32
            &&& family is Int && mode == 3 && exponent(v as u32) == 255 && 0 < v as u32 % 0x80_0000
                < 0x40_0000 ==> r == v as u32 + 0x40_0000
            &&& family is Float && mode == 3 ==> is_cut(r, v as u32)
            &&& family is Float && mode != 3 ==> r == v as u32
        }),
{
    let magnitude = (if v < 0 {
        -(v as int)
    } else {
        v as int
    }) as u32;
    lemma_nearest(v < 0, magnitude);
    lemma_nearest(false, v as u32);
    lemma_cut(v as u32);
    codegen_value_laws::lemma_cast(eagl_apply::single_of(v < 0, magnitude));
    codegen_value_laws::lemma_cast(eagl_apply::single_of(false, v as u32));
    codegen_value_laws::lemma_cast(eagl_apply::single_moved(v as u32));
    codegen_value_laws::lemma_cast(eagl_apply::low_of_single(v as u32));
}

/// Conversion of one cell of a matrix: to the truth of a number without its fraction, to that
/// number, or to the same word.
pub proof fn law_cells_are_converted(mode: u32, bits: i32)
    requires
        1 <= mode <= 3,
    ensures
        mode == 1 ==> {
            let r = eagl_apply::cell(mode, bits);
            &&& r == 0 || r == 1
            &&& exists|n: u32| #[trigger] is_cut(n, bits as u32) && (r == 0 <==> n == 0)
        },
        mode == 2 ==> is_cut(eagl_apply::cell(mode, bits) as u32, bits as u32),
        mode == 3 ==> eagl_apply::cell(mode, bits) == bits,
{
    lemma_cut(bits as u32);
    codegen_value_laws::lemma_cast(eagl_apply::low_of_single(bits as u32));
    assert(is_cut(eagl_apply::low_of_single(bits as u32), bits as u32));
}

/// A cell of one of the matrices.
pub struct Cell {
    pub matrix: int,
    pub row: int,
    pub column: int,
}

/// At most four rows and four columns of each matrix are converted.
pub open spec fn is_cell(c: Conversion, a: Cell) -> bool {
    &&& 0 <= a.matrix < c.count
    &&& 0 <= a.row < c.rows && a.row < 4
    &&& 0 <= a.column < c.cols && a.column < 4
}

/// Where a cell comes from: the matrices have four rows of four words.
pub open spec fn source(c: Conversion, a: Cell) -> i32 {
    word_of(c.src + 64 * a.matrix + 16 * a.row + 4 * a.column)
}

/// Where a cell goes: the matrices have only their own rows and columns.
pub open spec fn place(c: Conversion, a: Cell) -> i32 {
    word_of(c.dst + 4 * ((a.matrix * c.rows + a.row) * c.cols + a.column))
}

/// No cell goes to where another goes, or to where one comes from.
pub open spec fn cells_are_apart(s: Space, c: Conversion) -> bool {
    &&& forall|a: Cell, b: Cell|
        is_cell(c, a) && is_cell(c, b) ==> are_apart(
            s,
            #[trigger] place(c, a),
            #[trigger] source(c, b),
        )
    &&& forall|a: Cell, b: Cell|
        is_cell(c, a) && is_cell(c, b) && a != b ==> are_apart(
            s,
            #[trigger] place(c, a),
            #[trigger] place(c, b),
        )
}

/// The cell is converted before another is.
spec fn is_before(a: Cell, i: int, r: int, j: int) -> bool {
    a.matrix < i || (a.matrix == i && (a.row < r || (a.row == r && a.column < j)))
}

/// The cells before one are converted.
spec fn is_reached(s: Space, c: Conversion, t: Space, i: int, r: int, j: int) -> bool {
    &&& virtual_mem::same_pages(s, t)
    &&& t.wf()
    &&& forall|a: Cell|
        is_cell(c, a) ==> t.word(#[trigger] source(c, a)) == s.word(source(c, a))
    &&& forall|a: Cell|
        is_cell(c, a) && is_before(a, i, r, j) ==> {
            &&& s.word(source(c, a)) is Some
            &&& t.word(#[trigger] place(c, a)) == Some(
                eagl_apply::cell(c.mode, s.word(source(c, a))->0),
            )
        }
}

proof fn lemma_addresses(c: Conversion, i: int, r: int, j: int)
    requires
        0 <= i < 4096,
        0 <= r < 4,
        0 <= j < 4,
        c.rows <= 16,
        c.cols <= 16,
    ensures
        ({
            let a = Cell { matrix: i, row: r, column: j };
            &&& c.src.wrapping_add((i * 0x40) as i32).wrapping_add((r * 0x10) as i32).wrapping_add(
                (j * 4) as i32,
            ) == source(c, a)
            &&& c.dst.wrapping_add((i * (c.rows * c.cols * 4)) as i32).wrapping_add(
                (r * (c.cols * 4)) as i32,
            ).wrapping_add((j * 4) as i32) == place(c, a)
        }),
{
    let p = i * (c.rows * c.cols * 4);
    let q = r * (c.cols * 4);
    assert(0 <= p <= 4096 * 1024 && 0 <= q <= 4 * 64) by (nonlinear_arith)
        requires
            0 <= i < 4096,
            0 <= r < 4,
            0 <= c.rows <= 16,
            0 <= c.cols <= 16,
            p == i * (c.rows * c.cols * 4),
            q == r * (c.cols * 4),
    ;
    assert(p + q + 4 * j == 4 * ((i * c.rows + r) * c.cols + j)) by (nonlinear_arith)
        requires
            p == i * (c.rows * c.cols * 4),
            q == r * (c.cols * 4),
    ;
    lemma_three(c.src, i * 64, r * 16, j * 4);
    lemma_three(c.dst, p, q, j * 4);
}

proof fn lemma_three(v: i32, x: int, y: int, z: int)
    requires
        0 <= x < 0x1000_0000,
        0 <= y < 0x1000_0000,
        0 <= z < 0x1000_0000,
    ensures
        v.wrapping_add(x as i32).wrapping_add(y as i32).wrapping_add(z as i32) == word_of(
            v + x + y + z,
        ),
{
    codegen_value_laws::lemma_word(v);
    codegen_value_laws::lemma_word(x as i32);
    codegen_value_laws::lemma_word(y as i32);
    codegen_value_laws::lemma_word(z as i32);
    codegen_value_laws::lemma_sum(v as int, x);
    codegen_value_laws::lemma_sum(v + x, y);
    codegen_value_laws::lemma_sum(v + x + y, z);
}

/// One more cell is converted.
proof fn lemma_cell(s: Space, c: Conversion, u: Space, i: int, r: int, j: int)
    requires
        cells_are_apart(s, c),
        is_cell(c, Cell { matrix: i, row: r, column: j }),
        is_reached(s, c, u, i, r, j),
        u.word(source(c, Cell { matrix: i, row: r, column: j })) is Some,
        ({
            let a = Cell { matrix: i, row: r, column: j };
            u.with_word(place(c, a), eagl_apply::cell(c.mode, u.word(source(c, a))->0)) is Some
        }),
    ensures
        ({
            let a = Cell { matrix: i, row: r, column: j };
            is_reached(
                s,
                c,
                u.with_word(place(c, a), eagl_apply::cell(c.mode, u.word(source(c, a))->0))->0,
                i,
                r,
                j + 1,
            )
        }),
{
    let a = Cell { matrix: i, row: r, column: j };
    let v = eagl_apply::cell(c.mode, u.word(source(c, a))->0);
    let t = u.with_word(place(c, a), v)->0;
    virtual_mem::law_a_written_word_reads_back(u, place(c, a), v);
    assert(virtual_mem::same_pages(s, t)) by {
        reveal(Space::with_word);
    }
    assert forall|b: Cell| is_cell(c, b) implies t.word(#[trigger] source(c, b)) == s.word(
        source(c, b),
    ) by {
        assert(are_apart(s, place(c, a), source(c, b)));
        eagl_batch_laws::lemma_other_word(s, u, place(c, a), v, source(c, b));
    }
    assert forall|b: Cell| is_cell(c, b) && is_before(b, i, r, j + 1) implies ({
        &&& s.word(source(c, b)) is Some
        &&& t.word(#[trigger] place(c, b)) == Some(
            eagl_apply::cell(c.mode, s.word(source(c, b))->0),
        )
    }) by {
        assert(u.word(source(c, b)) == s.word(source(c, b)));
        if b != a {
            assert(is_before(b, i, r, j)) by {
                if b.matrix == i && b.row == r && b.column == j {
                    assert(b == a);
                }
            }
            assert(are_apart(s, place(c, a), place(c, b)));
            eagl_batch_laws::lemma_other_word(s, u, place(c, a), v, place(c, b));
        }
    }
}

proof fn lemma_row(s: Space, c: Conversion, u: Space, i: int, r: int, j: int)
    requires
        cells_are_apart(s, c),
        0 <= i < c.count,
        c.count <= 4096,
        c.rows <= 16,
        c.cols <= 16,
        0 <= r < c.rows,
        r < 4,
        0 <= j <= eagl_apply::at_most_4(c.cols),
        is_reached(s, c, u, i, r, j),
    ensures
        ({
            let (t, ok) = eagl_apply::row_converted(
                u,
                c.mode,
                c.src.wrapping_add((i * 0x40) as i32).wrapping_add((r * 0x10) as i32),
                c.dst.wrapping_add((i * (c.rows * c.cols * 4)) as i32).wrapping_add(
                    (r * (c.cols * 4)) as i32,
                ),
                j,
                eagl_apply::at_most_4(c.cols),
            );
            ok ==> is_reached(s, c, t, i, r, eagl_apply::at_most_4(c.cols))
        }),
    decreases 4 - j,
{
    let from = c.src.wrapping_add((i * 0x40) as i32).wrapping_add((r * 0x10) as i32);
    let to = c.dst.wrapping_add((i * (c.rows * c.cols * 4)) as i32).wrapping_add(
        (r * (c.cols * 4)) as i32,
    );
    let n = eagl_apply::at_most_4(c.cols);
    if j < n {
        let a = Cell { matrix: i, row: r, column: j };
        lemma_addresses(c, i, r, j);
        match u.word(from.wrapping_add((j * 4) as i32)) {
            None => {},
            Some(bits) => match u.with_word(
                to.wrapping_add((j * 4) as i32),
                eagl_apply::cell(c.mode, bits),
            ) {
                None => {},
                Some(t) => {
                    lemma_cell(s, c, u, i, r, j);
                    lemma_row(s, c, t, i, r, j + 1);
                },
            },
        }
    }
}

proof fn lemma_matrix(s: Space, c: Conversion, u: Space, i: int, r: int)
    requires
        cells_are_apart(s, c),
        0 <= i < c.count,
        c.count <= 4096,
        c.rows <= 16,
        c.cols <= 16,
        0 <= r <= eagl_apply::at_most_4(c.rows),
        is_reached(s, c, u, i, r, 0),
    ensures
        ({
            let (t, ok) = eagl_apply::matrix_converted(
                u,
                c,
                c.src.wrapping_add((i * 0x40) as i32),
                c.dst.wrapping_add((i * (c.rows * c.cols * 4)) as i32),
                r,
            );
            ok ==> is_reached(s, c, t, i, eagl_apply::at_most_4(c.rows), 0)
        }),
    decreases 4 - r,
{
    if r < eagl_apply::at_most_4(c.rows) {
        lemma_row(s, c, u, i, r, 0);
        let n = eagl_apply::at_most_4(c.cols);
        let (t, ok) = eagl_apply::row_converted(
            u,
            c.mode,
            c.src.wrapping_add((i * 0x40) as i32).wrapping_add((r * 0x10) as i32),
            c.dst.wrapping_add((i * (c.rows * c.cols * 4)) as i32).wrapping_add(
                (r * (c.cols * 4)) as i32,
            ),
            0,
            n,
        );
        if ok {
            assert(is_reached(s, c, t, i, r + 1, 0)) by {
                assert forall|a: Cell| is_cell(c, a) && is_before(a, i, r + 1, 0) implies is_before(
                    a,
                    i,
                    r,
                    n,
                ) by {}
            }
            lemma_matrix(s, c, t, i, r + 1);
        }
    }
}

proof fn lemma_matrices(s: Space, c: Conversion, u: Space, i: int)
    requires
        cells_are_apart(s, c),
        0 <= i <= c.count,
        c.count <= 4096,
        c.rows <= 16,
        c.cols <= 16,
        is_reached(s, c, u, i, 0, 0),
    ensures
        ({
            let (t, ok) = eagl_apply::matrices_converted(u, c, i);
            ok ==> is_reached(s, c, t, c.count as int, 0, 0)
        }),
    decreases c.count - i,
{
    if i < c.count {
        lemma_matrix(s, c, u, i, 0);
        let (t, ok) = eagl_apply::matrix_converted(
            u,
            c,
            c.src.wrapping_add((i * 0x40) as i32),
            c.dst.wrapping_add((i * (c.rows * c.cols * 4)) as i32),
            0,
        );
        if ok {
            let n = eagl_apply::at_most_4(c.rows);
            assert(is_reached(s, c, t, i + 1, 0, 0)) by {
                assert forall|a: Cell| is_cell(c, a) && is_before(a, i + 1, 0, 0) implies is_before(
                    a,
                    i,
                    n,
                    0,
                ) by {}
            }
            lemma_matrices(s, c, t, i + 1);
        }
    }
}

/// Matrices are converted cell by cell: where the call succeeds, the cell in a row and a column of
/// a matrix goes to the same row and column of the matrix with its own rows and columns. The
/// arguments on the stack are the descriptor, the destination, the source and the number of
/// matrices. A mode that is not known is answered with an error, and large matrices are left to
/// the guest.
pub proof fn law_matrices_are_converted(s: Space, esp: i32, desc: i32, c: Conversion)
    requires
        s.wf(),
        s.word(esp.wrapping_add(4)) == Some(desc),
        s.word(esp.wrapping_add(8)) == Some(c.dst),
        s.word(esp.wrapping_add(12)) == Some(c.src),
        s.word(esp.wrapping_add(16)) == Some(c.count as i32),
        s.word(desc) == Some(c.mode as i32),
        s.word(desc.wrapping_add(20)) == Some(c.rows as i32),
        s.word(desc.wrapping_add(24)) == Some(c.cols as i32),
        cells_are_apart(s, c),
    ensures
        ({
            let (t, r) = eagl_apply::converted(s, esp);
            if c.mode < 1 || c.mode > 3 {
                t == s && r == Some(-2005530516i32)
            } else if c.rows > 16 || c.cols > 16 || c.count > 4096 {
                t == s && r is None
            } else {
                &&& r is Some ==> r == Some(0i32)
                &&& r is Some ==> forall|a: Cell|
                    is_cell(c, a) ==> {
                        &&& s.word(source(c, a)) is Some
                        &&& t.word(#[trigger] place(c, a)) == Some(
                            eagl_apply::cell(c.mode, s.word(source(c, a))->0),
                        )
                    }
            }
        }),
{
    reveal(eagl_apply::conversion);
    codegen_value_laws::lemma_cast(c.count);
    codegen_value_laws::lemma_cast(c.mode);
    codegen_value_laws::lemma_cast(c.rows);
    codegen_value_laws::lemma_cast(c.cols);
    assert(eagl_apply::conversion(s, esp) == Some(c));
    if 1 <= c.mode <= 3 && c.rows <= 16 && c.cols <= 16 && c.count <= 4096 {
        assert(is_reached(s, c, s, 0, 0, 0));
        lemma_matrices(s, c, s, 0);
        let t = eagl_apply::matrices_converted(s, c, 0).0;
        assert forall|a: Cell| is_cell(c, a) implies is_before(a, c.count as int, 0, 0) by {}
    }
}

} // verus!
