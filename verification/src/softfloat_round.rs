//! Doubles narrowed to single precision, widened from it, and rounded to integers, all by their
//! bits; and the registers that the results of arithmetic on doubles go to.
use vstd::prelude::*;
use crate::eagl_apply;
use crate::eagl_apply::SINGLE_ONE;
use crate::softfloat;
use crate::softfloat::{
    round_magnitude, split_off, Fpu, FpuMode, Rest, DOUBLE_ONE, DOUBLE_SPECIAL, F80, RELAXED_TAG,
    TOP_BIT,
};

verus! {

/// The bits of an infinite single-precision number.
pub const SINGLE_SPECIAL: u32 = 0x7F80_0000;

/// The single-precision number nearest to a double, the even one of two. What is no number
/// becomes quiet and keeps the upper part of its payload.
pub open spec fn narrowed(d: u64) -> u32 {
    let sign = if softfloat::double_negative(d) {
        0x8000_0000int
    } else {
        0
    };
    let e = softfloat::double_exponent(d);
    let f = softfloat::double_fraction(d);
    let full = (f + DOUBLE_ONE) as nat;
    let field = e - 896;
    let magnitude = if field >= 1 {
        (field - 1) * SINGLE_ONE + softfloat::rounded(softfloat::split(full, 29), false, 0)
    } else {
        softfloat::rounded(softfloat::split(full, 30 - field), false, 0) as int
    };
    if e == 0x7FF && f != 0 {
        (sign + SINGLE_SPECIAL + 0x40_0000 + f / 0x2000_0000 % 0x40_0000) as u32
    } else if e == 0 {
        sign as u32
    } else if e == 0x7FF || magnitude >= SINGLE_SPECIAL {
        (sign + SINGLE_SPECIAL) as u32
    } else {
        (sign + magnitude) as u32
    }
}

/// The double that is equal to a single-precision number. What is no number becomes quiet.
pub open spec fn widened(s: u32) -> u64 {
    let sign = if eagl_apply::single_negative(s) {
        TOP_BIT as int
    } else {
        0
    };
    let e = eagl_apply::single_exponent(s);
    let f = eagl_apply::single_fraction(s);
    if e == 255 && f != 0 {
        (sign + DOUBLE_SPECIAL + 0x8_0000_0000_0000 + f % 0x40_0000 * 0x2000_0000) as u64
    } else if e == 255 {
        (sign + DOUBLE_SPECIAL) as u64
    } else if e == 0 && f == 0 {
        sign as u64
    } else if e == 0 {
        (sign + F80::from_i64(f as i64).as_double() - 149 * DOUBLE_ONE) as u64
    } else {
        (sign + (e + 896) * DOUBLE_ONE + f * 0x2000_0000) as u64
    }
}

/// Half, with a minus sign.
pub const MINUS_HALF: u64 = 0xBFE0_0000_0000_0000;

/// A double rounded to an integer. To the nearest, minus half becomes zero without its sign.
pub open spec fn integral(d: u64, mode: int) -> u64 {
    let magnitude = softfloat::rounded(
        softfloat::double_parts(d),
        softfloat::double_negative(d),
        mode,
    );
    if d == MINUS_HALF && mode == 0 {
        0
    } else if softfloat::double_exponent(d) >= 1075 {
        d
    } else if softfloat::double_negative(d) {
        (TOP_BIT + F80::from_i64(magnitude as i64).as_double()) as u64
    } else {
        F80::from_i64(magnitude as i64).as_double()
    }
}

/// The result of arithmetic: in single precision where the control word asks for it.
pub open spec fn with_precision(d: u64, m: FpuMode) -> u64 {
    if m.single() {
        widened(narrowed(d))
    } else {
        d
    }
}

/// The register for a double.
pub open spec fn in_register(d: u64, m: FpuMode) -> F80 {
    if m.relaxed {
        F80 { mantissa: d, sign_exponent: RELAXED_TAG }
    } else {
        F80::from_double(d)
    }
}

/// The bits of an integer that is no larger than 2 to the 53rd.
proof fn lemma_small_integers(v: i64)
    requires
        0 <= v <= 0x20_0000_0000_0000,
    ensures
        v == 0 ==> F80::from_i64(v).as_double() == 0,
        v > 0 ==> {
            let zeros = vstd::std_specs::bits::u64_leading_zeros(v as u64);
            let up = (v as u64) << (zeros as u64);
            &&& 10 <= zeros < 64
            &&& up >= TOP_BIT
            &&& up >> (zeros as u64) == v as u64
            &&& F80::from_i64(v).as_double() == (1023 + 63 - zeros) * DOUBLE_ONE + up as int
                % TOP_BIT as int / 2048
            &&& F80::from_i64(v).as_double() < TOP_BIT
        },
{
    reveal(F80::as_double);
    if v > 0 {
        let m = v as u64;
        softfloat::normalized(m);
        let zeros = vstd::std_specs::bits::u64_leading_zeros(m);
        let z = zeros as u64;
        assert(z >= 10) by (bit_vector)
            requires
                m <= 0x20_0000_0000_0000u64,
                z < 64,
                (m << z) >= 0x8000_0000_0000_0000u64,
                (m << z) >> z == m,
        ;
        let r = F80::from_i64(v);
        assert(r.exponent_field() == 0x3FFF + 63 - zeros);
        assert(r.exponent_field() - 16383 + 1023 == 1023 + 63 - zeros);
    }
}

/// Narrows a double to single precision.
pub fn narrow(d: u64) -> (r: u32)
    ensures
        r == narrowed(d),
{
    let sign: u32 = if d >= TOP_BIT {
        0x8000_0000
    } else {
        0
    };
    let e: u64 = d / DOUBLE_ONE % 2048;
    let f: u64 = d % DOUBLE_ONE;
    if e == 0x7FF {
        if f != 0 {
            return sign + SINGLE_SPECIAL + 0x40_0000 + (f / 0x2000_0000 % 0x40_0000) as u32;
        }
        return sign + SINGLE_SPECIAL;
    }
    if e == 0 {
        return sign;
    }
    let full: u64 = f + DOUBLE_ONE;
    let magnitude: u64 = if e > 896 {
        let (whole, rest): (u64, Rest) = split_off(full, 29);
        proof {
            vstd::arithmetic::power2::lemma2_to64();
            assert(vstd::arithmetic::power2::pow2(29) == 0x2000_0000);
        }
        assert(whole == full / 0x2000_0000);
        (e - 897) * SINGLE_ONE as u64 + round_magnitude(whole, rest, false, 0)
    } else {
        let (whole, rest): (u64, Rest) = split_off(full, (926 - e) as u32);
        proof {
            let n = (926 - e) as nat;
            vstd::arithmetic::power2::lemma_pow2_pos(n);
            vstd::arithmetic::div_mod::lemma_div_is_ordered_by_denominator(
                full as int,
                1,
                vstd::arithmetic::power2::pow2(n) as int,
            );
            vstd::arithmetic::div_mod::lemma_div_basics(full as int);
        }
        round_magnitude(whole, rest, false, 0)
    };
    if magnitude >= SINGLE_SPECIAL as u64 {
        sign + SINGLE_SPECIAL
    } else {
        sign + magnitude as u32
    }
}

/// Widens a single-precision number to a double.
pub fn widen(s: u32) -> (r: u64)
    ensures
        r == widened(s),
{
    let sign: u64 = if s >= 0x8000_0000 {
        TOP_BIT
    } else {
        0
    };
    let e: u64 = (s / SINGLE_ONE % 256) as u64;
    let f: u64 = (s % SINGLE_ONE) as u64;
    if e == 255 {
        if f != 0 {
            return sign + DOUBLE_SPECIAL + 0x8_0000_0000_0000 + f % 0x40_0000 * 0x2000_0000;
        }
        return sign + DOUBLE_SPECIAL;
    }
    if e == 0 {
        if f == 0 {
            return sign;
        }
        let exact: F80 = F80::of_i64(f as i64);
        let bits: u64 = exact.to_f64_strict();
        proof {
            lemma_small_integers(f as i64);
        }
        return sign + (bits - 149 * DOUBLE_ONE);
    }
    sign + (e + 896) * DOUBLE_ONE + f * 0x2000_0000
}

/// Rounds a double to an integer.
fn round_bits(d: u64, mode: u16) -> (r: u64)
    requires
        mode < 4,
    ensures
        r == integral(d, mode as int),
{
    if d == MINUS_HALF && mode == 0 {
        return 0;
    }
    let e: u64 = d / DOUBLE_ONE % 2048;
    if e >= 1075 {
        return d;
    }
    let magnitude: u64 = softfloat::round_double(d, mode);
    proof {
        lemma_integral_fits(d, mode as int);
        lemma_small_integers(magnitude as i64);
    }
    let exact: F80 = F80::of_i64(magnitude as i64);
    let bits: u64 = exact.to_f64_strict();
    if d >= TOP_BIT {
        TOP_BIT + bits
    } else {
        bits
    }
}

proof fn lemma_integral_fits(d: u64, mode: int)
    requires
        softfloat::double_exponent(d) < 1075,
    ensures
        softfloat::rounded(softfloat::double_parts(d), softfloat::double_negative(d), mode)
            <= 0x20_0000_0000_0000,
{
    let e = softfloat::double_exponent(d);
    let full = if e == 0 {
        softfloat::double_fraction(d)
    } else {
        softfloat::double_fraction(d) + DOUBLE_ONE
    };
    let n = if e == 0 {
        1074nat
    } else {
        (1075 - e) as nat
    };
    vstd::arithmetic::power2::lemma_pow2_pos(n);
    vstd::arithmetic::div_mod::lemma_div_is_ordered_by_denominator(
        full,
        1,
        vstd::arithmetic::power2::pow2(n) as int,
    );
    vstd::arithmetic::div_mod::lemma_div_basics(full);
}

/// The result of arithmetic in the precision that the control word asks for.
pub fn apply_precision(d: u64, m: FpuMode) -> (r: u64)
    ensures
        r == with_precision(d, m),
{
    if m.is_single() {
        widen(narrow(d))
    } else {
        d
    }
}

impl F80 {
    /// The register for a single-precision number, by its bits.
    pub fn of_f32(src: i32, m: FpuMode) -> (r: F80)
        ensures
            r == in_register(widened(src as u32), m),
    {
        F80::of_f64(widen(src as u32), m)
    }

    /// The value in single precision, by its bits.
    pub fn to_f32(&self, m: FpuMode) -> (r: i32)
        ensures
            r == narrowed(self.double(m)) as i32,
    {
        narrow(self.to_f64(m)) as i32
    }

    /// The value rounded to an integer as the control word asks for.
    pub fn round(self, m: FpuMode) -> (r: F80)
        ensures
            r == in_register(integral(self.double(m), m.rounding()), m),
    {
        F80::of_f64(round_bits(self.to_f64(m), m.rounding_mode()), m)
    }

    /// The integer part of the value.
    pub fn trunc(self, m: FpuMode) -> (r: F80)
        ensures
            r == in_register(integral(self.double(m), 3), m),
    {
        F80::of_f64(round_bits(self.to_f64(m), 3), m)
    }

    /// The register for the result of arithmetic on doubles, by its bits.
    pub fn of_result(raw: u64, m: FpuMode) -> (r: F80)
        ensures
            r == in_register(with_precision(raw, m), m),
    {
        F80::of_f64(apply_precision(raw, m), m)
    }

    /// There are no exceptions to forget.
    pub fn clear_exception_flags(fpu: &mut Fpu)
        ensures
            *final(fpu) == *old(fpu),
    {
    }
}

/// A single-precision number taken into a double and back is the same, unless it is no number.
pub proof fn law_singles_come_back(s: u32)
    requires
        !(eagl_apply::single_exponent(s) == 255 && eagl_apply::single_fraction(s) != 0),
    ensures
        narrowed(widened(s)) == s,
{
    let e = eagl_apply::single_exponent(s);
    let f = eagl_apply::single_fraction(s);
    let d = widened(s);
    vstd::arithmetic::power2::lemma2_to64();
    assert(vstd::arithmetic::power2::pow2(29) == 0x2000_0000);
    if e == 0 && f != 0 {
        lemma_small_integers(f as i64);
        let m = f as u64;
        let zeros = vstd::std_specs::bits::u64_leading_zeros(m);
        let z = zeros as u64;
        let up = m << z;
        assert(z >= 41) by (bit_vector)
            requires
                m < 0x80_0000u64,
                z < 64,
                (m << z) >= 0x8000_0000_0000_0000u64,
                (m << z) >> z == m,
        ;
        let low = up as int % TOP_BIT as int / 2048;
        assert(low < DOUBLE_ONE);
        assert(softfloat::double_exponent(d) == 1023 + 63 - zeros - 149);
        assert(softfloat::double_fraction(d) == low);
        let full = (low + DOUBLE_ONE) as nat;
        assert(full == up as int / 2048);
        let n = (zeros - 11) as u64;
        assert(up / 2048 == m << n && (m << n) >> n == m) by (bit_vector)
            requires
                41 <= z < 64,
                n == z - 11,
                up == m << z,
                (m << z) >> z == m,
        ;
        let unit = vstd::arithmetic::power2::pow2(n as nat);
        vstd::bits::lemma_u64_shr_is_div(m << n, n);
        vstd::arithmetic::power2::lemma_pow2_pos(n as nat);
        assert(full / unit == m);
        vstd::arithmetic::div_mod::lemma_fundamental_div_mod(full as int, unit as int);
        vstd::arithmetic::div_mod::lemma_mod_bound(full as int, unit as int);
        assert(m * unit <= u64::MAX) by {
            assert(unit * m == m * unit) by (nonlinear_arith);
        }
        vstd::bits::lemma_u64_shl_is_mul(m, n);
        assert(full == m * unit);
        vstd::arithmetic::div_mod::lemma_mod_multiples_basic(m as int, unit as int);
        assert(softfloat::split(full, n as int) == (m as nat, Rest::Nothing));
        assert(30 - (softfloat::double_exponent(d) - 896) == n);
    } else if e > 0 && e < 255 {
        assert(softfloat::double_exponent(d) == e + 896);
        assert(softfloat::double_fraction(d) == f * 0x2000_0000);
        let full = (f * 0x2000_0000 + DOUBLE_ONE) as nat;
        assert(full / 0x2000_0000 == f + SINGLE_ONE);
        assert(full % 0x2000_0000 == 0);
        assert(softfloat::split(full, 29) == ((f + SINGLE_ONE) as nat, Rest::Nothing));
    }
}

/// Single precision once is single precision: narrowing a narrowed result changes nothing.
pub proof fn law_precision_is_reached_once(d: u64, m: FpuMode)
    requires
        !softfloat::double_nan(d),
    ensures
        with_precision(with_precision(d, m), m) == with_precision(d, m),
{
    if m.single() {
        lemma_narrow_is_number(d);
        law_singles_come_back(narrowed(d));
    }
}

proof fn lemma_narrow_is_number(d: u64)
    requires
        !softfloat::double_nan(d),
    ensures
        !(eagl_apply::single_exponent(narrowed(d)) == 255 && eagl_apply::single_fraction(
            narrowed(d),
        ) != 0),
{
    let e = softfloat::double_exponent(d);
    if e != 0 && e != 0x7FF {
        let full = (softfloat::double_fraction(d) + DOUBLE_ONE) as nat;
        let field = e - 896;
        let magnitude = if field >= 1 {
            (field - 1) * SINGLE_ONE + softfloat::rounded(softfloat::split(full, 29), false, 0)
        } else {
            softfloat::rounded(softfloat::split(full, 30 - field), false, 0) as int
        };
        assert(magnitude >= 0);
    }
}

/// A value in single precision taken into a register and stored again is the same, in either
/// mode.
pub proof fn law_single_registers_come_back(s: u32, m: FpuMode)
    requires
        !(eagl_apply::single_exponent(s) == 255 && eagl_apply::single_fraction(s) != 0),
    ensures
        narrowed(in_register(widened(s), m).double(m)) == s,
{
    law_singles_come_back(s);
    softfloat::law_doubles_come_back(widened(s));
    lemma_no_tag(widened(s));
}

/// The exact value of a double never looks like a register that holds one.
proof fn lemma_no_tag(d: u64)
    ensures
        F80::from_double(d).sign_exponent != RELAXED_TAG,
{
    reveal(F80::from_double);
    let e = softfloat::double_exponent(d);
    let f = softfloat::double_fraction(d);
    if e == 0 && f != 0 {
        softfloat::normalized(f as u64);
    }
}

} // verus!
