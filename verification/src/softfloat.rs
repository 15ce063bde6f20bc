//! The values of x87 registers, on their bits: the 80-bit format, doubles by their bits, and
//! the relaxed form, in which a register holds a double behind a tag.
use vstd::prelude::*;
use std::cmp::Ordering;
use crate::jit_config::JitConfig;

verus! {

/// The exponent field that marks a register that holds a double. Values of that scale exist,
/// so it counts only while registers may be relaxed.
pub const RELAXED_TAG: u16 = 0x7FFE;

/// The leading bit of the significand of the 80-bit format; also the sign bit of a double.
pub const TOP_BIT: u64 = 0x8000_0000_0000_0000;

/// The exponent of infinities and of what is no number, in a double.
pub const DOUBLE_SPECIAL: u64 = 0x7FF0_0000_0000_0000;

/// 2 to the 52nd.
pub const DOUBLE_ONE: u64 = 0x10_0000_0000_0000;

/// How registers are read.
#[derive(Clone, Copy, Debug, PartialEq, Eq, Structural)]
pub struct FpuMode {
    /// Registers may hold doubles behind the tag.
    pub relaxed: bool,
    /// The control word of the x87 unit.
    pub control_word: u16,
}

impl FpuMode {
    /// The rounding mode: 0 to nearest, 1 down, 2 up, 3 toward zero.
    pub open spec fn rounding(self) -> int {
        self.control_word as int / 1024 % 4
    }

    /// Arithmetic results are rounded to single precision.
    pub open spec fn single(self) -> bool {
        self.control_word as int / 256 % 4 == 0
    }

    /// The rounding mode: 0 to nearest, 1 down, 2 up, 3 toward zero.
    pub fn rounding_mode(&self) -> (r: u16)
        ensures
            r == self.rounding(),
    {
        self.control_word / 1024 % 4
    }

    /// Whether arithmetic results are rounded to single precision.
    pub fn is_single(&self) -> (r: bool)
        ensures
            r == self.single(),
    {
        self.control_word / 256 % 4 == 0
    }
}

/// A value of the 80-bit format: the significand with its leading bit, and the exponent,
/// biased by 16383, below the sign.
#[derive(Clone, Copy, Debug, PartialEq, Eq, Structural)]
pub struct F80 {
    pub mantissa: u64,
    pub sign_exponent: u16,
}

/// What lies between a value and the integer below it.
#[derive(Clone, Copy, Debug, PartialEq, Eq, Structural)]
pub enum Rest {
    Nothing,
    BelowHalf,
    Half,
    AboveHalf,
}

/// The integer part of `full / 2^shift`, and what is left.
pub open spec fn split(full: nat, shift: int) -> (nat, Rest) {
    if shift <= 0 {
        (full * vstd::arithmetic::power2::pow2((-shift) as nat), Rest::Nothing)
    } else {
        let unit = vstd::arithmetic::power2::pow2(shift as nat);
        let left = full % unit;
        (
            full / unit,
            if left == 0 {
                Rest::Nothing
            } else if 2 * left < unit {
                Rest::BelowHalf
            } else if 2 * left == unit {
                Rest::Half
            } else {
                Rest::AboveHalf
            },
        )
    }
}

/// The magnitude of a value with this integer part, rounded to an integer.
pub open spec fn rounded(parts: (nat, Rest), negative: bool, mode: int) -> nat {
    let (whole, rest) = parts;
    let up = if rest is Nothing {
        false
    } else if mode == 1 {
        negative
    } else if mode == 2 {
        !negative
    } else if mode == 3 {
        false
    } else {
        rest is AboveHalf || (rest is Half && whole % 2 == 1)
    };
    if up {
        whole + 1
    } else {
        whole
    }
}

/// The sign of a double.
pub open spec fn double_negative(d: u64) -> bool {
    d >= TOP_BIT
}

/// The exponent field of a double.
pub open spec fn double_exponent(d: u64) -> int {
    d as int / DOUBLE_ONE as int % 2048
}

/// The fraction field of a double.
pub open spec fn double_fraction(d: u64) -> int {
    d as int % DOUBLE_ONE as int
}

/// No number.
pub open spec fn double_nan(d: u64) -> bool {
    double_exponent(d) == 0x7FF && double_fraction(d) != 0
}

/// The integer part of the magnitude of a finite double, and what is left.
pub open spec fn double_parts(d: u64) -> (nat, Rest) {
    if double_exponent(d) == 0 {
        split(double_fraction(d) as nat, 1074)
    } else {
        split((double_fraction(d) + DOUBLE_ONE) as nat, 1075 - double_exponent(d))
    }
}

/// The integer of `bits` bits that a double is rounded to; the lowest one where there is
/// none.
pub open spec fn double_to_int(d: u64, mode: int, bits: nat) -> int {
    let limit = vstd::arithmetic::power2::pow2((bits - 1) as nat) as int;
    let magnitude = rounded(double_parts(d), double_negative(d), mode) as int;
    if double_exponent(d) == 0x7FF {
        -limit
    } else if double_negative(d) && magnitude <= limit {
        -magnitude
    } else if !double_negative(d) && magnitude < limit {
        magnitude
    } else {
        -limit
    }
}

/// Doubles in their order; both zeros are equal. Says nothing of what is no number.
pub open spec fn double_key(d: u64) -> int {
    if double_negative(d) {
        -(d - TOP_BIT)
    } else {
        d as int
    }
}

impl F80 {
    pub open spec fn negative(self) -> bool {
        self.sign_exponent >= 0x8000
    }

    pub open spec fn exponent_field(self) -> int {
        self.sign_exponent as int % 0x8000
    }

    /// The register holds a double.
    pub open spec fn holds_double(self, m: FpuMode) -> bool {
        m.relaxed && self.sign_exponent == RELAXED_TAG
    }

    pub open spec fn sign_of_double(self) -> u64 {
        if self.negative() {
            TOP_BIT
        } else {
            0
        }
    }

    /// The fraction of a double that is no number: the upper part of the payload. Where that
    /// part is zero, the bit that makes it quiet stands for the rest.
    pub open spec fn payload(self) -> int {
        let f = self.mantissa as int % TOP_BIT as int / 2048;
        if f == 0 {
            0x8_0000_0000_0000
        } else {
            f
        }
    }

    /// The value as a double, rounded toward zero. What is too small for a double is zero,
    /// and so are values with an exponent field of zero. What is no number stays none.
    #[verifier::opaque]
    pub open spec fn as_double(self) -> u64 {
        let s = self.sign_of_double() as int;
        let m = self.mantissa as int;
        let e = self.exponent_field() - 16383 + 1023;
        if self.exponent_field() == 0 {
            s as u64
        } else if self.exponent_field() == 0x7FFF && self.mantissa != TOP_BIT {
            (s + DOUBLE_SPECIAL + self.payload()) as u64
        } else if e >= 0x7FF {
            (s + DOUBLE_SPECIAL) as u64
        } else if e <= -52 {
            s as u64
        } else if e <= 0 {
            (s + (self.mantissa >> ((12 - e) as u64))) as u64
        } else {
            (s + e * DOUBLE_ONE + m % TOP_BIT as int / 2048) as u64
        }
    }

    /// The value of a register as a double.
    pub open spec fn double(self, m: FpuMode) -> u64 {
        if self.holds_double(m) {
            self.mantissa
        } else {
            self.as_double()
        }
    }

    /// The exact value of a double.
    #[verifier::opaque]
    pub open spec fn from_double(d: u64) -> F80 {
        let s = if double_negative(d) {
            0x8000int
        } else {
            0
        };
        let e = double_exponent(d);
        let f = double_fraction(d);
        if e == 0 && f == 0 {
            F80 { mantissa: 0, sign_exponent: s as u16 }
        } else if e == 0x7FF && f == 0 {
            F80 { mantissa: TOP_BIT, sign_exponent: (s + 0x7FFF) as u16 }
        } else if e == 0x7FF {
            F80 {
                mantissa: (TOP_BIT + f / 0x8_0000_0000_0000 * 0x4000_0000_0000_0000 + f
                    % 0x8_0000_0000_0000 * 2048) as u64,
                sign_exponent: (s + 0x7FFF) as u16,
            }
        } else if e == 0 {
            let zeros = vstd::std_specs::bits::u64_leading_zeros(f as u64);
            F80 {
                mantissa: (f as u64) << (zeros as u64),
                sign_exponent: (s + 16383 - 1023 - (zeros - 12)) as u16,
            }
        } else {
            F80 {
                mantissa: (TOP_BIT + f * 2048) as u64,
                sign_exponent: (s + e - 1023 + 16383) as u16,
            }
        }
    }

    /// The exact value of an integer.
    pub open spec fn from_i64(v: i64) -> F80 {
        let magnitude = if v < 0 {
            (-(v as int)) as u64
        } else {
            v as u64
        };
        let zeros = vstd::std_specs::bits::u64_leading_zeros(magnitude);
        if v == 0 {
            F80 { mantissa: 0, sign_exponent: 0 }
        } else {
            F80 {
                mantissa: magnitude << (zeros as u64),
                sign_exponent: ((if v < 0 {
                    0x8000int
                } else {
                    0
                }) + 0x3FFF + 63 - zeros) as u16,
            }
        }
    }

    /// The register as a value of the 80-bit format.
    pub open spec fn resolved(self, m: FpuMode) -> F80 {
        if self.holds_double(m) {
            F80::from_double(self.mantissa)
        } else {
            self
        }
    }

    /// The integer of 64 bits that the value is rounded to, where that needs no detour
    /// through a double: for normal values of at least one whose integer fits.
    pub open spec fn exact_i64(self, m: FpuMode, mode: int) -> Option<i64> {
        let e = self.exponent_field() - 0x3FFF;
        if self.holds_double(m) || !(0 <= e <= 63) || self.mantissa < TOP_BIT {
            None
        } else {
            let magnitude = rounded(
                split(self.mantissa as nat, 63 - e),
                self.negative(),
                mode,
            ) as int;
            if self.negative() && magnitude <= 0x8000_0000_0000_0000 {
                Some((-magnitude) as i64)
            } else if !self.negative() && magnitude <= i64::MAX {
                Some(magnitude as i64)
            } else {
                None
            }
        }
    }

    /// The integer of 64 bits that the value is rounded to.
    pub open spec fn int64(self, m: FpuMode, mode: int) -> i64 {
        match self.exact_i64(m, mode) {
            Some(v) => v,
            None => double_to_int(self.double(m), mode, 64) as i64,
        }
    }

    pub fn zero() -> (r: F80)
        ensures
            r == (F80 { mantissa: 0, sign_exponent: 0 }),
    {
        F80 { mantissa: 0, sign_exponent: 0 }
    }

    pub fn one() -> (r: F80)
        ensures
            r == (F80 { mantissa: TOP_BIT, sign_exponent: 0x3FFF }),
    {
        F80 { mantissa: TOP_BIT, sign_exponent: 0x3FFF }
    }

    /// The natural logarithm of ten.
    pub fn ln_10() -> (r: F80)
        ensures
            r == (F80 { mantissa: 0x935D8DDDAAA8B000, sign_exponent: 0x4000 }),
    {
        F80 { mantissa: 0x935D8DDDAAA8B000, sign_exponent: 0x4000 }
    }

    /// The natural logarithm of two.
    pub fn ln_2() -> (r: F80)
        ensures
            r == (F80 { mantissa: 0xB17217F7D1CF7800, sign_exponent: 0x3FFE }),
    {
        F80 { mantissa: 0xB17217F7D1CF7800, sign_exponent: 0x3FFE }
    }

    pub fn pi() -> (r: F80)
        ensures
            r == (F80 { mantissa: 0xC90FDAA22168C000, sign_exponent: 0x4000 }),
    {
        F80 { mantissa: 0xC90FDAA22168C000, sign_exponent: 0x4000 }
    }

    /// The binary logarithm of e.
    pub fn log2_e() -> (r: F80)
        ensures
            r == (F80 { mantissa: 0xB8AA3B295C17F000, sign_exponent: 0x3FFF }),
    {
        F80 { mantissa: 0xB8AA3B295C17F000, sign_exponent: 0x3FFF }
    }

    pub fn indefinite_nan() -> (r: F80)
        ensures
            r == (F80 { mantissa: 0xC000000000000000, sign_exponent: 0x7FFF }),
    {
        F80 { mantissa: 0xC000000000000000, sign_exponent: 0x7FFF }
    }

    pub fn pos_infinity() -> (r: F80)
        ensures
            r == (F80 { mantissa: TOP_BIT, sign_exponent: 0x7FFF }),
    {
        F80 { mantissa: TOP_BIT, sign_exponent: 0x7FFF }
    }

    pub fn neg_infinity() -> (r: F80)
        ensures
            r == (F80 { mantissa: TOP_BIT, sign_exponent: 0xFFFF }),
    {
        F80 { mantissa: TOP_BIT, sign_exponent: 0xFFFF }
    }

    fn is_relaxed(&self, m: FpuMode) -> (r: bool)
        ensures
            r == self.holds_double(m),
    {
        m.relaxed && self.sign_exponent == RELAXED_TAG
    }

    /// Whether the value is negative. A double carries its sign in its own highest bit.
    pub fn sign(&self, m: FpuMode) -> (r: bool)
        ensures
            r == (if self.holds_double(m) {
                double_negative(self.mantissa)
            } else {
                self.negative()
            }),
    {
        if self.is_relaxed(m) {
            return self.mantissa >= TOP_BIT;
        }
        self.sign_exponent >= 0x8000
    }

    /// The exponent, without its bias.
    pub fn exponent(&self, m: FpuMode) -> (r: i16)
        ensures
            r == self.resolved(m).exponent_field() - 0x3FFF,
    {
        let v: F80 = self.to_true_f80(m);
        (v.sign_exponent % 0x8000) as i16 - 0x3FFF
    }

    /// The value as a double, by its bits.
    pub fn to_f64(&self, m: FpuMode) -> (r: u64)
        ensures
            r == self.double(m),
    {
        if self.is_relaxed(m) {
            return self.mantissa;
        }
        self.to_f64_strict()
    }

    /// The value of the 80-bit format as a double, by its bits, whatever the tag.
    pub fn to_f64_strict(&self) -> (r: u64)
        ensures
            r == self.as_double(),
    {
        reveal(F80::as_double);
        let s: u64 = if self.sign_exponent >= 0x8000 {
            TOP_BIT
        } else {
            0
        };
        let field: i32 = (self.sign_exponent % 0x8000) as i32;
        let m: u64 = self.mantissa;
        if field == 0 {
            return s;
        }
        if field == 0x7FFF && m != TOP_BIT {
            let payload: u64 = m % TOP_BIT / 2048;
            if payload == 0 {
                return s + DOUBLE_SPECIAL + 0x8_0000_0000_0000;
            }
            return s + DOUBLE_SPECIAL + payload;
        }
        let e: i32 = field - 16383 + 1023;
        if e >= 0x7FF {
            return s + DOUBLE_SPECIAL;
        }
        if e <= -52 {
            return s;
        }
        if e <= 0 {
            let shift: u64 = (12 - e) as u64;
            assert(m >> shift < 0x10_0000_0000_0000u64) by (bit_vector)
                requires
                    12 <= shift < 64,
            ;
            return s + (m >> shift);
        }
        assert(e * DOUBLE_ONE < DOUBLE_SPECIAL) by (nonlinear_arith)
            requires
                0 < e < 0x7FF,
        ;
        s + e as u64 * DOUBLE_ONE + m % TOP_BIT / 2048
    }

    /// The register for a double.
    pub fn of_f64(src: u64, m: FpuMode) -> (r: F80)
        ensures
            r == (if m.relaxed {
                F80 { mantissa: src, sign_exponent: RELAXED_TAG }
            } else {
                F80::from_double(src)
            }),
    {
        if m.relaxed {
            return F80 { mantissa: src, sign_exponent: RELAXED_TAG };
        }
        F80::of_f64_strict(src)
    }

    /// The exact value of a double, whatever the mode.
    pub fn of_f64_strict(src: u64) -> (r: F80)
        ensures
            r == F80::from_double(src),
    {
        reveal(F80::from_double);
        let s: u16 = if src >= TOP_BIT {
            0x8000
        } else {
            0
        };
        let e: u64 = src / DOUBLE_ONE % 2048;
        let f: u64 = src % DOUBLE_ONE;
        if e == 0 && f == 0 {
            return F80 { mantissa: 0, sign_exponent: s };
        }
        if e == 0x7FF {
            if f == 0 {
                return F80 { mantissa: TOP_BIT, sign_exponent: s + 0x7FFF };
            }
            let quiet: u64 = f / 0x8_0000_0000_0000;
            let payload: u64 = f % 0x8_0000_0000_0000;
            return F80 {
                mantissa: TOP_BIT + quiet * 0x4000_0000_0000_0000 + payload * 2048,
                sign_exponent: s + 0x7FFF,
            };
        }
        if e == 0 {
            proof {
                normalized(f);
                small_has_zeros(f);
            }
            let zeros: u32 = f.leading_zeros();
            return F80 {
                mantissa: f << (zeros as u64),
                sign_exponent: s + (16383 - 1023 - (zeros as u16 - 12)),
            };
        }
        F80 { mantissa: TOP_BIT + f * 2048, sign_exponent: s + (e as u16 + 16383 - 1023) }
    }

    /// The exact value of an integer. It is never relaxed: a double cannot hold every
    /// integer of 64 bits.
    pub fn of_i64(src: i64) -> (r: F80)
        ensures
            r == F80::from_i64(src),
    {
        if src == 0 {
            return F80::zero();
        }
        let magnitude: u64 = if src < 0 {
            (-(src as i128)) as u64
        } else {
            src as u64
        };
        let s: u16 = if src < 0 {
            0x8000
        } else {
            0
        };
        proof {
            normalized(magnitude);
        }
        let zeros: u32 = magnitude.leading_zeros();
        F80 {
            mantissa: magnitude << (zeros as u64),
            sign_exponent: s + (0x3FFF + 63 - zeros as u16),
        }
    }

    /// The register for an integer of 32 bits.
    pub fn of_i32(src: i32, m: FpuMode) -> (r: F80)
        ensures
            r == (if m.relaxed {
                F80 {
                    mantissa: F80::from_i64(src as i64).as_double(),
                    sign_exponent: RELAXED_TAG,
                }
            } else {
                F80::from_double(F80::from_i64(src as i64).as_double())
            }),
    {
        let exact: F80 = F80::of_i64(src as i64);
        F80::of_f64(exact.to_f64_strict(), m)
    }

    fn to_i64_exact(&self, m: FpuMode, mode: u16) -> (r: Option<i64>)
        requires
            mode < 4,
        ensures
            r == self.exact_i64(m, mode as int),
    {
        if self.is_relaxed(m) {
            return None;
        }
        let field: u16 = self.sign_exponent % 0x8000;
        if field < 0x3FFF || field > 0x3FFF + 63 || self.mantissa < TOP_BIT {
            return None;
        }
        let negative: bool = self.sign_exponent >= 0x8000;
        let shift: u32 = (0x3FFF + 63 - field) as u32;
        let (whole, rest): (u64, Rest) = split_off(self.mantissa, shift);
        if whole == u64::MAX {
            proof {
                assert(shift == 0) by {
                    if shift > 0 {
                        vstd::arithmetic::power2::lemma2_to64();
                        pow2_at_least_two(shift as nat);
                        assert(self.mantissa as int / vstd::arithmetic::power2::pow2(shift as nat) as int
                            <= self.mantissa as int / 2) by {
                            vstd::arithmetic::div_mod::lemma_div_is_ordered_by_denominator(
                                self.mantissa as int,
                                2,
                                vstd::arithmetic::power2::pow2(shift as nat) as int,
                            );
                        }
                    }
                }
            }
            return None;
        }
        let magnitude: u64 = round_magnitude(whole, rest, negative, mode);
        if negative {
            if magnitude > 0x8000_0000_0000_0000 {
                return None;
            }
            Some((-(magnitude as i128)) as i64)
        } else {
            if magnitude > 0x7FFF_FFFF_FFFF_FFFF {
                return None;
            }
            Some(magnitude as i64)
        }
    }

    /// The integer of 32 bits that the value is rounded to; the lowest one where there is
    /// none.
    pub fn to_i32(&self, m: FpuMode) -> (r: i32)
        ensures
            r == double_to_int(self.double(m), m.rounding(), 32),
    {
        double_to_i32(self.to_f64(m), m.rounding_mode())
    }

    /// The integer of 64 bits that the value is rounded to; the lowest one where there is
    /// none.
    pub fn to_i64(&self, m: FpuMode) -> (r: i64)
        ensures
            r == self.int64(m, m.rounding()),
    {
        match self.to_i64_exact(m, m.rounding_mode()) {
            Some(v) => v,
            None => double_to_i64(self.to_f64(m), m.rounding_mode()),
        }
    }

    /// The integer of 32 bits below the magnitude of the value.
    pub fn truncate_to_i32(&self, m: FpuMode) -> (r: i32)
        ensures
            r == double_to_int(self.double(m), 3, 32),
    {
        double_to_i32(self.to_f64(m), 3)
    }

    /// The integer of 64 bits below the magnitude of the value.
    pub fn truncate_to_i64(&self, m: FpuMode) -> (r: i64)
        ensures
            r == self.int64(m, 3),
    {
        match self.to_i64_exact(m, 3) {
            Some(v) => v,
            None => double_to_i64(self.to_f64(m), 3),
        }
    }

    /// The value without its sign.
    pub fn abs(self, m: FpuMode) -> (r: F80)
        ensures
            r == (if self.holds_double(m) {
                F80 {
                    mantissa: (self.mantissa as int % TOP_BIT as int) as u64,
                    sign_exponent: RELAXED_TAG,
                }
            } else {
                F80 {
                    mantissa: self.mantissa,
                    sign_exponent: self.exponent_field() as u16,
                }
            }),
    {
        if self.is_relaxed(m) {
            F80 { mantissa: self.mantissa % TOP_BIT, sign_exponent: RELAXED_TAG }
        } else {
            F80 { mantissa: self.mantissa, sign_exponent: self.sign_exponent % 0x8000 }
        }
    }

    pub open spec fn negated(self, m: FpuMode) -> F80 {
        if self.holds_double(m) {
            F80 {
                mantissa: if self.mantissa >= TOP_BIT {
                    (self.mantissa - TOP_BIT) as u64
                } else {
                    (self.mantissa + TOP_BIT) as u64
                },
                sign_exponent: RELAXED_TAG,
            }
        } else {
            F80 {
                mantissa: self.mantissa,
                sign_exponent: if self.sign_exponent >= 0x8000 {
                    (self.sign_exponent - 0x8000) as u16
                } else {
                    (self.sign_exponent + 0x8000) as u16
                },
            }
        }
    }

    /// The value with the other sign.
    pub fn neg(self, m: FpuMode) -> (r: F80)
        ensures
            r == self.negated(m),
    {
        if self.is_relaxed(m) {
            let mantissa: u64 = if self.mantissa >= TOP_BIT {
                self.mantissa - TOP_BIT
            } else {
                self.mantissa + TOP_BIT
            };
            F80 { mantissa, sign_exponent: RELAXED_TAG }
        } else {
            let sign_exponent: u16 = if self.sign_exponent >= 0x8000 {
                self.sign_exponent - 0x8000
            } else {
                self.sign_exponent + 0x8000
            };
            F80 { mantissa: self.mantissa, sign_exponent }
        }
    }

    /// The register as a value of the 80-bit format.
    pub fn to_true_f80(self, m: FpuMode) -> (r: F80)
        ensures
            r == self.resolved(m),
    {
        if self.is_relaxed(m) {
            F80::of_f64_strict(self.mantissa)
        } else {
            self
        }
    }

    /// The value times two to the power `n`. What is too large is an infinity, what is too
    /// small a zero of the same sign.
    pub open spec fn scaled(self, m: FpuMode, n: i64) -> F80 {
        let v = self.resolved(m);
        let s = if v.negative() {
            0x8000int
        } else {
            0
        };
        let e = v.exponent_field() + n;
        if (v.exponent_field() == 0 && v.mantissa == 0) || v.exponent_field() == 0x7FFF {
            v
        } else if e >= 0x7FFE {
            F80 { mantissa: TOP_BIT, sign_exponent: (s + 0x7FFF) as u16 }
        } else if e <= 0 {
            F80 { mantissa: 0, sign_exponent: s as u16 }
        } else {
            F80 { mantissa: v.mantissa, sign_exponent: (s + e) as u16 }
        }
    }

    /// The value times two to the power `n`.
    pub fn scale_pow2(self, m: FpuMode, n: i64) -> (r: F80)
        ensures
            r == self.scaled(m, n),
    {
        let v: F80 = self.to_true_f80(m);
        let s: u16 = if v.sign_exponent >= 0x8000 {
            0x8000
        } else {
            0
        };
        let field: u16 = v.sign_exponent % 0x8000;
        if (field == 0 && v.mantissa == 0) || field == 0x7FFF {
            return v;
        }
        let e: i128 = field as i128 + n as i128;
        if e >= 0x7FFE {
            return F80 { mantissa: TOP_BIT, sign_exponent: s + 0x7FFF };
        }
        if e <= 0 {
            return F80 { mantissa: 0, sign_exponent: s };
        }
        F80 { mantissa: v.mantissa, sign_exponent: s + e as u16 }
    }

    /// Whether the value is no infinity. What is no number counts as finite.
    pub fn is_finite(self, m: FpuMode) -> (r: bool)
        ensures
            r == !(double_exponent(self.double(m)) == 0x7FF && double_fraction(self.double(m)) == 0),
    {
        let d: u64 = self.to_f64(m);
        !(d / DOUBLE_ONE % 2048 == 0x7FF && d % DOUBLE_ONE == 0)
    }

    /// Whether the value is no number.
    pub fn is_nan(self, m: FpuMode) -> (r: bool)
        ensures
            r == double_nan(self.double(m)),
    {
        bits_are_nan(self.to_f64(m))
    }

    /// Whether two values are equal as doubles.
    pub fn equals(&self, other: &F80, m: FpuMode) -> (r: bool)
        ensures
            r == (!double_nan(self.double(m)) && !double_nan(other.double(m)) && double_key(
                self.double(m),
            ) == double_key(other.double(m))),
    {
        let a: u64 = self.to_f64(m);
        let b: u64 = other.to_f64(m);
        !bits_are_nan(a) && !bits_are_nan(b) && bits_key(a) == bits_key(b)
    }

    /// The order of two values as doubles; none where one is no number.
    pub fn partial_cmp_quiet(&self, other: &F80, m: FpuMode) -> (r: Option<Ordering>)
        ensures
            r == (if double_nan(self.double(m)) || double_nan(other.double(m)) {
                None
            } else if double_key(self.double(m)) < double_key(other.double(m)) {
                Some(Ordering::Less)
            } else if double_key(self.double(m)) == double_key(other.double(m)) {
                Some(Ordering::Equal)
            } else {
                Some(Ordering::Greater)
            }),
    {
        let a: u64 = self.to_f64(m);
        let b: u64 = other.to_f64(m);
        if bits_are_nan(a) || bits_are_nan(b) {
            return None;
        }
        if bits_key(a) < bits_key(b) {
            Some(Ordering::Less)
        } else if bits_key(a) == bits_key(b) {
            Some(Ordering::Equal)
        } else {
            Some(Ordering::Greater)
        }
    }

    /// No exception is ever recorded.
    pub fn get_exception_flags() -> (r: u8)
        ensures
            r == 0,
    {
        0
    }
}

fn bits_are_nan(d: u64) -> (r: bool)
    ensures
        r == double_nan(d),
{
    d / DOUBLE_ONE % 2048 == 0x7FF && d % DOUBLE_ONE != 0
}

fn bits_key(d: u64) -> (r: i128)
    ensures
        r == double_key(d),
{
    if d >= TOP_BIT {
        -((d - TOP_BIT) as i128)
    } else {
        d as i128
    }
}

/// Shifting the leading zeros out loses nothing.
pub proof fn normalized(m: u64)
    requires
        m != 0,
    ensures
        0 <= vstd::std_specs::bits::u64_leading_zeros(m) < 64,
        (m << (vstd::std_specs::bits::u64_leading_zeros(m) as u64)) >= TOP_BIT,
        (m << (vstd::std_specs::bits::u64_leading_zeros(m) as u64)) >> (vstd::std_specs::bits::u64_leading_zeros(m) as u64) == m,
{
    vstd::std_specs::bits::axiom_u64_leading_zeros(m);
    let z = vstd::std_specs::bits::u64_leading_zeros(m) as u64;
    let up = (64 - z) as u64;
    let top = (63 - z) as u64;
    assert((m << z) >= 0x8000_0000_0000_0000u64 && (m << z) >> z == m) by (bit_vector)
        requires
            z < 64,
            up == 64 - z,
            top == 63 - z,
            (m >> top) & 1 != 0,
            m >> up == 0,
    ;
}

/// A fraction of a double has at least twelve leading zeros.
proof fn small_has_zeros(m: u64)
    requires
        0 < m < DOUBLE_ONE,
    ensures
        12 <= vstd::std_specs::bits::u64_leading_zeros(m) < 64,
{
    vstd::std_specs::bits::axiom_u64_leading_zeros(m);
    let z = vstd::std_specs::bits::u64_leading_zeros(m) as u64;
    let top = (63 - z) as u64;
    assert(z >= 12) by (bit_vector)
        requires
            z < 64,
            top == 63 - z,
            (m >> top) & 1 != 0,
            m < 0x10_0000_0000_0000u64,
    ;
}

proof fn pow2_at_least_two(n: nat)
    requires
        n > 0,
    ensures
        vstd::arithmetic::power2::pow2(n) >= 2,
        vstd::arithmetic::power2::pow2(n) == 2 * vstd::arithmetic::power2::pow2((n - 1) as nat),
{
    vstd::arithmetic::power2::lemma_pow2_unfold(n);
    vstd::arithmetic::power2::lemma_pow2_pos((n - 1) as nat);
}

/// Splits the integer part off.
pub fn split_off(full: u64, shift: u32) -> (r: (u64, Rest))
    requires
        shift < 64 || full < 0x20_0000_0000_0000,
    ensures
        (r.0 as nat, r.1) == split(full as nat, shift as int),
{
    if shift == 0 {
        proof {
            vstd::arithmetic::power2::lemma2_to64();
            assert(vstd::arithmetic::power2::pow2(0) == 1);
            assert(full as nat * 1 == full);
        }
        return (full, Rest::Nothing);
    }
    proof {
        pow2_at_least_two(shift as nat);
    }
    if shift >= 64 {
        proof {
            vstd::arithmetic::power2::lemma2_to64_rest();
            if shift > 64 {
                vstd::arithmetic::power2::lemma_pow2_strictly_increases(64, shift as nat);
            }
            vstd::arithmetic::div_mod::lemma_basic_div(
                full as int,
                vstd::arithmetic::power2::pow2(shift as nat) as int,
            );
            vstd::arithmetic::div_mod::lemma_small_mod(
                full as nat,
                vstd::arithmetic::power2::pow2(shift as nat),
            );
        }
        return (
            0,
            if full == 0 {
                Rest::Nothing
            } else {
                Rest::BelowHalf
            },
        );
    }
    let whole: u64 = full >> (shift as u64);
    let half: u64 = 1u64 << (shift as u64 - 1);
    let ghost unit = vstd::arithmetic::power2::pow2(shift as nat);
    proof {
        vstd::bits::lemma_u64_shr_is_div(full, shift as u64);
        vstd::arithmetic::div_mod::lemma_fundamental_div_mod(full as int, unit as int);
        vstd::arithmetic::div_mod::lemma_mod_bound(full as int, unit as int);
        assert(whole * unit <= full) by (nonlinear_arith)
            requires
                full == unit * whole + full as nat % unit,
                full as nat % unit >= 0,
        ;
        vstd::bits::lemma_u64_shl_is_mul(whole, shift as u64);
        vstd::bits::lemma_u64_pow2_no_overflow((shift - 1) as nat);
        vstd::bits::lemma_u64_shl_is_mul(1, (shift - 1) as u64);
        assert(unit * whole == whole * unit) by (nonlinear_arith);
    }
    let left: u64 = full - (whole << (shift as u64));
    let rest: Rest = if left == 0 {
        Rest::Nothing
    } else if left < half {
        Rest::BelowHalf
    } else if left == half {
        Rest::Half
    } else {
        Rest::AboveHalf
    };
    (whole, rest)
}

pub fn round_magnitude(whole: u64, rest: Rest, negative: bool, mode: u16) -> (r: u64)
    requires
        whole < u64::MAX,
        mode < 4,
    ensures
        r == rounded((whole as nat, rest), negative, mode as int),
{
    let up: bool = match rest {
        Rest::Nothing => false,
        _ => match mode {
            1 => negative,
            2 => !negative,
            3 => false,
            _ => match rest {
                Rest::AboveHalf => true,
                Rest::Half => whole % 2 == 1,
                _ => false,
            },
        },
    };
    if up {
        whole + 1
    } else {
        whole
    }
}

/// The magnitude of a double below 2 to the 63rd, rounded.
pub fn round_double(d: u64, mode: u16) -> (r: u64)
    requires
        mode < 4,
        double_exponent(d) < 1023 + 63,
    ensures
        r == rounded(double_parts(d), double_negative(d), mode as int),
        r <= 0x8000_0000_0000_0000,
{
    let e: u64 = d / DOUBLE_ONE % 2048;
    let f: u64 = d % DOUBLE_ONE;
    let negative: bool = d >= TOP_BIT;
    if e >= 1075 {
        let up: u64 = e - 1075;
        let full: u64 = f + DOUBLE_ONE;
        proof {
            let p = vstd::arithmetic::power2::pow2(up as nat);
            vstd::arithmetic::power2::lemma2_to64();
            if up < 10 {
                vstd::arithmetic::power2::lemma_pow2_strictly_increases(up as nat, 10);
            }
            assert(p <= 0x400);
            assert(full * p < 0x8000_0000_0000_0000) by (nonlinear_arith)
                requires
                    full < 0x20_0000_0000_0000,
                    0 <= p <= 0x400,
            ;
            vstd::bits::lemma_u64_shl_is_mul(full, up);
        }
        full << up
    } else {
        let (whole, rest): (u64, Rest) = if e == 0 {
            split_off(f, 1074)
        } else {
            split_off(f + DOUBLE_ONE, (1075 - e) as u32)
        };
        proof {
            let shift = if e == 0 {
                1074nat
            } else {
                (1075 - e) as nat
            };
            pow2_at_least_two(shift);
            let full = if e == 0 {
                f as int
            } else {
                f + DOUBLE_ONE
            };
            vstd::arithmetic::div_mod::lemma_div_is_ordered_by_denominator(
                full,
                1,
                vstd::arithmetic::power2::pow2(shift) as int,
            );
            vstd::arithmetic::div_mod::lemma_div_basics(full);
        }
        round_magnitude(whole, rest, negative, mode)
    }
}

fn double_to_i64(d: u64, mode: u16) -> (r: i64)
    requires
        mode < 4,
    ensures
        r == double_to_int(d, mode as int, 64),
{
    proof {
        vstd::arithmetic::power2::lemma2_to64();
        vstd::arithmetic::power2::lemma2_to64_rest();
    }
    let e: u64 = d / DOUBLE_ONE % 2048;
    if e >= 1023 + 63 {
        proof {
            large_doubles(d, mode as int, 63);
        }
        return i64::MIN;
    }
    let magnitude: u64 = round_double(d, mode);
    if d >= TOP_BIT {
        (-(magnitude as i128)) as i64
    } else if magnitude < 0x8000_0000_0000_0000 {
        magnitude as i64
    } else {
        i64::MIN
    }
}

fn double_to_i32(d: u64, mode: u16) -> (r: i32)
    requires
        mode < 4,
    ensures
        r == double_to_int(d, mode as int, 32),
{
    proof {
        vstd::arithmetic::power2::lemma2_to64();
    }
    let e: u64 = d / DOUBLE_ONE % 2048;
    if e >= 1023 + 63 {
        proof {
            large_doubles(d, mode as int, 31);
        }
        return i32::MIN;
    }
    let magnitude: u64 = round_double(d, mode);
    if d >= TOP_BIT {
        if magnitude <= 0x8000_0000 {
            (-(magnitude as i64)) as i32
        } else {
            i32::MIN
        }
    } else if magnitude < 0x8000_0000 {
        magnitude as i32
    } else {
        i32::MIN
    }
}

/// A double of at least 2 to the 63rd rounds to no integer below 2 to the `n`-th, but for the
/// lowest one.
proof fn large_doubles(d: u64, mode: int, n: nat)
    requires
        double_exponent(d) >= 1023 + 63,
        n == 63 || n == 31,
    ensures
        double_exponent(d) == 0x7FF || rounded(double_parts(d), double_negative(d), mode)
            >= vstd::arithmetic::power2::pow2(n),
        double_exponent(d) == 0x7FF || rounded(double_parts(d), double_negative(d), mode)
            > vstd::arithmetic::power2::pow2(n) || n == 63,
{
    if double_exponent(d) != 0x7FF {
        let up = (double_exponent(d) - 1075) as nat;
        let full = (double_fraction(d) + DOUBLE_ONE) as nat;
        let p = vstd::arithmetic::power2::pow2(up);
        vstd::arithmetic::power2::lemma2_to64();
        vstd::arithmetic::power2::lemma2_to64_rest();
        if up > 11 {
            vstd::arithmetic::power2::lemma_pow2_strictly_increases(11, up);
        }
        assert(p >= 0x800);
        assert(full * p >= 0x8000_0000_0000_0000) by (nonlinear_arith)
            requires
                full >= 0x10_0000_0000_0000,
                p >= 0x800,
        ;
    }
}

/// The x87 registers and how they are read.
pub struct Fpu {
    pub mode: FpuMode,
    /// The eight registers.
    pub st: Vec<F80>,
    /// The registers have changed since they were last saved.
    pub dirty: bool,
}

/// A register read under another mode, its value kept.
pub open spec fn switched(r: F80, from: FpuMode, on: bool) -> F80 {
    if !on {
        r.resolved(from)
    } else if r.sign_exponent == RELAXED_TAG {
        F80 { mantissa: r.as_double(), sign_exponent: RELAXED_TAG }
    } else {
        r
    }
}

/// Lets registers hold doubles, or not. Each keeps its value across the change. Code that is
/// compiled from now on, and its fingerprint, follow the switch.
pub fn set_relaxed_fpu(fpu: &mut Fpu, config: &mut JitConfig, enabled: u32)
    ensures
        *final(config) == (JitConfig { relaxed_fpu: enabled != 0, ..*old(config) }),
        final(fpu).mode == (FpuMode { relaxed: enabled != 0, ..old(fpu).mode }),
        old(fpu).mode.relaxed == (enabled != 0) ==> *final(fpu) == *old(fpu),
        old(fpu).mode.relaxed != (enabled != 0) ==> final(fpu).dirty && final(fpu).st@ == Seq::new(
            old(fpu).st@.len(),
            |i: int| switched(old(fpu).st@[i], old(fpu).mode, enabled != 0),
        ),
{
    let on: bool = enabled != 0;
    config.relaxed_fpu = on;
    if on == fpu.mode.relaxed {
        return ;
    }
    let n: usize = fpu.st.len();
    let mut i: usize = 0;
    while i < n
        invariant
            i <= n,
            n == fpu.st@.len() == old(fpu).st@.len(),
            fpu.mode == old(fpu).mode,
            forall|j: int|
                0 <= j < n ==> #[trigger] fpu.st@[j] == (if j < i {
                    switched(old(fpu).st@[j], old(fpu).mode, on)
                } else {
                    old(fpu).st@[j]
                }),
        decreases n - i,
    {
        let r: F80 = fpu.st[i];
        if on {
            if r.sign_exponent == RELAXED_TAG {
                fpu.st.set(
                    i,
                    F80 { mantissa: r.to_f64_strict(), sign_exponent: RELAXED_TAG },
                );
            }
        } else {
            fpu.st.set(i, r.to_true_f80(fpu.mode));
        }
        i = i + 1;
    }
    fpu.dirty = true;
    fpu.mode.relaxed = on;
    assert(fpu.st@ =~= Seq::new(
        old(fpu).st@.len(),
        |i: int| switched(old(fpu).st@[i], old(fpu).mode, on),
    ));
}

pub fn get_relaxed_fpu(fpu: &Fpu) -> (r: u32)
    ensures
        r == (if fpu.mode.relaxed {
            1u32
        } else {
            0
        }),
{
    if fpu.mode.relaxed {
        1
    } else {
        0
    }
}

pub fn is_fpu_relaxed(fpu: &Fpu) -> (r: bool)
    ensures
        r == fpu.mode.relaxed,
{
    fpu.mode.relaxed
}

/// A double taken into the 80-bit format comes back as it was.
pub proof fn law_doubles_come_back(d: u64)
    ensures
        F80::from_double(d).as_double() == d,
{
    reveal(F80::from_double);
    reveal(F80::as_double);
    let e = double_exponent(d);
    let f = double_fraction(d);
    let s = if double_negative(d) {
        TOP_BIT as int
    } else {
        0
    };
    assert(d == s + e * DOUBLE_ONE + f);
    let v = F80::from_double(d);
    if e == 0 && f != 0 {
        normalized(f as u64);
        small_has_zeros(f as u64);
        let zeros = vstd::std_specs::bits::u64_leading_zeros(f as u64);
        assert(v.exponent_field() == 16383 - 1023 - (zeros - 12));
        let back = v.exponent_field() - 16383 + 1023;
        assert(back == 12 - zeros);
        assert((12 - back) as u64 == zeros as u64);
    } else if e == 0x7FF && f != 0 {
        let q = f / 0x8_0000_0000_0000;
        let p = f % 0x8_0000_0000_0000;
        assert(v.mantissa == TOP_BIT + q * 0x4000_0000_0000_0000 + p * 2048);
        assert(q == 0 || q == 1);
    }
}

/// What is no number in the 80-bit format is none as a double, with the same sign.
pub proof fn law_what_is_no_number_stays_none(r: F80)
    requires
        r.exponent_field() == 0x7FFF,
        r.mantissa != TOP_BIT,
    ensures
        double_exponent(r.as_double()) == 0x7FF,
        double_fraction(r.as_double()) != 0,
        double_negative(r.as_double()) == r.negative(),
{
    reveal(F80::as_double);
    let d = r.sign_of_double() + DOUBLE_SPECIAL + r.payload();
    assert(0 < r.payload() < DOUBLE_ONE);
    assert(d <= u64::MAX);
    assert(r.as_double() == d);
}

/// Changing how registers are read changes no value in them.
pub proof fn law_switching_keeps_values(r: F80, from: FpuMode, to: FpuMode)
    requires
        from.relaxed != to.relaxed,
    ensures
        switched(r, from, to.relaxed).double(to) == r.double(from),
{
    if !to.relaxed && r.holds_double(from) {
        law_doubles_come_back(r.mantissa);
    }
}

/// An integer of 64 bits taken into a register and stored again is the same, in every mode.
pub proof fn law_integers_come_back(v: i64, m: FpuMode, mode: int)
    ensures
        F80::from_i64(v).int64(m, mode) == v,
{
    let r = F80::from_i64(v);
    if v == 0 {
        reveal(F80::as_double);
        assert(r.double(m) == 0);
        vstd::arithmetic::power2::lemma2_to64();
        pow2_at_least_two(1074);
        vstd::arithmetic::power2::lemma_pow2_pos(63);
        assert(double_parts(0) == (0nat, Rest::Nothing)) by {
            let unit = vstd::arithmetic::power2::pow2(1074) as int;
            vstd::arithmetic::div_mod::lemma_basic_div(0, unit);
            vstd::arithmetic::div_mod::lemma_small_mod(0, unit as nat);
        }
    } else {
        let magnitude = if v < 0 {
            (-(v as int)) as u64
        } else {
            v as u64
        };
        normalized(magnitude);
        let zeros = vstd::std_specs::bits::u64_leading_zeros(magnitude);
        let z = zeros as u64;
        assert(r.exponent_field() == 0x3FFF + 63 - zeros);
        let full = (magnitude << z) as nat;
        let unit = vstd::arithmetic::power2::pow2(zeros as nat);
        vstd::bits::lemma_u64_shr_is_div(magnitude << z, z);
        assert(full / unit == magnitude);
        vstd::arithmetic::power2::lemma_pow2_pos(zeros as nat);
        assert(magnitude * unit <= u64::MAX) by {
            vstd::arithmetic::div_mod::lemma_fundamental_div_mod(full as int, unit as int);
            vstd::arithmetic::div_mod::lemma_mod_bound(full as int, unit as int);
            assert(unit * magnitude == magnitude * unit) by (nonlinear_arith);
        }
        vstd::bits::lemma_u64_shl_is_mul(magnitude, z);
        assert(full == magnitude * unit);
        vstd::arithmetic::div_mod::lemma_mod_multiples_basic(magnitude as int, unit as int);
        assert(full % unit == 0);
        if zeros == 0 {
            vstd::arithmetic::power2::lemma2_to64();
            assert(vstd::arithmetic::power2::pow2(0) == 1);
            assert((-zeros) as nat == 0);
            assert(magnitude * 1 == magnitude);
            assert(full * 1 == full);
            assert(split(full, zeros) == (full, Rest::Nothing));
        }
        assert(split(full, zeros) == (magnitude as nat, Rest::Nothing));
    }
}

/// Negating twice gives the value back, unless the sign is all that tells the value from the
/// tag.
pub proof fn law_negation_undoes_itself(v: F80, m: FpuMode)
    requires
        !(m.relaxed && v.sign_exponent == 0x8000 + RELAXED_TAG),
    ensures
        v.negated(m).negated(m) == v,
{
}

} // verus!
