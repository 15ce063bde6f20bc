use bottleship::jit_config::JitConfig;
use bottleship::softfloat::{
    get_relaxed_fpu, is_fpu_relaxed, round_double, set_relaxed_fpu, Fpu, FpuMode, F80,
};
use bottleship::softfloat_round::{apply_precision, narrow, widen};
use std::cmp::Ordering;

const STRICT: FpuMode = FpuMode { relaxed: false, control_word: 0x37F };
const RELAXED: FpuMode = FpuMode { relaxed: true, control_word: 0x37F };

fn mode(rounding: u16) -> FpuMode {
    FpuMode { relaxed: false, control_word: 0x37F | (rounding << 10) }
}

fn of(x: f64) -> F80 {
    F80::of_f64_strict(x.to_bits())
}

fn samples() -> Vec<f64> {
    vec![
        0.0, -0.0, 1.0, -1.0, 0.5, 1.5, 2.5, -2.5, 3.75, 1e10, -1e10, 1e300, -1e300, 1e-300,
        5e-324, 2.2250738585072014e-308, 1e-310, f64::MAX, 16777217.0, 1e-40, 1.4e-45, 7e-46,
        3.4028235677973366e38, 3.4028234663852886e38, 0.1, 123456789.123, f64::INFINITY,
        f64::NEG_INFINITY,
    ]
}

#[test]
fn doubles_come_back() {
    for x in samples() {
        assert_eq!(of(x).to_f64_strict(), x.to_bits());
        assert_eq!(of(x).to_f64(STRICT), x.to_bits());
        assert_eq!(F80::of_f64(x.to_bits(), RELAXED).to_f64(RELAXED), x.to_bits());
    }
}

#[test]
fn extended_encodings() {
    assert_eq!(of(1.0), F80 { mantissa: 1 << 63, sign_exponent: 0x3FFF });
    assert_eq!(of(-2.5), F80 { mantissa: 0xA000_0000_0000_0000, sign_exponent: 0xC000 });
    assert_eq!(F80::zero(), of(0.0));
    assert_eq!(F80::one(), of(1.0));
    assert_eq!(F80::pos_infinity(), of(f64::INFINITY));
    assert_eq!(F80::neg_infinity(), of(f64::NEG_INFINITY));
    assert_eq!(F80::pi().to_f64(STRICT), std::f64::consts::PI.to_bits());
    assert_eq!(F80::ln_2().to_f64(STRICT), std::f64::consts::LN_2.to_bits());
    assert_eq!(F80::ln_10().to_f64(STRICT), std::f64::consts::LN_10.to_bits());
    assert_eq!(F80::log2_e().to_f64(STRICT), std::f64::consts::LOG2_E.to_bits());
    assert!(F80::indefinite_nan().is_nan(STRICT));
    assert_eq!(of(-3.0).sign(STRICT), true);
    assert_eq!(of(12.0).exponent(STRICT), 3);
}

#[test]
fn integers_come_back() {
    for n in [0, 1, -1, 7, i64::MAX, i64::MIN, (1 << 53) + 1, -(1 << 53) - 1] {
        assert_eq!(F80::of_i64(n).to_i64(STRICT), n);
        assert_eq!(F80::of_i64(n).truncate_to_i64(STRICT), n);
    }
    for n in [0, 1, -1, i32::MAX, i32::MIN] {
        assert_eq!(F80::of_i32(n, STRICT).to_i32(STRICT), n);
        assert_eq!(F80::of_i32(n, RELAXED).to_i32(RELAXED), n);
    }
}

#[test]
fn integers_are_rounded() {
    let cases: Vec<(f64, [i32; 4])> = vec![
        (2.5, [2, 2, 3, 2]),
        (3.5, [4, 3, 4, 3]),
        (-2.5, [-2, -3, -2, -2]),
        (-0.25, [0, -1, 0, 0]),
        (0.75, [1, 0, 1, 0]),
        (3e9, [i32::MIN, i32::MIN, i32::MIN, i32::MIN]),
        (f64::NAN, [i32::MIN, i32::MIN, i32::MIN, i32::MIN]),
    ];
    for (x, expected) in cases {
        for r in 0..4 {
            assert_eq!(of(x).to_i32(mode(r)), expected[r as usize]);
            assert_eq!(of(x).truncate_to_i32(mode(r)), expected[3]);
        }
    }
    assert_eq!(of(1e19).to_i64(STRICT), i64::MIN);
}

#[test]
fn values_are_rounded_to_integers() {
    let doubles: Vec<(f64, [f64; 4])> = vec![
        (2.5, [2.0, 2.0, 3.0, 2.0]),
        (-3.5, [-4.0, -4.0, -3.0, -3.0]),
        (-0.5, [0.0, -1.0, -0.0, -0.0]),
        (-0.25, [-0.0, -1.0, -0.0, -0.0]),
        (1e300, [1e300, 1e300, 1e300, 1e300]),
    ];
    for (x, expected) in doubles {
        for r in 0..4 {
            assert_eq!(of(x).round(mode(r)).to_f64(STRICT), expected[r as usize].to_bits());
        }
        assert_eq!(of(x).trunc(STRICT).to_f64(STRICT), expected[3].to_bits());
    }
    // Only the magnitude.
    assert_eq!(round_double((-2.5f64).to_bits(), 1), 3);
    assert_eq!(round_double((-2.5f64).to_bits(), 2), 2);
}

#[test]
fn singles_are_narrowed() {
    for x in samples() {
        assert_eq!(narrow(x.to_bits()), (x as f32).to_bits());
        let s: f32 = x as f32;
        assert_eq!(widen(s.to_bits()), (s as f64).to_bits());
        assert_eq!(narrow(widen(s.to_bits())), s.to_bits());
        assert_eq!(of(x).to_f32(STRICT), s.to_bits() as i32);
        assert_eq!(F80::of_f32(s.to_bits() as i32, STRICT).to_f64(STRICT), (s as f64).to_bits());
    }
    assert!(f32::from_bits(narrow(f64::NAN.to_bits())).is_nan());
    assert!(f64::from_bits(widen(f32::NAN.to_bits())).is_nan());
}

#[test]
fn precision_is_reached_once() {
    let single: FpuMode = FpuMode { relaxed: false, control_word: 0x07F };
    let x: f64 = 0.1;
    assert_eq!(apply_precision(x.to_bits(), STRICT), x.to_bits());
    let once: u64 = apply_precision(x.to_bits(), single);
    assert_eq!(once, (0.1f32 as f64).to_bits());
    assert_eq!(apply_precision(once, single), once);
    assert_eq!(F80::of_result(x.to_bits(), single).to_f64(single), once);
}

#[test]
fn signs_are_changed() {
    for m in [STRICT, RELAXED] {
        let x: F80 = F80::of_f64((-1.5f64).to_bits(), m);
        assert_eq!(x.abs(m).to_f64(m), 1.5f64.to_bits());
        assert_eq!(x.neg(m).to_f64(m), 1.5f64.to_bits());
        assert_eq!(x.neg(m).neg(m), x);
    }
}

#[test]
fn powers_of_two_scale() {
    assert_eq!(of(3.0).scale_pow2(STRICT, 4).to_f64(STRICT), 48f64.to_bits());
    assert_eq!(of(3.0).scale_pow2(STRICT, -1).to_f64(STRICT), 1.5f64.to_bits());
    assert_eq!(of(-3.0).scale_pow2(STRICT, 1 << 40).to_f64(STRICT), f64::NEG_INFINITY.to_bits());
    assert_eq!(of(-3.0).scale_pow2(STRICT, -(1 << 40)).to_f64(STRICT), (-0.0f64).to_bits());
    assert_eq!(of(0.0).scale_pow2(STRICT, 9), of(0.0));
}

#[test]
fn values_are_compared() {
    assert_eq!(of(1.0).partial_cmp_quiet(&of(2.0), STRICT), Some(Ordering::Less));
    assert_eq!(of(-1.0).partial_cmp_quiet(&of(-2.0), STRICT), Some(Ordering::Greater));
    assert_eq!(of(0.0).partial_cmp_quiet(&of(-0.0), STRICT), Some(Ordering::Equal));
    assert_eq!(of(f64::NAN).partial_cmp_quiet(&of(1.0), STRICT), None);
    assert!(of(0.0).equals(&of(-0.0), STRICT));
    assert!(!of(f64::NAN).equals(&of(f64::NAN), STRICT));
    assert!(of(1e300).is_finite(STRICT));
    assert!(!of(f64::INFINITY).is_finite(STRICT));
    assert_eq!(F80::get_exception_flags(), 0);
}

#[test]
fn switching_keeps_the_registers() {
    let mut fpu: Fpu = Fpu {
        mode: STRICT,
        st: vec![of(1.0), of(-2.5), of(1e300), of(0.0), of(0.1), of(7.0), of(8.0), of(9.0)],
        dirty: false,
    };
    let mut config: JitConfig = JitConfig::new();
    let before: Vec<u64> = fpu.st.iter().map(|r| r.to_f64(STRICT)).collect();
    set_relaxed_fpu(&mut fpu, &mut config, 5);
    assert_eq!(get_relaxed_fpu(&fpu), 1);
    assert!(is_fpu_relaxed(&fpu));
    assert!(config.relaxed_fpu);
    assert!(fpu.dirty);
    let during: Vec<u64> = fpu.st.iter().map(|r| r.to_f64(RELAXED)).collect();
    assert_eq!(during, before);
    fpu.st[2] = F80::of_f64(3.5f64.to_bits(), RELAXED);
    assert_eq!(fpu.st[2], F80 { mantissa: 3.5f64.to_bits(), sign_exponent: 0x7FFE });
    set_relaxed_fpu(&mut fpu, &mut config, 0);
    assert_eq!(fpu.st[1], of(-2.5));
    assert_eq!(fpu.st[2], of(3.5));
    // A value whose exponent is the tag is not taken for a double.
    fpu.st[3] = F80 { mantissa: 1 << 63, sign_exponent: 0x7FFE };
    set_relaxed_fpu(&mut fpu, &mut config, 1);
    assert_eq!(fpu.st[3].to_f64(RELAXED), f64::INFINITY.to_bits());
    F80::clear_exception_flags(&mut fpu);
    assert_eq!(fpu.st[1], of(-2.5));
}

#[test]
fn what_is_no_number_stays_none() {
    // Only a bit that a double cannot hold tells this one from infinity.
    let low: F80 = F80 { mantissa: 0x8000_0000_0000_0001, sign_exponent: 0x7FFF };
    assert!(low.is_nan(STRICT));
    assert_eq!(low.to_f64(STRICT), 0x7FF8_0000_0000_0000);
    let high: F80 = F80 { mantissa: 0xC000_0000_0000_0800, sign_exponent: 0xFFFF };
    assert_eq!(high.to_f64(STRICT), 0xFFF8_0000_0000_0001);
    assert_eq!(F80::pos_infinity().to_f64(STRICT), f64::INFINITY.to_bits());
}
