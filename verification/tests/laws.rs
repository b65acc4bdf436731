// The laws of the arithmetic on concrete values.

use fixed_wgsl::batch::{entry_points16, entry_points48, Op16, Op48, Variant};
use fixed_wgsl::core_ops::{
    add16, blend16, equals16, greater16, max16, min16, sub16, to16_32, to32_48, to48_16, to48_32,
};
use fixed_wgsl::lane::Lane16;
use fixed_wgsl::number::{div_ceil, from_word, magnitude, to_word};
use fixed_wgsl::wide::{from_bits, from_wide, sign_extend, to_bits, to_wide, Wide};
use fixed_wgsl::{native, portable};

const ONE: i32 = 0x1_0000;

const VALUES: [i32; 9] = [i32::MIN, -ONE, -3, -1, 0, 1, 7, ONE, i32::MAX];

const WIDES: [i64; 9] = [
    i64::MIN,
    -(1 << 47) - 1,
    -(1 << 47),
    -1,
    0,
    1,
    (1 << 47) - 1,
    1 << 47,
    i64::MAX,
];

#[test]
fn variants_agree_on_every_bit() {
    for a in VALUES {
        for b in VALUES {
            assert_eq!(portable::mul16(a, b), native::mul16(a, b));
            assert_eq!(portable::div16(a, b), native::div16(a, b));
            for q in WIDES {
                let w = to_wide(q);
                assert_eq!(portable::mul_add48(w, a, b), native::mul_add48(w, a, b));
            }
        }
    }
    for a in WIDES {
        for b in WIDES {
            let (v, w) = (to_wide(a), to_wide(b));
            assert_eq!(portable::add48(v, w), native::add48(v, w));
            assert_eq!(portable::sub48(v, w), native::sub48(v, w));
        }
        assert_eq!(portable::to16_48(to_wide(a)), native::to16_48(to_wide(a)));
    }
}

#[test]
fn saturation_follows_the_sign_of_the_first_operand() {
    assert_eq!(add16(i32::MIN, -1), Lane16 { raw: i32::MIN, saturated: true, fault: false });
    assert_eq!(sub16(i32::MAX, -1), Lane16 { raw: i32::MAX, saturated: true, fault: false });
    let low = native::sub48(to_wide(i64::MIN), to_wide(1));
    assert_eq!((from_wide(low.raw), low.saturated), (i64::MIN, true));
    let high = portable::add48(to_wide(i64::MAX), to_wide(1));
    assert_eq!((from_wide(high.raw), high.saturated), (i64::MAX, true));
    let refined = to32_48(to_wide(-(1 << 47) - 1));
    assert_eq!((from_wide(refined.raw), refined.saturated), (i64::MIN, true));
}

#[test]
fn blend_is_max_and_masks_are_full() {
    for a in VALUES {
        for b in VALUES {
            assert_eq!(blend16(a, b), max16(a, b));
            assert_eq!(greater16(a, b).raw, if a > b { -1 } else { 0 });
            assert_eq!(equals16(a, b).raw, if a == b { -1 } else { 0 });
            assert_eq!(
                i64::from(min16(a, b).raw) + i64::from(max16(a, b).raw),
                i64::from(a) + i64::from(b)
            );
        }
    }
}

#[test]
fn one_is_neutral_and_zero_divides_into_a_fault() {
    for a in VALUES {
        for f in [portable::mul16, native::mul16, portable::div16, native::div16] {
            assert_eq!(f(a, ONE), Lane16 { raw: a, saturated: false, fault: false });
        }
        for f in [portable::div16, native::div16] {
            let raw = if a < 0 { i32::MIN } else { i32::MAX };
            assert_eq!(f(a, 0), Lane16 { raw, saturated: false, fault: true });
        }
    }
}

#[test]
fn products_floor_and_quotients_truncate() {
    for f in [portable::mul16, native::mul16] {
        assert_eq!(f(-1, 1).raw, -1);
        assert_eq!(f(1, 1).raw, 0);
        assert_eq!(f(3 * ONE / 2, ONE / 2).raw, 3 * ONE / 4);
    }
    for f in [portable::div16, native::div16] {
        assert_eq!(f(-1, 3 * ONE).raw, 0);
        assert_eq!(f(-ONE, 3 * ONE).raw, -21845);
        assert_eq!(f(i32::MIN, -1), Lane16 { raw: i32::MAX, saturated: true, fault: false });
        assert_eq!(f(i32::MIN, ONE).raw, i32::MIN);
    }
}

#[test]
fn conversions_round_trip() {
    for v in VALUES {
        let wide = to48_16(v);
        assert!(!wide.saturated);
        assert_eq!(from_wide(wide.raw), i64::from(v));
        assert_eq!(portable::to16_48(wide.raw), Lane16 { raw: v, saturated: false, fault: false });
        assert_eq!(sign_extend(v), wide.raw);
    }
    for v in WIDES {
        let refined = to32_48(to_wide(v));
        if !refined.saturated {
            assert_eq!(to48_32(refined.raw).raw, to_wide(v));
        }
        let coarse = to48_32(to_wide(v));
        assert!(!coarse.saturated);
        assert_eq!(from_wide(coarse.raw), v >> 16);
        assert_eq!(to16_32(to_wide(v)), native::to16_48(coarse.raw));
    }
}

#[test]
fn words_and_numbers_convert_both_ways() {
    for v in VALUES {
        assert_eq!(to_word(v), v as u32);
        assert_eq!(from_word(to_word(v)), v);
        assert_eq!(magnitude(v), v.unsigned_abs());
    }
    for v in WIDES {
        assert_eq!(to_bits(v), v as u64);
        assert_eq!(from_bits(to_bits(v)), v);
        assert_eq!(to_wide(v), Wide { lo: v as u32, hi: (v >> 32) as u32 });
    }
    for (n, d) in [(0, 1), (1, 256), (256, 256), (257, 256), (u32::MAX, 256), (u32::MAX, 1)] {
        assert_eq!(div_ceil(n, d), n.div_ceil(d));
    }
}

#[test]
fn entry_points_have_names() {
    for name in entry_points16() {
        match Op16::parse(name) {
            Some(op) => assert_eq!(op.name(), name),
            None => assert!(name == "mul_round16" || name == "sqrt16"),
        }
    }
    for name in entry_points48() {
        assert_eq!(Op48::parse(name).map(|op| op.name()), Some(name));
    }
    assert_eq!(Op16::parse("add48"), None);
    assert_eq!(Op48::parse("add16"), None);
    assert_eq!(Op16::Max.eval(Variant::Native, 3, -4).raw, 3);
}
