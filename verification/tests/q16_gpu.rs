// The Q16.16 entry points against an integer reference: raw bits and telemetry, in both variants.

use fixed_wgsl::batch::{batch16, Batch16, Op16, Variant};
use fixed_wgsl::bytes::{i32s_from_words, u32s_from_bytes};
use fixed_wgsl::cases::{arithmetic_pairs16, mask_pairs16};
use fixed_wgsl::runs::{case16, cases16, compare, run16, Outcome};

const Q16_MIN: i32 = i32::MIN;
const Q16_MAX: i32 = i32::MAX;

// Boundary values around every power of two the solver touches.
const EDGES: [i32; 32] = [
        i32::MIN,
        i32::MIN + 1,
        -1073741824,
        -65537,
        -65536,
        -65535,
        -32769,
        -32768,
        -32767,
        -257,
        -256,
        -255,
        -3,
        -2,
        -1,
        0,
        1,
        2,
        3,
        255,
        256,
        257,
        32767,
        32768,
        32769,
        65535,
        65536,
        65537,
        1073741823,
        1073741824,
        i32::MAX - 1,
        i32::MAX,
];

#[derive(Clone, Copy, Debug)]
struct Case {
    a: i32,
    b: i32,
    want: i32,
    saturations: u32,
    faults: u32,
}

#[test]
fn q16_add_matches_go_bits_and_saturation_count() {
    let cases = [
        Case {
            a: 0,
            b: 0,
            want: 0,
            saturations: 0,
            faults: 0,
        },
        Case {
            a: 1,
            b: -1,
            want: 0,
            saturations: 0,
            faults: 0,
        },
        Case {
            a: Q16_MAX,
            b: 0,
            want: Q16_MAX,
            saturations: 0,
            faults: 0,
        },
        Case {
            a: Q16_MIN,
            b: 0,
            want: Q16_MIN,
            saturations: 0,
            faults: 0,
        },
        Case {
            a: Q16_MAX,
            b: 1,
            want: Q16_MAX,
            saturations: 1,
            faults: 0,
        },
        Case {
            a: Q16_MIN,
            b: -1,
            want: Q16_MIN,
            saturations: 1,
            faults: 0,
        },
        Case {
            a: 65_536,
            b: 32_768,
            want: 98_304,
            saturations: 0,
            faults: 0,
        },
    ];

    run_q16_binary("add16", &cases);
}

#[test]
fn q16_sub_matches_go_bits_and_saturation_count() {
    let cases = [
        Case {
            a: 0,
            b: 0,
            want: 0,
            saturations: 0,
            faults: 0,
        },
        Case {
            a: 1,
            b: 1,
            want: 0,
            saturations: 0,
            faults: 0,
        },
        Case {
            a: Q16_MAX,
            b: 0,
            want: Q16_MAX,
            saturations: 0,
            faults: 0,
        },
        Case {
            a: Q16_MIN,
            b: 0,
            want: Q16_MIN,
            saturations: 0,
            faults: 0,
        },
        Case {
            a: Q16_MAX,
            b: -1,
            want: Q16_MAX,
            saturations: 1,
            faults: 0,
        },
        Case {
            a: Q16_MIN,
            b: 1,
            want: Q16_MIN,
            saturations: 1,
            faults: 0,
        },
        Case {
            a: 98_304,
            b: 32_768,
            want: 65_536,
            saturations: 0,
            faults: 0,
        },
    ];

    run_q16_binary("sub16", &cases);
}

fn run_q16_binary(entry_point: &str, cases: &[Case]) {
    run_q16_binary_variant(Variant::Portable, entry_point, cases);
}

fn run_q16_binary_variant(variant: Variant, entry_point: &str, cases: &[Case]) {
    let op: Op16 = Op16::parse(entry_point).expect("unknown entry point");
    assert_eq!(op.name(), entry_point);

    let a: Vec<i32> = cases.iter().map(|c| c.a).collect();
    let b: Vec<i32> = cases.iter().map(|c| c.b).collect();
    let got: Batch16 = batch16(variant, op, &a, &b);

    // Report the first divergence; whole vectors flood the output.
    let expected: Vec<i32> = cases.iter().map(|c| c.want).collect();
    let mismatch = got.dst.iter().zip(&expected).position(|(g, w)| g != w);
    assert!(
        mismatch.is_none() && got.dst.len() == expected.len(),
        "{entry_point} on {variant:?}: raw Q16 diverged at index {:?} (got {:?}, want {:?})",
        mismatch,
        mismatch.map(|i| got.dst[i]),
        mismatch.map(|i| expected[i]),
    );
    assert_eq!(
        vec![got.telemetry.saturations, got.telemetry.faults],
        vec![
            cases.iter().map(|c| c.saturations).sum::<u32>(),
            cases.iter().map(|c| c.faults).sum::<u32>()
        ],
        "{entry_point} on {variant:?}: telemetry diverged"
    );

    // The run that a device would be held to expects the same bits and the same telemetry.
    let pairs: Vec<(i32, i32)> = cases.iter().map(|c| (c.a, c.b)).collect();
    let built = cases16(op, &pairs);
    let run = run16(&built);
    assert_eq!(run.elements as usize, cases.len());
    assert_eq!(i32s_from_words(&run.want), expected);
    assert_eq!(i32s_from_words(&u32s_from_bytes(&run.inputs[0].bytes)), a);
    assert_eq!(i32s_from_words(&u32s_from_bytes(&run.inputs[1].bytes)), b);
    assert_eq!(run.telemetry, got.telemetry);
    let words: Vec<u32> = got.dst.iter().map(|&v| v as u32).collect();
    let sat = [got.telemetry.saturations, got.telemetry.faults];
    assert_eq!(compare(&run, &words, sat), Outcome::Agrees);
}

fn arithmetic_case(entry: &str, a: i32, b: i32) -> Case {
    if entry == "div16" && b == 0 {
        return Case {
            a,
            b,
            want: if a < 0 { i32::MIN } else { i32::MAX },
            saturations: 0,
            faults: 1,
        };
    }
    let wide = match entry {
        "mul16" => (i64::from(a) * i64::from(b)) >> 16,
        "div16" => (i64::from(a) << 16) / i64::from(b),
        _ => unreachable!(),
    };
    let bounded = wide.clamp(i64::from(i32::MIN), i64::from(i32::MAX));
    Case {
        a,
        b,
        want: bounded as i32,
        saturations: u32::from(wide != bounded),
        faults: 0,
    }
}

#[test]
fn q16_mul_div_match_integer_reference_on_both_backends() {
    let edges = EDGES;
    let mut pairs = Vec::new();
    for a in edges {
        for b in edges {
            pairs.push((a, b));
        }
    }
    let mut state = 0x4D59_5DF4_D0F3_3173u64;
    let mut next = || {
        state = state
            .wrapping_mul(6_364_136_223_846_793_005)
            .wrapping_add(1);
        (state >> 32) as i32
    };
    for i in 0..131_071 {
        let (mut a, mut b) = (next(), next());
        match i % 4 {
            1 => {
                a /= 2048;
                b /= 2048;
            }
            2 => b = b as i16 as i32,
            3 => b = edges[i / 4 % edges.len()],
            _ => {}
        }
        pairs.push((a, b));
    }
    assert_eq!(arithmetic_pairs16(), pairs);
    for entry in ["mul16", "div16"] {
        let cases: Vec<Case> = pairs
            .iter()
            .map(|&(a, b)| arithmetic_case(entry, a, b))
            .collect();
        for variant in [Variant::Portable, Variant::Native] {
            run_q16_binary_variant(variant, entry, &cases);
        }
    }
}

#[test]
fn q16_div_preserves_maximum_fractional_digit() {
    let cases = [
        Case {
            a: 65535,
            b: 65536,
            want: 65535,
            saturations: 0,
            faults: 0,
        },
        Case {
            a: -65535,
            b: 65536,
            want: -65535,
            saturations: 0,
            faults: 0,
        },
    ];
    for variant in [Variant::Portable, Variant::Native] {
        run_q16_binary_variant(variant, "div16", &cases);
    }
}

fn mask_case(entry: &str, a: i32, b: i32) -> Case {
    let want = match entry {
        "min16" => a.min(b),
        "max16" => a.max(b),
        "greater16" => -i32::from(a > b),
        "equals16" => -i32::from(a == b),
        // blend picks a where a > b and b otherwise, so it must equal max16.
        "blend16" => a.max(b),
        _ => unreachable!(),
    };
    Case {
        a,
        b,
        want,
        saturations: 0,
        faults: 0,
    }
}

#[test]
fn q16_masks_and_selects_match_integer_reference() {
    let mut pairs = Vec::new();
    for a in EDGES {
        for b in EDGES {
            pairs.push((a, b));
        }
    }
    // Equal operands: the only pairs where greater and equals disagree with max.
    for a in EDGES {
        pairs.push((a, a));
    }
    assert_eq!(mask_pairs16(), pairs);
    for entry in ["min16", "max16", "greater16", "equals16", "blend16"] {
        let cases: Vec<Case> = pairs
            .iter()
            .map(|&(a, b)| mask_case(entry, a, b))
            .collect();
        run_q16_binary(entry, &cases);
    }
}

#[test]
fn q16_cases_carry_their_telemetry() {
    let case = case16(Op16::Div, -5, 0);
    assert_eq!((case.want, case.saturations, case.faults), (i32::MIN, 0, 1));
    let case = case16(Op16::Div, 0, 0);
    assert_eq!((case.want, case.saturations, case.faults), (i32::MAX, 0, 1));
    let case = case16(Op16::Mul, i32::MAX, i32::MAX);
    assert_eq!((case.want, case.saturations, case.faults), (i32::MAX, 1, 0));
    let case = case16(Op16::Mul, -1, 1);
    assert_eq!((case.want, case.saturations, case.faults), (-1, 0, 0));
    let case = case16(Op16::Div, -1, 3 * 65536);
    assert_eq!((case.want, case.saturations, case.faults), (0, 0, 0));
}

#[test]
fn q16_comparison_names_the_first_divergence() {
    let built = cases16(Op16::Add, &[(1, 2), (i32::MAX, 1), (3, 4)]);
    let run = run16(&built);
    assert_eq!(run.want, vec![3, 0x7fff_ffff, 7]);
    assert_eq!(compare(&run, &[3, 0x7fff_ffff, 7], [1, 0]), Outcome::Agrees);
    assert_eq!(
        compare(&run, &[3, 9, 8], [1, 0]),
        Outcome::Diverged { word: Some(1) }
    );
    assert_eq!(
        compare(&run, &[3, 0x7fff_ffff], [1, 0]),
        Outcome::Diverged { word: None }
    );
    assert_eq!(compare(&run, &[3, 0x7fff_ffff, 7], [0, 0]), Outcome::Telemetry);
    assert_eq!(compare(&run, &[3, 0x7fff_ffff, 7], [1, 1]), Outcome::Telemetry);
}
