// The entry points on 64-bit elements against an integer reference: raw bits and telemetry.

use fixed_wgsl::batch::{batch48, Batch48, Buffers48, Op48, Variant};
use fixed_wgsl::bytes::{i32_bytes, i32s_from_words, i64_bytes, to_wides, u32s_from_bytes};
use fixed_wgsl::cases;
use fixed_wgsl::runs::{compare, run48, Outcome};
use fixed_wgsl::wide::{from_wide, split, to_wide, Wide};

// Q48.16 raw values around the sign, the Q16 range, and the 48-bit range.
const EDGES: [i64; 22] = [
    i64::MIN,
    i64::MIN + 1,
    -(1 << 48),
    -(1 << 47),
    (i32::MIN as i64) - 1,
    i32::MIN as i64,
    (i32::MIN as i64) + 1,
    -0x1_0000,
    -0x8000,
    -1,
    0,
    1,
    0x8000,
    0x1_0000,
    (i32::MAX as i64) - 1,
    i32::MAX as i64,
    (i32::MAX as i64) + 1,
    1 << 47,
    1 << 48,
    i64::MAX - 1,
    i64::MAX,
    0x1234_5678_9abc_def0,
];

// Q16.16 raw values around the sign, one, and the i32 range.
const EDGES16: [i32; 12] = [
    i32::MIN,
    i32::MIN + 1,
    -0x1_0000,
    -0x8000,
    -1,
    0,
    1,
    0x8000,
    0x1_0000,
    i32::MAX - 1,
    i32::MAX,
    0x1234_5678,
];

struct Run {
    elements: u32,
    inputs: Vec<(u32, Vec<u8>)>,
    out_binding: u32,
    want: Vec<u32>,
    saturations: u32,
}

fn halves(v: i64) -> [u32; 2] {
    [v as u32, (v >> 32) as u32]
}

// fixed saturates toward the sign of the first operand.
fn saturate(a: i64, sum: i64, overflow: bool, saturations: &mut u32) -> i64 {
    if overflow {
        *saturations += 1;
        if a < 0 { i64::MIN } else { i64::MAX }
    } else {
        sum
    }
}

fn pair_run(pairs: &[(i64, i64)], op: fn(i64, i64) -> (i64, bool)) -> Run {
    let mut want = Vec::new();
    let mut saturations = 0;
    for &(a, b) in pairs {
        let (value, overflow) = op(a, b);
        want.extend(halves(saturate(a, value, overflow, &mut saturations)));
    }
    Run {
        elements: pairs.len() as u32,
        inputs: vec![
            (1, i64_bytes(&pairs.iter().map(|p| p.0).collect::<Vec<_>>())),
            (2, i64_bytes(&pairs.iter().map(|p| p.1).collect::<Vec<_>>())),
        ],
        out_binding: 0,
        want,
        saturations,
    }
}

fn mul_add_run(triples: &[(i64, i32, i32)]) -> Run {
    let mut want = Vec::new();
    let mut saturations = 0;
    for &(q, a, b) in triples {
        // The product fits in 62 bits; only the add can overflow.
        let p = (i64::from(a) * i64::from(b)) >> 16;
        let (sum, overflow) = q.overflowing_add(p);
        want.extend(halves(saturate(q, sum, overflow, &mut saturations)));
    }
    Run {
        elements: triples.len() as u32,
        inputs: vec![
            (1, i64_bytes(&triples.iter().map(|t| t.0).collect::<Vec<_>>())),
            (5, i32_bytes(&triples.iter().map(|t| t.1).collect::<Vec<_>>())),
            (6, i32_bytes(&triples.iter().map(|t| t.2).collect::<Vec<_>>())),
        ],
        out_binding: 0,
        want,
        saturations,
    }
}

fn to16_run(values: &[i64]) -> Run {
    let mut want = Vec::new();
    let mut saturations = 0;
    for &v in values {
        let bounded = v.clamp(i32::MIN as i64, i32::MAX as i64);
        saturations += u32::from(bounded != v);
        want.push(bounded as i32 as u32);
    }
    Run {
        elements: values.len() as u32,
        inputs: vec![(1, i64_bytes(values))],
        out_binding: 4,
        want,
        saturations,
    }
}

fn to48_run(values: &[i32]) -> Run {
    Run {
        elements: values.len() as u32,
        inputs: vec![(5, i32_bytes(values))],
        out_binding: 0,
        want: values.iter().flat_map(|&v| halves(i64::from(v))).collect(),
        saturations: 0,
    }
}

// Q32.32 -> Q16.16: floor to the coarser grid, then clamp to i32.
fn q32_to_q16_run(values: &[i64]) -> Run {
    let mut want = Vec::new();
    let mut saturations = 0;
    for &v in values {
        let floored = v >> 16;
        let bounded = floored.clamp(i32::MIN as i64, i32::MAX as i64);
        saturations += u32::from(bounded != floored);
        want.push(bounded as i32 as u32);
    }
    Run {
        elements: values.len() as u32,
        inputs: vec![(8, i64_bytes(values))],
        out_binding: 4,
        want,
        saturations,
    }
}

fn q32_to_q48_run(values: &[i64]) -> Run {
    Run {
        elements: values.len() as u32,
        inputs: vec![(8, i64_bytes(values))],
        out_binding: 0,
        want: values.iter().flat_map(|&v| halves(v >> 16)).collect(),
        saturations: 0,
    }
}

fn q48_to_q32_run(values: &[i64]) -> Run {
    let mut want = Vec::new();
    let mut saturations = 0;
    for &v in values {
        // The shift is exact only when the integer part fits 31 bits plus sign.
        let top = v >> 47;
        let fits = top == 0 || top == -1;
        want.extend(halves(saturate(v, v << 16, !fits, &mut saturations)));
    }
    Run {
        elements: values.len() as u32,
        inputs: vec![(1, i64_bytes(values))],
        out_binding: 7,
        want,
        saturations,
    }
}

fn lcg() -> impl FnMut() -> u64 {
    let mut state = 0x4D59_5DF4_D0F3_3173u64;
    move || {
        state = state
            .wrapping_mul(6_364_136_223_846_793_005)
            .wrapping_add(1);
        state
    }
}

fn edge_pairs() -> Vec<(i64, i64)> {
    let mut pairs = Vec::new();
    for a in EDGES {
        for b in EDGES {
            pairs.push((a, b));
        }
    }
    let mut next = lcg();
    for i in 0..65_535 {
        let (mut a, mut b) = (next() as i64, next() as i64);
        match i % 4 {
            // Small operands never overflow; they check the carry alone.
            1 => {
                a >>= 20;
                b >>= 20;
            }
            2 => b = EDGES[i % EDGES.len()],
            3 => a = EDGES[i / 4 % EDGES.len()],
            _ => {}
        }
        pairs.push((a, b));
    }
    pairs
}

fn q16_values() -> Vec<i32> {
    let mut values = EDGES16.to_vec();
    let mut next = lcg();
    for i in 0..65_535 {
        let v = (next() >> 32) as u32 as i32;
        // Mix an edge every fourth value so the extremes meet random partners.
        values.push(if i % 4 == 3 { EDGES16[i % EDGES16.len()] } else { v });
    }
    values
}

fn mul_add_triples() -> Vec<(i64, i32, i32)> {
    let factors = q16_values();
    let mut next = lcg();
    edge_pairs()
        .iter()
        .enumerate()
        .map(|(i, p)| {
            let a = factors[i % factors.len()];
            let b = factors[(next() as usize) % factors.len()];
            (p.0, a, b)
        })
        .collect()
}

#[test]
fn q48_add_matches_integer_reference_on_both_backends() {
    let run = pair_run(&edge_pairs(), i64::overflowing_add);
    for variant in [Variant::Portable, Variant::Native] {
        run_q48(variant, "add48", &run);
    }
}

#[test]
fn q48_sub_matches_integer_reference_on_both_backends() {
    let run = pair_run(&edge_pairs(), i64::overflowing_sub);
    for variant in [Variant::Portable, Variant::Native] {
        run_q48(variant, "sub48", &run);
    }
}

#[test]
fn q48_mul_add16_floors_the_product_and_saturates_the_add_on_both_backends() {
    let run = mul_add_run(&mul_add_triples());
    for variant in [Variant::Portable, Variant::Native] {
        run_q48(variant, "mul_add48", &run);
    }
}

#[test]
fn q48_to_q16_keeps_low_bits_and_saturates_on_both_backends() {
    let values: Vec<i64> = edge_pairs().iter().map(|p| p.0).collect();
    let run = to16_run(&values);
    for variant in [Variant::Portable, Variant::Native] {
        run_q48(variant, "to16_48", &run);
    }
}

#[test]
fn q16_to_q48_sign_extends() {
    // The op lives in the core; one variant covers it.
    run_q48(Variant::Portable, "to48_16", &to48_run(&q16_values()));
}

// The three conversions live in the core; one variant covers each.
#[test]
fn q32_to_q16_floors_to_the_q16_grid_and_saturates() {
    let values: Vec<i64> = edge_pairs().iter().map(|p| p.0).collect();
    run_q48(Variant::Portable, "to16_32", &q32_to_q16_run(&values));
}

#[test]
fn q32_to_q48_floors_to_the_q48_grid_and_never_saturates() {
    let values: Vec<i64> = edge_pairs().iter().map(|p| p.0).collect();
    run_q48(Variant::Portable, "to48_32", &q32_to_q48_run(&values));
}

#[test]
fn q48_to_q32_widens_the_fraction_and_saturates() {
    let values: Vec<i64> = edge_pairs().iter().map(|p| p.0).collect();
    run_q48(Variant::Portable, "to32_48", &q48_to_q32_run(&values));
}

// Reads the buffers back out of the bytes that a device would be given.
fn wides(bytes: &[u8]) -> Vec<Wide> {
    u32s_from_bytes(bytes)
        .chunks_exact(2)
        .map(|w| Wide { lo: w[0], hi: w[1] })
        .collect()
}

fn buffers(run: &Run) -> Buffers48 {
    let mut buffers = Buffers48::new();
    for (binding, bytes) in &run.inputs {
        match binding {
            1 => buffers.a = wides(bytes),
            2 => buffers.b = wides(bytes),
            5 => buffers.a16 = i32s_from_words(&u32s_from_bytes(bytes)),
            6 => buffers.b16 = i32s_from_words(&u32s_from_bytes(bytes)),
            8 => buffers.a32 = wides(bytes),
            other => panic!("no buffer at binding {other}"),
        }
    }
    buffers
}

fn run_q48(variant: Variant, entry_point: &str, run: &Run) {
    let op: Op48 = Op48::parse(entry_point).expect("unknown entry point");
    assert_eq!(op.name(), entry_point);

    let buffers = buffers(run);
    let n = run.elements as usize;
    let got: Batch48 = batch48(variant, op, &buffers, n);

    // Report the first divergence; whole vectors flood the output.
    let mismatch = got.words.iter().zip(&run.want).position(|(g, w)| g != w);
    assert!(
        mismatch.is_none() && got.words.len() == run.want.len(),
        "{entry_point} on {variant:?}: raw bits diverged at word {:?} (got {:#x?}, want {:#x?})",
        mismatch,
        mismatch.map(|i| got.words[i]),
        mismatch.map(|i| run.want[i]),
    );
    assert_eq!(
        vec![got.telemetry.saturations, got.telemetry.faults],
        vec![run.saturations, 0],
        "{entry_point} on {variant:?}: telemetry diverged"
    );

    // The run that a device would be held to is the same run.
    let built = run48(op, &buffers, n);
    assert_eq!(built.elements, run.elements);
    assert_eq!(built.out_binding, run.out_binding);
    assert_eq!(built.want, run.want);
    assert_eq!(built.telemetry.saturations, run.saturations);
    let inputs: Vec<(u32, Vec<u8>)> = built
        .inputs
        .iter()
        .map(|input| (input.binding, input.bytes.clone()))
        .collect();
    assert_eq!(inputs, run.inputs);
    let sat = [got.telemetry.saturations, got.telemetry.faults];
    assert_eq!(compare(&built, &got.words, sat), Outcome::Agrees);
}

#[test]
fn case_lists_are_the_ones_the_suite_draws() {
    assert_eq!(cases::edge_pairs(), edge_pairs());
    assert_eq!(cases::q16_values(), q16_values());
    let triples: Vec<(i64, i32, i32)> = cases::mul_add_triples()
        .iter()
        .map(|t| (t.q, t.a, t.b))
        .collect();
    assert_eq!(triples, mul_add_triples());
    let firsts: Vec<i64> = edge_pairs().iter().map(|p| p.0).collect();
    assert_eq!(cases::first_operands(&edge_pairs()), firsts);
}

#[test]
fn splitting_and_joining_words_loses_nothing() {
    for v in EDGES {
        assert_eq!(split(v), halves(v));
        assert_eq!(from_wide(to_wide(v)), v);
    }
    assert_eq!(split(-2), [0xffff_fffe, 0xffff_ffff]);
    assert_eq!(to_wides(&[1, -1])[1], Wide { lo: 0xffff_ffff, hi: 0xffff_ffff });
}

#[test]
fn buffers_hold_little_endian_bytes() {
    assert_eq!(i32_bytes(&[1, -2]), vec![1, 0, 0, 0, 0xfe, 0xff, 0xff, 0xff]);
    assert_eq!(i64_bytes(&[0x0102_0304_0506_0708]), vec![8, 7, 6, 5, 4, 3, 2, 1]);
    let values: Vec<u8> = EDGES.iter().flat_map(|v| v.to_le_bytes()).collect();
    assert_eq!(i64_bytes(&EDGES), values);
    // Bytes after the last whole word are ignored.
    assert_eq!(u32s_from_bytes(&[1, 2, 3, 4, 5, 6]), vec![0x0403_0201]);
    assert_eq!(i32s_from_words(&u32s_from_bytes(&i32_bytes(&EDGES16))), EDGES16.to_vec());
}
