// What a benchmark is made of: settings, adapters, operands, buffers, samples.

use fixed_wgsl::batch::Variant;
use fixed_wgsl::bench::{
    buffer_plan, env_u32, input_data, op, BufferPlan, Slot, DEFAULT_ELEMENTS,
    DEFAULT_MEASURED_SAMPLES, DEFAULT_REPEATS, DEFAULT_WARMUP_SAMPLES,
};
use fixed_wgsl::bytes::{i32_bytes, i64_bytes};
use fixed_wgsl::gpu::{
    backend, backend_name, can_serve, entries_to_measure, has_int64, list_adapters, AdapterEntry,
    BackendKind,
};
use fixed_wgsl::inputs::{make_inputs, make_inputs16, make_inputs48};
use fixed_wgsl::layout::{shader_files, source, workgroups, Module};
use fixed_wgsl::lcg::Lcg;
use fixed_wgsl::stats::{stats, Sampling};
use fixed_wgsl::survey::{
    all_backends, required_backends, Action, Candidate, Event, Finish, Survey,
};

// The generator in plain arithmetic, as a reference.
fn lcg(stream: u64) -> impl FnMut() -> u64 {
    let mut state = 0x4D59_5DF4_D0F3_3173u64 ^ stream.wrapping_mul(0x9E37_79B9_7F4A_7C15);
    move || {
        state = state
            .wrapping_mul(6_364_136_223_846_793_005)
            .wrapping_add(1);
        state
    }
}

fn int64_features() -> [u64; 2] {
    let features = wgpu::Features::SHADER_INT64;
    [features.features_wgpu.bits(), features.features_webgpu.bits()]
}

fn all_features() -> [u64; 2] {
    let features = wgpu::Features::all();
    [features.features_wgpu.bits(), features.features_webgpu.bits()]
}

fn entry(backend: BackendKind, name: &str, features: [u64; 2]) -> AdapterEntry {
    AdapterEntry {
        backend,
        name: name.to_string(),
        features,
    }
}

#[test]
fn settings_fall_back_when_they_are_no_number() {
    assert_eq!(env_u32(None, 7), 7);
    assert_eq!(env_u32(Some("12"), 7), 12);
    assert_eq!(env_u32(Some("+12"), 7), 12);
    assert_eq!(env_u32(Some(""), 7), 7);
    assert_eq!(env_u32(Some(" 12"), 7), 7);
    assert_eq!(env_u32(Some("-1"), 7), 7);
    assert_eq!(env_u32(Some("4294967295"), 7), u32::MAX);
    assert_eq!(env_u32(Some("4294967296"), 7), 7);
    assert_eq!(DEFAULT_ELEMENTS, 262_144);
    assert_eq!(DEFAULT_REPEATS, 32);
    assert_eq!(DEFAULT_WARMUP_SAMPLES, 5);
    assert_eq!(DEFAULT_MEASURED_SAMPLES, 21);
}

#[test]
fn backends_are_selected_by_name() {
    assert_eq!(backend("vulkan"), Some(wgpu::Backends::VULKAN.bits()));
    assert_eq!(backend("dx12"), Some(wgpu::Backends::DX12.bits()));
    assert_eq!(backend("metal"), None);
    assert_eq!(backend("Vulkan"), None);
    assert_eq!(backend_name(None), "vulkan");
    assert_eq!(backend_name(Some("dx12")), "dx12");
}

#[test]
fn adapters_are_listed_and_matched_against_the_selection() {
    let adapters = vec![
        entry(BackendKind::Gl, "llvmpipe", [0, 0]),
        entry(BackendKind::Vulkan, "RTX", int64_features()),
    ];
    let listing = list_adapters(&adapters, "vulkan");
    assert_eq!(
        listing.lines,
        vec![
            "  Gl: llvmpipe (SHADER_INT64: false)",
            "  Vulkan: RTX (SHADER_INT64: true)",
            "",
        ]
    );
    assert_eq!(listing.found, Some(true));
    let other = list_adapters(&adapters, "dx12");
    assert_eq!(other.lines, listing.lines);
    assert_eq!(other.found, Some(false));

    let none = list_adapters(&Vec::new(), "vulkan");
    assert_eq!(none.lines, vec!["no adapter on any backend: install a GPU driver", ""]);
    assert_eq!(none.found, Some(false));
}

#[test]
fn an_unknown_api_is_met_with_the_first_adapter() {
    let adapters = vec![
        entry(BackendKind::Gl, "llvmpipe", [0, 0]),
        entry(BackendKind::Vulkan, "RTX", int64_features()),
    ];
    let listing = list_adapters(&adapters, "opengl");
    assert_eq!(listing.lines, vec!["  Gl: llvmpipe (SHADER_INT64: false)"]);
    assert_eq!(listing.found, None);

    let none = list_adapters(&Vec::new(), "opengl");
    assert_eq!(none.lines, vec!["no adapter on any backend: install a GPU driver", ""]);
    assert_eq!(none.found, Some(false));
}

#[test]
fn every_api_is_found_under_its_own_name_alone() {
    let kinds = [
        (BackendKind::Noop, wgpu::Backend::Noop),
        (BackendKind::Vulkan, wgpu::Backend::Vulkan),
        (BackendKind::Metal, wgpu::Backend::Metal),
        (BackendKind::Dx12, wgpu::Backend::Dx12),
        (BackendKind::Gl, wgpu::Backend::Gl),
        (BackendKind::BrowserWebGpu, wgpu::Backend::BrowserWebGpu),
    ];
    for (kind, outside) in kinds {
        assert_eq!(kind.name(), format!("{outside:?}"));
        for (name, selected) in [
            ("vulkan", wgpu::Backends::VULKAN),
            ("dx12", wgpu::Backends::DX12),
        ] {
            assert_eq!(backend(name), Some(selected.bits()));
            let listing = list_adapters(&vec![entry(kind, "x", [0, 0])], name);
            let shared = wgpu::Backends::from(outside).intersects(selected);
            assert_eq!(listing.found, Some(shared));
        }
    }
}

#[test]
fn int64_is_read_from_the_feature_words() {
    assert!(has_int64(int64_features()));
    assert!(has_int64(all_features()));
    assert!(!has_int64([0, u64::MAX]));
    let all = all_features();
    assert!(!has_int64([all[0] & !int64_features()[0], all[1]]));
    assert!(can_serve(false, [0, 0]));
    assert!(!can_serve(true, [0, 0]));
    assert!(can_serve(true, int64_features()));
}

#[test]
fn entries_are_the_requested_one_or_the_defaults() {
    assert_eq!(
        entries_to_measure(true, None),
        vec!["div16", "mul16", "sqrt16", "add48", "to16_48"]
    );
    assert_eq!(entries_to_measure(true, Some("sub48")), vec!["sub48"]);
    assert!(entries_to_measure(false, Some("sub48")).is_empty());
    assert!(entries_to_measure(false, None).is_empty());
}

#[test]
fn operands_are_drawn_from_the_generator() {
    let mut next = lcg(0);
    let (a, b) = make_inputs(1000, false);
    let (c, d) = make_inputs(1000, true);
    for i in 0..1000 {
        let first = (next() >> 32) as u32;
        let second = (next() >> 32) as u32 as i32;
        assert_eq!(a[i], first as i32);
        assert_eq!(c[i], (first & 0x7fff_ffff) as i32);
        let second = if second == 0 { 1 } else { second };
        assert_eq!((b[i], d[i]), (second, second));
        assert!(c[i] >= 0 && b[i] != 0);
    }
    for stream in [0, 1, 2] {
        let mut next = lcg(stream);
        let values = make_inputs48(100, stream);
        for v in &values {
            assert_eq!(*v, (next() as i64) >> 33);
            assert!((-(1 << 30)..1 << 30).contains(v));
        }
        let mut next = lcg(stream);
        for v in make_inputs16(100, stream) {
            assert_eq!(v, (next() >> 32) as u32 as i32);
        }
    }
    let mut generator = Lcg::stream(5);
    let mut next = lcg(5);
    assert_eq!(generator.next(), next());
    assert_eq!(generator.next_word(), (next() >> 32) as u32 as i32);
}

#[test]
fn entry_points_have_their_buffers() {
    let add = op("add48");
    assert_eq!(add.module, Module::Batch48);
    assert_eq!(
        buffer_plan(&add, 10),
        vec![
            BufferPlan { binding: 0, size: 80 },
            BufferPlan { binding: 3, size: 8 },
            BufferPlan { binding: 1, size: 80 },
            BufferPlan { binding: 2, size: 80 },
        ]
    );
    let mul_add = op("mul_add48");
    assert_eq!(
        mul_add.inputs,
        vec![
            Slot { binding: 1, bytes: 8 },
            Slot { binding: 5, bytes: 4 },
            Slot { binding: 6, bytes: 4 },
        ]
    );
    assert_eq!(op("to16_48").dst, Slot { binding: 4, bytes: 4 });
    assert_eq!(op("to16_48").inputs, vec![Slot { binding: 1, bytes: 8 }]);
    assert_eq!(op("sqrt16").inputs, vec![Slot { binding: 1, bytes: 4 }]);
    assert_eq!(op("div16").inputs.len(), 2);
    assert_eq!(op("anything").module, Module::Batch16);
}

#[test]
fn operands_fill_the_buffers_of_their_entry_point() {
    for name in ["div16", "sqrt16", "add48", "mul_add48", "to16_48"] {
        let op = op(name);
        let plans = buffer_plan(&op, 17);
        for index in 0..op.inputs.len() {
            let data = input_data(name, &op, 17, index);
            assert_eq!(data.len() as u64, plans[2 + index].size);
        }
    }
    let (a, b) = make_inputs(9, false);
    let (root, _) = make_inputs(9, true);
    assert_eq!(input_data("mul16", &op("mul16"), 9, 0), i32_bytes(&a));
    assert_eq!(input_data("mul16", &op("mul16"), 9, 1), i32_bytes(&b));
    assert_eq!(input_data("sqrt16", &op("sqrt16"), 9, 0), i32_bytes(&root));
    assert_eq!(
        input_data("sub48", &op("sub48"), 9, 1),
        i64_bytes(&make_inputs48(9, 1))
    );
    assert_eq!(
        input_data("mul_add48", &op("mul_add48"), 9, 2),
        i32_bytes(&make_inputs16(9, 2))
    );
}

#[test]
fn sources_are_joined_by_line_breaks() {
    assert_eq!(source("a", "b", "c"), "a\nb\nc");
    assert_eq!(
        shader_files(Module::Batch16, Variant::Portable),
        ["fixed_core.wgsl", "fixed_portable.wgsl", "batch16.wgsl"]
    );
    assert_eq!(
        shader_files(Module::Batch48, Variant::Native),
        ["fixed_core.wgsl", "fixed_int64.wgsl", "batch48.wgsl"]
    );
    assert_eq!(workgroups(0), 0);
    assert_eq!(workgroups(1), 1);
    assert_eq!(workgroups(256), 1);
    assert_eq!(workgroups(257), 2);
    assert_eq!(workgroups(u32::MAX), 0x100_0000);
}

#[test]
fn statistics_pick_the_median_and_the_95th_percentile() {
    let one = stats(vec![7]);
    assert_eq!((one.median, one.p95), (7, 7));
    let few = stats(vec![30, 10, 20, 40]);
    assert_eq!(few.samples, vec![10, 20, 30, 40]);
    assert_eq!((few.median, few.p95), (30, 40));
    let many = stats((1..=21).rev().collect());
    assert_eq!((many.median, many.p95), (11, 20));
    let hundred = stats((1..=100).rev().collect());
    assert_eq!((hundred.median, hundred.p95), (51, 95));
    for n in 1..200usize {
        let sorted = stats((0..n as u128).rev().collect());
        assert_eq!(sorted.median, (n / 2) as u128);
        assert_eq!(sorted.p95, ((n * 95).div_ceil(100)).saturating_sub(1) as u128);
    }
}

#[test]
fn samples_alternate_between_two_programs() {
    let mut plan = Sampling::new(2, 3, true);
    let mut time = 0;
    let mut order = Vec::new();
    while let Some(second) = plan.next_run() {
        order.push(second);
        plan.record(time);
        time += 1;
    }
    assert_eq!(order, (0..10).map(|i| i % 2 == 1).collect::<Vec<bool>>());
    assert_eq!(plan.first, vec![4, 6, 8]);
    assert_eq!(plan.second, vec![5, 7, 9]);

    let mut plan = Sampling::new(1, 2, false);
    let mut time = 10;
    while let Some(second) = plan.next_run() {
        assert!(!second);
        plan.record(time);
        time += 1;
    }
    assert_eq!(plan.first, vec![11, 12]);
    assert!(plan.second.is_empty());
    assert_eq!(Sampling::new(0, 0, true).next_run(), None);
}

#[test]
fn pinned_backends_are_read_from_a_list() {
    assert_eq!(
        required_backends("vulkan,dx12"),
        Ok(vec![Candidate::Vulkan, Candidate::Dx12])
    );
    assert_eq!(
        required_backends(" metal , ,\tvulkan,"),
        Ok(vec![Candidate::Metal, Candidate::Vulkan])
    );
    assert_eq!(required_backends(""), Ok(vec![]));
    assert_eq!(required_backends("vulkan,gl,foo"), Err(1));
    assert_eq!(
        all_backends().map(|c| c.name()),
        ["vulkan", "dx12", "metal"]
    );
}

#[test]
fn surveys_never_pass_in_silence() {
    // Probing: a missing driver is skipped, but something has to run.
    let mut survey = Survey::new(false, None);
    for candidate in all_backends() {
        assert!(survey.visits(candidate));
        assert_eq!(survey.observe(candidate, Event::NoAdapter), Action::SkippedNoAdapter);
    }
    assert_eq!(survey.finish(false), Finish::Untested);
    assert_eq!(survey.observe(Candidate::Metal, Event::Ran), Action::Continue);
    assert_eq!(survey.finish(false), Finish::Tested);
    assert_eq!(survey.ran, vec![Candidate::Metal]);

    // Pinned: a missing driver fails.
    let mut survey = Survey::new(false, Some(vec![Candidate::Dx12]));
    assert!(!survey.visits(Candidate::Vulkan));
    assert!(survey.visits(Candidate::Dx12));
    assert_eq!(
        survey.observe(Candidate::Dx12, Event::NoAdapter),
        Action::PinnedButMissing
    );

    // The native variant may find no device with 64-bit integers, unless one is required.
    let mut survey = Survey::new(true, None);
    assert_eq!(survey.finish(false), Finish::Untested);
    assert_eq!(
        survey.observe(Candidate::Vulkan, Event::NoInt64),
        Action::SkippedNoInt64
    );
    assert_eq!(survey.finish(false), Finish::NativeUntested);
    assert_eq!(survey.finish(true), Finish::Untested);
    assert_eq!(survey.no_int64, vec![Candidate::Vulkan]);

    // The portable variant needs no 64-bit integers, so that is no excuse for it.
    let mut survey = Survey::new(false, None);
    survey.observe(Candidate::Vulkan, Event::NoInt64);
    assert_eq!(survey.finish(false), Finish::Untested);
}

#[test]
fn streams_start_from_different_states() {
    let starts: Vec<u64> = (0..64).map(|stream| Lcg::stream(stream).state).collect();
    for (i, p) in starts.iter().enumerate() {
        for q in &starts[..i] {
            assert_ne!(p, q);
        }
    }
    assert_eq!(starts[0], Lcg::seeded().state);
}
