# fixed_wgsl

Saturating fixed-point arithmetic (Q16.16, Q48.16, Q32.32) for WGSL compute shaders, with the
harness that replays it on every GPU backend of a machine. The library under `src/` is verified
with Verus; `app/` is the program around it that talks to the GPU.

The shaders come in two variants. The portable one uses 32-bit integers alone and runs wherever
wgpu runs. The native one uses 64-bit integers and needs the `SHADER_INT64` feature. Both must
leave the same bits and the same telemetry; `src/laws.rs` proves this of the arithmetic here.

## Layout

- `src/`: the arithmetic in both variants, the buffer layout, the conformance cases, trace files
  and their replay, the survey of backends, and the operands and statistics of a benchmark.
- `app/`: adapters, devices, pipelines, files, printing. Its tests run the conformance suite on
  real devices and expect the shader files `fixed_core.wgsl`, `fixed_portable.wgsl`,
  `fixed_int64.wgsl`, `batch16.wgsl` and `batch48.wgsl` in the working directory.
- `tests/`: tests of the library that need no device.

## What is trusted

- `wgpu::Backends::from`, `wgpu::Backends::intersects` and `wgpu::Features::contains`, in
  `src/gpu.rs`
- `<[u128]>::sort_unstable`, in `src/stats.rs`
- `String::push`, in `src/text.rs`

## Settings

- Benchmark: `BENCH_BACKEND` (`vulkan` or `dx12`), `BENCH_ELEMENTS`, `BENCH_REPEATS`,
  `BENCH_WARMUP`, `BENCH_SAMPLES`.
- Conformance: `FIXED_WGSL_BACKENDS` pins the backends, `FIXED_WGSL_REQUIRE_INT64` insists on
  64-bit integers, `FIXED_WGSL_FALLBACK_ADAPTER` asks for the software adapter,
  `FIXED_WGSL_TRACES` names the directory of the trace files.
