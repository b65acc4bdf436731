//! Fixed-point arithmetic for compute shaders, and the harness that holds the shaders to it.
//!
//! Numbers are raw bits in Q16.16, Q48.16 or Q32.32. Every entry point saturates instead of
//! wrapping, and counts its saturations and faults. There are two variants of the arithmetic, one
//! on 32-bit words alone and one on 64-bit integers; both compute the same bits.
//!
//! - Arithmetic: [`number`] and [`wide`] hold the integer vocabulary, [`lane`] says what each entry
//!   point computes, [`core_ops`], [`portable`] and [`native`] compute it, [`batch`] runs it over
//!   whole buffers, and [`laws`] states what holds of it.
//! - Shaders: [`layout`] and [`bytes`] describe the buffers, [`gpu`] and [`survey`] choose devices.
//! - Conformance: [`cases`] and [`runs`] hold the operands and the expected results; [`text`],
//!   [`numeral`], [`trace`], [`replay`], [`search`] and [`render`] replay recorded traces.
//! - Benchmarks: [`lcg`], [`inputs`], [`bench`] and [`stats`].
//!
//! What holds of all this as a whole, besides the arithmetic, is stated in [`text_laws`],
//! [`trace_laws`], [`replay_laws`] and [`harness_laws`].
pub mod batch;
pub mod bench;
pub mod bytes;
pub mod cases;
pub mod core_ops;
pub mod gpu;
pub mod harness_laws;
pub mod inputs;
pub mod lane;
pub mod laws;
pub mod layout;
pub mod lcg;
pub mod native;
pub mod number;
pub mod numeral;
pub mod portable;
pub mod render;
pub mod replay;
pub mod replay_laws;
pub mod runs;
pub mod search;
pub mod stats;
pub mod survey;
pub mod text;
pub mod text_laws;
pub mod trace;
pub mod trace_laws;
pub mod wide;
