//! Spiking neural network simulation under single-bit hardware faults.
//!
//! - [`register`]: the fault-injectable 64-bit register and its read semantics.
//! - [`arith`]: the binary64 arithmetic unit that neurons compute through.
//! - [`neuron`]: a neuron whose state and operator outputs live in registers.
//! - [`stream`]: the pulse and barrier streams between layers.
//! - [`network`]: topology, layer workers, input injection, output collection.
//! - [`campaign`]: Monte-Carlo fault campaigns against a golden run.
pub mod arith;
pub mod campaign;
pub mod network;
pub mod neuron;
pub mod register;
pub mod stream;
