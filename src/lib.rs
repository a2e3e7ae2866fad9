//! Training of evaluation networks for game engines: parameter layout and
//! step order of the network executor, batched tensor storage with dense and
//! sparse transforms over any element type, position formats and their
//! feature indices, and the shuffling, batching and shutdown rules of the
//! data pipeline, each with a verified contract.

use vstd::prelude::*;

pub mod board;
pub mod device;
pub mod epd;
pub mod formats;
pub mod inputs;
pub mod loader;
pub mod optimiser;
pub mod rng;
pub mod shape;
pub mod sparse;
pub mod tensor;
pub mod trainer;
pub mod pipeline;

verus! {

/// Element-wise activation applied between layers.
#[derive(Clone, Copy, Debug, PartialEq, Eq, Structural)]
pub enum Activation {
    /// `max(x, 0)`
    ReLU,
    /// `x` clamped to `[0, 1]`
    CReLU,
    /// the square of `x` clamped to `[0, 1]`
    SCReLU,
}

} // verus!
