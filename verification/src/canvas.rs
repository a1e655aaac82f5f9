//! What a frame of canvas interaction reports back.
use vstd::prelude::*;

verus! {

/// The outcome of one frame of canvas interaction.
#[derive(Debug, Clone, Copy, PartialEq, Eq, Structural)]
pub struct CanvasResponse {
    pub circuit_mutated: bool,
    pub placed_component: bool,
}

} // verus!
