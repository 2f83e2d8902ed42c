//! The discrete part of the force-directed layout: which force law acts
//! between two states. Magnitudes and positions are the drawing code's.

use vstd::prelude::*;
use crate::machine::{spec_adjacent, Machine};

verus! {

/// The force law between two states during one relaxation step.
#[derive(Clone, Copy, Debug, PartialEq, Eq, Structural)]
pub enum ForceLaw {
    /// Adjacent states: a spring toward the ideal edge length.
    Spring,
    /// Non-adjacent states closer than the ideal edge length: repulsion.
    Repulsion,
    /// No force.
    Zero,
}

/// The law between states `i` and `j`, where `near` tells whether they are
/// closer than the ideal edge length. A state exerts no force on itself.
pub open spec fn spec_pair_law(m: Machine, i: int, j: int, near: bool) -> ForceLaw {
    if i == j {
        ForceLaw::Zero
    } else if spec_adjacent(m, i, j) {
        ForceLaw::Spring
    } else if near {
        ForceLaw::Repulsion
    } else {
        ForceLaw::Zero
    }
}

/// The force law between states `i` and `j` (see `spec_pair_law`).
pub fn pair_law(m: &Machine, i: u8, j: u8, near: bool) -> (r: ForceLaw)
    ensures
        r == spec_pair_law(*m, i as int, j as int, near),
{
    if i == j {
        ForceLaw::Zero
    } else if m.has_rule(i, j) || m.has_rule(j, i) {
        ForceLaw::Spring
    } else if near {
        ForceLaw::Repulsion
    } else {
        ForceLaw::Zero
    }
}

/// The law between two states does not depend on which of them is asked
/// about: with distance symmetric, the force on `i` from `j` and the force
/// on `j` from `i` follow the same law, along opposite directions.
pub proof fn lemma_pair_law_symmetric(m: Machine, i: int, j: int, near: bool)
    ensures
        spec_pair_law(m, i, j, near) == spec_pair_law(m, j, i, near),
{
}

} // verus!
