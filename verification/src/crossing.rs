//! Reading the outcome of moving a row into the mesh: whether it was placed,
//! which row is on the wire, and which rows are placement widenings.

use vstd::prelude::*;
use crate::prims::owned;

verus! {

/// What a mesh crossing did with a row.
#[derive(Debug)]
pub enum CrossingOutcome {
    /// The row crossed; this is the row now at the target audience.
    Crossed { attestation_id: String },
    /// The row was already in the mesh.
    AlreadyInMesh { attestation_id: String },
    /// A widening of the row already exists; `prior` names the narrow row.
    AlreadyWidened { prior: String },
    /// The row waits on its actor (authored by another key).
    AwaitingActor,
}

/// Was the row placed at its target audience? Waiting on its actor is not.
pub fn is_placed(outcome: &CrossingOutcome) -> (placed: bool)
    ensures
        placed == !(outcome is AwaitingActor),
{
    match outcome {
        CrossingOutcome::AwaitingActor => false,
        _ => true,
    }
}

/// The id of the row actually on the wire at the target audience, where the
/// outcome names it. An existing widening names only the prior (narrow) row,
/// so it gives none, as does a row waiting on its actor.
pub fn placed_id(outcome: &CrossingOutcome) -> (id: Option<String>)
    ensures
        match outcome {
            CrossingOutcome::Crossed { attestation_id } => id matches Some(s) && s@
                == attestation_id@,
            CrossingOutcome::AlreadyInMesh { attestation_id } => id matches Some(s) && s@
                == attestation_id@,
            _ => id is None,
        },
{
    match outcome {
        CrossingOutcome::Crossed { attestation_id } => Some(owned(attestation_id.as_str())),
        CrossingOutcome::AlreadyInMesh { attestation_id } => Some(owned(attestation_id.as_str())),
        _ => None,
    }
}

/// Is a row a `supersedes` written to place a claim at a wider audience? Asked
/// of the envelope's `widened_at` member (its text, where it is a string): a
/// placement widening carries a non-empty one.
pub fn is_placement_widening_envelope(widened_at: Option<&str>) -> (w: bool)
    ensures
        w == (widened_at matches Some(s) && s@.len() > 0),
{
    match widened_at {
        Some(s) => s.unicode_len() > 0,
        None => false,
    }
}

} // verus!
