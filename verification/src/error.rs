//! Failures reported by the engine.

use vstd::prelude::*;

verus! {

/// Why a detection, tracking or planning call gave no result.
#[derive(Clone, Copy, Debug, PartialEq, Eq, Structural)]
pub enum Error {
    /// The screen could not be captured. The current call is abandoned:
    /// nothing is captured a second time.
    CaptureError,
    /// The captured frame holds fewer bytes than the template.
    InsufficientData,
    /// Origin and target of an aim coincide, so the aim has no direction.
    DegenerateVector,
}

} // verus!
