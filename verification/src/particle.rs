//! The entity record that the benchmark processes.

use vstd::prelude::*;

verus! {

/// A point-mass entity: a 3-component position and a 3-component velocity.
///
/// Each component is stored as the raw bit pattern of an IEEE 754
/// single-precision value, so the record stays a flat run of six 32-bit
/// words — the same layout foreign callers hand across the boundary — while
/// remaining plain data that the verified core can carry.  The unverified
/// shell converts between this form and native floating-point components,
/// bit for bit, with no loss.
///
/// The velocity is carried for layout compatibility and future motion
/// integration; the counting core never reads it.
#[derive(Clone, Copy, Debug, PartialEq, Eq)]
pub struct Particle {
    /// Position `[x, y, z]`, each component a single-precision bit pattern.
    pub pos: [u32; 3],
    /// Velocity `[vx, vy, vz]`, each component a single-precision bit pattern.
    pub velocity: [u32; 3],
}

} // verus!
