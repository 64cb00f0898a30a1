//! The failure taxonomy of the physics core: configuration faults (a field
//! required by the chosen configuration is absent or invalid), degenerate
//! geometry, and values that leave the representable fixed-point range.
//! All are fatal for the satellite's run; the caller decides what to do next.

use vstd::prelude::*;

verus! {

/// A field of the satellite description that the physics may require.
#[derive(Clone, Copy, Debug, PartialEq, Eq, Structural)]
pub enum Field {
    Position,
    Velocity,
    Acceleration,
    Rotation,
    RotationVelocity,
    RotationAcceleration,
    Sun,
    Time,
    OrbitType,
    OrbitParameters,
    SemiMajorAxis,
    Inclination,
    ArgumentOfPeriapsis,
    LongitudeOfAscendingNode,
    Eccentricity,
    SolarPanels,
    Eps,
    Components,
    ActiveConsumption,
    ActivationInterval,
    ActivationDuration,
    Step,
}

/// Why a step of the physics core refused to proceed.
#[derive(Clone, Copy, Debug, PartialEq, Eq, Structural)]
pub enum SimError {
    /// A field the chosen configuration requires is absent.
    MissingField(Field),
    /// A field is present but invalid for the chosen configuration.
    InvalidField(Field),
    /// Degenerate geometry: an angle was asked of a vector whose magnitude
    /// vanishes at this granularity.
    Degenerate,
    /// A computed quantity left the representable fixed-point range.
    OutOfRange,
}

} // verus!
