//! Satellite power-budget simulator: orbit propagation, attitude kinematics,
//! eclipse and solar-power geometry, battery integration and component
//! duty-cycle scheduling, over a binary fixed-point scalar type.

pub mod fx;
pub mod trig;
pub mod vector;
pub mod error;
pub mod time;
pub mod component;
pub mod orbit;
pub mod cubesat;

pub use fx::Fx;
