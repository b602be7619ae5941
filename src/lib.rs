//! A rhombic-dodecahedral 3D grid addressed by four-axis coordinates, with a
//! few small value types beside it.

pub mod rhombic_dodeca;
pub mod numbers;
pub mod partial;
pub mod destruct;
pub mod dyn_mut_closures;
