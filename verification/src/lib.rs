//! Fixed-point dynamics of a particle swarm under mutual gravity and a
//! pointer-controlled attractor, with a small store of tunable constants.
//!
//! All quantities are integers that count thousandths of a unit, and time
//! steps are whole microseconds, so every result is exactly reproducible
//! and every contract is stated over the mathematical integers.
//!
//! - `fixed`: quotients that round toward zero, integer square roots.
//! - `vec2`: plane vectors, their length, direction and cap.
//! - `constants`: the tunable constants and the keys that adjust them.
//! - `gravity`: the force and integration pass over the swarm.
//! - `layout`: the grid in which a swarm starts.
//! - `camel`: labels for keys, from camel-cased identifiers.

pub mod camel;
pub mod constants;
pub mod fixed;
pub mod gravity;
pub mod layout;
pub mod vec2;
