//! A 2D particle physics toy: point masses move under gravity inside a
//! circular boundary, collide with each other, and can be tied together by
//! rigid "rope" links or elastic "spring" links.
//!
//! All geometry is carried in fixed-point coordinates: one simulation unit is
//! `SCALE` milli-units, and every position, radius and length is an `i64`
//! count of milli-units. This keeps the solver exact and checkable; the
//! drawing layer converts at the edge.

pub mod interact;
pub mod laws;
pub mod num;
pub mod particle;
pub mod world;
pub mod vec2;

pub use num::SCALE;
pub use num::MAX_COORD;
