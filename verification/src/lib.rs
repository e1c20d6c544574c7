//! Broad-phase collision candidate generation by sweep and prune.
//!
//! Every body is known to the broad phase by an identity and an axis-aligned
//! bounding box. The boxes are kept in a list that is sorted along the x-axis;
//! one pass over that list yields every pair of bodies whose boxes overlap on
//! all axes.

pub mod aabb;
pub mod id_set;
pub mod intervals;
pub mod laws;
pub mod pipeline;
pub mod sort;
pub mod sweep;

pub use aabb::Aabb;
pub use intervals::{AabbIntervals, Entry};
pub use pipeline::BroadPhase;
pub use sweep::BroadCollisionPairs;
