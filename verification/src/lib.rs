//! Leaf venation by space colonization, on an integer lattice.
//!
//! A network of veins grows toward scattered attractor points, the auxins,
//! and consumes those that come near it.  One step of growth turns every
//! vein toward the auxins nearest to it, grows a new vein from each vein that
//! is pulled anywhere, sprays new auxins and removes the auxins near a vein.
//!
//! Positions are points of a lattice, in units the caller chooses, and
//! lengths are whole numbers of these units.  Distances are compared by
//! their squares, which is exact.  Directions are unit vectors in fixed
//! point, see `geometry::UNIT`.

pub mod auxins;
pub mod geometry;
pub mod simulation;
pub mod veins;
