//! Iterative elimination of points in space.
//!
//! A set of points is thinned out round by round. A repeating countdown
//! decides when a round is due, and a phase that flips with every completed
//! countdown decides what the round does: highlight the points that will take
//! part next, or eliminate. Two elimination rules are offered: keep the most
//! central point of a sample and take the rest of the sample out of the set,
//! or keep one vertex of a triangle of points that were not visited yet and
//! mark the other two as eliminated.
//!
//! Distances and angles are measured by the host and come in as
//! [`binary32::Binary32`] bit patterns; the library orders them and decides.

pub mod binary32;
pub mod centroid;
pub mod highlight;
pub mod point;
pub mod simulation;
pub mod startup;
pub mod tick;
pub mod triangle;
