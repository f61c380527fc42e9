//! Gameplay-logic core of a real-time interactive scene, modelled over exact
//! fixed-point integers: a deferred animation-binding resolver, an orbit
//! camera controller, a subject motion controller, and a collision-triggered
//! spawn system. The surrounding engine (rendering, physics stepping, asset
//! loading, input sampling) is an external collaborator; this crate verifies
//! only the per-tick logic that runs on top of it.

use vstd::prelude::*;

pub mod activation;
pub mod camera;
pub mod fixed;
pub mod motion;
pub mod resolver;
pub mod spawn;
pub mod tick;
pub mod world;

verus! {

} // verus!
