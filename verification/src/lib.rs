//! Scenario enumeration, solver configuration and time-related rules of a
//! water resource system simulator, with their contracts proved by Verus.

use vstd::prelude::*;

pub mod text;
pub mod scenario;
pub mod edge;
pub mod solvers;
pub mod recorders;
pub mod virtual_storage;
pub mod manifest;
pub mod timestep;
pub mod project;

verus! {

} // verus!
