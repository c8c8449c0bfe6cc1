//! Abelian sandpile on a square grid whose edge absorbs the grains that fall off it.
//!
//! `model` states what a grid and a topple are, `laws` proves how relaxation behaves
//! (it ends, its result does not depend on the order of topples, relaxing twice changes
//! nothing, grains are lost only at the edge), and the other modules hold the code.

pub mod grid;
pub mod laws;
pub mod model;
pub mod pile;
pub mod simulation;
pub mod snapshot;
pub mod stabilizer;
pub mod sums;

pub use grid::{add_grain, add_random_grain, is_stable, topple, SandBox, State};
pub use pile::Pile;
pub use simulation::{run, ConfigError, Simulation};
pub use snapshot::{render, SNAPSHOT_HEADER};
pub use stabilizer::stabilize;
