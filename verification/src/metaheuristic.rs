//! The multi-objective optimizers and what they select solutions by.
pub mod crowding;
pub mod descent;
pub mod dominance;
pub mod nsga2;
pub mod objects;
pub mod selection;
pub mod sorting;
pub mod variation;
