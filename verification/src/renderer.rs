//! The renderer: its mathematical model, the drawer, and what holds of it.
pub mod draw;
pub mod guarantees;
pub mod laws;
pub mod model;
