//! A two-dimensional gravitational N-body engine over fixed-point numbers.
pub mod field_vis;
pub mod fixed;
pub mod force;
pub mod ids;
pub mod input;
pub mod laws;
pub mod model;
pub mod planet;
pub mod preview;
pub mod simulation;
pub mod step;
pub mod vector;
