//! The decisions of the stage runners: matrix fan-out, step retries, stage
//! outcomes and container plans.
pub mod matrix;
pub mod shell;
pub mod container;
