//! What the operations of the library are for: laws that speak of inputs and
//! results alone.

pub mod lines;
pub mod listings;
pub mod logs;
pub mod magnitudes;
pub mod objects;
pub mod orders;
pub mod plans;
pub mod probes;
pub mod releases;
pub mod reports;
pub mod rules;
pub mod screens;
pub mod steps;
pub mod sweeps;
pub mod texts;
pub mod verdicts;
pub mod views;
pub mod walks;
pub mod worktrees;
