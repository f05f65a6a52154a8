//! Running ffmpeg: the decisions taken around starting the program.

pub mod runner;

pub use runner::{ExecutionError, RunOutcome, Runner};
