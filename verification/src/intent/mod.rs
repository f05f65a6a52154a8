//! What a command asks for: the operation, its files and its parameters.

pub mod parameters;
pub mod types;

pub use parameters::Parameters;
pub use types::{Intent, OperationType};
