//! ffrs: translate plain English media commands into ffmpeg invocations.
//!
//! The library holds the verified core: the tokenizer of the command
//! language, the intent model, the ffmpeg command builder, the error model
//! with its exit codes, and the decisions that the command-line front end
//! takes around running ffmpeg.

pub mod command_builder;
pub mod errors;
pub mod executor;
pub mod frontend;
pub mod grammar;
pub mod intent;

pub use command_builder::{CommandBuilder, FfmpegCommand};
pub use errors::FfError;
pub use executor::runner::Runner;
pub use grammar::{Token, Tokenizer};
pub use intent::types::{Intent, OperationType};
pub use intent::Parameters;
