//! Building ffmpeg invocations from intents.

pub mod builder;

pub use builder::{CommandBuilder, FfmpegCommand};
