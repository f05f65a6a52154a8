//! The intent that a parsed command expresses.

use vstd::prelude::*;

use crate::intent::parameters::Parameters;

verus! {

/// The media operations that a command can ask for.
#[derive(Debug, Clone, Copy, PartialEq, Eq, Structural)]
pub enum OperationType {
    Convert,
    Resize,
    Transcode,
    ExtractAudio,
}

/// A parsed command: the operation, the input and output files, and the
/// named parameters of the operation (such as `width` or `vcodec`).
///
/// The paths are held as the text that names them.
pub struct Intent {
    pub operation: OperationType,
    pub input_path: String,
    pub output_path: String,
    pub parameters: Parameters,
}

} // verus!
