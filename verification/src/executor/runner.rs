//! The runner of ffmpeg commands.
//!
//! Starting a process is left to the caller; the runner decides, from what
//! the probe for ffmpeg and the run itself report, whether execution
//! succeeded and which error describes a failure.

use vstd::prelude::*;

use crate::command_builder::builder::FfmpegCommand;

verus! {

/// Runner for executing ffmpeg commands.
#[derive(Debug, Default)]
pub struct Runner;

/// Error types that can occur during command execution.
#[derive(Debug)]
pub enum ExecutionError {
    /// The command failed to execute
    CommandFailed(String),
    /// The command is invalid
    InvalidCommand(String),
}

/// What starting the program came to.
pub enum RunOutcome {
    /// The program could not be started; the text describes why.
    SpawnFailed(String),
    /// The program ran and exited; `status` describes its exit status.
    Exited { success: bool, status: String },
}

/// The text that describes an execution error.
pub open spec fn execution_error_text(e: &ExecutionError) -> Seq<char> {
    match e {
        ExecutionError::CommandFailed(msg) => "Command failed: "@ + msg@,
        ExecutionError::InvalidCommand(cmd) => "Invalid command: "@ + cmd@,
    }
}

impl ExecutionError {
    /// The text that describes this error.
    pub fn to_display_string(&self) -> (r: String)
        ensures
            r@ == execution_error_text(self),
    {
        let (prefix, msg) = match self {
            ExecutionError::CommandFailed(msg) => ("Command failed: ", msg),
            ExecutionError::InvalidCommand(cmd) => ("Invalid command: ", cmd),
        };
        let mut text = String::from_str(prefix);
        text.append(msg.as_str());
        text
    }
}

impl Runner {
    /// Creates a new command runner.
    pub fn new() -> (r: Self)
        ensures
            r == Runner,
    {
        Runner
    }

    /// Decides whether `cmd` may be started, once the probe for ffmpeg has
    /// answered: not where ffmpeg is unavailable, nor where the command has
    /// no arguments.
    pub fn check_before_run(&self, ffmpeg_available: bool, cmd: &FfmpegCommand) -> (r: Result<
        (),
        ExecutionError,
    >)
        ensures
            !ffmpeg_available ==> (r matches Err(ExecutionError::CommandFailed(m)) && m@
                == "ffmpeg is not available in PATH"@),
            ffmpeg_available && cmd.args@.len() == 0 ==> (r matches Err(
                ExecutionError::InvalidCommand(m),
            ) && m@ == "Command has no arguments"@),
            ffmpeg_available && cmd.args@.len() > 0 ==> r is Ok,
    {
        if !ffmpeg_available {
            return Err(ExecutionError::CommandFailed(String::from_str("ffmpeg is not available in PATH")));
        }
        if cmd.args.len() == 0 {
            return Err(ExecutionError::InvalidCommand(String::from_str("Command has no arguments")));
        }
        Ok(())
    }

    /// Decides the result of execution from what running the program came to.
    pub fn conclude(&self, outcome: RunOutcome) -> (r: Result<(), ExecutionError>)
        ensures
            match outcome {
                RunOutcome::SpawnFailed(why) => r matches Err(ExecutionError::CommandFailed(m))
                    && m@ == "Failed to execute command: "@ + why@,
                RunOutcome::Exited { success, status } => if success {
                    r is Ok
                } else {
                    r matches Err(ExecutionError::CommandFailed(m)) && m@
                        == "Command exited with status: "@ + status@
                },
            },
    {
        match outcome {
            RunOutcome::SpawnFailed(why) => {
                let mut msg = String::from_str("Failed to execute command: ");
                msg.append(why.as_str());
                Err(ExecutionError::CommandFailed(msg))
            },
            RunOutcome::Exited { success, status } => {
                if success {
                    Ok(())
                } else {
                    let mut msg = String::from_str("Command exited with status: ");
                    msg.append(status.as_str());
                    Err(ExecutionError::CommandFailed(msg))
                }
            },
        }
    }
}

} // verus!
