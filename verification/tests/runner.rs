use ffrs::executor::runner::{ExecutionError, RunOutcome};
use ffrs::{FfmpegCommand, Runner};

fn command(args: &[&str]) -> FfmpegCommand {
    FfmpegCommand {
        program: "ffmpeg".to_string(),
        args: args.iter().map(|a| a.to_string()).collect(),
    }
}

#[test]
fn test_runner_creation() {
    let runner = Runner::new();
    assert_eq!(format!("{:?}", runner), "Runner");
}

#[test]
fn unavailable_ffmpeg_fails() {
    match Runner::new().check_before_run(false, &command(&["-i", "a", "b"])) {
        Err(ExecutionError::CommandFailed(m)) => assert_eq!(m, "ffmpeg is not available in PATH"),
        other => panic!("unexpected {:?}", other),
    }
}

#[test]
fn command_without_arguments_is_invalid() {
    match Runner::new().check_before_run(true, &command(&[])) {
        Err(ExecutionError::InvalidCommand(m)) => assert_eq!(m, "Command has no arguments"),
        other => panic!("unexpected {:?}", other),
    }
    assert!(Runner::new().check_before_run(true, &command(&["-i", "a", "b"])).is_ok());
}

#[test]
fn run_outcomes() {
    let runner = Runner::new();
    assert!(runner
        .conclude(RunOutcome::Exited { success: true, status: "exit status: 0".to_string() })
        .is_ok());
    match runner.conclude(RunOutcome::Exited { success: false, status: "exit status: 1".to_string() }) {
        Err(ExecutionError::CommandFailed(m)) => assert_eq!(m, "Command exited with status: exit status: 1"),
        other => panic!("unexpected {:?}", other),
    }
    match runner.conclude(RunOutcome::SpawnFailed("No such file or directory".to_string())) {
        Err(ExecutionError::CommandFailed(m)) => {
            assert_eq!(m, "Failed to execute command: No such file or directory")
        }
        other => panic!("unexpected {:?}", other),
    }
}

#[test]
fn execution_error_display() {
    assert_eq!(
        ExecutionError::CommandFailed("boom".to_string()).to_display_string(),
        "Command failed: boom"
    );
    assert_eq!(
        ExecutionError::InvalidCommand("x".to_string()).to_display_string(),
        "Invalid command: x"
    );
}
