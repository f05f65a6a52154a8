use ffrs::frontend::{check_input_file, exit_code_of, guidance, Guidance};
use ffrs::FfError;

#[test]
fn test_exit_codes() {
    assert_eq!(FfError::UserInput("bad input".into()).exit_code(), 1);
    assert_eq!(
        FfError::ExecutionFailure("ffmpeg failed".into()).exit_code(),
        2
    );
    assert_eq!(FfError::Internal("unexpected bug".into()).exit_code(), 3);
}

#[test]
fn test_display() {
    assert_eq!(
        FfError::UserInput("file not found".into()).to_display_string(),
        "Input error: file not found"
    );
    assert_eq!(
        FfError::ExecutionFailure("not in PATH".into()).to_display_string(),
        "Execution error: not in PATH"
    );
    assert_eq!(
        FfError::Internal("panic".into()).to_display_string(),
        "Internal error: panic"
    );
}

#[test]
fn direct_mode_exit_codes() {
    assert_eq!(exit_code_of(&Ok(())), 0);
    assert_eq!(exit_code_of(&Err(FfError::UserInput("x".into()))), 1);
    assert_eq!(exit_code_of(&Err(FfError::ExecutionFailure("x".into()))), 2);
    assert_eq!(exit_code_of(&Err(FfError::Internal("x".into()))), 3);
}

#[test]
fn guidance_for_each_error() {
    assert_eq!(
        guidance(&FfError::UserInput("Input file does not exist: a.mp4".into())),
        Guidance::CheckInputPath
    );
    assert_eq!(
        guidance(&FfError::UserInput("file not found".into())),
        Guidance::CheckInputPath
    );
    assert_eq!(
        guidance(&FfError::UserInput("Unsupported format: .xyz".into())),
        Guidance::CheckFormats
    );
    assert_eq!(
        guidance(&FfError::UserInput("could not understand".into())),
        Guidance::CheckCommandForm
    );
    assert_eq!(
        guidance(&FfError::ExecutionFailure("Command failed: ffmpeg is not available in PATH".into())),
        Guidance::InstallFfmpeg
    );
    assert_eq!(
        guidance(&FfError::ExecutionFailure("Command exited with status: 1".into())),
        Guidance::CheckFfmpegOutput
    );
    assert_eq!(guidance(&FfError::Internal("oops".into())), Guidance::ReportBug);
}

#[test]
fn guidance_lines_text() {
    assert_eq!(
        Guidance::CheckCommandForm.lines(),
        vec![
            "Guidance: Make sure your command follows the format 'convert <input> to <output>' or similar.",
            "Example: 'convert video.mp4 to video.avi'",
        ]
    );
    assert_eq!(
        Guidance::InstallFfmpeg.lines(),
        vec!["Guidance: Install ffmpeg and ensure it is accessible in your PATH."]
    );
    assert_eq!(Guidance::CheckInputPath.lines().len(), 1);
}

#[test]
fn missing_input_file_errors() {
    match check_input_file(false, false, "a.mp4") {
        Err(FfError::UserInput(m)) => assert_eq!(m, "Input file does not exist: a.mp4"),
        _ => panic!("expected a user input error"),
    }
    match check_input_file(true, false, "dir") {
        Err(FfError::UserInput(m)) => assert_eq!(m, "Input path is not a file: dir"),
        _ => panic!("expected a user input error"),
    }
    assert!(check_input_file(true, true, "a.mp4").is_ok());
}
