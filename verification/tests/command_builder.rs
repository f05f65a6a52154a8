use ffrs::{CommandBuilder, FfmpegCommand, Intent, OperationType, Parameters};

fn intent(operation: OperationType, input: &str, output: &str, params: Parameters) -> Intent {
    Intent {
        operation,
        input_path: input.to_string(),
        output_path: output.to_string(),
        parameters: params,
    }
}

#[test]
fn test_build_convert_command() {
    let builder = CommandBuilder::new();
    let intent = Intent {
        operation: OperationType::Convert,
        input_path: "input.mp4".to_string(),
        output_path: "output.avi".to_string(),
        parameters: Parameters::new(),
    };
    let cmd = builder.build_command(&intent).unwrap();
    assert_eq!(cmd.program, "ffmpeg");
    assert_eq!(cmd.args, vec!["-i", "input.mp4", "output.avi"]);
    assert_eq!(
        cmd.to_display_string(),
        "ffmpeg \"-i\" \"input.mp4\" \"output.avi\""
    );
}

#[test]
fn test_build_resize_command() {
    let builder = CommandBuilder::new();
    let mut params = Parameters::new();
    params.insert("width".to_string(), "1280".to_string());
    params.insert("height".to_string(), "720".to_string());
    let intent = Intent {
        operation: OperationType::Resize,
        input_path: "input.mp4".to_string(),
        output_path: "output.mp4".to_string(),
        parameters: params,
    };
    let cmd = builder.build_command(&intent).unwrap();
    assert_eq!(cmd.program, "ffmpeg");
    assert_eq!(
        cmd.args,
        vec!["-i", "input.mp4", "-vf", "scale=1280:720", "output.mp4"]
    );
}

#[test]
fn resize_uses_default_size() {
    let cmd = CommandBuilder::new()
        .build_command(&intent(OperationType::Resize, "a.mp4", "b.mp4", Parameters::new()))
        .unwrap();
    assert_eq!(cmd.args, vec!["-i", "a.mp4", "-vf", "scale=1920:1080", "b.mp4"]);
}

#[test]
fn resize_with_width_only_keeps_default_height() {
    let mut params = Parameters::new();
    params.insert("width".to_string(), "640".to_string());
    let cmd = CommandBuilder::new()
        .build_command(&intent(OperationType::Resize, "a.mp4", "b.mp4", params))
        .unwrap();
    assert_eq!(cmd.args[3], "scale=640:1080");
}

#[test]
fn transcode_uses_default_codecs() {
    let cmd = CommandBuilder::new()
        .build_command(&intent(OperationType::Transcode, "in.mov", "out.mp4", Parameters::new()))
        .unwrap();
    assert_eq!(
        cmd.args,
        vec!["-i", "in.mov", "-c:v", "libx264", "-c:a", "aac", "out.mp4"]
    );
}

#[test]
fn transcode_uses_given_codecs() {
    let mut params = Parameters::new();
    params.insert("vcodec".to_string(), "libx265".to_string());
    params.insert("acodec".to_string(), "opus".to_string());
    let cmd = CommandBuilder::new()
        .build_command(&intent(OperationType::Transcode, "in.mov", "out.mkv", params))
        .unwrap();
    assert_eq!(
        cmd.args,
        vec!["-i", "in.mov", "-c:v", "libx265", "-c:a", "opus", "out.mkv"]
    );
}

#[test]
fn extract_audio_command() {
    let cmd = CommandBuilder::new()
        .build_command(&intent(OperationType::ExtractAudio, "clip.mp4", "clip.mp3", Parameters::new()))
        .unwrap();
    assert_eq!(
        cmd.args,
        vec!["-i", "clip.mp4", "-q:a", "0", "-map", "a", "clip.mp3"]
    );
    assert_eq!(cmd.program, "ffmpeg");
}

#[test]
fn output_path_overrides_intent_output() {
    let i = intent(OperationType::Convert, "v.mp4", "v.avi", Parameters::new());
    let cmd = CommandBuilder::new()
        .build_command_with_output_path(&i, "/tmp/out/v.avi".to_string())
        .unwrap();
    assert_eq!(cmd.args, vec!["-i", "v.mp4", "/tmp/out/v.avi"]);
}

#[test]
fn build_command_equals_build_with_own_output() {
    let i = intent(OperationType::Transcode, "x.mp4", "y.mkv", Parameters::new());
    let builder = CommandBuilder::new();
    let a = builder.build_command(&i).unwrap();
    let b = builder.build_command_with_output_path(&i, "y.mkv".to_string()).unwrap();
    assert_eq!(a, b);
}

#[test]
fn every_command_reads_input_first_and_writes_output_last() {
    for op in [
        OperationType::Convert,
        OperationType::Resize,
        OperationType::Transcode,
        OperationType::ExtractAudio,
    ] {
        let cmd = CommandBuilder::new()
            .build_command(&intent(op, "in.wav", "out.flac", Parameters::new()))
            .unwrap();
        assert_eq!(cmd.args[0], "-i");
        assert_eq!(cmd.args[1], "in.wav");
        assert_eq!(cmd.args.last().unwrap(), "out.flac");
    }
}

#[test]
fn display_string_quotes_every_argument() {
    let cmd = FfmpegCommand {
        program: "ffmpeg".to_string(),
        args: vec!["-i".to_string(), "my video.mp4".to_string(), "out.avi".to_string()],
    };
    let line = cmd.to_display_string();
    assert_eq!(line, "ffmpeg \"-i\" \"my video.mp4\" \"out.avi\"");
    assert!(line.starts_with("ffmpeg"));
    assert!(line.contains("\"my video.mp4\""));
}

#[test]
fn display_string_without_arguments_is_the_program() {
    let cmd = FfmpegCommand { program: "ffmpeg".to_string(), args: Vec::new() };
    assert_eq!(cmd.to_display_string(), "ffmpeg");
}

#[test]
fn display_string_is_deterministic() {
    let i = intent(OperationType::Convert, "video.mp4", "video.avi", Parameters::new());
    let a = CommandBuilder::new().build_command(&i).unwrap().to_display_string();
    let b = CommandBuilder::new().build_command(&i).unwrap().to_display_string();
    assert_eq!(a, b);
    assert_eq!(a, "ffmpeg \"-i\" \"video.mp4\" \"video.avi\"");
}
