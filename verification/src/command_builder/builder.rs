//! The ffmpeg command that each intent translates to.

use vstd::prelude::*;

use crate::errors::FfError;
use crate::grammar::text::contains_text;
use crate::intent::types::{Intent, OperationType};

verus! {

/// A structured ffmpeg command: the program and its arguments, with no
/// string parsing needed downstream.
#[derive(Debug, Clone, PartialEq)]
pub struct FfmpegCommand {
    pub program: String,
    pub args: Vec<String>,
}

/// The arguments as character sequences.
pub open spec fn arg_views(args: Seq<String>) -> Seq<Seq<char>> {
    args.map_values(|a: String| a@)
}

/// An argument between double quotes.
pub open spec fn quoted(a: Seq<char>) -> Seq<char> {
    seq!['"'] + a + seq!['"']
}

/// The program followed by each argument quoted, separated by single spaces.
pub open spec fn display_line(program: Seq<char>, args: Seq<Seq<char>>) -> Seq<char>
    decreases args.len(),
{
    if args.len() == 0 {
        program
    } else {
        display_line(program, args.drop_last()) + seq![' '] + quoted(args.last())
    }
}

/// The value of parameter `name`, or `default` where it is not set.
pub open spec fn param_or(
    params: Map<Seq<char>, Seq<char>>,
    name: Seq<char>,
    default: Seq<char>,
) -> Seq<char> {
    if params.contains_key(name) {
        params[name]
    } else {
        default
    }
}

/// The ffmpeg arguments for an operation on `input`, writing `output`.
pub open spec fn command_args(
    operation: OperationType,
    input: Seq<char>,
    output: Seq<char>,
    params: Map<Seq<char>, Seq<char>>,
) -> Seq<Seq<char>> {
    match operation {
        OperationType::Convert => seq!["-i"@, input, output],
        OperationType::Resize => seq![
            "-i"@,
            input,
            "-vf"@,
            "scale="@ + param_or(params, "width"@, "1920"@) + ":"@ + param_or(
                params,
                "height"@,
                "1080"@,
            ),
            output,
        ],
        OperationType::Transcode => seq![
            "-i"@,
            input,
            "-c:v"@,
            param_or(params, "vcodec"@, "libx264"@),
            "-c:a"@,
            param_or(params, "acodec"@, "aac"@),
            output,
        ],
        OperationType::ExtractAudio => seq![
            "-i"@,
            input,
            "-q:a"@,
            "0"@,
            "-map"@,
            "a"@,
            output,
        ],
    }
}

/// Every command reads its input with `-i` first and writes its output
/// last.
pub proof fn law_command_reads_input_writes_output(
    operation: OperationType,
    input: Seq<char>,
    output: Seq<char>,
    params: Map<Seq<char>, Seq<char>>,
)
    ensures
        ({
            let args = command_args(operation, input, output, params);
            &&& args.len() >= 3
            &&& args[0] == "-i"@
            &&& args[1] == input
            &&& args.last() == output
        }),
{
}

/// The display line starts with the program and shows every argument
/// between double quotes.
pub proof fn law_display_line_shows_program_and_arguments(
    program: Seq<char>,
    args: Seq<Seq<char>>,
)
    ensures
        program.len() <= display_line(program, args).len(),
        display_line(program, args).subrange(0, program.len() as int) == program,
        forall|i: int|
            0 <= i < args.len() ==> contains_text(
                display_line(program, args),
                #[trigger] quoted(args[i]),
            ),
    decreases args.len(),
{
    if args.len() > 0 {
        let rest = args.drop_last();
        law_display_line_shows_program_and_arguments(program, rest);
        let d = display_line(program, rest);
        let tail = seq![' '] + quoted(args.last());
        let line = display_line(program, args);
        assert(line == d + tail);
        assert(line.subrange(0, program.len() as int) =~= d.subrange(0, program.len() as int));
        assert forall|i: int| 0 <= i < args.len() implies contains_text(
            line,
            #[trigger] quoted(args[i]),
        ) by {
            let q = quoted(args[i]);
            if i < args.len() - 1 {
                assert(rest[i] == args[i]);
                assert(contains_text(d, quoted(rest[i])));
                let k = choose|k: int|
                    0 <= k <= d.len() - q.len() && #[trigger] d.subrange(k, k + q.len()) == q;
                assert(line.subrange(k, k + q.len()) =~= d.subrange(k, k + q.len()));
            } else {
                let k: int = d.len() as int + 1;
                assert(line.subrange(k, k + q.len()) =~= q);
            }
        }
    }
}

/// A resize scales to the width and the height given, each looked up on its
/// own: a given width or height is used whatever else is set, and a missing
/// one is 1920 wide or 1080 high.
pub proof fn law_resize_reads_width_and_height_independently(
    input: Seq<char>,
    output: Seq<char>,
    params: Map<Seq<char>, Seq<char>>,
)
    ensures
        ({
            let args = command_args(OperationType::Resize, input, output, params);
            let width = if params.contains_key("width"@) {
                params["width"@]
            } else {
                "1920"@
            };
            let height = if params.contains_key("height"@) {
                params["height"@]
            } else {
                "1080"@
            };
            &&& args.len() == 5
            &&& args[2] == "-vf"@
            &&& args[3] == "scale="@ + width + ":"@ + height
        }),
{
}

/// A transcode sets the video codec after `-c:v` and the audio codec after
/// `-c:a`, each looked up on its own: a given codec is used whatever else is
/// set, and a missing one is `libx264` for video or `aac` for audio.
pub proof fn law_transcode_reads_each_codec_independently(
    input: Seq<char>,
    output: Seq<char>,
    params: Map<Seq<char>, Seq<char>>,
)
    ensures
        ({
            let args = command_args(OperationType::Transcode, input, output, params);
            &&& args.len() == 7
            &&& args[2] == "-c:v"@
            &&& args[3] == if params.contains_key("vcodec"@) {
                params["vcodec"@]
            } else {
                "libx264"@
            }
            &&& args[4] == "-c:a"@
            &&& args[5] == if params.contains_key("acodec"@) {
                params["acodec"@]
            } else {
                "aac"@
            }
        }),
{
}

/// A conversion reads the input and writes the output with nothing else,
/// and extracting audio maps the audio stream at the best variable quality.
pub proof fn law_convert_and_extract_audio_arguments(
    input: Seq<char>,
    output: Seq<char>,
    params: Map<Seq<char>, Seq<char>>,
)
    ensures
        command_args(OperationType::Convert, input, output, params) =~= seq!["-i"@, input, output],
        command_args(OperationType::ExtractAudio, input, output, params) =~= seq![
            "-i"@,
            input,
            "-q:a"@,
            "0"@,
            "-map"@,
            "a"@,
            output,
        ],
{
}

impl FfmpegCommand {
    /// Human-readable display string, printed before execution: the program
    /// and every argument in double quotes, separated by spaces.
    pub fn to_display_string(&self) -> (r: String)
        ensures
            r@ == display_line(self.program@, arg_views(self.args@)),
    {
        let ghost args = arg_views(self.args@);
        let mut line = self.program.clone();
        let mut i: usize = 0;
        while i < self.args.len()
            invariant
                i <= self.args.len(),
                args == arg_views(self.args@),
                line@ == display_line(self.program@, args.take(i as int)),
            decreases self.args.len() - i,
        {
            line.append(" \"");
            line.append(self.args[i].as_str());
            line.append("\"");
            proof {
                reveal_strlit(" \"");
                reveal_strlit("\"");
                assert(args.take(i + 1).drop_last() =~= args.take(i as int));
                assert(line@ =~= display_line(self.program@, args.take(i + 1)));
            }
            i += 1;
        }
        assert(args.take(i as int) =~= args);
        line
    }
}

/// Command builder for converting intents into ffmpeg commands.
#[derive(Debug, Default)]
pub struct CommandBuilder;

impl CommandBuilder {
    /// Creates a new command builder.
    pub fn new() -> (b: Self)
        ensures
            b == CommandBuilder,
    {
        CommandBuilder
    }

    /// Builds the ffmpeg command for the given intent, writing to the
    /// intent's own output path.
    pub fn build_command(&self, intent: &Intent) -> (r: Result<FfmpegCommand, FfError>)
        ensures
            match r {
                Ok(cmd) => cmd.program@ == "ffmpeg"@ && arg_views(cmd.args@) == command_args(
                    intent.operation,
                    intent.input_path@,
                    intent.output_path@,
                    intent.parameters@,
                ),
                Err(_) => false,
            },
    {
        self.build_command_with_output_path(intent, intent.output_path.clone())
    }

    /// The value of the parameter `name`, or `default`.
    fn param_or_default(intent: &Intent, name: &str, default: &str) -> (r: String)
        ensures
            r@ == param_or(intent.parameters@, name@, default@),
    {
        let key = String::from_str(name);
        match intent.parameters.get(&key) {
            Some(v) => v.clone(),
            None => String::from_str(default),
        }
    }

    /// Builds the ffmpeg command for the given intent, writing to `output_path`.
    pub fn build_command_with_output_path(&self, intent: &Intent, output_path: String) -> (r:
        Result<FfmpegCommand, FfError>)
        ensures
            match r {
                Ok(cmd) => cmd.program@ == "ffmpeg"@ && arg_views(cmd.args@) == command_args(
                    intent.operation,
                    intent.input_path@,
                    output_path@,
                    intent.parameters@,
                ),
                Err(_) => false,
            },
    {
        let input_path = intent.input_path.clone();
        let args: Vec<String> = match intent.operation {
            OperationType::Convert => {
                vec![String::from_str("-i"), input_path, output_path]
            },
            OperationType::Resize => {
                let width = Self::param_or_default(intent, "width", "1920");
                let height = Self::param_or_default(intent, "height", "1080");
                let mut scale = String::from_str("scale=");
                scale.append(width.as_str());
                scale.append(":");
                scale.append(height.as_str());
                vec![
                    String::from_str("-i"),
                    input_path,
                    String::from_str("-vf"),
                    scale,
                    output_path,
                ]
            },
            OperationType::Transcode => {
                let video_codec = Self::param_or_default(intent, "vcodec", "libx264");
                let audio_codec = Self::param_or_default(intent, "acodec", "aac");
                vec![
                    String::from_str("-i"),
                    input_path,
                    String::from_str("-c:v"),
                    video_codec,
                    String::from_str("-c:a"),
                    audio_codec,
                    output_path,
                ]
            },
            OperationType::ExtractAudio => {
                vec![
                    String::from_str("-i"),
                    input_path,
                    String::from_str("-q:a"),
                    String::from_str("0"),
                    String::from_str("-map"),
                    String::from_str("a"),
                    output_path,
                ]
            },
        };
        let cmd = FfmpegCommand { program: String::from_str("ffmpeg"), args };
        assert(arg_views(cmd.args@) =~= command_args(
            intent.operation,
            intent.input_path@,
            output_path@,
            intent.parameters@,
        ));
        Ok(cmd)
    }
}

} // verus!
