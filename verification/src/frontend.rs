//! Decisions of the command-line front end: what a line typed in the
//! interactive mode asks for, which guidance follows an error, and which
//! error a missing input file gives.

use vstd::prelude::*;

use crate::command_builder::builder::arg_views;
use crate::errors::{spec_exit_code, FfError};
use crate::grammar::text::{
    ascii_fold,
    char_is_whitespace,
    chars_of,
    contains_text,
    is_whitespace,
    string_from_chars,
    text_contains,
};
use crate::grammar::tokenizer::{lemma_whitespace_end, whitespace_end};

verus! {

/// The end of `s` once trailing whitespace before position `e` is dropped.
pub open spec fn trailing_whitespace_start(s: Seq<char>, e: int) -> int
    decreases e,
{
    if 0 < e <= s.len() && char_is_whitespace(s[e - 1]) {
        trailing_whitespace_start(s, e - 1)
    } else {
        e
    }
}

/// `s` without its leading and trailing whitespace.
pub open spec fn trimmed(s: Seq<char>) -> Seq<char> {
    let start = whitespace_end(s, 0);
    if start >= s.len() {
        Seq::empty()
    } else {
        s.subrange(start, trailing_whitespace_start(s, s.len() as int))
    }
}

proof fn lemma_trailing_whitespace_start(s: Seq<char>, e: int, start: int)
    requires
        0 <= start < e <= s.len(),
        !char_is_whitespace(s[start]),
    ensures
        start < trailing_whitespace_start(s, e) <= e,
    decreases e,
{
    if 0 < e <= s.len() && char_is_whitespace(s[e - 1]) {
        lemma_trailing_whitespace_start(s, e - 1, start);
    }
}

proof fn lemma_trailing_whitespace_start_le(s: Seq<char>, e: int)
    ensures
        trailing_whitespace_start(s, e) <= e,
    decreases e,
{
    if 0 < e <= s.len() && char_is_whitespace(s[e - 1]) {
        lemma_trailing_whitespace_start_le(s, e - 1);
    }
}

/// `s` without its leading and trailing whitespace, as `str::trim` gives it:
/// whitespace is the Unicode `White_Space` property that `char::is_whitespace`
/// decides.
pub fn trim(s: &str) -> (r: String)
    ensures
        r@ == trimmed(s@),
{
    let cs = chars_of(s);
    let mut start: usize = 0;
    while start < cs.len() && is_whitespace(cs[start])
        invariant
            cs@ == s@,
            start <= cs.len(),
            whitespace_end(s@, start as int) == whitespace_end(s@, 0),
        decreases cs.len() - start,
    {
        start += 1;
    }
    if start >= cs.len() {
        return string_from_chars(&cs.as_slice()[0..0]);
    }
    let mut end: usize = cs.len();
    proof {
        lemma_trailing_whitespace_start(s@, end as int, start as int);
    }
    while end > start && is_whitespace(cs[end - 1])
        invariant
            cs@ == s@,
            start < cs.len(),
            start <= end <= cs.len(),
            !char_is_whitespace(s@[start as int]),
            trailing_whitespace_start(s@, end as int) == trailing_whitespace_start(
                s@,
                s@.len() as int,
            ),
        decreases end,
    {
        end -= 1;
    }
    proof {
        lemma_trailing_whitespace_start(s@, s@.len() as int, start as int);
        lemma_trailing_whitespace_start_le(s@, end as int);
        assert(start == whitespace_end(s@, 0));
        assert(end == trailing_whitespace_start(s@, end as int));
    }
    string_from_chars(&cs.as_slice()[start..end])
}

/// Whether `a` and `b` match when ASCII letters are compared without case.
pub open spec fn eq_ignore_ascii_case(a: Seq<char>, b: Seq<char>) -> bool {
    a.len() == b.len() && forall|i: int| 0 <= i < a.len() ==> ascii_fold(#[trigger] a[i])
        == ascii_fold(b[i])
}

fn ascii_lower(c: char) -> (r: char)
    ensures
        r == ascii_fold(c),
{
    if 'A' <= c && c <= 'Z' {
        ((c as u8) + 32) as char
    } else {
        c
    }
}

/// Whether `a` and `b` are an ASCII case-insensitive match.
pub fn text_eq_ignore_ascii_case(a: &str, b: &str) -> (r: bool)
    ensures
        r == eq_ignore_ascii_case(a@, b@),
{
    let xs = chars_of(a);
    let ys = chars_of(b);
    if xs.len() != ys.len() {
        return false;
    }
    let mut i: usize = 0;
    while i < xs.len()
        invariant
            xs@ == a@,
            ys@ == b@,
            xs.len() == ys.len(),
            i <= xs.len(),
            forall|k: int| 0 <= k < i ==> ascii_fold(#[trigger] a@[k]) == ascii_fold(b@[k]),
        decreases xs.len() - i,
    {
        if ascii_lower(xs[i]) != ascii_lower(ys[i]) {
            return false;
        }
        i += 1;
    }
    true
}

/// What a line typed in the interactive mode asks for.
#[derive(Debug)]
pub enum LineAction {
    /// Leave the interactive mode.
    Quit,
    /// Nothing to do: the line is blank.
    Skip,
    /// Process the command, the line without surrounding whitespace.
    Run(String),
}

/// A line action with the command as a sequence of characters.
pub enum LineActionView {
    Quit,
    Skip,
    Run(Seq<char>),
}

impl View for LineAction {
    type V = LineActionView;

    open spec fn view(&self) -> LineActionView {
        match self {
            LineAction::Quit => LineActionView::Quit,
            LineAction::Skip => LineActionView::Skip,
            LineAction::Run(command) => LineActionView::Run(command@),
        }
    }
}

/// What the interactive mode does with the line `line`: it quits on `quit`
/// or `exit` in any ASCII case, skips blank lines, and runs anything else,
/// each once surrounding whitespace is dropped.
pub open spec fn line_action(line: Seq<char>) -> LineActionView {
    let t = trimmed(line);
    if eq_ignore_ascii_case(t, "quit"@) || eq_ignore_ascii_case(t, "exit"@) {
        LineActionView::Quit
    } else if t.len() == 0 {
        LineActionView::Skip
    } else {
        LineActionView::Run(t)
    }
}

/// A line that runs a command runs the line as typed, with only its leading
/// and trailing whitespace dropped: the command is a run of the line's own
/// characters, unchanged, that starts and ends with a character other than
/// whitespace and has nothing but whitespace around it.
pub proof fn law_run_keeps_the_line_as_typed(line: Seq<char>)
    ensures
        line_action(line) matches LineActionView::Run(c) ==> exists|a: int, b: int|
            #![trigger line.subrange(a, b)]
            {
                &&& 0 <= a < b <= line.len()
                &&& c == line.subrange(a, b)
                &&& !char_is_whitespace(line[a])
                &&& !char_is_whitespace(line[b - 1])
                &&& forall|i: int| 0 <= i < a ==> char_is_whitespace(#[trigger] line[i])
                &&& forall|i: int| b <= i < line.len() ==> char_is_whitespace(#[trigger] line[i])
            },
{
    let a = whitespace_end(line, 0);
    lemma_whitespace_end(line, 0);
    lemma_leading_whitespace(line, 0);
    if a < line.len() {
        let n = line.len() as int;
        let b = trailing_whitespace_start(line, n);
        lemma_trailing_whitespace_start(line, n, a);
        lemma_trailing_whitespace(line, n);
        assert(line.subrange(a, b) == trimmed(line));
    }
}

/// The characters that `whitespace_end` passes over are whitespace.
proof fn lemma_leading_whitespace(s: Seq<char>, p: int)
    requires
        0 <= p,
    ensures
        forall|i: int| p <= i < whitespace_end(s, p) ==> char_is_whitespace(#[trigger] s[i]),
    decreases s.len() - p,
{
    if 0 <= p < s.len() && char_is_whitespace(s[p]) {
        lemma_leading_whitespace(s, p + 1);
    }
}

/// The characters that `trailing_whitespace_start` passes over are
/// whitespace, and the one before where it stops is not.
proof fn lemma_trailing_whitespace(s: Seq<char>, e: int)
    requires
        0 <= e <= s.len(),
    ensures
        forall|i: int| trailing_whitespace_start(s, e) <= i < e ==> char_is_whitespace(#[trigger] s[i]),
        0 < trailing_whitespace_start(s, e) ==> !char_is_whitespace(s[trailing_whitespace_start(s, e) - 1]),
    decreases e,
{
    if 0 < e && char_is_whitespace(s[e - 1]) {
        lemma_trailing_whitespace(s, e - 1);
    }
}

/// Decides what the interactive mode does with a line of input.
pub fn interactive_action(line: &str) -> (a: LineAction)
    ensures
        a@ == line_action(line@),
{
    let input = trim(line);
    if text_eq_ignore_ascii_case(input.as_str(), "quit") || text_eq_ignore_ascii_case(
        input.as_str(),
        "exit",
    ) {
        LineAction::Quit
    } else if input.as_str().is_empty() {
        LineAction::Skip
    } else {
        LineAction::Run(input)
    }
}

/// The advice that follows an error.
#[derive(Debug, Clone, Copy, PartialEq, Eq, Structural)]
pub enum Guidance {
    /// The input file is missing.
    CheckInputPath,
    /// A format is not supported.
    CheckFormats,
    /// The command does not follow the expected form.
    CheckCommandForm,
    /// ffmpeg cannot be found.
    InstallFfmpeg,
    /// ffmpeg failed.
    CheckFfmpegOutput,
    /// An internal error.
    ReportBug,
}

/// Which advice follows an error, by its kind and by what its message says.
pub open spec fn spec_guidance(err: &FfError) -> Guidance {
    match err {
        FfError::UserInput(msg) => if contains_text(msg@, "not exist"@) || contains_text(
            msg@,
            "not found"@,
        ) {
            Guidance::CheckInputPath
        } else if contains_text(msg@, "Unsupported format"@) {
            Guidance::CheckFormats
        } else {
            Guidance::CheckCommandForm
        },
        FfError::ExecutionFailure(msg) => if contains_text(msg@, "not available"@) {
            Guidance::InstallFfmpeg
        } else {
            Guidance::CheckFfmpegOutput
        },
        FfError::Internal(_) => Guidance::ReportBug,
    }
}

/// The lines of text that give each advice.
pub open spec fn guidance_lines(g: Guidance) -> Seq<Seq<char>> {
    match g {
        Guidance::CheckInputPath => seq![
            "Guidance: Make sure the input file path is correct and the file exists."@,
        ],
        Guidance::CheckFormats => seq![
            "Guidance: Check supported formats: MP4, AVI, MOV, WMV, MKV, WebM, MP3, WAV, FLAC, JPG, PNG, GIF"@,
        ],
        Guidance::CheckCommandForm => seq![
            "Guidance: Make sure your command follows the format 'convert <input> to <output>' or similar."@,
            "Example: 'convert video.mp4 to video.avi'"@,
        ],
        Guidance::InstallFfmpeg => seq![
            "Guidance: Install ffmpeg and ensure it is accessible in your PATH."@,
        ],
        Guidance::CheckFfmpegOutput => seq![
            "Guidance: Check ffmpeg output above for details. Input file may be corrupted or format may be invalid."@,
        ],
        Guidance::ReportBug => seq![
            "Guidance: This is an unexpected bug. Please report it at https://github.com/darkterminal/ffrs/issues"@,
        ],
    }
}

/// Decides which advice follows an error.
pub fn guidance(err: &FfError) -> (g: Guidance)
    ensures
        g == spec_guidance(err),
{
    match err {
        FfError::UserInput(msg) => {
            if text_contains(msg.as_str(), "not exist") || text_contains(msg.as_str(), "not found") {
                Guidance::CheckInputPath
            } else if text_contains(msg.as_str(), "Unsupported format") {
                Guidance::CheckFormats
            } else {
                Guidance::CheckCommandForm
            }
        },
        FfError::ExecutionFailure(msg) => {
            if text_contains(msg.as_str(), "not available") {
                Guidance::InstallFfmpeg
            } else {
                Guidance::CheckFfmpegOutput
            }
        },
        FfError::Internal(_) => Guidance::ReportBug,
    }
}

impl Guidance {
    /// The lines of text that give this advice, one per line of output.
    pub fn lines(&self) -> (r: Vec<String>)
        ensures
            arg_views(r@) == guidance_lines(*self),
    {
        let r = match self {
            Guidance::CheckInputPath => vec![
                String::from_str(
                    "Guidance: Make sure the input file path is correct and the file exists.",
                ),
            ],
            Guidance::CheckFormats => vec![
                String::from_str(
                    "Guidance: Check supported formats: MP4, AVI, MOV, WMV, MKV, WebM, MP3, WAV, FLAC, JPG, PNG, GIF",
                ),
            ],
            Guidance::CheckCommandForm => vec![
                String::from_str(
                    "Guidance: Make sure your command follows the format 'convert <input> to <output>' or similar.",
                ),
                String::from_str("Example: 'convert video.mp4 to video.avi'"),
            ],
            Guidance::InstallFfmpeg => vec![
                String::from_str("Guidance: Install ffmpeg and ensure it is accessible in your PATH."),
            ],
            Guidance::CheckFfmpegOutput => vec![
                String::from_str(
                    "Guidance: Check ffmpeg output above for details. Input file may be corrupted or format may be invalid.",
                ),
            ],
            Guidance::ReportBug => vec![
                String::from_str(
                    "Guidance: This is an unexpected bug. Please report it at https://github.com/darkterminal/ffrs/issues",
                ),
            ],
        };
        assert(arg_views(r@) =~= guidance_lines(*self));
        r
    }
}

/// Checks the input file before anything runs: it must exist and be a file.
/// `shown` is the path as it is shown to the user.
pub fn check_input_file(exists: bool, is_file: bool, shown: &str) -> (r: Result<(), FfError>)
    ensures
        !exists ==> (r matches Err(FfError::UserInput(m)) && m@ == "Input file does not exist: "@
            + shown@),
        exists && !is_file ==> (r matches Err(FfError::UserInput(m)) && m@
            == "Input path is not a file: "@ + shown@),
        exists && is_file ==> r is Ok,
{
    if !exists {
        let mut msg = String::from_str("Input file does not exist: ");
        msg.append(shown);
        return Err(FfError::UserInput(msg));
    }
    if !is_file {
        let mut msg = String::from_str("Input path is not a file: ");
        msg.append(shown);
        return Err(FfError::UserInput(msg));
    }
    Ok(())
}

/// The process exit code that the result of a command in the direct mode
/// gives: 0 on success, else the error's own code.
pub fn exit_code_of(result: &Result<(), FfError>) -> (code: i32)
    ensures
        code == match result {
            Ok(_) => 0,
            Err(e) => spec_exit_code(e),
        },
{
    match result {
        Ok(_) => 0,
        Err(e) => e.exit_code(),
    }
}

} // verus!
