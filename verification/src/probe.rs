//! The media probe: what it is asked, and how its answer is read.
//!
//! The probe is an outside program. The caller runs it and hands over what
//! came back as a `ProbeRun`; this module says what duration or what failure
//! that stands for.

use crate::duration::{parse_duration, parsed, Duration, ParseError};
use crate::text::{decode, trim, trimmed};
use vstd::prelude::*;
use vstd::string::*;
use vstd::utf8::*;

verus! {

/// What came back from one run of the probe.
#[derive(Clone, Debug, PartialEq, Eq)]
pub enum ProbeRun {
    /// The probe could not be started; the text says why.
    NotStarted(String),
    /// The probe ran to its end.
    Finished {
        /// Whether it exited with status 0.
        success: bool,
        /// What it wrote to standard output.
        stdout: Vec<u8>,
        /// What it wrote to standard error.
        stderr: Vec<u8>,
    },
}

/// Why a file has no duration.
#[derive(Clone, Debug, PartialEq, Eq)]
pub enum ProbeError {
    /// The probe could not be started; the text says why.
    Launch(String),
    /// The probe exited with a status other than 0; the text is what it
    /// wrote to standard error, or `unknown error` where that is no text.
    Exit(String),
    /// The probe's output is not valid UTF-8.
    NotText,
    /// The probe's output is no duration.
    NotDuration(ParseError),
}

/// A `ProbeError` with its texts as sequences of characters.
pub enum ProbeErrorView {
    Launch(Seq<char>),
    Exit(Seq<char>),
    NotText,
    NotDuration(ParseError),
}

impl View for ProbeError {
    type V = ProbeErrorView;

    open spec fn view(&self) -> ProbeErrorView {
        match self {
            ProbeError::Launch(why) => ProbeErrorView::Launch(why@),
            ProbeError::Exit(why) => ProbeErrorView::Exit(why@),
            ProbeError::NotText => ProbeErrorView::NotText,
            ProbeError::NotDuration(e) => ProbeErrorView::NotDuration(*e),
        }
    }
}

/// A `ProbeRun` with its text and bytes as sequences.
pub enum ProbeRunView {
    NotStarted(Seq<char>),
    Finished { success: bool, stdout: Seq<u8>, stderr: Seq<u8> },
}

impl View for ProbeRun {
    type V = ProbeRunView;

    open spec fn view(&self) -> ProbeRunView {
        match self {
            ProbeRun::NotStarted(why) => ProbeRunView::NotStarted(why@),
            ProbeRun::Finished { success, stdout, stderr } => ProbeRunView::Finished {
                success: *success,
                stdout: stdout@,
                stderr: stderr@,
            },
        }
    }
}

/// What one probe came to: a duration in nanoseconds, or a failure.
pub type Outcome = Result<nat, ProbeErrorView>;

/// The outcome that a result of this library stands for.
pub open spec fn outcome_view(r: Result<Duration, ProbeError>) -> Outcome {
    match r {
        Ok(d) => Ok(d@),
        Err(e) => Err(e@),
    }
}

/// What a run of the probe stands for.
///
/// A probe that did not start, or did not exit with status 0, is a failure
/// whatever it wrote. Otherwise its output has to be UTF-8 text that, with
/// the white space at its ends taken off, is a decimal numeral of seconds.
pub open spec fn outcome_of(run: ProbeRunView) -> Outcome {
    match run {
        ProbeRunView::NotStarted(why) => Err(ProbeErrorView::Launch(why)),
        ProbeRunView::Finished { success, stdout, stderr } => {
            if !success {
                Err(
                    ProbeErrorView::Exit(
                        if valid_utf8(stderr) {
                            decode_utf8(stderr)
                        } else {
                            "unknown error"@
                        },
                    ),
                )
            } else if !valid_utf8(stdout) {
                Err(ProbeErrorView::NotText)
            } else {
                match parsed(trimmed(decode_utf8(stdout))) {
                    Ok(nanos) => Ok(nanos),
                    Err(e) => Err(ProbeErrorView::NotDuration(e)),
                }
            }
        },
    }
}

/// The words for a failure.
pub open spec fn error_text(e: ProbeErrorView) -> Seq<char> {
    match e {
        ProbeErrorView::Launch(why) => "Failed to execute ffprobe: "@ + why,
        ProbeErrorView::Exit(why) => "ffprobe failed with error: "@ + why,
        ProbeErrorView::NotText => "Failed to parse ffprobe output: invalid UTF-8"@,
        ProbeErrorView::NotDuration(ParseError::Malformed) =>
            "Failed to parse duration: not a decimal number"@,
        ProbeErrorView::NotDuration(ParseError::OutOfRange) =>
            "Failed to parse duration: number too large"@,
    }
}

/// The arguments that the probe is run with for `video_file`: they ask for
/// the container's duration alone, in seconds, as a bare number.
pub fn probe_args(video_file: &str) -> (args: Vec<String>)
    ensures
        args.deep_view() == seq![
            "-v"@,
            "error"@,
            "-show_entries"@,
            "format=duration"@,
            "-of"@,
            "default=noprint_wrappers=1:nokey=1"@,
            video_file@,
        ],
{
    let mut args: Vec<String> = Vec::new();
    args.push("-v".to_owned());
    args.push("error".to_owned());
    args.push("-show_entries".to_owned());
    args.push("format=duration".to_owned());
    args.push("-of".to_owned());
    args.push("default=noprint_wrappers=1:nokey=1".to_owned());
    args.push(video_file.to_owned());
    assert(args.deep_view() =~= seq![
        "-v"@,
        "error"@,
        "-show_entries"@,
        "format=duration"@,
        "-of"@,
        "default=noprint_wrappers=1:nokey=1"@,
        video_file@,
    ]);
    args
}

/// Reads the duration of a video from what the probe gave back.
pub fn get_watch_time(run: &ProbeRun) -> (r: Result<Duration, ProbeError>)
    ensures
        outcome_view(r) == outcome_of(run@),
{
    match run {
        ProbeRun::NotStarted(why) => Err(ProbeError::Launch(why.clone())),
        ProbeRun::Finished { success, stdout, stderr } => {
            if !*success {
                let why = match decode(stderr.as_slice()) {
                    Some(text) => text.to_owned(),
                    None => "unknown error".to_owned(),
                };
                return Err(ProbeError::Exit(why));
            }
            match decode(stdout.as_slice()) {
                None => Err(ProbeError::NotText),
                Some(text) => match parse_duration(trim(text)) {
                    Ok(d) => Ok(d),
                    Err(e) => Err(ProbeError::NotDuration(e)),
                },
            }
        },
    }
}

impl ProbeError {
    /// The failure in words.
    pub fn message(&self) -> (text: String)
        ensures
            text@ == error_text(self@),
    {
        match self {
            ProbeError::Launch(why) => {
                let mut text = "Failed to execute ffprobe: ".to_owned();
                text.append(why.as_str());
                text
            },
            ProbeError::Exit(why) => {
                let mut text = "ffprobe failed with error: ".to_owned();
                text.append(why.as_str());
                text
            },
            ProbeError::NotText => "Failed to parse ffprobe output: invalid UTF-8".to_owned(),
            ProbeError::NotDuration(ParseError::Malformed) =>
                "Failed to parse duration: not a decimal number".to_owned(),
            ProbeError::NotDuration(ParseError::OutOfRange) =>
                "Failed to parse duration: number too large".to_owned(),
        }
    }
}

} // verus!
