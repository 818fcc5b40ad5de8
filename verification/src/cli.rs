//! What the command line asks for, and the texts shown in answer.

use crate::text::{same_text, trim, trimmed};
use vstd::prelude::*;
use vstd::string::*;

verus! {

/// What one invocation asks for.
#[derive(Clone, Debug, PartialEq, Eq)]
pub enum Invocation {
    /// Show the usage banner and do nothing else.
    Help,
    /// Show the version and do nothing else.
    Version,
    /// Report the watch time of the videos under this directory.
    Scan(String),
}

/// An `Invocation` with its text as a sequence of characters.
pub enum InvocationView {
    Help,
    Version,
    Scan(Seq<char>),
}

impl View for Invocation {
    type V = InvocationView;

    open spec fn view(&self) -> InvocationView {
        match self {
            Invocation::Help => InvocationView::Help,
            Invocation::Version => InvocationView::Version,
            Invocation::Scan(root) => InvocationView::Scan(root@),
        }
    }
}

/// What the arguments ask for. The first is the program's own name. With
/// anything but exactly one more, the answer is the usage banner. The one
/// argument is a flag, or else the directory to scan, taken without the
/// white space at its ends.
pub open spec fn invocation_of(args: Seq<Seq<char>>) -> InvocationView {
    if args.len() != 2 {
        InvocationView::Help
    } else if args[1] == "-h"@ || args[1] == "--help"@ {
        InvocationView::Help
    } else if args[1] == "-v"@ || args[1] == "--version"@ {
        InvocationView::Version
    } else {
        InvocationView::Scan(trimmed(args[1]))
    }
}

/// The usage banner, for a program of the given version.
pub open spec fn help_text(version: Seq<char>) -> Seq<char> {
    "[Video Watch Time]\nVersion: "@ + version
        + "\nUsage: wt <video folder>\nOptions:\n    -h, --help     Display help message\n    -v, --version  Display version"@
}

/// The line that shows the version.
pub open spec fn version_text(version: Seq<char>) -> Seq<char> {
    "Version: "@ + version
}

/// Reads the arguments of an invocation, the program's own name first.
pub fn parse_args(args: &Vec<String>) -> (invocation: Invocation)
    ensures
        invocation@ == invocation_of(args.deep_view()),
{
    if args.len() != 2 {
        return Invocation::Help;
    }
    let arg = args[1].as_str();
    assert(args.deep_view()[1] == arg@);
    if same_text(arg, "-h") || same_text(arg, "--help") {
        Invocation::Help
    } else if same_text(arg, "-v") || same_text(arg, "--version") {
        Invocation::Version
    } else {
        Invocation::Scan(trim(arg).to_owned())
    }
}

/// The usage banner: name, version, usage line and the flags.
pub fn help_message(version: &str) -> (text: String)
    ensures
        text@ == help_text(version@),
{
    let mut text = "[Video Watch Time]\nVersion: ".to_owned();
    text.append(version);
    text.append(
        "\nUsage: wt <video folder>\nOptions:\n    -h, --help     Display help message\n    -v, --version  Display version",
    );
    text
}

/// The line that shows the version.
pub fn version_line(version: &str) -> (text: String)
    ensures
        text@ == version_text(version@),
{
    let mut text = "Version: ".to_owned();
    text.append(version);
    text
}

} // verus!
