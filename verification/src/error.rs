//! What can go wrong with a tool, and how it is put into words.

use vstd::prelude::*;

use crate::number::{dec_i32, dec_int};
use crate::text::{cat2, cat3};

verus! {

/// The kinds of input and output failure that the library tells apart.
#[derive(Clone, Copy, Debug, PartialEq, Eq, Structural)]
pub enum IoErrorKind {
    /// There is nothing under that path.
    NotFound,
    /// What was read is not UTF-8 text.
    InvalidData,
    /// A remote operation ran out of time.
    TimedOut,
    /// Any other failure.
    Other,
}

/// A failure of input or output: its kind, and what the system says about it.
#[derive(Clone, Debug, PartialEq, Eq)]
pub struct IoError {
    pub kind: IoErrorKind,
    pub message: String,
}

/// An [`IoError`] as the contracts see it.
pub struct IoFault {
    pub kind: IoErrorKind,
    pub message: Seq<char>,
}

impl View for IoError {
    type V = IoFault;

    open spec fn view(&self) -> IoFault {
        IoFault { kind: self.kind, message: self.message@ }
    }
}

impl IoError {
    /// An error of the given kind with the given message.
    pub fn new(kind: IoErrorKind, message: &str) -> (r: IoError)
        ensures
            r@ == (IoFault { kind, message: message@ }),
    {
        IoError { kind, message: message.to_owned() }
    }

    /// An error of no particular kind.
    pub fn other(message: &str) -> (r: IoError)
        ensures
            r@ == (IoFault { kind: IoErrorKind::Other, message: message@ }),
    {
        IoError { kind: IoErrorKind::Other, message: message.to_owned() }
    }
}

/// Why a tool call was refused or failed.
#[derive(Clone, Debug, PartialEq, Eq)]
pub enum ToolError {
    UnknownTool(String),
    InvalidArguments(String),
    NotFound(String),
    OutsideProject(String),
    /// The text that `edit_file` should replace does not occur in the file.
    OldTextNotFound(String),
    /// The text that `edit_file` should replace occurs more than once.
    MultipleMatches(String),
    /// `exec` was asked for a command that is not on the allow list.
    CommandNotAllowed(String),
    /// A command ran out of time; what it had printed by then.
    TimedOut(String),
    /// A command ended with an exit code other than zero; the code and what it printed.
    NonZeroExit(i32, String),
    Io(IoError),
}

/// A [`ToolError`] as the contracts see it.
pub enum ToolFault {
    UnknownTool(Seq<char>),
    InvalidArguments(Seq<char>),
    NotFound(Seq<char>),
    OutsideProject(Seq<char>),
    OldTextNotFound(Seq<char>),
    MultipleMatches(Seq<char>),
    CommandNotAllowed(Seq<char>),
    TimedOut(Seq<char>),
    NonZeroExit(i32, Seq<char>),
    Io(IoFault),
}

impl View for ToolError {
    type V = ToolFault;

    open spec fn view(&self) -> ToolFault {
        match self {
            ToolError::UnknownTool(s) => ToolFault::UnknownTool(s@),
            ToolError::InvalidArguments(s) => ToolFault::InvalidArguments(s@),
            ToolError::NotFound(s) => ToolFault::NotFound(s@),
            ToolError::OutsideProject(s) => ToolFault::OutsideProject(s@),
            ToolError::OldTextNotFound(s) => ToolFault::OldTextNotFound(s@),
            ToolError::MultipleMatches(s) => ToolFault::MultipleMatches(s@),
            ToolError::CommandNotAllowed(s) => ToolFault::CommandNotAllowed(s@),
            ToolError::TimedOut(s) => ToolFault::TimedOut(s@),
            ToolError::NonZeroExit(code, s) => ToolFault::NonZeroExit(*code, s@),
            ToolError::Io(e) => ToolFault::Io(e@),
        }
    }
}

impl ToolFault {
    /// The sentence that tells the model what went wrong.
    pub open spec fn message(self) -> Seq<char> {
        match self {
            ToolFault::UnknownTool(name) => "unknown tool: "@ + name,
            ToolFault::InvalidArguments(msg) => "invalid arguments: "@ + msg,
            ToolFault::NotFound(path) => "file not found: "@ + path,
            ToolFault::OutsideProject(path) => "access denied: "@ + path
                + " is outside the project directory"@,
            ToolFault::OldTextNotFound(path) => "old text not found in "@ + path,
            ToolFault::MultipleMatches(path) => "old text occurs multiple times in "@ + path
                + "; refusing to edit (exact replacement requires a single match)"@,
            ToolFault::CommandNotAllowed(command) => "command not allowed: "@ + command,
            ToolFault::TimedOut(output) => "command timed out\n\n"@ + output,
            ToolFault::NonZeroExit(code, output) => "command exited with code "@ + dec_int(
                code as int,
            ) + "\n\n"@ + output,
            ToolFault::Io(e) => "io error: "@ + e.message,
        }
    }
}

impl ToolError {
    /// A copy of the error.
    pub fn copy(&self) -> (r: ToolError)
        ensures
            r@ == self@,
    {
        match self {
            ToolError::UnknownTool(s) => ToolError::UnknownTool(s.clone()),
            ToolError::InvalidArguments(s) => ToolError::InvalidArguments(s.clone()),
            ToolError::NotFound(s) => ToolError::NotFound(s.clone()),
            ToolError::OutsideProject(s) => ToolError::OutsideProject(s.clone()),
            ToolError::OldTextNotFound(s) => ToolError::OldTextNotFound(s.clone()),
            ToolError::MultipleMatches(s) => ToolError::MultipleMatches(s.clone()),
            ToolError::CommandNotAllowed(s) => ToolError::CommandNotAllowed(s.clone()),
            ToolError::TimedOut(s) => ToolError::TimedOut(s.clone()),
            ToolError::NonZeroExit(code, s) => ToolError::NonZeroExit(*code, s.clone()),
            ToolError::Io(e) => ToolError::Io(IoError::new(e.kind, e.message.as_str())),
        }
    }

    /// The sentence that tells the model what went wrong.
    pub fn message(&self) -> (r: String)
        ensures
            r@ == self@.message(),
    {
        match self {
            ToolError::UnknownTool(name) => cat2("unknown tool: ", name.as_str()),
            ToolError::InvalidArguments(msg) => cat2("invalid arguments: ", msg.as_str()),
            ToolError::NotFound(path) => cat2("file not found: ", path.as_str()),
            ToolError::OutsideProject(path) => cat3(
                "access denied: ",
                path.as_str(),
                " is outside the project directory",
            ),
            ToolError::OldTextNotFound(path) => cat2("old text not found in ", path.as_str()),
            ToolError::MultipleMatches(path) => cat3(
                "old text occurs multiple times in ",
                path.as_str(),
                "; refusing to edit (exact replacement requires a single match)",
            ),
            ToolError::CommandNotAllowed(command) => cat2(
                "command not allowed: ",
                command.as_str(),
            ),
            ToolError::TimedOut(output) => cat2("command timed out\n\n", output.as_str()),
            ToolError::NonZeroExit(code, output) => {
                let mut r = cat3("command exited with code ", dec_i32(*code).as_str(), "\n\n");
                r.append(output.as_str());
                r
            },
            ToolError::Io(e) => cat2("io error: ", e.message.as_str()),
        }
    }
}

/// Whether a text holds another.
pub open spec fn holds(text: Seq<char>, part: Seq<char>) -> bool {
    exists|a: Seq<char>, b: Seq<char>| text == #[trigger] (a + part + b)
}

/// What is told of a fault holds all that is known of it: the name, the path, the command or the
/// output that it carries, whole, and the code that a command ended with.
pub proof fn law_messages_hold_their_details(s: Seq<char>, code: i32, e: IoFault)
    ensures
        holds(ToolFault::UnknownTool(s).message(), s),
        holds(ToolFault::InvalidArguments(s).message(), s),
        holds(ToolFault::NotFound(s).message(), s),
        holds(ToolFault::OutsideProject(s).message(), s),
        holds(ToolFault::OldTextNotFound(s).message(), s),
        holds(ToolFault::MultipleMatches(s).message(), s),
        holds(ToolFault::CommandNotAllowed(s).message(), s),
        holds(ToolFault::TimedOut(s).message(), s),
        holds(ToolFault::NonZeroExit(code, s).message(), dec_int(code as int) + "\n\n"@ + s),
        holds(ToolFault::Io(e).message(), e.message),
{
    let none = Seq::<char>::empty();
    assert("unknown tool: "@ + s =~= "unknown tool: "@ + s + none);
    assert("invalid arguments: "@ + s =~= "invalid arguments: "@ + s + none);
    assert("file not found: "@ + s =~= "file not found: "@ + s + none);
    assert("old text not found in "@ + s =~= "old text not found in "@ + s + none);
    assert("command not allowed: "@ + s =~= "command not allowed: "@ + s + none);
    assert("command timed out\n\n"@ + s =~= "command timed out\n\n"@ + s + none);
    assert(ToolFault::NonZeroExit(code, s).message() =~= "command exited with code "@ + (dec_int(
        code as int,
    ) + "\n\n"@ + s) + none);
    assert("io error: "@ + e.message =~= "io error: "@ + e.message + none);
}

/// Each fault is told in its own words, with what it carries at its place in them.
pub proof fn law_messages_in_words(s: Seq<char>, code: i32, e: IoFault)
    ensures
        ToolFault::UnknownTool(s).message() == "unknown tool: "@ + s,
        ToolFault::InvalidArguments(s).message() == "invalid arguments: "@ + s,
        ToolFault::NotFound(s).message() == "file not found: "@ + s,
        ToolFault::OutsideProject(s).message() == "access denied: "@ + s
            + " is outside the project directory"@,
        ToolFault::OldTextNotFound(s).message() == "old text not found in "@ + s,
        ToolFault::MultipleMatches(s).message() == "old text occurs multiple times in "@ + s
            + "; refusing to edit (exact replacement requires a single match)"@,
        ToolFault::CommandNotAllowed(s).message() == "command not allowed: "@ + s,
        ToolFault::TimedOut(s).message() == "command timed out"@ + seq!['\n', '\n'] + s,
        ToolFault::NonZeroExit(code, s).message() == "command exited with code "@ + dec_int(
            code as int,
        ) + seq!['\n', '\n'] + s,
        ToolFault::Io(e).message() == "io error: "@ + e.message,
{
    reveal_strlit("command timed out\n\n");
    reveal_strlit("command timed out");
    reveal_strlit("\n\n");
    assert("\n\n"@ =~= seq!['\n', '\n']);
    assert("command timed out\n\n"@ =~= "command timed out"@ + seq!['\n', '\n']);
}

} // verus!
