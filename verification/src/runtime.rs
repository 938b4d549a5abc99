//! What tools need of the world: files, directories, commands, and how a command is waited for.

use vstd::prelude::*;

use core::time::Duration;

use crate::error::{IoError, IoFault};

verus! {

/// The duration of a whole number of seconds.
pub uninterp spec fn duration_of_secs(secs: u64) -> Duration;

/// `Duration::from_secs`: the duration depends on the number of seconds alone.
pub assume_specification[ Duration::from_secs ](secs: u64) -> (r: Duration)
    ensures
        r == duration_of_secs(secs),
;

/// How many seconds a command may run where nothing else is set.
pub const EXEC_TIMEOUT_SECS: u64 = 60;

/// The settings of a runtime.
#[derive(Debug, Clone, Copy)]
pub struct RuntimeConfig {
    /// How long a command may run. One that runs longer is killed.
    pub exec_timeout: Duration,
}

impl Default for RuntimeConfig {
    /// A command may run for a minute.
    fn default() -> (r: RuntimeConfig)
        ensures
            r.exec_timeout == duration_of_secs(EXEC_TIMEOUT_SECS),
    {
        RuntimeConfig { exec_timeout: Duration::from_secs(EXEC_TIMEOUT_SECS) }
    }
}

/// What an entry of a directory is.
#[derive(Debug, Clone, Copy, PartialEq, Eq, Structural)]
pub enum EntryKind {
    File,
    Dir,
    Symlink,
    Other,
}

/// What the system says of an entry's type.
#[derive(Debug, Clone, Copy, PartialEq, Eq, Structural)]
pub struct FileType {
    pub is_dir: bool,
    pub is_file: bool,
    pub is_symlink: bool,
}

impl EntryKind {
    /// The kind of an entry whose type is as given, or unreadable.
    pub open spec fn of(file_type: Option<FileType>) -> EntryKind {
        match file_type {
            Some(t) => if t.is_dir {
                EntryKind::Dir
            } else if t.is_file {
                EntryKind::File
            } else if t.is_symlink {
                EntryKind::Symlink
            } else {
                EntryKind::Other
            },
            None => EntryKind::Other,
        }
    }

    /// Tells what an entry is; one whose type cannot be read is [`EntryKind::Other`].
    pub fn from_type(file_type: Option<FileType>) -> (r: EntryKind)
        ensures
            r == EntryKind::of(file_type),
    {
        match file_type {
            Some(t) => if t.is_dir {
                EntryKind::Dir
            } else if t.is_file {
                EntryKind::File
            } else if t.is_symlink {
                EntryKind::Symlink
            } else {
                EntryKind::Other
            },
            None => EntryKind::Other,
        }
    }
}

/// An entry of a directory: its full path and what it is.
#[derive(Debug, Clone, PartialEq, Eq)]
pub struct RuntimeEntry {
    pub path: String,
    pub kind: EntryKind,
}

/// A [`RuntimeEntry`] as the contracts see it.
pub struct EntryText {
    pub path: Seq<char>,
    pub kind: EntryKind,
}

impl View for RuntimeEntry {
    type V = EntryText;

    open spec fn view(&self) -> EntryText {
        EntryText { path: self.path@, kind: self.kind }
    }
}

/// What each entry of a list holds.
pub open spec fn entries(v: Seq<RuntimeEntry>) -> Seq<EntryText> {
    v.map_values(|e: RuntimeEntry| e@)
}

/// What came of a command: its exit code, and what it printed.
#[derive(Debug, Clone, PartialEq, Eq)]
pub struct ExecOutput {
    pub code: i32,
    /// What went to standard output, then what went to standard error.
    pub output: String,
}

/// An [`ExecOutput`] as the contracts see it.
pub struct OutputText {
    pub code: i32,
    pub output: Seq<char>,
}

impl View for ExecOutput {
    type V = OutputText;

    open spec fn view(&self) -> OutputText {
        OutputText { code: self.code, output: self.output@ }
    }
}

/// Why there is no output of a command.
#[derive(Debug, Clone, PartialEq, Eq)]
pub enum ExecError {
    /// It could not be started or waited for.
    Io(IoError),
    /// It ran out of time; what it had printed by then.
    TimedOut(String),
}

/// An [`ExecError`] as the contracts see it.
pub enum ExecFault {
    Io(IoFault),
    TimedOut(Seq<char>),
}

impl View for ExecError {
    type V = ExecFault;

    open spec fn view(&self) -> ExecFault {
        match self {
            ExecError::Io(e) => ExecFault::Io(e@),
            ExecError::TimedOut(s) => ExecFault::TimedOut(s@),
        }
    }
}

/// The result of a command as the contracts see it.
pub open spec fn exec_reply(r: Result<ExecOutput, ExecError>) -> Result<OutputText, ExecFault> {
    match r {
        Ok(o) => Ok(o@),
        Err(e) => Err(e@),
    }
}

/// What tools need of the world: files, directories and commands. Nothing is promised of what
/// comes back.
pub trait Runtime {
    /// The text of a file.
    fn read_file(&self, path: &str) -> Result<String, IoError>;

    /// Writes a file, and makes the directories above it where they are missing.
    fn write_file(&self, path: &str, content: &str) -> Result<(), IoError>;

    /// The entries of a directory.
    fn read_dir(&self, path: &str) -> Result<Vec<RuntimeEntry>, IoError>;

    /// Runs a command in the directory `cwd`.
    fn exec_command(&self, program: &str, args: &[String], cwd: &str) -> Result<
        ExecOutput,
        ExecError,
    >;
}

/// The runtime that works on this machine.
#[derive(Debug, Clone, Copy)]
pub struct LocalRuntime {
    pub config: RuntimeConfig,
}

impl LocalRuntime {
    /// A local runtime with the given settings.
    pub fn new(config: RuntimeConfig) -> (r: LocalRuntime)
        ensures
            r.config == config,
    {
        LocalRuntime { config }
    }

    /// A local runtime whose commands may run as long as given.
    pub fn with_timeout(timeout: Duration) -> (r: LocalRuntime)
        ensures
            r.config.exec_timeout == timeout,
    {
        LocalRuntime::new(RuntimeConfig { exec_timeout: timeout })
    }

    /// The directory that has to exist before a file can be written.
    pub fn parent_to_create(path: &str) -> (r: Option<String>)
        ensures
            crate::text::opt_text(r) == match crate::path::path_parent(path@) {
                Some(dir) => if dir.len() > 0 {
                    Some(dir)
                } else {
                    None
                },
                None => None,
            },
    {
        match crate::path::parent(path) {
            Some(dir) => if dir.as_str().is_empty() {
                None
            } else {
                Some(dir)
            },
            None => None,
        }
    }
}

impl Default for LocalRuntime {
    fn default() -> (r: LocalRuntime)
        ensures
            r.config.exec_timeout == duration_of_secs(EXEC_TIMEOUT_SECS),
    {
        LocalRuntime::new(RuntimeConfig::default())
    }
}

// ---------------------------------------------------------------------------------------------
// Waiting for a command
// ---------------------------------------------------------------------------------------------

/// What a look at a running command shows.
#[derive(Debug, Clone, Copy, PartialEq, Eq, Structural)]
pub enum PollEvent {
    /// It has ended; its exit code, where it was not ended by a signal.
    Exited(Option<i32>),
    /// It is still running.
    Running,
    /// It could not be looked at.
    Failed,
}

/// What to do after a look at a running command.
#[derive(Debug, Clone, Copy, PartialEq, Eq, Structural)]
pub enum PollAction {
    /// Collect what it printed; it ended with this code.
    Finish(i32),
    /// Wait a little and look again.
    Wait,
    /// Kill it, collect what it printed and report that it ran out of time.
    KillTimedOut,
    /// Kill it and report the failure.
    KillFailed,
}

/// What follows from a look at a command that has run for `elapsed` nanoseconds and may run for
/// `timeout` nanoseconds.
pub open spec fn poll_rule(event: PollEvent, elapsed: nat, timeout: nat) -> PollAction {
    match event {
        PollEvent::Exited(Some(code)) => PollAction::Finish(code),
        PollEvent::Exited(None) => PollAction::Finish((-1) as i32),
        PollEvent::Running => if elapsed > timeout {
            PollAction::KillTimedOut
        } else {
            PollAction::Wait
        },
        PollEvent::Failed => PollAction::KillFailed,
    }
}

/// Decides what to do after a look at a running command. A command that a signal ended counts
/// as ended with code -1.
pub fn poll_step(event: PollEvent, elapsed_nanos: u128, timeout_nanos: u128) -> (r: PollAction)
    ensures
        r == poll_rule(event, elapsed_nanos as nat, timeout_nanos as nat),
{
    match event {
        PollEvent::Exited(Some(code)) => PollAction::Finish(code),
        PollEvent::Exited(None) => PollAction::Finish(-1),
        PollEvent::Running => if elapsed_nanos > timeout_nanos {
            PollAction::KillTimedOut
        } else {
            PollAction::Wait
        },
        PollEvent::Failed => PollAction::KillFailed,
    }
}

/// Standard output, then standard error on a line of its own; what is empty leaves no trace.
pub open spec fn merged(stdout: Seq<char>, stderr: Seq<char>) -> Seq<char> {
    if stderr.len() == 0 {
        stdout
    } else if stdout.len() == 0 {
        stderr
    } else {
        stdout.push('\n') + stderr
    }
}

/// Puts what a command printed on its two outputs together.
pub fn merge_output(stdout: &str, stderr: &str) -> (r: String)
    ensures
        r@ == merged(stdout@, stderr@),
{
    let mut output = stdout.to_owned();
    if !stderr.is_empty() {
        if !stdout.is_empty() {
            output.push('\n');
        }
        output.append(stderr);
    }
    proof {
        if stdout@.len() == 0 {
            assert(stdout@ + stderr@ =~= stderr@);
        }
    }
    output
}

// ---------------------------------------------------------------------------------------------
// Laws
// ---------------------------------------------------------------------------------------------

/// A command that has not ended is killed for running out of time exactly when more than its
/// time has passed; until then it is waited for.
pub proof fn law_timeout_is_strict(elapsed: nat, timeout: nat)
    ensures
        poll_rule(PollEvent::Running, elapsed, timeout) == PollAction::KillTimedOut <==> elapsed
            > timeout,
        poll_rule(PollEvent::Running, elapsed, timeout) == PollAction::Wait <==> elapsed <= timeout,
{
}

/// A command that has ended is done with the code that it ended with, and with `-1` where it has
/// none; one that cannot be asked is killed. How long it ran makes no difference to either.
pub proof fn law_ended_commands_are_done(code: i32, elapsed: nat, timeout: nat)
    ensures
        poll_rule(PollEvent::Exited(Some(code)), elapsed, timeout) == PollAction::Finish(code),
        poll_rule(PollEvent::Exited(None), elapsed, timeout) == PollAction::Finish(-1i32),
        poll_rule(PollEvent::Failed, elapsed, timeout) == PollAction::KillFailed,
{
}

/// The output of a command is all that it wrote: first what it wrote to the one stream, last what
/// it wrote to the other, and a line feed between them where both are there.
pub proof fn law_output_is_whole(stdout: Seq<char>, stderr: Seq<char>)
    ensures
        stdout.is_prefix_of(merged(stdout, stderr)),
        merged(stdout, stderr).skip(merged(stdout, stderr).len() - stderr.len()) == stderr,
        stdout.len() == 0 || stderr.len() == 0 ==> merged(stdout, stderr).len() == stdout.len()
            + stderr.len(),
        stdout.len() > 0 && stderr.len() > 0 ==> merged(stdout, stderr).len() == stdout.len()
            + stderr.len() + 1 && merged(stdout, stderr)[stdout.len() as int] == '\n',
{
    let r = merged(stdout, stderr);
    assert(r.skip(r.len() - stderr.len()) =~= stderr);
    assert(r.subrange(0, stdout.len() as int) =~= stdout);
}

/// An entry is of the kind that the system says; where the system says nothing, or none of the
/// three, it is another.
pub proof fn law_entry_kinds(t: FileType)
    ensures
        t.is_dir ==> EntryKind::of(Some(t)) == EntryKind::Dir,
        t.is_file && !t.is_dir ==> EntryKind::of(Some(t)) == EntryKind::File,
        t.is_symlink && !t.is_dir && !t.is_file ==> EntryKind::of(Some(t)) == EntryKind::Symlink,
        EntryKind::of(Some(t)) == EntryKind::Other <==> !t.is_dir && !t.is_file && !t.is_symlink,
        EntryKind::of(None) == EntryKind::Other,
{
}

} // verus!
