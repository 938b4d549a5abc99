//! Files and commands of a remote host, reached through `ssh`.
//!
//! Every operation is a script for the POSIX shell that `ssh ... -- sh -s` starts on the remote
//! host; the script goes in on standard input, so the login shell never reads it. Paths are
//! quoted, and the contents of files travel as base64. Paths of this machine below the local
//! project stand for the same paths below the remote one.

use vstd::prelude::*;

use crate::base64::{
    b64_bytes, b64_decode, b64_encode, b64_text, law_decode_undoes_encode, not_base64,
};
use crate::error::{IoError, IoErrorKind, IoFault};
use crate::exec::{
    arg_char, command_rule, law_allowed_args_are_plain, law_allowed_program, valid_arg, PatternText,
};
use crate::number::{dec, dec_i32, dec_int, dec_u64};
use crate::path::{
    components, inside, join_path, law_join_adds_components, law_relative_keeps_components, parent,
    path_join, path_parent, relative_to, strip_base,
};
use crate::runtime::{
    entries, merge_output, merged, EntryKind, EntryText, ExecError, ExecFault, ExecOutput,
    OutputText, RuntimeConfig, RuntimeEntry,
};
use crate::text::{
    all_blank, cat2, cat3, chars_of, contains, contains_text, debug_path_text, find_char,
    find_char_from, law_trimming, lemma_find_char_is, lemma_trimmed_start_fixed, lemma_word_len,
    lines, quoted_path, same, split_lines, string_between, texts, trim, trimmed, trimmed_start,
    utf8_text, white_space, word_len, words,
};

verus! {

// ---------------------------------------------------------------------------------------------
// The shell
// ---------------------------------------------------------------------------------------------

/// A character inside single quotes: a single quote closes them, stands for itself behind a
/// backslash, and opens them again.
pub open spec fn quoted_char(c: char) -> Seq<char> {
    if c == '\'' {
        seq!['\'', '\\', '\'', '\'']
    } else {
        seq![c]
    }
}

/// The characters of a text as they stand inside single quotes.
pub open spec fn quoted_chars(s: Seq<char>) -> Seq<char>
    decreases s.len(),
{
    if s.len() == 0 {
        seq![]
    } else {
        quoted_chars(s.drop_last()) + quoted_char(s.last())
    }
}

/// A text as one word of a shell script.
pub open spec fn sh_quoted(s: Seq<char>) -> Seq<char> {
    seq!['\''] + quoted_chars(s) + seq!['\'']
}

/// Quotes a text for a shell script.
pub fn sh_quote(s: &str) -> (r: String)
    ensures
        r@ == sh_quoted(s@),
{
    let cs = chars_of(s);
    let mut out: String = String::new();
    out.push('\'');
    let mut i: usize = 0;
    proof {
        assert(s@.take(0) =~= seq![]);
        assert(out@ =~= seq!['\''] + quoted_chars(s@.take(0)));
    }
    while i < cs.len()
        invariant
            i <= cs@.len(),
            cs@ == s@,
            out@ == seq!['\''] + quoted_chars(s@.take(i as int)),
        decreases cs@.len() - i,
    {
        let ghost before = out@;
        let c = cs[i];
        if c == '\'' {
            out.push('\'');
            out.push('\\');
            out.push('\'');
        }
        out.push(c);
        proof {
            assert(s@.take(i + 1).drop_last() =~= s@.take(i as int));
            assert(out@ =~= before + quoted_char(c));
            assert(out@ =~= seq!['\''] + quoted_chars(s@.take(i + 1)));
        }
        i = i + 1;
    }
    out.push('\'');
    proof {
        assert(s@.take(i as int) =~= s@);
        assert(out@ =~= sh_quoted(s@));
    }
    out
}

/// The words of the `ssh` command that starts a shell on the host: never asking for a password,
/// and with the port only where it is not the usual one.
pub open spec fn ssh_words(ssh_bin: Seq<char>, host: Seq<char>, port: u16) -> Seq<Seq<char>> {
    let start = seq![ssh_bin, "-T"@, "-o"@, "BatchMode=yes"@, "-o"@, "ConnectTimeout=10"@];
    let port_words = if port != 22 {
        seq!["-p"@, dec(port as nat)]
    } else {
        seq![]
    };
    start + port_words + seq![host, "--"@, "sh"@, "-s"@]
}

fn ssh_argv_of(ssh_bin: &str, host: &str, port: u16) -> (r: Vec<String>)
    ensures
        texts(r@) == ssh_words(ssh_bin@, host@, port),
{
    let mut argv: Vec<String> = Vec::new();
    argv.push(ssh_bin.to_owned());
    argv.push("-T".to_owned());
    argv.push("-o".to_owned());
    argv.push("BatchMode=yes".to_owned());
    argv.push("-o".to_owned());
    argv.push("ConnectTimeout=10".to_owned());
    if port != 22 {
        argv.push("-p".to_owned());
        argv.push(dec_u64(port as u64));
    }
    argv.push(host.to_owned());
    argv.push("--".to_owned());
    argv.push("sh".to_owned());
    argv.push("-s".to_owned());
    proof {
        assert(texts(argv@) =~= ssh_words(ssh_bin@, host@, port));
    }
    argv
}

/// The words of the `ssh` command that starts a shell on the host.
pub fn ssh_argv(host: &str, port: u16) -> (r: Vec<String>)
    ensures
        texts(r@) == ssh_words("ssh"@, host@, port),
{
    ssh_argv_of("ssh", host, port)
}

// ---------------------------------------------------------------------------------------------
// Paths and listings
// ---------------------------------------------------------------------------------------------

/// The remote path that a local one stands for.
pub open spec fn mapped(path: Seq<char>, local_root: Seq<char>, remote_root: Seq<char>) -> Result<
    Seq<char>,
    IoFault,
> {
    match relative_to(path, local_root) {
        Some(rel) => Ok(path_join(remote_root, rel)),
        None => Err(
            IoFault {
                kind: IoErrorKind::Other,
                message: "path "@ + debug_path_text(path) + " is outside the local root "@
                    + debug_path_text(local_root) + "; refusing to map to remote"@,
            },
        ),
    }
}

/// A result as the contracts see it.
pub open spec fn text_result(r: Result<String, IoError>) -> Result<Seq<char>, IoFault> {
    match r {
        Ok(s) => Ok(s@),
        Err(e) => Err(e@),
    }
}

/// Finds the remote path that a local one stands for. A path outside the local project stands
/// for none.
pub fn map_path(path: &str, local_root: &str, remote_root: &str) -> (r: Result<String, IoError>)
    ensures
        text_result(r) == mapped(path@, local_root@, remote_root@),
{
    match strip_base(path, local_root) {
        Some(rel) => Ok(join_path(remote_root, rel.as_str())),
        None => {
            let mut message = cat3(
                "path ",
                quoted_path(path).as_str(),
                " is outside the local root ",
            );
            message.append(quoted_path(local_root).as_str());
            message.append("; refusing to map to remote");
            Err(IoError::other(message.as_str()))
        },
    }
}

/// What one letter of a listing says of an entry.
pub open spec fn listed_kind(kind: Seq<char>) -> EntryKind {
    if kind == "D"@ {
        EntryKind::Dir
    } else if kind == "L"@ {
        EntryKind::Symlink
    } else if kind == "F"@ {
        EntryKind::File
    } else {
        EntryKind::Other
    }
}

/// The entry that a line of a listing stands for: a letter, a tab and a name.
pub open spec fn listed_entry(dir: Seq<char>, line: Seq<char>) -> Option<EntryText> {
    let tab = find_char(line, '\t');
    if tab == line.len() {
        None
    } else {
        Some(
            EntryText {
                path: path_join(dir, line.skip(tab + 1)),
                kind: listed_kind(line.take(tab)),
            },
        )
    }
}

/// The entries that the lines of a listing stand for; lines without a tab stand for none.
pub open spec fn listed(dir: Seq<char>, all: Seq<Seq<char>>) -> Seq<EntryText>
    decreases all.len(),
{
    if all.len() == 0 {
        seq![]
    } else {
        match listed_entry(dir, all.last()) {
            Some(e) => listed(dir, all.drop_last()).push(e),
            None => listed(dir, all.drop_last()),
        }
    }
}

/// Reads the listing of a remote directory. Names with tabs or line breaks in them are not
/// supported.
pub fn parse_dir_listing(dir: &str, stdout: &str) -> (r: Vec<RuntimeEntry>)
    ensures
        entries(r@) == listed(dir@, lines(stdout@)),
{
    let all = split_lines(stdout);
    let ghost texts_all = texts(all@);
    let mut r: Vec<RuntimeEntry> = Vec::new();
    let mut i: usize = 0;
    proof {
        assert(texts_all.take(0) =~= seq![]);
        assert(entries(r@) =~= seq![]);
    }
    while i < all.len()
        invariant
            i <= all@.len(),
            texts_all == texts(all@),
            entries(r@) == listed(dir@, texts_all.take(i as int)),
        decreases all@.len() - i,
    {
        let cs = chars_of(all[i].as_str());
        let tab = find_char_from(cs.as_slice(), '\t', 0);
        let ghost line = texts_all[i as int];
        proof {
            assert(cs@.skip(0) =~= line);
            assert(texts_all.take(i + 1).drop_last() =~= texts_all.take(i as int));
            assert(texts_all.take(i + 1).last() == line);
        }
        if tab < cs.len() {
            let letter = string_between(cs.as_slice(), 0, tab);
            let name = string_between(cs.as_slice(), tab + 1, cs.len());
            proof {
                assert(letter@ =~= line.take(tab as int));
                assert(name@ =~= line.skip(tab + 1));
            }
            let kind = if same(letter.as_str(), "D") {
                EntryKind::Dir
            } else if same(letter.as_str(), "L") {
                EntryKind::Symlink
            } else if same(letter.as_str(), "F") {
                EntryKind::File
            } else {
                EntryKind::Other
            };
            let ghost before = r@;
            r.push(RuntimeEntry { path: join_path(dir, name.as_str()), kind });
            proof {
                assert(entries(r@) =~= entries(before).push(r@.last()@));
            }
        }
        i = i + 1;
    }
    proof {
        assert(texts_all.take(i as int) =~= texts_all);
    }
    r
}

// ---------------------------------------------------------------------------------------------
// Replies
// ---------------------------------------------------------------------------------------------

/// What came of a script on the remote host.
#[derive(Debug, Clone, PartialEq, Eq)]
pub struct RemoteOutput {
    pub code: i32,
    pub stdout: String,
    pub stderr: String,
}

/// A [`RemoteOutput`] as the contracts see it.
pub struct RemoteText {
    pub code: i32,
    pub stdout: Seq<char>,
    pub stderr: Seq<char>,
}

impl View for RemoteOutput {
    type V = RemoteText;

    open spec fn view(&self) -> RemoteText {
        RemoteText { code: self.code, stdout: self.stdout@, stderr: self.stderr@ }
    }
}

/// The reply to a script as the contracts see it.
pub open spec fn remote_reply(r: Result<RemoteOutput, ExecError>) -> Result<RemoteText, ExecFault> {
    match r {
        Ok(o) => Ok(o@),
        Err(e) => Err(e@),
    }
}

/// A failed script as a failed operation on a file.
pub open spec fn io_fault_of(e: ExecFault) -> IoFault {
    match e {
        ExecFault::Io(e) => e,
        ExecFault::TimedOut(output) => IoFault {
            kind: IoErrorKind::TimedOut,
            message: "remote command timed out\n\n"@ + output,
        },
    }
}

fn io_from_exec(e: ExecError) -> (r: IoError)
    ensures
        r@ == io_fault_of(e@),
{
    match e {
        ExecError::Io(e) => e,
        ExecError::TimedOut(output) => IoError::new(
            IoErrorKind::TimedOut,
            cat2("remote command timed out\n\n", output.as_str()).as_str(),
        ),
    }
}

/// What is said of a script that ended with a code other than zero: what it printed on standard
/// error, or where that is blank, the operation and the code.
pub open spec fn failure_text(operation: Seq<char>, out: RemoteText) -> Seq<char> {
    if trimmed(out.stderr).len() == 0 {
        "remote "@ + operation + " failed (exit "@ + dec_int(out.code as int) + ")"@
    } else {
        trimmed(out.stderr)
    }
}

fn failure_message(operation: &str, out: &RemoteOutput) -> (r: String)
    ensures
        r@ == failure_text(operation@, out@),
{
    let stderr = trim(out.stderr.as_str());
    if stderr.as_str().is_empty() {
        let mut r = cat3("remote ", operation, " failed (exit ");
        r.append(dec_i32(out.code).as_str());
        r.append(")");
        r
    } else {
        stderr
    }
}

/// What the reply to a reading script gives: the file's text, or why there is none.
pub open spec fn read_result(reply: Result<RemoteText, ExecFault>) -> Result<Seq<char>, IoFault> {
    match reply {
        Err(e) => Err(io_fault_of(e)),
        Ok(out) => if out.code != 0 {
            let message = failure_text("read"@, out);
            Err(
                IoFault {
                    kind: if contains_text(message, "No such file"@) {
                        IoErrorKind::NotFound
                    } else {
                        IoErrorKind::Other
                    },
                    message,
                },
            )
        } else {
            match b64_bytes(out.stdout) {
                None => Err(not_base64()),
                Some(bytes) => if vstd::utf8::valid_utf8(bytes) {
                    Ok(vstd::utf8::decode_utf8(bytes))
                } else {
                    Err(
                        IoFault {
                            kind: IoErrorKind::InvalidData,
                            message: "remote file is not valid UTF-8"@,
                        },
                    )
                },
            }
        },
    }
}

/// What the reply to a writing script gives.
pub open spec fn write_result(reply: Result<RemoteText, ExecFault>) -> Option<IoFault> {
    match reply {
        Err(e) => Some(io_fault_of(e)),
        Ok(out) => if out.code != 0 {
            Some(IoFault { kind: IoErrorKind::Other, message: failure_text("write"@, out) })
        } else {
            None
        },
    }
}

/// What the reply to a listing script gives.
pub open spec fn read_dir_result(
    dir: Seq<char>,
    reply: Result<RemoteText, ExecFault>,
) -> Result<Seq<EntryText>, IoFault> {
    match reply {
        Err(e) => Err(io_fault_of(e)),
        Ok(out) => if out.code != 0 {
            Err(IoFault { kind: IoErrorKind::Other, message: failure_text("read_dir"@, out) })
        } else {
            Ok(listed(dir, lines(out.stdout)))
        },
    }
}

/// What the reply to a command gives.
pub open spec fn exec_result(reply: Result<RemoteText, ExecFault>) -> Result<OutputText, ExecFault> {
    match reply {
        Err(e) => Err(e),
        Ok(out) => Ok(OutputText { code: out.code, output: merged(out.stdout, out.stderr) }),
    }
}

/// Takes the text of a file from the reply to a reading script.
pub fn read_reply(reply: Result<RemoteOutput, ExecError>) -> (r: Result<String, IoError>)
    ensures
        text_result(r) == read_result(remote_reply(reply)),
{
    let out = match reply {
        Ok(out) => out,
        Err(e) => {
            return Err(io_from_exec(e));
        },
    };
    if out.code != 0 {
        let message = failure_message("read", &out);
        return Err(
            if contains(message.as_str(), "No such file") {
                IoError::new(IoErrorKind::NotFound, message.as_str())
            } else {
                IoError::other(message.as_str())
            },
        );
    }
    match b64_decode(out.stdout.as_str()) {
        Ok(bytes) => match utf8_text(bytes) {
            Some(s) => Ok(s),
            None => Err(
                IoError::new(IoErrorKind::InvalidData, "remote file is not valid UTF-8"),
            ),
        },
        Err(e) => Err(e),
    }
}

/// Takes the outcome from the reply to a writing script.
pub fn write_reply(reply: Result<RemoteOutput, ExecError>) -> (r: Result<(), IoError>)
    ensures
        r is Ok <==> write_result(remote_reply(reply)) is None,
        r matches Err(e) ==> write_result(remote_reply(reply)) == Some(e@),
{
    match reply {
        Ok(out) => if out.code != 0 {
            Err(IoError::other(failure_message("write", &out).as_str()))
        } else {
            Ok(())
        },
        Err(e) => Err(io_from_exec(e)),
    }
}

/// Takes the entries of a directory from the reply to a listing script.
pub fn read_dir_reply(dir: &str, reply: Result<RemoteOutput, ExecError>) -> (r: Result<
    Vec<RuntimeEntry>,
    IoError,
>)
    ensures
        match r {
            Ok(v) => read_dir_result(dir@, remote_reply(reply)) == Ok::<Seq<EntryText>, IoFault>(
                entries(v@),
            ),
            Err(e) => read_dir_result(dir@, remote_reply(reply)) == Err::<Seq<EntryText>, IoFault>(
                e@,
            ),
        },
{
    match reply {
        Ok(out) => if out.code != 0 {
            Err(IoError::other(failure_message("read_dir", &out).as_str()))
        } else {
            Ok(parse_dir_listing(dir, out.stdout.as_str()))
        },
        Err(e) => Err(io_from_exec(e)),
    }
}

/// Takes the outcome of a command from the reply to its script.
pub fn exec_result_of(reply: Result<RemoteOutput, ExecError>) -> (r: Result<ExecOutput, ExecError>)
    ensures
        crate::runtime::exec_reply(r) == exec_result(remote_reply(reply)),
{
    match reply {
        Ok(out) => Ok(
            ExecOutput {
                code: out.code,
                output: merge_output(out.stdout.as_str(), out.stderr.as_str()),
            },
        ),
        Err(e) => Err(e),
    }
}

// ---------------------------------------------------------------------------------------------
// Connecting
// ---------------------------------------------------------------------------------------------

/// A connection that is being made. First `true` is run on the host, to see that it can be
/// reached without a password; then the remote project is found.
#[derive(Debug, Clone)]
pub struct SshConnect {
    pub config: RuntimeConfig,
    pub host: String,
    pub port: u16,
    /// The remote project as it was asked for.
    pub remote_root: Option<String>,
    /// Whether the host has been reached.
    pub reached: bool,
}

/// How far a connection has come.
#[derive(Debug, Clone)]
pub enum SshProgress {
    /// The next script is to be run.
    Run(SshConnect),
    /// The connection stands; the remote project is at this path.
    Ready(String),
}

/// What speaks against a host, after `true` was run on it.
pub open spec fn probe_fault(host: Seq<char>, reply: Result<RemoteText, ExecFault>) -> Option<
    IoFault,
> {
    let advice =
        "\n  check KARAKURI_SSH_HOST, passwordless login (ssh-copy-id), network/firewall"@;
    match reply {
        Ok(out) => if out.code == 0 {
            None
        } else {
            Some(
                IoFault {
                    kind: IoErrorKind::Other,
                    message: "ssh to "@ + host + " failed (exit "@ + dec_int(out.code as int)
                        + "): "@ + trimmed(out.stderr) + advice,
                },
            )
        },
        Err(ExecFault::Io(e)) => Some(
            IoFault {
                kind: IoErrorKind::Other,
                message: "failed to run ssh to "@ + host + ": "@ + e.message + advice,
            },
        ),
        Err(ExecFault::TimedOut(_)) => Some(
            IoFault {
                kind: IoErrorKind::TimedOut,
                message: "ssh to "@ + host
                    + " timed out (ConnectTimeout=10s)\n  check network/firewall"@,
            },
        ),
    }
}

/// The script that finds the remote project: the directory that was asked for, free of symbolic
/// links, or the remote home.
pub open spec fn root_script(remote_root: Option<Seq<char>>) -> Seq<char> {
    match remote_root {
        Some(root) => "cd "@ + sh_quoted(root) + " && pwd -P"@,
        None => "pwd"@,
    }
}

/// What the reply to that script gives: the path of the remote project, or why there is none.
pub open spec fn root_result(
    remote_root: Option<Seq<char>>,
    reply: Result<RemoteText, ExecFault>,
) -> Result<Seq<char>, IoFault> {
    match (remote_root, reply) {
        (_, Ok(out)) => if out.code == 0 {
            Ok(trimmed(out.stdout))
        } else {
            Err(
                IoFault {
                    kind: IoErrorKind::Other,
                    message: match remote_root {
                        Some(root) => "remote root "@ + debug_path_text(root)
                            + " is not accessible (exit "@ + dec_int(out.code as int) + "): "@
                            + trimmed(out.stderr)
                            + "\n  check KARAKURI_SSH_ROOT is an absolute path that exists on the remote host"@,
                        None => "failed to determine remote home (exit "@ + dec_int(
                            out.code as int,
                        ) + "): "@ + trimmed(out.stderr)
                            + "\n  check the remote host is reachable and your login works"@,
                    },
                },
            )
        },
        (Some(root), Err(ExecFault::Io(e))) => Err(
            IoFault {
                kind: IoErrorKind::Other,
                message: "failed to resolve remote root "@ + debug_path_text(root) + ": "@ + e.message,
            },
        ),
        (Some(root), Err(ExecFault::TimedOut(_))) => Err(
            IoFault {
                kind: IoErrorKind::TimedOut,
                message: "timed out resolving remote root "@ + debug_path_text(root),
            },
        ),
        (None, Err(ExecFault::Io(e))) => Err(
            IoFault {
                kind: IoErrorKind::Other,
                message: "failed to determine remote home: "@ + e.message,
            },
        ),
        (None, Err(ExecFault::TimedOut(_))) => Err(
            IoFault {
                kind: IoErrorKind::TimedOut,
                message: "timed out determining remote home"@,
            },
        ),
    }
}

fn check_probe(host: &str, reply: Result<RemoteOutput, ExecError>) -> (r: Result<(), IoError>)
    ensures
        r is Ok <==> probe_fault(host@, remote_reply(reply)) is None,
        r matches Err(e) ==> probe_fault(host@, remote_reply(reply)) == Some(e@),
{
    let advice =
        "\n  check KARAKURI_SSH_HOST, passwordless login (ssh-copy-id), network/firewall";
    match reply {
        Ok(out) => {
            if out.code == 0 {
                return Ok(());
            }
            let mut message = cat3("ssh to ", host, " failed (exit ");
            message.append(dec_i32(out.code).as_str());
            message.append("): ");
            message.append(trim(out.stderr.as_str()).as_str());
            message.append(advice);
            Err(IoError::other(message.as_str()))
        },
        Err(ExecError::Io(e)) => {
            let mut message = cat3("failed to run ssh to ", host, ": ");
            message.append(e.message.as_str());
            message.append(advice);
            Err(IoError::other(message.as_str()))
        },
        Err(ExecError::TimedOut(_)) => {
            let message = cat3(
                "ssh to ",
                host,
                " timed out (ConnectTimeout=10s)\n  check network/firewall",
            );
            Err(IoError::new(IoErrorKind::TimedOut, message.as_str()))
        },
    }
}

fn check_root(remote_root: &Option<String>, reply: Result<RemoteOutput, ExecError>) -> (r: Result<
    String,
    IoError,
>)
    ensures
        text_result(r) == root_result(crate::text::opt_text(*remote_root), remote_reply(reply)),
{
    match (remote_root, reply) {
        (_, Ok(out)) => {
            if out.code == 0 {
                return Ok(trim(out.stdout.as_str()));
            }
            let mut message = match remote_root {
                Some(root) => cat3(
                    "remote root ",
                    quoted_path(root.as_str()).as_str(),
                    " is not accessible (exit ",
                ),
                None => "failed to determine remote home (exit ".to_owned(),
            };
            message.append(dec_i32(out.code).as_str());
            message.append("): ");
            message.append(trim(out.stderr.as_str()).as_str());
            message.append(
                match remote_root {
                    Some(_) =>
                        "\n  check KARAKURI_SSH_ROOT is an absolute path that exists on the remote host",
                    None => "\n  check the remote host is reachable and your login works",
                },
            );
            Err(IoError::other(message.as_str()))
        },
        (Some(root), Err(ExecError::Io(e))) => {
            let mut message = cat3(
                "failed to resolve remote root ",
                quoted_path(root.as_str()).as_str(),
                ": ",
            );
            message.append(e.message.as_str());
            Err(IoError::other(message.as_str()))
        },
        (Some(root), Err(ExecError::TimedOut(_))) => {
            let message = cat2(
                "timed out resolving remote root ",
                quoted_path(root.as_str()).as_str(),
            );
            Err(IoError::new(IoErrorKind::TimedOut, message.as_str()))
        },
        (None, Err(ExecError::Io(e))) => {
            let message = cat2("failed to determine remote home: ", e.message.as_str());
            Err(IoError::other(message.as_str()))
        },
        (None, Err(ExecError::TimedOut(_))) => {
            Err(IoError::new(IoErrorKind::TimedOut, "timed out determining remote home"))
        },
    }
}

impl SshConnect {
    /// The words of the `ssh` command to run.
    pub fn argv(&self) -> (r: Vec<String>)
        ensures
            texts(r@) == ssh_words("ssh"@, self.host@, self.port),
    {
        ssh_argv(self.host.as_str(), self.port)
    }

    /// The script to run next.
    pub fn script(&self) -> (r: String)
        ensures
            r@ == if self.reached {
                root_script(crate::text::opt_text(self.remote_root))
            } else {
                "true"@
            },
    {
        if self.reached {
            match &self.remote_root {
                Some(root) => cat3("cd ", sh_quote(root.as_str()).as_str(), " && pwd -P"),
                None => "pwd".to_owned(),
            }
        } else {
            "true".to_owned()
        }
    }

    /// Takes the reply to the script: the connection comes one step further, or fails.
    pub fn on_reply(self, reply: Result<RemoteOutput, ExecError>) -> (r: Result<
        SshProgress,
        IoError,
    >)
        ensures
            match r {
                Ok(SshProgress::Run(next)) => {
                    &&& !self.reached
                    &&& probe_fault(self.host@, remote_reply(reply)) is None
                    &&& next == (SshConnect { reached: true, ..self })
                },
                Ok(SshProgress::Ready(root)) => {
                    &&& self.reached
                    &&& root_result(
                        crate::text::opt_text(self.remote_root),
                        remote_reply(reply),
                    ) == Ok::<Seq<char>, IoFault>(root@)
                },
                Err(e) => if self.reached {
                    root_result(crate::text::opt_text(self.remote_root), remote_reply(reply))
                        == Err::<Seq<char>, IoFault>(e@)
                } else {
                    probe_fault(self.host@, remote_reply(reply)) == Some(e@)
                },
            },
    {
        if self.reached {
            match check_root(&self.remote_root, reply) {
                Ok(root) => Ok(SshProgress::Ready(root)),
                Err(e) => Err(e),
            }
        } else {
            match check_probe(self.host.as_str(), reply) {
                Ok(()) => {
                    let mut next = self;
                    next.reached = true;
                    Ok(SshProgress::Run(next))
                },
                Err(e) => Err(e),
            }
        }
    }
}

// ---------------------------------------------------------------------------------------------
// The runtime
// ---------------------------------------------------------------------------------------------

/// A runtime whose files and commands are those of a remote host.
#[derive(Debug, Clone)]
pub struct SshRuntime {
    pub config: RuntimeConfig,
    /// The `ssh` program.
    pub ssh_bin: String,
    /// The host, with or without a user before it.
    pub host: String,
    pub port: u16,
    /// The project on this machine, free of symbolic links.
    pub local_root: String,
    /// The project on the remote host.
    pub remote_root: String,
}

/// The script that reads a file.
pub open spec fn read_script(remote: Seq<char>) -> Seq<char> {
    "base64 -- "@ + sh_quoted(remote)
}

/// The script that writes a file, and the directories above it where they are missing.
pub open spec fn write_script(remote: Seq<char>, content: Seq<char>) -> Seq<char> {
    let dir = match path_parent(remote) {
        Some(dir) => dir,
        None => remote,
    };
    "mkdir -p "@ + sh_quoted(dir) + " && printf '%s' '"@ + b64_text(
        vstd::utf8::encode_utf8(content),
    ) + "' | base64 -d > "@ + sh_quoted(remote)
}

/// The script that lists a directory: a letter, a tab and a name for each entry, hidden ones
/// among them. A symbolic link is listed as one, whatever it leads to.
pub open spec fn read_dir_script(remote: Seq<char>) -> Seq<char> {
    "cd "@ + sh_quoted(remote)
        + " && for f in * .[!.]* ..?*; do [ -e \"$f\" ] || [ -L \"$f\" ] || continue; if [ -L \"$f\" ]; then t=L; elif [ -d \"$f\" ]; then t=D; elif [ -f \"$f\" ]; then t=F; else t=O; fi; printf '%s\\t%s\\n' \"$t\" \"$f\"; done"@
}

/// Words with a space before each.
pub open spec fn spaced(args: Seq<Seq<char>>) -> Seq<char>
    decreases args.len(),
{
    if args.len() == 0 {
        seq![]
    } else {
        spaced(args.drop_last()).push(' ') + args.last()
    }
}

/// The script that runs a command in the remote project.
pub open spec fn exec_script(
    remote_root: Seq<char>,
    program: Seq<char>,
    args: Seq<Seq<char>>,
) -> Seq<char> {
    "cd "@ + sh_quoted(remote_root) + " && exec "@ + program + spaced(args)
}

impl SshRuntime {
    /// Starts a connection to a host. Its scripts are to be run and their replies handed back
    /// until the path of the remote project is known; with that, [`SshRuntime::from_parts`]
    /// makes the runtime.
    pub fn new(config: RuntimeConfig, host: &str, port: u16, remote_root: Option<&str>) -> (r:
        SshConnect)
        ensures
            r.config == config,
            r.host@ == host@,
            r.port == port,
            crate::text::opt_text(r.remote_root) == match remote_root {
                Some(root) => Some(root@),
                None => None,
            },
            !r.reached,
    {
        SshConnect {
            config,
            host: host.to_owned(),
            port,
            remote_root: match remote_root {
                Some(root) => Some(root.to_owned()),
                None => None,
            },
            reached: false,
        }
    }

    /// A runtime made of its parts, without any connection being tried.
    pub fn from_parts(
        config: RuntimeConfig,
        ssh_bin: &str,
        host: &str,
        port: u16,
        local_root: &str,
        remote_root: &str,
    ) -> (r: SshRuntime)
        ensures
            r.config == config,
            r.ssh_bin@ == ssh_bin@,
            r.host@ == host@,
            r.port == port,
            r.local_root@ == local_root@,
            r.remote_root@ == remote_root@,
    {
        SshRuntime {
            config,
            ssh_bin: ssh_bin.to_owned(),
            host: host.to_owned(),
            port,
            local_root: local_root.to_owned(),
            remote_root: remote_root.to_owned(),
        }
    }

    /// The path of the remote project.
    pub fn remote_root(&self) -> (r: &str)
        ensures
            r@ == self.remote_root@,
    {
        self.remote_root.as_str()
    }

    /// The words of the `ssh` command that runs a script.
    pub fn argv(&self) -> (r: Vec<String>)
        ensures
            texts(r@) == ssh_words(self.ssh_bin@, self.host@, self.port),
    {
        ssh_argv_of(self.ssh_bin.as_str(), self.host.as_str(), self.port)
    }

    /// The remote path that a local one stands for.
    pub fn map_path(&self, path: &str) -> (r: Result<String, IoError>)
        ensures
            text_result(r) == mapped(path@, self.local_root@, self.remote_root@),
    {
        map_path(path, self.local_root.as_str(), self.remote_root.as_str())
    }

    /// The script that reads a file. Its reply goes to [`read_reply`].
    pub fn read_request(&self, path: &str) -> (r: Result<String, IoError>)
        ensures
            text_result(r) == match mapped(path@, self.local_root@, self.remote_root@) {
                Ok(p) => Ok(read_script(p)),
                Err(e) => Err(e),
            },
    {
        match self.map_path(path) {
            Ok(remote) => Ok(cat2("base64 -- ", sh_quote(remote.as_str()).as_str())),
            Err(e) => Err(e),
        }
    }

    /// The script that writes a file. Its reply goes to [`write_reply`].
    pub fn write_request(&self, path: &str, content: &str) -> (r: Result<String, IoError>)
        ensures
            text_result(r) == match mapped(path@, self.local_root@, self.remote_root@) {
                Ok(p) => Ok(write_script(p, content@)),
                Err(e) => Err(e),
            },
    {
        match self.map_path(path) {
            Ok(remote) => {
                let dir = match parent(remote.as_str()) {
                    Some(dir) => dir,
                    None => remote.clone(),
                };
                let mut script = cat3(
                    "mkdir -p ",
                    sh_quote(dir.as_str()).as_str(),
                    " && printf '%s' '",
                );
                script.append(b64_encode(content.as_bytes()).as_str());
                script.append("' | base64 -d > ");
                script.append(sh_quote(remote.as_str()).as_str());
                Ok(script)
            },
            Err(e) => Err(e),
        }
    }

    /// The remote directory and the script that lists it. The reply goes to [`read_dir_reply`].
    pub fn read_dir_request(&self, path: &str) -> (r: Result<(String, String), IoError>)
        ensures
            match r {
                Ok((dir, script)) => mapped(path@, self.local_root@, self.remote_root@) == Ok::<
                    Seq<char>,
                    IoFault,
                >(dir@) && script@ == read_dir_script(dir@),
                Err(e) => mapped(path@, self.local_root@, self.remote_root@) == Err::<
                    Seq<char>,
                    IoFault,
                >(e@),
            },
    {
        match self.map_path(path) {
            Ok(remote) => {
                let script = cat3(
                    "cd ",
                    sh_quote(remote.as_str()).as_str(),
                    " && for f in * .[!.]* ..?*; do [ -e \"$f\" ] || [ -L \"$f\" ] || continue; if [ -L \"$f\" ]; then t=L; elif [ -d \"$f\" ]; then t=D; elif [ -f \"$f\" ]; then t=F; else t=O; fi; printf '%s\\t%s\\n' \"$t\" \"$f\"; done",
                );
                Ok((remote, script))
            },
            Err(e) => Err(e),
        }
    }

    /// The script that runs a command in the remote project. Program and arguments stand in it
    /// as they are, so they have to be free of shell syntax. The reply goes to
    /// [`exec_result_of`].
    pub fn exec_request(&self, program: &str, args: &[String]) -> (r: String)
        ensures
            r@ == exec_script(self.remote_root@, program@, texts(args@)),
    {
        let mut script = cat3("cd ", sh_quote(self.remote_root.as_str()).as_str(), " && exec ");
        script.append(program);
        let ghost start = script@;
        let ghost all = texts(args@);
        let mut i: usize = 0;
        proof {
            assert(all.take(0) =~= seq![]);
            assert(script@ =~= start + spaced(all.take(0)));
        }
        while i < args.len()
            invariant
                i <= args@.len(),
                all == texts(args@),
                script@ == start + spaced(all.take(i as int)),
            decreases args@.len() - i,
        {
            script.push(' ');
            script.append(args[i].as_str());
            proof {
                assert(all.take(i + 1).drop_last() =~= all.take(i as int));
                assert(script@ =~= start + spaced(all.take(i + 1)));
            }
            i = i + 1;
        }
        proof {
            assert(all.take(i as int) =~= all);
        }
        script
    }
}

// ---------------------------------------------------------------------------------------------
// Laws
// ---------------------------------------------------------------------------------------------

/// What the shell reads as one word from the start of a script: inside single quotes every
/// character stands for itself, outside a backslash makes the next one stand for itself, and
/// any other character ends the word. The word, and what follows it.
pub open spec fn sh_word(s: Seq<char>, in_quotes: bool) -> Option<(Seq<char>, Seq<char>)>
    decreases s.len(),
{
    if s.len() == 0 {
        if in_quotes {
            None
        } else {
            Some((seq![], s))
        }
    } else if s[0] == '\'' {
        sh_word(s.skip(1), !in_quotes)
    } else if in_quotes {
        match sh_word(s.skip(1), true) {
            Some((word, rest)) => Some((seq![s[0]] + word, rest)),
            None => None,
        }
    } else if s[0] == '\\' && s.len() >= 2 {
        match sh_word(s.skip(2), false) {
            Some((word, rest)) => Some((seq![s[1]] + word, rest)),
            None => None,
        }
    } else {
        Some((seq![], s))
    }
}

/// Whether a word ends before `rest`.
pub open spec fn ends_word(rest: Seq<char>) -> bool {
    rest.len() == 0 || (rest[0] != '\'' && rest[0] != '\\')
}

proof fn lemma_quoted_chars_concat(a: Seq<char>, b: Seq<char>)
    ensures
        quoted_chars(a + b) == quoted_chars(a) + quoted_chars(b),
    decreases b.len(),
{
    if b.len() == 0 {
        assert(a + b =~= a);
        assert(quoted_chars(a) + quoted_chars(b) =~= quoted_chars(a));
    } else {
        assert((a + b).drop_last() =~= a + b.drop_last());
        lemma_quoted_chars_concat(a, b.drop_last());
        assert(quoted_chars(a) + quoted_chars(b.drop_last()) + quoted_char(b.last())
            =~= quoted_chars(a) + (quoted_chars(b.drop_last()) + quoted_char(b.last())));
    }
}

proof fn lemma_quoted_reads_back(s: Seq<char>, rest: Seq<char>)
    requires
        ends_word(rest),
    ensures
        sh_word(quoted_chars(s) + (seq!['\''] + rest), true) == Some((s, rest)),
    decreases s.len(),
{
    let tail = seq!['\''] + rest;
    if s.len() == 0 {
        let t = quoted_chars(s) + tail;
        assert(t =~= tail);
        assert(t.skip(1) =~= rest);
        assert(sh_word(rest, false) == Some((Seq::<char>::empty(), rest)));
    } else {
        let first = seq![s[0]];
        let more = s.skip(1);
        assert(s =~= first + more);
        lemma_quoted_chars_concat(first, more);
        assert(first.drop_last() =~= seq![]);
        assert(quoted_chars(first) =~= quoted_char(s[0])) by {
            assert(quoted_chars(first) == quoted_chars(first.drop_last()) + quoted_char(s[0]));
        }
        lemma_quoted_reads_back(more, rest);
        let t = quoted_chars(s) + tail;
        let u = quoted_chars(more) + tail;
        assert(t =~= quoted_char(s[0]) + u);
        if s[0] == '\'' {
            assert(t[0] == '\'' && t[1] == '\\' && t[2] == '\'' && t[3] == '\'');
            let t1 = t.skip(1);
            let t3 = t1.skip(2);
            assert(t1[0] == '\\' && t1[1] == '\'');
            assert(t3[0] == '\'');
            assert(t3.skip(1) =~= u);
            assert(sh_word(t3, false) == Some((more, rest)));
            assert(sh_word(t1, false) == Some((seq!['\''] + more, rest)));
        } else {
            assert(t.skip(1) =~= u);
        }
    }
}

/// Quoting keeps every text in one piece: the shell reads the quoted text as one word, and that
/// word is the text.
pub proof fn law_shell_reads_quoted_text(s: Seq<char>, rest: Seq<char>)
    requires
        ends_word(rest),
    ensures
        sh_word(sh_quoted(s) + rest, false) == Some((s, rest)),
{
    let t = sh_quoted(s) + rest;
    assert(t.skip(1) =~= quoted_chars(s) + (seq!['\''] + rest));
    lemma_quoted_reads_back(s, rest);
}

/// A mapped path lies in the remote project, at the place that the local path has in the local
/// one.
pub proof fn law_mapping_keeps_the_place(
    path: Seq<char>,
    local_root: Seq<char>,
    remote_root: Seq<char>,
)
    requires
        components(local_root).len() > 0,
    ensures
        mapped(path, local_root, remote_root) is Ok <==> inside(path, local_root),
        mapped(path, local_root, remote_root) matches Ok(remote) ==> {
            &&& inside(remote, remote_root)
            &&& components(remote) == components(remote_root) + components(path).skip(
                components(local_root).len() as int,
            )
        },
{
    if inside(path, local_root) {
        law_relative_keeps_components(path, local_root);
        law_join_adds_components(remote_root, relative_to(path, local_root)->0);
    }
}

/// Reading a remote file gives back what was written to it: the text that the writing script
/// carries decodes to the content, and so does any reply that encodes the same bytes, however
/// its lines are broken.
pub proof fn law_read_gives_back_what_was_written(content: Seq<char>, out: RemoteText)
    requires
        out.code == 0,
        b64_bytes(out.stdout) == Some(vstd::utf8::encode_utf8(content)),
    ensures
        b64_bytes(b64_text(vstd::utf8::encode_utf8(content))) == Some(
            vstd::utf8::encode_utf8(content),
        ),
        read_result(Ok(out)) == Ok::<Seq<char>, IoFault>(content),
{
    crate::base64::law_decode_undoes_encode(vstd::utf8::encode_utf8(content));
    vstd::utf8::encode_utf8_valid_utf8(content);
    vstd::utf8::encode_utf8_decode_utf8(content);
}

/// The script always comes in on standard input: whatever the host and the port, the command
/// ends in the host and `-- sh -s`, and never asks for a password.
pub proof fn law_ssh_runs_a_plain_shell(ssh_bin: Seq<char>, host: Seq<char>, port: u16)
    ensures
        ({
            let words = ssh_words(ssh_bin, host, port);
            let n = words.len() as int;
            &&& n >= 10
            &&& words[0] == ssh_bin
            &&& words[3] == "BatchMode=yes"@
            &&& words.subrange(n - 4, n) == seq![host, "--"@, "sh"@, "-s"@]
        }),
{
    let words = ssh_words(ssh_bin, host, port);
    let n = words.len() as int;
    assert(words.subrange(n - 4, n) =~= seq![host, "--"@, "sh"@, "-s"@]);
}

/// What the listing script prints for entries: a letter, a tab and a name, one entry to a line.
pub open spec fn listing(kinds: Seq<Seq<char>>, names: Seq<Seq<char>>) -> Seq<char>
    decreases kinds.len(),
{
    if kinds.len() == 0 {
        seq![]
    } else {
        (kinds[0].push('\t') + names[0]).push('\n') + listing(kinds.skip(1), names.skip(1))
    }
}

/// Whether a letter or a name can stand in a listing.
pub open spec fn listable(kind: Seq<char>, name: Seq<char>) -> bool {
    &&& forall|i: int| 0 <= i < kind.len() ==> kind[i] != '\t' && kind[i] != '\n'
    &&& forall|i: int| 0 <= i < name.len() ==> name[i] != '\n'
    &&& name.len() > 0 ==> name.last() != '\r'
}

proof fn lemma_listed_first(dir: Seq<char>, first: Seq<char>, rest: Seq<Seq<char>>)
    ensures
        listed(dir, seq![first] + rest) == match listed_entry(dir, first) {
            Some(e) => seq![e] + listed(dir, rest),
            None => listed(dir, rest),
        },
    decreases rest.len(),
{
    let all = seq![first] + rest;
    let none = Seq::<EntryText>::empty();
    if rest.len() == 0 {
        assert(all.drop_last() =~= seq![]);
        assert(listed(dir, seq![]) =~= none);
        assert(listed(dir, all) =~= match listed_entry(dir, first) {
            Some(e) => seq![e] + listed(dir, rest),
            None => listed(dir, rest),
        });
    } else {
        assert(all.drop_last() =~= seq![first] + rest.drop_last());
        assert(all.last() == rest.last());
        lemma_listed_first(dir, first, rest.drop_last());
        assert(listed(dir, all) =~= match listed_entry(dir, first) {
            Some(e) => seq![e] + listed(dir, rest),
            None => listed(dir, rest),
        });
    }
}

/// Reading a listing gives back the entries that it was printed for. (Names with line breaks in
/// them, or a carriage return at their end, cannot be listed.)
pub proof fn law_listing_reads_back(
    dir: Seq<char>,
    kinds: Seq<Seq<char>>,
    names: Seq<Seq<char>>,
)
    requires
        kinds.len() == names.len(),
        forall|i: int|
            0 <= i < kinds.len() ==> listable(#[trigger] kinds[i], #[trigger] names[i]),
    ensures
        listed(dir, lines(listing(kinds, names))) == Seq::new(
            kinds.len(),
            |i: int|
                EntryText { path: path_join(dir, names[i]), kind: listed_kind(kinds[i]) },
        ),
    decreases kinds.len(),
{
    let want = Seq::new(
        kinds.len(),
        |i: int| EntryText { path: path_join(dir, names[i]), kind: listed_kind(kinds[i]) },
    );
    if kinds.len() == 0 {
        assert(lines(listing(kinds, names)) =~= seq![]);
        assert(want =~= seq![]);
    } else {
        let (kind, name) = (kinds[0], names[0]);
        assert(listable(kinds[0], names[0]));
        let line = kind.push('\t') + name;
        let more = listing(kinds.skip(1), names.skip(1));
        let text = listing(kinds, names);
        assert(text =~= line.push('\n') + more);
        assert forall|i: int| 0 <= i < line.len() implies text[i] != '\n' by {
            assert(text[i] == line[i]);
            if i > kind.len() {
                assert(line[i] == name[i - kind.len() - 1]);
            }
        }
        assert(text[line.len() as int] == '\n');
        lemma_find_char_is(text, '\n', line.len() as int);
        assert(text.take(line.len() as int) =~= line);
        assert(text.skip(line.len() as int + 1) =~= more);
        assert(line.last() != '\r') by {
            if name.len() > 0 {
                assert(line.last() == name.last());
            } else {
                assert(line.last() == '\t');
            }
        }
        assert(lines(text) == seq![line] + lines(more));
        assert forall|i: int| 0 <= i < kind.len() implies line[i] != '\t' by {
            assert(line[i] == kind[i]);
        }
        lemma_find_char_is(line, '\t', kind.len() as int);
        assert(line.take(kind.len() as int) =~= kind);
        assert(line.skip(kind.len() as int + 1) =~= name);
        lemma_listed_first(dir, line, lines(more));
        assert forall|i: int| 0 <= i < kinds.skip(1).len() implies listable(
            #[trigger] kinds.skip(1)[i],
            #[trigger] names.skip(1)[i],
        ) by {
            assert(kinds.skip(1)[i] == kinds[i + 1] && names.skip(1)[i] == names[i + 1]);
        }
        law_listing_reads_back(dir, kinds.skip(1), names.skip(1));
        assert(listed(dir, lines(text)) =~= want);
    }
}

proof fn lemma_words_of_spaced(text: Seq<char>, args: Seq<Seq<char>>)
    requires
        valid_arg(text),
        forall|i: int| 0 <= i < args.len() ==> valid_arg(#[trigger] args[i]),
    ensures
        words(text + spaced_all(args)) == seq![text] + args,
    decreases args.len(),
{
    let tail = spaced_all(args);
    let s = text + tail;
    lemma_valid_not_blank(text);
    assert(s[0] == text[0]);
    assert(trimmed_start(s) == s);
    lemma_word_is(s, text.len() as int);
    assert(s.take(text.len() as int) =~= text);
    assert(s.skip(text.len() as int) =~= tail);
    if args.len() == 0 {
        assert(tail =~= seq![]);
        assert(words(tail) =~= seq![]);
        assert(words(s) =~= seq![text] + args);
    } else {
        let first = args[0];
        assert(valid_arg(args[0]));
        lemma_valid_not_blank(first);
        let rest = first + spaced_all(args.skip(1));
        assert(tail =~= seq![' '] + rest);
        assert(tail.skip(1) =~= rest);
        assert(rest[0] == first[0]);
        assert(trimmed_start(tail) == trimmed_start(rest));
        lemma_trimmed_start_fixed(tail);
        lemma_trimmed_start_fixed(rest);
        assert(words(tail) == words(rest));
        assert forall|i: int| 0 <= i < args.skip(1).len() implies valid_arg(
            #[trigger] args.skip(1)[i],
        ) by {
            assert(args.skip(1)[i] == args[i + 1]);
        }
        lemma_words_of_spaced(first, args.skip(1));
        assert(words(s) =~= seq![text] + args);
    }
}

proof fn lemma_valid_not_blank(s: Seq<char>)
    requires
        valid_arg(s),
    ensures
        s.len() > 0,
        forall|i: int| 0 <= i < s.len() ==> !white_space(#[trigger] s[i]),
{
    assert forall|i: int| 0 <= i < s.len() implies !white_space(#[trigger] s[i]) by {
        assert(arg_char(s[i]));
    }
}

/// A stretch without white space, ended by white space or by the end, is a word.
proof fn lemma_word_is(s: Seq<char>, n: int)
    requires
        0 <= n <= s.len(),
        forall|i: int| 0 <= i < n ==> !white_space(#[trigger] s[i]),
        n < s.len() ==> white_space(s[n]),
    ensures
        word_len(s) == n,
{
    lemma_word_len(s);
    let m = word_len(s);
    if m < n {
        assert(!white_space(s[m]));
    } else if n < m {
        assert(white_space(s[n]));
    }
}

/// Words with a space before each, from the first to the last.
spec fn spaced_all(args: Seq<Seq<char>>) -> Seq<char>
    decreases args.len(),
{
    if args.len() == 0 {
        seq![]
    } else {
        seq![' '] + (args[0] + spaced_all(args.skip(1)))
    }
}

proof fn lemma_spaced_push(args: Seq<Seq<char>>, last: Seq<char>)
    ensures
        spaced_all(args.push(last)) == spaced_all(args) + (seq![' '] + last),
    decreases args.len(),
{
    let all = args.push(last);
    if args.len() == 0 {
        assert(all.skip(1) =~= seq![]);
        assert(spaced_all(all.skip(1)) =~= seq![]);
        assert(spaced_all(all) =~= spaced_all(args) + (seq![' '] + last));
    } else {
        assert(all[0] == args[0]);
        assert(all.skip(1) =~= args.skip(1).push(last));
        lemma_spaced_push(args.skip(1), last);
        assert(spaced_all(all) =~= spaced_all(args) + (seq![' '] + last));
    }
}

proof fn lemma_spaced_is(args: Seq<Seq<char>>)
    ensures
        spaced(args) == spaced_all(args),
    decreases args.len(),
{
    if args.len() > 0 {
        lemma_spaced_is(args.drop_last());
        lemma_spaced_push(args.drop_last(), args.last());
        assert(args.drop_last().push(args.last()) =~= args);
        assert(spaced(args) =~= spaced_all(args));
    }
}

/// A command that may run needs no quotes on the remote host: behind `exec` its program and its
/// arguments stand as they are, and split at white space they are the program and the arguments
/// again.
pub proof fn law_remote_command_keeps_its_words(
    remote_root: Seq<char>,
    command: Seq<char>,
    extra: Seq<PatternText>,
)
    requires
        command_rule(command, extra) is Ok,
        forall|k: int| 0 <= k < extra.len() ==> valid_arg((#[trigger] extra[k]).program),
    ensures
        ({
            let c = command_rule(command, extra)->Ok_0;
            let line = c.program + spaced(c.args);
            &&& words(line) == seq![c.program] + c.args
            &&& exec_script(remote_root, c.program, c.args) == "cd "@ + sh_quoted(remote_root)
                + " && exec "@ + line
        }),
{
    let c = command_rule(command, extra)->Ok_0;
    law_allowed_args_are_plain(command, extra);
    law_allowed_program(command, extra);
    assert(valid_arg(c.program)) by {
        reveal_strlit("cargo");
        reveal_strlit("git");
    }
    lemma_words_of_spaced(c.program, c.args);
    lemma_spaced_is(c.args);
    let start = "cd "@ + sh_quoted(remote_root) + " && exec "@;
    assert(start + c.program + spaced(c.args) =~= start + (c.program + spaced(c.args)));
}

/// The words that start `ssh`: no terminal, no questions, ten seconds to connect, and the port
/// exactly where it is not the usual one, as `-p` and its number right before the host.
pub proof fn law_ssh_options(ssh_bin: Seq<char>, host: Seq<char>, port: u16)
    ensures
        ({
            let words = ssh_words(ssh_bin, host, port);
            &&& words.take(6) == seq![
                ssh_bin,
                "-T"@,
                "-o"@,
                "BatchMode=yes"@,
                "-o"@,
                "ConnectTimeout=10"@,
            ]
            &&& port == 22 ==> words.len() == 10 && words[6] == host
            &&& port != 22 ==> words.len() == 12 && words[6] == "-p"@ && words[7] == dec(
                port as nat,
            ) && words[8] == host
        }),
{
    let words = ssh_words(ssh_bin, host, port);
    assert(words.take(6) =~= seq![
        ssh_bin,
        "-T"@,
        "-o"@,
        "BatchMode=yes"@,
        "-o"@,
        "ConnectTimeout=10"@,
    ]);
}

/// A line of a remote listing is a kind, a tab and a name, which may hold tabs of its own; a line
/// without a tab is no entry. Lines are read one after the other.
pub proof fn law_listed_lines(
    dir: Seq<char>,
    kind: Seq<char>,
    name: Seq<char>,
    line: Seq<char>,
    all: Seq<Seq<char>>,
    more: Seq<Seq<char>>,
)
    requires
        !kind.contains('\t'),
        !line.contains('\t'),
    ensures
        listed(dir, seq![kind + seq!['\t'] + name]) == seq![
            EntryText {
                path: path_join(dir, name),
                kind: if kind == "D"@ {
                    EntryKind::Dir
                } else if kind == "L"@ {
                    EntryKind::Symlink
                } else if kind == "F"@ {
                    EntryKind::File
                } else {
                    EntryKind::Other
                },
            },
        ],
        listed(dir, seq![line]).len() == 0,
        listed(dir, all + more) == listed(dir, all) + listed(dir, more),
    decreases more.len(),
{
    let s = kind + seq!['\t'] + name;
    let n = kind.len() as int;
    assert forall|i: int| 0 <= i < n implies s[i] != '\t' by {
        assert(s[i] == kind[i]);
    }
    assert(s[n] == '\t');
    lemma_find_char_is(s, '\t', n);
    assert(s.take(n) =~= kind);
    assert(s.skip(n + 1) =~= name);
    let one = seq![s];
    assert(one.drop_last() =~= seq![]);
    assert(listed(dir, one.drop_last()) =~= seq![]);
    assert(one.last() == s);
    lemma_find_char_is(line, '\t', line.len() as int);
    let other = seq![line];
    assert(other.drop_last() =~= seq![]);
    assert(listed(dir, other.drop_last()) =~= seq![]);
    assert(other.last() == line);
    if more.len() == 0 {
        assert(all + more =~= all);
        assert(listed(dir, all) + listed(dir, more) =~= listed(dir, all));
    } else {
        assert((all + more).drop_last() =~= all + more.drop_last());
        assert((all + more).last() == more.last());
        law_listed_lines(dir, kind, name, line, all, more.drop_last());
        assert(listed(dir, all + more) =~= listed(dir, all) + listed(dir, more));
    }
}

/// What a failed remote operation says: all that it wrote to its error stream but for the white
/// space around it; where that is nothing, which operation failed and with what code.
pub proof fn law_failures_say_why(
    operation: Seq<char>,
    code: i32,
    stdout: Seq<char>,
    a: Seq<char>,
    t: Seq<char>,
    b: Seq<char>,
)
    requires
        all_blank(a),
        all_blank(b),
        t.len() > 0 ==> !white_space(t[0]) && !white_space(t.last()),
    ensures
        ({
            let said = failure_text(operation, RemoteText { code, stdout, stderr: a + t + b });
            if t.len() > 0 {
                said == t
            } else {
                said == "remote "@ + operation + " failed (exit "@ + dec_int(code as int) + ")"@
            }
        }),
{
    law_trimming(a, t, b);
}

/// A remote operation has succeeded exactly where its script ended with code zero (and, of a read,
/// its output is the base64 of a text). What failed before the script ran is handed on; running
/// out of time shows in the kind of the failure, and so does a file that is not there.
pub proof fn law_remote_results(
    dir: Seq<char>,
    out: RemoteText,
    e: IoFault,
    output: Seq<char>,
)
    ensures
        read_result(Ok(out)) is Ok <==> out.code == 0 && b64_bytes(out.stdout) is Some
            && vstd::utf8::valid_utf8(b64_bytes(out.stdout)->0),
        read_result(Ok(out)) matches Ok(text) ==> b64_bytes(out.stdout) == Some(
            vstd::utf8::encode_utf8(text),
        ),
        out.code != 0 ==> read_result(Ok(out))->Err_0.message == failure_text("read"@, out),
        read_result(Ok(out)) is Err && read_result(Ok(out))->Err_0.kind == IoErrorKind::NotFound
            <==> out.code != 0 && contains_text(failure_text("read"@, out), "No such file"@),
        read_result(Ok(out)) is Err && read_result(Ok(out))->Err_0.kind == IoErrorKind::InvalidData
            <==> out.code == 0 && read_result(Ok(out)) is Err,
        write_result(Ok(out)) is None <==> out.code == 0,
        out.code != 0 ==> write_result(Ok(out)) == Some(
            IoFault { kind: IoErrorKind::Other, message: failure_text("write"@, out) },
        ),
        read_dir_result(dir, Ok(out)) is Ok <==> out.code == 0,
        out.code == 0 ==> read_dir_result(dir, Ok(out))->Ok_0 == listed(dir, lines(out.stdout)),
        out.code != 0 ==> read_dir_result(dir, Ok(out)) == Err::<Seq<EntryText>, IoFault>(
            IoFault { kind: IoErrorKind::Other, message: failure_text("read_dir"@, out) },
        ),
        exec_result(Ok(out)) is Ok,
        exec_result(Ok(out))->Ok_0.code == out.code,
        exec_result(Ok(out))->Ok_0.output == merged(out.stdout, out.stderr),
        read_result(Err(ExecFault::Io(e))) == Err::<Seq<char>, IoFault>(e),
        write_result(Err(ExecFault::Io(e))) == Some(e),
        read_dir_result(dir, Err(ExecFault::Io(e))) == Err::<Seq<EntryText>, IoFault>(e),
        exec_result(Err(ExecFault::Io(e))) == Err::<OutputText, ExecFault>(ExecFault::Io(e)),
        exec_result(Err(ExecFault::TimedOut(output))) == Err::<OutputText, ExecFault>(
            ExecFault::TimedOut(output),
        ),
        ({
            let late = IoFault {
                kind: IoErrorKind::TimedOut,
                message: "remote command timed out\n\n"@ + output,
            };
            &&& read_result(Err(ExecFault::TimedOut(output))) == Err::<Seq<char>, IoFault>(late)
            &&& write_result(Err(ExecFault::TimedOut(output))) == Some(late)
            &&& read_dir_result(dir, Err(ExecFault::TimedOut(output))) == Err::<
                Seq<EntryText>,
                IoFault,
            >(late)
        }),
{
    if out.code == 0 && b64_bytes(out.stdout) is Some && vstd::utf8::valid_utf8(
        b64_bytes(out.stdout)->0,
    ) {
        vstd::utf8::decode_utf8_encode_utf8(b64_bytes(out.stdout)->0);
    }
}

/// The scripts name the paths so that the shell reads them as they are: what is read, what is
/// written and the directory above it, what is listed, and where a command runs.
pub proof fn law_scripts_name_their_paths(
    remote: Seq<char>,
    content: Seq<char>,
    program: Seq<char>,
    args: Seq<Seq<char>>,
)
    ensures
        sh_word(read_script(remote).skip("base64 -- "@.len() as int), false) == Some(
            (remote, Seq::<char>::empty()),
        ),
        ({
            let rest = write_script(remote, content).skip("mkdir -p "@.len() as int);
            let above = if path_parent(remote) is Some {
                path_parent(remote)->0
            } else {
                remote
            };
            let data = b64_text(vstd::utf8::encode_utf8(content));
            &&& "mkdir -p "@.is_prefix_of(write_script(remote, content))
            &&& sh_word(rest, false) == Some(
                (above, " && printf '%s' '"@ + data + "' | base64 -d > "@ + sh_quoted(remote)),
            )
            &&& sh_word(sh_quoted(remote), false) == Some((remote, Seq::<char>::empty()))
            &&& b64_bytes(data) == Some(vstd::utf8::encode_utf8(content))
        }),
        "base64 -- "@.is_prefix_of(read_script(remote)),
        "cd "@.is_prefix_of(read_dir_script(remote)),
        sh_word(read_dir_script(remote).skip("cd "@.len() as int), false) matches Some((dir, rest))
            && dir == remote && " && for f in "@.is_prefix_of(rest),
        "cd "@.is_prefix_of(exec_script(remote, program, args)),
        sh_word(exec_script(remote, program, args).skip("cd "@.len() as int), false) == Some(
            (remote, " && exec "@ + program + spaced(args)),
        ),
{
    reveal_strlit(" && exec ");
    reveal_strlit(" && printf '%s' '");
    let none = Seq::<char>::empty();
    let q = sh_quoted(remote);
    assert(q + none =~= q);
    law_shell_reads_quoted_text(remote, none);
    // reading
    let read = read_script(remote);
    assert(read.skip("base64 -- "@.len() as int) =~= q);
    assert(read.subrange(0, "base64 -- "@.len() as int) =~= "base64 -- "@);
    // writing
    let above = if path_parent(remote) is Some {
        path_parent(remote)->0
    } else {
        remote
    };
    let data = b64_text(vstd::utf8::encode_utf8(content));
    let tail = " && printf '%s' '"@ + data + "' | base64 -d > "@ + q;
    let write = write_script(remote, content);
    assert(write.skip("mkdir -p "@.len() as int) =~= sh_quoted(above) + tail);
    assert(write.subrange(0, "mkdir -p "@.len() as int) =~= "mkdir -p "@);
    assert(tail[0] == ' ');
    law_shell_reads_quoted_text(above, tail);
    law_decode_undoes_encode(vstd::utf8::encode_utf8(content));
    // listing
    lemma_read_dir_tail(remote);
    // running
    let run = exec_script(remote, program, args);
    let line = " && exec "@ + program + spaced(args);
    assert(run.skip("cd "@.len() as int) =~= q + line);
    assert(run.subrange(0, "cd "@.len() as int) =~= "cd "@);
    assert(line[0] == ' ');
    law_shell_reads_quoted_text(remote, line);
}

proof fn lemma_read_dir_tail(remote: Seq<char>)
    ensures
        "cd "@.is_prefix_of(read_dir_script(remote)),
        sh_word(read_dir_script(remote).skip("cd "@.len() as int), false) matches Some((dir, rest))
            && dir == remote && " && for f in "@.is_prefix_of(rest),
{
    reveal_strlit(
        " && for f in * .[!.]* ..?*; do [ -e \"$f\" ] || [ -L \"$f\" ] || continue; if [ -L \"$f\" ]; then t=L; elif [ -d \"$f\" ]; then t=D; elif [ -f \"$f\" ]; then t=F; else t=O; fi; printf '%s\\t%s\\n' \"$t\" \"$f\"; done",
    );
    let tail =
        " && for f in * .[!.]* ..?*; do [ -e \"$f\" ] || [ -L \"$f\" ] || continue; if [ -L \"$f\" ]; then t=L; elif [ -d \"$f\" ]; then t=D; elif [ -f \"$f\" ]; then t=F; else t=O; fi; printf '%s\\t%s\\n' \"$t\" \"$f\"; done"@;
    let q = sh_quoted(remote);
    let list = read_dir_script(remote);
    reveal_strlit(" && for f in ");
    assert(tail[0] == ' ');
    assert(tail.subrange(0, 13) =~= " && for f in "@);
    assert(list.skip("cd "@.len() as int) =~= q + tail);
    assert(list.subrange(0, "cd "@.len() as int) =~= "cd "@);
    law_shell_reads_quoted_text(remote, tail);
}

/// A host can be reached exactly where the trial script ends with code zero; the failure names the
/// host, and what it said or the reason that it could not be asked.
pub proof fn law_when_a_host_is_reached(
    host: Seq<char>,
    out: RemoteText,
    e: IoFault,
    output: Seq<char>,
)
    ensures
        probe_fault(host, Ok(out)) is None <==> out.code == 0,
        probe_fault(host, Err(ExecFault::Io(e))) is Some,
        probe_fault(host, Err(ExecFault::TimedOut(output))) is Some,
        probe_fault(host, Err(ExecFault::TimedOut(output)))->0.kind == IoErrorKind::TimedOut,
        out.code != 0 ==> probe_fault(host, Ok(out))->0.kind == IoErrorKind::Other,
        out.code != 0 ==> ("ssh to "@ + host + " failed (exit "@ + dec_int(out.code as int) + "): "@
            + trimmed(out.stderr)).is_prefix_of(probe_fault(host, Ok(out))->0.message),
        probe_fault(host, Err(ExecFault::Io(e)))->0.kind == IoErrorKind::Other,
        ("failed to run ssh to "@ + host + ": "@ + e.message).is_prefix_of(
            probe_fault(host, Err(ExecFault::Io(e)))->0.message,
        ),
        ("ssh to "@ + host).is_prefix_of(
            probe_fault(host, Err(ExecFault::TimedOut(output)))->0.message,
        ),
{
    let m = probe_fault(host, Err(ExecFault::Io(e)))->0.message;
    let p = "failed to run ssh to "@ + host + ": "@ + e.message;
    assert(m.subrange(0, p.len() as int) =~= p);
    let late = probe_fault(host, Err(ExecFault::TimedOut(output)))->0.message;
    let named = "ssh to "@ + host;
    assert(late.subrange(0, named.len() as int) =~= named);
    if out.code != 0 {
        let f = probe_fault(host, Ok(out))->0.message;
        let q = "ssh to "@ + host + " failed (exit "@ + dec_int(out.code as int) + "): "@ + trimmed(
            out.stderr,
        );
        assert(f.subrange(0, q.len() as int) =~= q);
    }
}

/// The remote root is asked for by a script that goes there, or where none is given by one that
/// does not; it is what the script wrote, without the white space around it, exactly where the
/// script ended with code zero.
pub proof fn law_remote_root(
    root: Seq<char>,
    remote_root: Option<Seq<char>>,
    out: RemoteText,
    e: IoFault,
    output: Seq<char>,
)
    ensures
        root_script(None) == "pwd"@,
        sh_word(root_script(Some(root)).skip("cd "@.len() as int), false) == Some(
            (root, " && pwd -P"@),
        ),
        "cd "@.is_prefix_of(root_script(Some(root))),
        root_result(remote_root, Ok(out)) is Ok <==> out.code == 0,
        out.code == 0 ==> root_result(remote_root, Ok(out))->Ok_0 == trimmed(out.stdout),
        out.code != 0 ==> root_result(remote_root, Ok(out))->Err_0.kind == IoErrorKind::Other,
        root_result(remote_root, Err(ExecFault::Io(e))) is Err,
        root_result(remote_root, Err(ExecFault::Io(e)))->Err_0.kind == IoErrorKind::Other,
        root_result(remote_root, Err(ExecFault::TimedOut(output))) is Err,
        root_result(remote_root, Err(ExecFault::TimedOut(output)))->Err_0.kind
            == IoErrorKind::TimedOut,
{
    reveal_strlit(" && pwd -P");
    let script = root_script(Some(root));
    let tail = " && pwd -P"@;
    assert(tail[0] == ' ');
    assert(script.skip("cd "@.len() as int) =~= sh_quoted(root) + tail);
    assert(script.subrange(0, "cd "@.len() as int) =~= "cd "@);
    law_shell_reads_quoted_text(root, tail);
}

/// Where the remote root cannot be had, the failure names the root that was asked for, and the code
/// and the words of the host or the reason that it could not be asked.
pub proof fn law_remote_root_failures(root: Seq<char>, out: RemoteText, e: IoFault, output: Seq<char>)
    requires
        out.code != 0,
    ensures
        ("remote root "@ + debug_path_text(root) + " is not accessible (exit "@ + dec_int(
            out.code as int,
        ) + "): "@ + trimmed(out.stderr)).is_prefix_of(
            root_result(Some(root), Ok(out))->Err_0.message,
        ),
        ("failed to determine remote home (exit "@ + dec_int(out.code as int) + "): "@ + trimmed(
            out.stderr,
        )).is_prefix_of(root_result(None, Ok(out))->Err_0.message),
        root_result(Some(root), Err(ExecFault::Io(e)))->Err_0.message
            == "failed to resolve remote root "@ + debug_path_text(root) + ": "@ + e.message,
        root_result(Some(root), Err(ExecFault::TimedOut(output)))->Err_0.message
            == "timed out resolving remote root "@ + debug_path_text(root),
        root_result(None, Err(ExecFault::Io(e)))->Err_0.message
            == "failed to determine remote home: "@ + e.message,
        root_result(None, Err(ExecFault::TimedOut(output)))->Err_0.message
            == "timed out determining remote home"@,
{
    let m = root_result(Some(root), Ok(out))->Err_0.message;
    let p = "remote root "@ + debug_path_text(root) + " is not accessible (exit "@ + dec_int(
        out.code as int,
    ) + "): "@ + trimmed(out.stderr);
    assert(m.subrange(0, p.len() as int) =~= p);
    let n = root_result(None, Ok(out))->Err_0.message;
    let q = "failed to determine remote home (exit "@ + dec_int(out.code as int) + "): "@ + trimmed(
        out.stderr,
    );
    assert(n.subrange(0, q.len() as int) =~= q);
}

} // verus!
