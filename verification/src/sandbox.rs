//! Commands inside a macOS Seatbelt sandbox.
//!
//! A sandboxed command may write only below the project and in a directory for temporary files,
//! and reaches the network only where that was asked for. In a policy the last rule that fits
//! wins, so what is denied stands before what is allowed.

use vstd::prelude::*;

use crate::error::{IoError, IoErrorKind, IoFault};
use crate::runtime::RuntimeConfig;
use crate::text::{cat2, chars_of, owned_all, texts};

verus! {

/// The program that puts a command into a sandbox.
pub const SANDBOX_EXEC: &'static str = "/usr/bin/sandbox-exec";

/// A character as it stands in a string of a policy.
pub open spec fn escaped_char(c: char) -> Seq<char> {
    if c == '\\' || c == '"' {
        seq!['\\', c]
    } else {
        seq![c]
    }
}

/// A text as it stands in a string of a policy: backslashes and quotes have a backslash before
/// them.
pub open spec fn sbpl_escaped(s: Seq<char>) -> Seq<char>
    decreases s.len(),
{
    if s.len() == 0 {
        seq![]
    } else {
        sbpl_escaped(s.drop_last()) + escaped_char(s.last())
    }
}

/// The rules of a sandbox, one to a line.
pub open spec fn policy_text(root: Seq<char>, tmpdir: Seq<char>, network: bool) -> Seq<char> {
    "(version 1)\n(allow default)\n"@ + (if network {
        ""@
    } else {
        "(deny network*)\n"@
    }) + "(deny file-write*)\n"@ + "(allow file-write* (subpath \""@ + sbpl_escaped(root)
        + "\"))\n"@ + "(allow file-write* (subpath \""@ + sbpl_escaped(tmpdir) + "\"))"@
}

/// Escapes backslashes and quotes for a string of a policy.
pub fn sbpl_escape(s: &str) -> (r: String)
    ensures
        r@ == sbpl_escaped(s@),
{
    let cs = chars_of(s);
    let mut out: String = String::new();
    let mut i: usize = 0;
    proof {
        assert(s@.take(0) =~= seq![]);
        assert(out@ =~= seq![]);
    }
    while i < cs.len()
        invariant
            i <= cs@.len(),
            cs@ == s@,
            out@ == sbpl_escaped(s@.take(i as int)),
        decreases cs@.len() - i,
    {
        let ghost before = out@;
        let c = cs[i];
        if c == '\\' || c == '"' {
            out.push('\\');
        }
        out.push(c);
        proof {
            assert(s@.take(i + 1).drop_last() =~= s@.take(i as int));
            assert(out@ =~= before + escaped_char(c));
        }
        i = i + 1;
    }
    proof {
        assert(s@.take(i as int) =~= s@);
    }
    out
}

/// The rules of a sandbox: no network unless `network` says so, and no writing but below `root`
/// and `tmpdir`. Both paths have to be free of symbolic links.
pub fn sandbox_policy(root: &str, tmpdir: &str, network: bool) -> (r: String)
    ensures
        r@ == policy_text(root@, tmpdir@, network),
{
    let mut policy = "(version 1)\n(allow default)\n".to_owned();
    policy.append(
        if network {
            ""
        } else {
            "(deny network*)\n"
        },
    );
    policy.append("(deny file-write*)\n");
    policy.append("(allow file-write* (subpath \"");
    policy.append(sbpl_escape(root).as_str());
    policy.append("\"))\n");
    policy.append("(allow file-write* (subpath \"");
    policy.append(sbpl_escape(tmpdir).as_str());
    policy.append("\"))");
    policy
}

/// The words of a command inside a sandbox.
pub fn sandbox_argv(
    program: &str,
    args: &[String],
    root: &str,
    tmpdir: &str,
    network: bool,
) -> (r: Vec<String>)
    ensures
        texts(r@) == seq![SANDBOX_EXEC@, "-p"@, policy_text(root@, tmpdir@, network), program@]
            + texts(args@),
{
    let mut argv: Vec<String> = Vec::new();
    argv.push(SANDBOX_EXEC.to_owned());
    argv.push("-p".to_owned());
    argv.push(sandbox_policy(root, tmpdir, network));
    argv.push(program.to_owned());
    let mut rest = owned_all(args);
    argv.append(&mut rest);
    proof {
        assert(texts(argv@) =~= seq![
            SANDBOX_EXEC@,
            "-p"@,
            policy_text(root@, tmpdir@, network),
            program@,
        ] + texts(args@));
    }
    argv
}

/// The resolved form of a path, or the path itself where it could not be resolved.
pub fn canonicalize_or(path: &str, resolved: Option<String>) -> (r: String)
    ensures
        r@ == match resolved {
            Some(p) => p@,
            None => path@,
        },
{
    match resolved {
        Some(p) => p,
        None => path.to_owned(),
    }
}

/// The directory for temporary files: the value of `TMPDIR`, or `/tmp`.
pub fn resolve_tmpdir(tmpdir_env: Option<&str>) -> (r: String)
    ensures
        r@ == match tmpdir_env {
            Some(dir) => dir@,
            None => "/tmp"@,
        },
{
    match tmpdir_env {
        Some(dir) => dir.to_owned(),
        None => "/tmp".to_owned(),
    }
}

/// A runtime whose commands run in a sandbox. Files are those of the runtime inside it.
#[derive(Debug, Clone)]
pub struct SandboxedRuntime {
    pub config: RuntimeConfig,
    /// The project, free of symbolic links.
    pub root: String,
    /// The directory for temporary files, free of symbolic links.
    pub tmpdir: String,
    /// Whether commands reach the network.
    pub network: bool,
}

/// What speaks against using the sandbox.
pub open spec fn sandbox_fault(macos: bool, exists: bool) -> Option<IoFault> {
    if !macos {
        Some(
            IoFault {
                kind: IoErrorKind::Other,
                message:
                    "Seatbelt sandbox requires macOS (sandbox-exec is not available on this platform)"@,
            },
        )
    } else if !exists {
        Some(
            IoFault {
                kind: IoErrorKind::NotFound,
                message: SANDBOX_EXEC@
                    + " not found; Seatbelt sandbox is not available on this system"@,
            },
        )
    } else {
        None
    }
}

impl SandboxedRuntime {
    /// A sandbox around the project at `root`, where this is macOS (`macos`) and the program
    /// that makes sandboxes is there (`exists`). It never falls back to running commands without
    /// one.
    pub fn new(
        root: &str,
        tmpdir: &str,
        network: bool,
        config: RuntimeConfig,
        macos: bool,
        exists: bool,
    ) -> (r: Result<SandboxedRuntime, IoError>)
        ensures
            match r {
                Ok(rt) => {
                    &&& sandbox_fault(macos, exists) is None
                    &&& rt.root@ == root@
                    &&& rt.tmpdir@ == tmpdir@
                    &&& rt.network == network
                    &&& rt.config == config
                },
                Err(e) => sandbox_fault(macos, exists) == Some(e@),
            },
    {
        if !macos {
            return Err(
                IoError::other(
                    "Seatbelt sandbox requires macOS (sandbox-exec is not available on this platform)",
                ),
            );
        }
        if !exists {
            let message = cat2(
                SANDBOX_EXEC,
                " not found; Seatbelt sandbox is not available on this system",
            );
            return Err(IoError::new(IoErrorKind::NotFound, message.as_str()));
        }
        Ok(SandboxedRuntime { config, root: root.to_owned(), tmpdir: tmpdir.to_owned(), network })
    }

    /// The words of a command inside this sandbox.
    pub fn argv(&self, program: &str, args: &[String]) -> (r: Vec<String>)
        ensures
            texts(r@) == seq![
                SANDBOX_EXEC@,
                "-p"@,
                policy_text(self.root@, self.tmpdir@, self.network),
                program@,
            ] + texts(args@),
    {
        sandbox_argv(program, args, self.root.as_str(), self.tmpdir.as_str(), self.network)
    }
}

// ---------------------------------------------------------------------------------------------
// Laws
// ---------------------------------------------------------------------------------------------

/// What a string of a policy stands for: a backslash makes the next character stand for itself,
/// a quote ends the string. The text up to there, and what follows.
pub open spec fn sbpl_read(s: Seq<char>) -> Option<(Seq<char>, Seq<char>)>
    decreases s.len(),
{
    if s.len() == 0 {
        None
    } else if s[0] == '"' {
        Some((seq![], s.skip(1)))
    } else if s[0] == '\\' {
        if s.len() < 2 {
            None
        } else {
            match sbpl_read(s.skip(2)) {
                Some((text, rest)) => Some((seq![s[1]] + text, rest)),
                None => None,
            }
        }
    } else {
        match sbpl_read(s.skip(1)) {
            Some((text, rest)) => Some((seq![s[0]] + text, rest)),
            None => None,
        }
    }
}

proof fn lemma_escaped_concat(a: Seq<char>, b: Seq<char>)
    ensures
        sbpl_escaped(a + b) == sbpl_escaped(a) + sbpl_escaped(b),
    decreases b.len(),
{
    if b.len() == 0 {
        assert(a + b =~= a);
        assert(sbpl_escaped(a) + sbpl_escaped(b) =~= sbpl_escaped(a));
    } else {
        assert((a + b).drop_last() =~= a + b.drop_last());
        lemma_escaped_concat(a, b.drop_last());
        assert(sbpl_escaped(a) + sbpl_escaped(b.drop_last()) + escaped_char(b.last())
            =~= sbpl_escaped(a) + (sbpl_escaped(b.drop_last()) + escaped_char(b.last())));
    }
}

/// No path breaks out of its string: up to the closing quote, the string stands for the path,
/// whatever the path holds.
pub proof fn law_escape_reads_back(s: Seq<char>, rest: Seq<char>)
    ensures
        sbpl_read(sbpl_escaped(s) + seq!['"'] + rest) == Some((s, rest)),
    decreases s.len(),
{
    let tail = seq!['"'] + rest;
    if s.len() == 0 {
        let t = sbpl_escaped(s) + seq!['"'] + rest;
        assert(t =~= tail);
        assert(t.skip(1) =~= rest);
    } else {
        let first = seq![s[0]];
        let more = s.skip(1);
        assert(s =~= first + more);
        lemma_escaped_concat(first, more);
        assert(first.drop_last() =~= seq![]);
        assert(sbpl_escaped(first) =~= escaped_char(s[0])) by {
            assert(sbpl_escaped(first) == sbpl_escaped(first.drop_last()) + escaped_char(s[0]));
        }
        law_escape_reads_back(more, rest);
        let t = sbpl_escaped(s) + seq!['"'] + rest;
        let u = sbpl_escaped(more) + seq!['"'] + rest;
        assert(t =~= escaped_char(s[0]) + u);
        if s[0] == '\\' || s[0] == '"' {
            assert(t.skip(2) =~= u);
        } else {
            assert(t.skip(1) =~= u);
        }
        assert(first + more =~= s);
    }
}

/// What is denied stands before what is allowed, and the network is denied exactly where it was
/// not asked for: the policy is the version, the denials, and then the two directories.
pub proof fn law_denials_come_first(root: Seq<char>, tmpdir: Seq<char>, network: bool)
    ensures
        ({
            let start = "(version 1)\n(allow default)\n"@;
            let net = "(deny network*)\n"@;
            let write = "(deny file-write*)\n"@;
            let policy = policy_text(root, tmpdir, network);
            let head = if network {
                start + write
            } else {
                start + net + write
            };
            &&& head.is_prefix_of(policy)
            &&& policy.skip(head.len() as int) == "(allow file-write* (subpath \""@ + sbpl_escaped(
                root,
            ) + "\"))\n"@ + "(allow file-write* (subpath \""@ + sbpl_escaped(tmpdir) + "\"))"@
        }),
{
    let start = "(version 1)\n(allow default)\n"@;
    let net = "(deny network*)\n"@;
    let write = "(deny file-write*)\n"@;
    let policy = policy_text(root, tmpdir, network);
    reveal_strlit("");
    let head = if network {
        start + write
    } else {
        start + net + write
    };
    let allow = "(allow file-write* (subpath \""@ + sbpl_escaped(root) + "\"))\n"@
        + "(allow file-write* (subpath \""@ + sbpl_escaped(tmpdir) + "\"))"@;
    assert(policy =~= head + allow);
    assert(policy.subrange(0, head.len() as int) =~= head);
    assert(policy.skip(head.len() as int) =~= allow);
}

/// The sandbox is there exactly where the system is the one that has it and its program is found;
/// what is missing shows in the kind of the failure.
pub proof fn law_when_there_is_a_sandbox(macos: bool, exists: bool)
    ensures
        sandbox_fault(macos, exists) is None <==> macos && exists,
        sandbox_fault(macos, exists) is Some && sandbox_fault(macos, exists)->0.kind
            == IoErrorKind::NotFound <==> macos && !exists,
        !macos ==> sandbox_fault(macos, exists)->0.kind == IoErrorKind::Other,
{
}

} // verus!
