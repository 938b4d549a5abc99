//! Commands inside a Nix development shell.

use vstd::prelude::*;

use crate::error::{IoError, IoErrorKind, IoFault};
use crate::number::{dec_i32, dec_int};
use crate::runtime::{
    exec_reply, ExecError, ExecFault, ExecOutput, LocalRuntime, OutputText, RuntimeConfig,
};
use crate::text::{cat2, owned_all, texts};

verus! {

/// A runtime whose commands run through `nix develop`. Files are those of this machine.
#[derive(Debug, Clone, Copy)]
pub struct NixRuntime {
    /// What reads and writes files.
    pub local: LocalRuntime,
}

/// What speaks against using Nix, after `nix --version` was tried.
pub open spec fn nix_fault(probe: Result<OutputText, ExecFault>) -> Option<IoFault> {
    match probe {
        Ok(o) => if o.code == 0 {
            None
        } else {
            Some(
                IoFault {
                    kind: IoErrorKind::Other,
                    message: "`nix --version` exited with code "@ + dec_int(o.code as int),
                },
            )
        },
        Err(ExecFault::Io(e)) => Some(e),
        Err(ExecFault::TimedOut(_)) => Some(
            IoFault { kind: IoErrorKind::TimedOut, message: "`nix --version` timed out"@ },
        ),
    }
}

impl NixRuntime {
    /// The arguments of the `nix` command whose result [`NixRuntime::new`] wants to see.
    pub fn probe_args() -> (r: Vec<String>)
        ensures
            texts(r@) == seq!["--version"@],
    {
        let mut r: Vec<String> = Vec::new();
        r.push("--version".to_owned());
        proof {
            assert(texts(r@) =~= seq!["--version"@]);
        }
        r
    }

    /// A Nix runtime, where `nix --version` worked; else what went wrong with it.
    pub fn new(config: RuntimeConfig, probe: Result<ExecOutput, ExecError>) -> (r: Result<
        NixRuntime,
        IoError,
    >)
        ensures
            match r {
                Ok(rt) => nix_fault(exec_reply(probe)) is None && rt.local.config == config,
                Err(e) => nix_fault(exec_reply(probe)) == Some(e@),
            },
    {
        match probe {
            Ok(o) => if o.code == 0 {
                Ok(NixRuntime { local: LocalRuntime::new(config) })
            } else {
                Err(
                    IoError::other(
                        cat2("`nix --version` exited with code ", dec_i32(o.code).as_str()).as_str(),
                    ),
                )
            },
            Err(ExecError::Io(e)) => Err(e),
            Err(ExecError::TimedOut(_)) => Err(
                IoError::new(IoErrorKind::TimedOut, "`nix --version` timed out"),
            ),
        }
    }
}

/// The words of a command inside a Nix development shell.
pub fn nix_develop_argv(program: &str, args: &[String]) -> (r: Vec<String>)
    ensures
        texts(r@) == seq!["nix"@, "develop"@, "--command"@, program@] + texts(args@),
{
    let mut argv: Vec<String> = Vec::new();
    argv.push("nix".to_owned());
    argv.push("develop".to_owned());
    argv.push("--command".to_owned());
    argv.push(program.to_owned());
    let mut rest = owned_all(args);
    argv.append(&mut rest);
    proof {
        assert(texts(argv@) =~= seq!["nix"@, "develop"@, "--command"@, program@] + texts(args@));
    }
    argv
}

/// Nix is there exactly where asking for its version ends with code zero. A failure to start it is
/// handed on as it is; a code other than zero is named.
pub proof fn law_when_nix_is_there(probe: Result<OutputText, ExecFault>)
    ensures
        nix_fault(probe) is None <==> (probe matches Ok(o) && o.code == 0),
        probe matches Err(ExecFault::Io(e)) ==> nix_fault(probe) == Some(e),
        probe is Err && probe->Err_0 is TimedOut ==> nix_fault(probe)->0.kind
            == IoErrorKind::TimedOut,
        probe is Ok && probe->Ok_0.code != 0 ==> nix_fault(probe)->0.message.skip(
            nix_fault(probe)->0.message.len() - dec_int(probe->Ok_0.code as int).len(),
        ) == dec_int(probe->Ok_0.code as int),
{
    if probe is Ok && probe->Ok_0.code != 0 {
        let n = dec_int(probe->Ok_0.code as int);
        let m = nix_fault(probe)->0.message;
        assert(m.skip(m.len() - n.len()) =~= n);
    }
}

} // verus!
