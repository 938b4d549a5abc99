//! What the agent may do: the rule that every tool call is held to before anything happens.

use vstd::prelude::*;

use crate::text::{cat3, same};

verus! {

/// Which side effects are allowed.
#[derive(Clone, Copy, Debug, PartialEq, Eq, Structural)]
pub struct Capabilities {
    /// Reading files: `read_file` and `search`.
    pub filesystem_read: bool,
    /// Writing files: `write_file` and `edit_file`.
    pub filesystem_write: bool,
    /// Running commands: `exec`.
    pub process_execute: bool,
}

/// A kind of side effect.
#[derive(Clone, Copy, Debug, PartialEq, Eq, Structural)]
pub enum Capability {
    FilesystemRead,
    FilesystemWrite,
    ProcessExecute,
}

impl Capability {
    /// The name of the kind.
    pub open spec fn name(self) -> Seq<char> {
        match self {
            Capability::FilesystemRead => "filesystem_read"@,
            Capability::FilesystemWrite => "filesystem_write"@,
            Capability::ProcessExecute => "process_execute"@,
        }
    }
}

/// The kind of side effect that a tool has. Names of no tool, and tools without one, have none.
pub open spec fn required(tool_name: Seq<char>) -> Option<Capability> {
    if tool_name == "read_file"@ || tool_name == "search"@ {
        Some(Capability::FilesystemRead)
    } else if tool_name == "write_file"@ || tool_name == "edit_file"@ {
        Some(Capability::FilesystemWrite)
    } else if tool_name == "exec"@ {
        Some(Capability::ProcessExecute)
    } else {
        None
    }
}

/// The kind of side effect that a tool has, and its name.
pub fn required_capability(tool_name: &str) -> (r: Option<(Capability, &'static str)>)
    ensures
        match r {
            Some((c, name)) => required(tool_name@) == Some(c) && name@ == c.name(),
            None => required(tool_name@) is None,
        },
{
    if same(tool_name, "read_file") || same(tool_name, "search") {
        Some((Capability::FilesystemRead, "filesystem_read"))
    } else if same(tool_name, "write_file") || same(tool_name, "edit_file") {
        Some((Capability::FilesystemWrite, "filesystem_write"))
    } else if same(tool_name, "exec") {
        Some((Capability::ProcessExecute, "process_execute"))
    } else {
        None
    }
}

impl Default for Capabilities {
    /// Everything is allowed.
    fn default() -> (r: Capabilities)
        ensures
            r.filesystem_read && r.filesystem_write && r.process_execute,
    {
        Capabilities { filesystem_read: true, filesystem_write: true, process_execute: true }
    }
}

impl Capabilities {
    /// Whether a kind of side effect is allowed.
    pub open spec fn has(self, c: Capability) -> bool {
        match c {
            Capability::FilesystemRead => self.filesystem_read,
            Capability::FilesystemWrite => self.filesystem_write,
            Capability::ProcessExecute => self.process_execute,
        }
    }

    /// The kind of side effect that stands against a tool call.
    pub open spec fn missing(self, tool_name: Seq<char>) -> Option<Capability> {
        match required(tool_name) {
            Some(c) => if self.has(c) {
                None
            } else {
                Some(c)
            },
            None => None,
        }
    }

    /// Files can be read, and nothing else.
    pub fn read_only() -> (r: Capabilities)
        ensures
            r.filesystem_read && !r.filesystem_write && !r.process_execute,
    {
        Capabilities { filesystem_read: true, filesystem_write: false, process_execute: false }
    }

    /// Whether a tool may be called. A name of no tool passes: reading the call deals with it.
    pub fn allows(&self, tool_name: &str) -> (r: bool)
        ensures
            r == (self.missing(tool_name@) is None),
    {
        self.denied_capability_name(tool_name).is_none()
    }

    /// The name of the kind of side effect that stands against a tool call.
    pub fn denied_capability_name(&self, tool_name: &str) -> (r: Option<&'static str>)
        ensures
            match r {
                Some(name) => self.missing(tool_name@) is Some && name@ == self.missing(
                    tool_name@,
                )->0.name(),
                None => self.missing(tool_name@) is None,
            },
    {
        match required_capability(tool_name) {
            None => None,
            Some((capability, name)) => {
                let allowed = match capability {
                    Capability::FilesystemRead => self.filesystem_read,
                    Capability::FilesystemWrite => self.filesystem_write,
                    Capability::ProcessExecute => self.process_execute,
                };
                if allowed {
                    None
                } else {
                    Some(name)
                }
            },
        }
    }
}

/// What the model is told of a call that was not allowed.
pub open spec fn denial(tool_name: Seq<char>, missing: Capability) -> Seq<char> {
    "tool error: permission denied: "@ + tool_name + " requires "@ + missing.name()
        + " capability"@
}

/// What the model is told of a call that was not allowed; nothing where it was.
pub fn denial_message(caps: &Capabilities, tool_name: &str) -> (r: Option<String>)
    ensures
        crate::text::opt_text(r) == match caps.missing(tool_name@) {
            Some(c) => Some(denial(tool_name@, c)),
            None => None,
        },
{
    match caps.denied_capability_name(tool_name) {
        Some(name) => {
            let mut r = cat3("tool error: permission denied: ", tool_name, " requires ");
            r.append(name);
            r.append(" capability");
            Some(r)
        },
        None => None,
    }
}

// ---------------------------------------------------------------------------------------------
// Laws
// ---------------------------------------------------------------------------------------------

/// What can only be read cannot be changed: with reading alone, exactly `write_file`,
/// `edit_file` and `exec` are refused.
pub proof fn law_read_only(caps: Capabilities, tool_name: Seq<char>)
    requires
        caps.filesystem_read && !caps.filesystem_write && !caps.process_execute,
    ensures
        caps.missing(tool_name) is Some <==> tool_name == "write_file"@ || tool_name
            == "edit_file"@ || tool_name == "exec"@,
{
    crate::tool::lemma_tool_names();
}

/// What each tool needs, for every set of capabilities: reading and searching need to read,
/// writing and editing need to write, running needs to run, and nothing else needs anything. What
/// the other capabilities are makes no difference.
pub proof fn law_each_tool_has_its_capability(caps: Capabilities, tool_name: Seq<char>)
    ensures
        caps.missing(tool_name) == Some(Capability::FilesystemRead) <==> !caps.filesystem_read && (
        tool_name == "read_file"@ || tool_name == "search"@),
        caps.missing(tool_name) == Some(Capability::FilesystemWrite) <==> !caps.filesystem_write
            && (tool_name == "write_file"@ || tool_name == "edit_file"@),
        caps.missing(tool_name) == Some(Capability::ProcessExecute) <==> !caps.process_execute
            && tool_name == "exec"@,
{
    reveal_strlit("read_file");
    reveal_strlit("search");
    reveal_strlit("write_file");
    reveal_strlit("edit_file");
    reveal_strlit("exec");
    assert("write_file"@.len() == 10 && "read_file"@.len() == 9 && "search"@.len() == 6
        && "exec"@.len() == 4 && "edit_file"@.len() == 9);
    assert("read_file"@[0] == 'r' && "edit_file"@[0] == 'e');
}

/// A refusal tells the tool and the capability that it lacks, so that two refusals read the same
/// only where the lack is the same.
pub proof fn law_denial_names_both(tool_name: Seq<char>, missing: Capability)
    ensures
        denial(tool_name, missing) == "tool error: permission denied: "@ + tool_name + " requires "@
            + (match missing {
            Capability::FilesystemRead => "filesystem_read"@,
            Capability::FilesystemWrite => "filesystem_write"@,
            Capability::ProcessExecute => "process_execute"@,
        }) + " capability"@,
{
}

} // verus!
