//! The command line: what environment variables mean, and what the user types.

use vstd::prelude::*;

use core::time::Duration;

use crate::error::IoError;
use crate::number::{
    dec, is_digit, law_dec_reads_back, lemma_dec_digits, number_value, parse_number,
};
use crate::runtime::duration_of_secs;
use crate::text::{
    all_blank, cat2, cat3, chars_of, debug_text, is_on, law_trimming, quoted, same, string_between,
    switched_on, trim, trimmed, white_space,
};

verus! {

// ---------------------------------------------------------------------------------------------
// Settings
// ---------------------------------------------------------------------------------------------

/// The time that a command may run: a whole number of seconds, not zero.
pub open spec fn timeout_secs(value: Seq<char>) -> Result<u64, Seq<char>> {
    match number_value(trimmed(value)) {
        Some(n) => if n > u64::MAX {
            Err(debug_text(value) + " is not a positive integer number of seconds"@)
        } else if n == 0 {
            Err(
                debug_text(value)
                    + " is 0; exec timeout must be a positive number of seconds"@,
            )
        } else {
            Ok(n as u64)
        },
        None => Err(debug_text(value) + " is not a positive integer number of seconds"@),
    }
}

/// Reads `KARAKURI_EXEC_TIMEOUT_SECS`.
pub fn parse_exec_timeout(value: &str) -> (r: Result<Duration, String>)
    ensures
        match r {
            Ok(d) => timeout_secs(value@) is Ok && d == duration_of_secs(
                timeout_secs(value@)->Ok_0,
            ),
            Err(e) => timeout_secs(value@) == Err::<u64, Seq<char>>(e@),
        },
{
    match parse_number(trim(value).as_str(), u64::MAX) {
        None => Err(
            cat2(quoted(value).as_str(), " is not a positive integer number of seconds"),
        ),
        Some(secs) => if secs == 0 {
            Err(
                cat2(
                    quoted(value).as_str(),
                    " is 0; exec timeout must be a positive number of seconds",
                ),
            )
        } else {
            Ok(Duration::from_secs(secs))
        },
    }
}

/// Reads a switch such as `KARAKURI_READ_ONLY`: it is on where its value says so, and off where
/// it is not set.
pub fn switch(value: Option<&str>) -> (r: bool)
    ensures
        r == (value matches Some(v) && switched_on(v@)),
{
    match value {
        Some(v) => is_on(v),
        None => false,
    }
}

/// Where the conversation is kept: the value of `KARAKURI_SESSION`, or `session.json`.
pub fn session_path(value: Option<&str>) -> (r: String)
    ensures
        r@ == match value {
            Some(path) => path@,
            None => "session.json"@,
        },
{
    match value {
        Some(path) => path.to_owned(),
        None => "session.json".to_owned(),
    }
}

/// The value of an environment variable.
#[derive(Debug, Clone, PartialEq, Eq)]
pub enum EnvValue {
    Missing,
    NotUnicode,
    Text(String),
}

/// The runtimes to choose from.
#[derive(Debug, Clone, Copy, PartialEq, Eq, Structural)]
pub enum RuntimeChoice {
    Local,
    Nix,
    Ssh,
}

/// The runtime that `KARAKURI_RUNTIME` names, the local one where it is not set.
pub open spec fn runtime_choice(value: EnvValue) -> Result<RuntimeChoice, Seq<char>> {
    match value {
        EnvValue::Missing => Ok(RuntimeChoice::Local),
        EnvValue::NotUnicode => Err("KARAKURI_RUNTIME must be valid UTF-8"@),
        EnvValue::Text(s) => if s@ == "local"@ {
            Ok(RuntimeChoice::Local)
        } else if s@ == "nix"@ {
            Ok(RuntimeChoice::Nix)
        } else if s@ == "ssh"@ {
            Ok(RuntimeChoice::Ssh)
        } else {
            Err(
                "unknown KARAKURI_RUNTIME value: "@ + debug_text(s@)
                    + " (expected \"local\", \"nix\" or \"ssh\")"@,
            )
        },
    }
}

/// Reads `KARAKURI_RUNTIME`.
pub fn select_runtime(value: &EnvValue) -> (r: Result<RuntimeChoice, String>)
    ensures
        match r {
            Ok(choice) => runtime_choice(*value) == Ok::<RuntimeChoice, Seq<char>>(choice),
            Err(e) => runtime_choice(*value) == Err::<RuntimeChoice, Seq<char>>(e@),
        },
{
    match value {
        EnvValue::Missing => Ok(RuntimeChoice::Local),
        EnvValue::NotUnicode => Err("KARAKURI_RUNTIME must be valid UTF-8".to_owned()),
        EnvValue::Text(s) => if same(s.as_str(), "local") {
            Ok(RuntimeChoice::Local)
        } else if same(s.as_str(), "nix") {
            Ok(RuntimeChoice::Nix)
        } else if same(s.as_str(), "ssh") {
            Ok(RuntimeChoice::Ssh)
        } else {
            Err(
                cat3(
                    "unknown KARAKURI_RUNTIME value: ",
                    quoted(s.as_str()).as_str(),
                    " (expected \"local\", \"nix\" or \"ssh\")",
                ),
            )
        },
    }
}

/// What is said where Nix was chosen and cannot be used.
pub fn nix_unavailable(e: &IoError) -> (r: String)
    ensures
        r@ == "KARAKURI_RUNTIME=nix but nix is not available: "@ + e.message@
            + "\n  install nix (https://nixos.org/download) or use KARAKURI_RUNTIME=local"@,
{
    cat3(
        "KARAKURI_RUNTIME=nix but nix is not available: ",
        e.message.as_str(),
        "\n  install nix (https://nixos.org/download) or use KARAKURI_RUNTIME=local",
    )
}

/// The host that `KARAKURI_SSH_HOST` names: it has to be there and not blank.
pub fn ssh_host_from(value: Option<&str>) -> (r: Result<String, String>)
    ensures
        match r {
            Ok(host) => value matches Some(v) && trimmed(v@).len() > 0 && host@ == trimmed(v@),
            Err(e) => !(value matches Some(v) && trimmed(v@).len() > 0) && e@
                == "KARAKURI_SSH_HOST is required when KARAKURI_RUNTIME=ssh (e.g. user@host)"@,
        },
{
    let complaint = "KARAKURI_SSH_HOST is required when KARAKURI_RUNTIME=ssh (e.g. user@host)";
    match value {
        None => Err(complaint.to_owned()),
        Some(v) => {
            let host = trim(v);
            if host.as_str().is_empty() {
                Err(complaint.to_owned())
            } else {
                Ok(host)
            }
        },
    }
}

/// The port that `KARAKURI_SSH_PORT` names, 22 where it is not set.
pub open spec fn ssh_port(value: Option<Seq<char>>) -> Result<u16, Seq<char>> {
    match value {
        None => Ok(22),
        Some(v) => match number_value(trimmed(v)) {
            Some(n) => if 1 <= n <= 65535 {
                Ok(n as u16)
            } else {
                Err(debug_text(v) + " is not a valid port (1..=65535)"@)
            },
            None => Err(debug_text(v) + " is not a valid port (1..=65535)"@),
        },
    }
}

/// Reads `KARAKURI_SSH_PORT`.
pub fn parse_ssh_port(value: Option<&str>) -> (r: Result<u16, String>)
    ensures
        ({
            let given = match value {
                Some(v) => Some(v@),
                None => None,
            };
            match r {
                Ok(port) => ssh_port(given) == Ok::<u16, Seq<char>>(port),
                Err(e) => ssh_port(given) == Err::<u16, Seq<char>>(e@),
            }
        }),
{
    match value {
        None => Ok(22),
        Some(v) => match parse_number(trim(v).as_str(), 65535) {
            Some(n) => if n == 0 {
                Err(cat2(quoted(v).as_str(), " is not a valid port (1..=65535)"))
            } else {
                Ok(n as u16)
            },
            None => Err(cat2(quoted(v).as_str(), " is not a valid port (1..=65535)")),
        },
    }
}

// ---------------------------------------------------------------------------------------------
// What the user sees and types
// ---------------------------------------------------------------------------------------------

/// What a line that the user typed asks for.
#[derive(Debug, Clone, PartialEq, Eq)]
pub enum Input {
    /// Nothing.
    Blank,
    /// To leave.
    Exit,
    /// To be answered.
    Say(String),
}

/// Reads a line that the user typed.
pub fn read_input(line: &str) -> (r: Input)
    ensures
        match r {
            Input::Blank => trimmed(line@).len() == 0,
            Input::Exit => trimmed(line@) == "/exit"@,
            Input::Say(text) => text@ == trimmed(line@) && text@.len() > 0 && text@ != "/exit"@,
        },
{
    let text = trim(line);
    if same(text.as_str(), "/exit") {
        Input::Exit
    } else if text.as_str().is_empty() {
        Input::Blank
    } else {
        Input::Say(text)
    }
}

/// How many characters of a tool's arguments are shown.
pub const SHOWN_ARGUMENTS: usize = 80;

/// A tool's arguments as they are shown while it runs: cut off where they are long.
pub fn shown_arguments(arguments: &str) -> (r: String)
    ensures
        r@ == if arguments@.len() <= SHOWN_ARGUMENTS {
            arguments@
        } else {
            arguments@.take(SHOWN_ARGUMENTS as int) + "..."@
        },
{
    let cs = chars_of(arguments);
    if cs.len() <= SHOWN_ARGUMENTS {
        arguments.to_owned()
    } else {
        proof {
            assert(arguments@.take(SHOWN_ARGUMENTS as int) =~= cs@.subrange(
                0,
                SHOWN_ARGUMENTS as int,
            ));
        }
        cat2(string_between(cs.as_slice(), 0, SHOWN_ARGUMENTS).as_str(), "...")
    }
}

/// A timeout is read from a positive number, whatever white space stands around it, and is that
/// number; what is not one is refused with the value in the message.
pub proof fn law_timeout_is_the_number(a: Seq<char>, n: nat, b: Seq<char>, value: Seq<char>)
    requires
        all_blank(a),
        all_blank(b),
    ensures
        1 <= n <= u64::MAX ==> timeout_secs(a + dec(n) + b) == Ok::<u64, Seq<char>>(n as u64),
        n == 0 || n > u64::MAX ==> timeout_secs(a + dec(n) + b) is Err,
        timeout_secs(value) is Ok <==> number_value(trimmed(value)) is Some && 1 <= number_value(
            trimmed(value),
        )->0 <= u64::MAX,
        timeout_secs(value) matches Ok(secs) ==> number_value(trimmed(value)) == Some(secs as nat),
        timeout_secs(value) matches Err(e) ==> debug_text(value).is_prefix_of(e),
{
    lemma_trimmed_number(a, n, b);
    law_dec_reads_back(n);
}

/// A port is read from a number of the range of ports, whatever white space stands around it, and
/// is that number; where none is given it is 22; anything else is refused with the value in the
/// message.
pub proof fn law_port_is_the_number(a: Seq<char>, n: nat, b: Seq<char>, value: Seq<char>)
    requires
        all_blank(a),
        all_blank(b),
    ensures
        1 <= n <= u16::MAX ==> ssh_port(Some(a + dec(n) + b)) == Ok::<u16, Seq<char>>(n as u16),
        n == 0 || n > u16::MAX ==> ssh_port(Some(a + dec(n) + b)) is Err,
        ssh_port(None) == Ok::<u16, Seq<char>>(22),
        ssh_port(Some(value)) is Ok <==> number_value(trimmed(value)) is Some && 1 <= number_value(
            trimmed(value),
        )->0 <= u16::MAX,
        ssh_port(Some(value)) matches Ok(port) ==> number_value(trimmed(value)) == Some(
            port as nat,
        ),
        ssh_port(Some(value)) matches Err(e) ==> debug_text(value).is_prefix_of(e),
{
    lemma_trimmed_number(a, n, b);
    law_dec_reads_back(n);
}

proof fn lemma_trimmed_number(a: Seq<char>, n: nat, b: Seq<char>)
    requires
        all_blank(a),
        all_blank(b),
    ensures
        trimmed(a + dec(n) + b) == dec(n),
{
    let t = dec(n);
    lemma_dec_digits(n);
    assert(is_digit(t[0]));
    assert(is_digit(t[t.len() - 1]));
    law_trimming(a, t, b);
}

/// The runtime is chosen by name, letter for letter: `nix` and `ssh` for those, and the local one
/// for `local` and where nothing is given. Every other value is refused.
pub proof fn law_runtime_is_chosen_by_name(value: EnvValue)
    ensures
        runtime_choice(value) == Ok::<RuntimeChoice, Seq<char>>(RuntimeChoice::Nix) <==> (
        value matches EnvValue::Text(s) && s@ == "nix"@),
        runtime_choice(value) == Ok::<RuntimeChoice, Seq<char>>(RuntimeChoice::Ssh) <==> (
        value matches EnvValue::Text(s) && s@ == "ssh"@),
        runtime_choice(value) == Ok::<RuntimeChoice, Seq<char>>(RuntimeChoice::Local) <==> (
        value is Missing || (value matches EnvValue::Text(s) && s@ == "local"@)),
{
    reveal_strlit("nix");
    reveal_strlit("ssh");
    reveal_strlit("local");
    assert("nix"@[0] == 'n' && "ssh"@[0] == 's' && "local"@[0] == 'l');
}

/// What the user types is said as it is, but for the white space around it; `/exit` alone leaves,
/// and a blank line asks for nothing.
pub proof fn law_input(line: &str, a: Seq<char>, t: Seq<char>, b: Seq<char>, r: Input)
    requires
        call_ensures(read_input, (line,), r),
        all_blank(a),
        all_blank(b),
        t.len() > 0 ==> !white_space(t[0]) && !white_space(t.last()),
        line@ == a + t + b,
    ensures
        t.len() == 0 ==> r is Blank,
        t == "/exit"@ ==> r is Exit,
        t.len() > 0 && t != "/exit"@ ==> (r matches Input::Say(text) && text@ == t),
{
    reveal_strlit("/exit");
    law_trimming(a, t, b);
}

/// Arguments of up to eighty characters are shown whole; of longer ones the first eighty, and
/// three dots behind them.
pub proof fn law_shown_arguments(arguments: &str, r: String)
    requires
        call_ensures(shown_arguments, (arguments,), r),
    ensures
        arguments@.len() <= 80 ==> r@ == arguments@,
        arguments@.len() > 80 ==> r@.len() == 83 && r@.take(80) == arguments@.take(80) && r@.skip(
            80,
        ) == seq!['.', '.', '.'],
{
    reveal_strlit("...");
    if arguments@.len() > 80 {
        assert(r@.take(80) =~= arguments@.take(80));
        assert(r@.skip(80) =~= seq!['.', '.', '.']);
    }
}

/// What is said of a value that is refused: the value, and whether it is zero or no number that
/// suits.
pub proof fn law_refused_values(value: Seq<char>, text: String)
    ensures
        number_value(trimmed(value)) == Some(0nat) ==> timeout_secs(value) == Err::<u64, Seq<char>>(
            debug_text(value) + " is 0; exec timeout must be a positive number of seconds"@,
        ),
        timeout_secs(value) is Err && number_value(trimmed(value)) != Some(0nat) ==> timeout_secs(
            value,
        ) == Err::<u64, Seq<char>>(
            debug_text(value) + " is not a positive integer number of seconds"@,
        ),
        ssh_port(Some(value)) is Err ==> ssh_port(Some(value)) == Err::<u16, Seq<char>>(
            debug_text(value) + " is not a valid port (1..=65535)"@,
        ),
        runtime_choice(EnvValue::Text(text)) matches Err(e) ==> e
            == "unknown KARAKURI_RUNTIME value: "@ + debug_text(text@)
            + " (expected \"local\", \"nix\" or \"ssh\")"@,
{
}

} // verus!
