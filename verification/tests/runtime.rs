//! Runtimes and their settings.

use std::time::Duration;

use karakuri::cli::{
    nix_unavailable, parse_exec_timeout, parse_ssh_port, read_input, select_runtime, session_path,
    shown_arguments, ssh_host_from, switch, EnvValue, Input, RuntimeChoice,
};
use karakuri::error::{IoError, IoErrorKind};
use karakuri::nix_runtime::{nix_develop_argv, NixRuntime};
use karakuri::runtime::{
    merge_output, poll_step, EntryKind, ExecError, ExecOutput, FileType, LocalRuntime, PollAction,
    PollEvent, RuntimeConfig, EXEC_TIMEOUT_SECS,
};
use karakuri::sandbox::{
    canonicalize_or, resolve_tmpdir, sandbox_argv, sandbox_policy, sbpl_escape, SandboxedRuntime,
    SANDBOX_EXEC,
};

#[test]
fn nix_develop_argv_builds_full_command() {
    let argv = nix_develop_argv("cargo", &["check".to_string(), "--all".to_string()]);
    assert_eq!(
        argv,
        vec!["nix", "develop", "--command", "cargo", "check", "--all"]
    );
}

#[test]
fn nix_develop_argv_without_args() {
    let argv = nix_develop_argv("true", &[]);
    assert_eq!(argv, vec!["nix", "develop", "--command", "true"]);
}

#[test]
fn default_config_timeout_is_60s() {
    assert_eq!(
        RuntimeConfig::default().exec_timeout,
        Duration::from_secs(60)
    );
    assert_eq!(Duration::from_secs(EXEC_TIMEOUT_SECS), Duration::from_secs(60));
    assert_eq!(
        LocalRuntime::default().config.exec_timeout,
        LocalRuntime::new(RuntimeConfig::default())
            .config
            .exec_timeout
    );
}

#[test]
fn parse_valid_positive_seconds() {
    assert_eq!(parse_exec_timeout("30"), Ok(Duration::from_secs(30)));
    assert_eq!(parse_exec_timeout("1"), Ok(Duration::from_secs(1)));
    assert_eq!(parse_exec_timeout("3600"), Ok(Duration::from_secs(3600)));
}

#[test]
fn parse_invalid_values_are_rejected() {
    assert!(parse_exec_timeout("0").is_err());
    assert!(parse_exec_timeout("").is_err());
    assert!(parse_exec_timeout("abc").is_err());
    assert!(parse_exec_timeout("-5").is_err());
    assert!(parse_exec_timeout("1.5").is_err());
    assert!(parse_exec_timeout("99999999999999999999999999").is_err());
}

#[test]
fn policy_escapes_backslash_and_quote() {
    let weird = "root\"with\\slash";
    let policy = sandbox_policy(weird, weird, false);
    assert!(
        policy.contains("(subpath \"root\\\"with\\\\slash\")"),
        "policy should contain escaped path: {policy}"
    );
    assert!(
        !policy.contains("root\"with\\slash"),
        "raw unescaped path leaked"
    );
}

#[test]
fn sbpl_escape_escapes_special_characters() {
    assert_eq!(sbpl_escape("plain"), "plain");
    assert_eq!(sbpl_escape("a\"b\\c"), "a\\\"b\\\\c");
}

#[test]
fn sandbox_argv_wraps_with_policy() {
    let argv = sandbox_argv(
        "cargo",
        &["check".to_string(), "--all".to_string()],
        "/private/root",
        "/private/tmp",
        false,
    );
    assert_eq!(argv.len(), 6);
    assert_eq!(argv[0], SANDBOX_EXEC);
    assert_eq!(argv[1], "-p");
    assert_eq!(argv[3], "cargo");
    assert_eq!(argv[4], "check");
    assert_eq!(argv[5], "--all");
    assert_eq!(
        argv[2],
        "(version 1)\n(allow default)\n(deny network*)\n(deny file-write*)\n(allow file-write* (subpath \"/private/root\"))\n(allow file-write* (subpath \"/private/tmp\"))"
    );
}

#[test]
fn sandbox_argv_without_args() {
    let argv = sandbox_argv("true", &[], "/r", "/t", false);
    assert_eq!(argv.len(), 4);
    assert_eq!(argv[3], "true");
}

#[test]
fn network_deny_line_depends_on_flag() {
    assert!(sandbox_policy("/r", "/t", false).contains("(deny network*)"));
    assert!(!sandbox_policy("/r", "/t", true).contains("(deny network*)"));
}

#[test]
fn canonicalize_or_falls_back_on_missing_path() {
    assert_eq!(canonicalize_or("/does-not-exist", None), "/does-not-exist");
    assert_eq!(canonicalize_or("/var", Some("/private/var".to_string())), "/private/var");
    assert_eq!(resolve_tmpdir(None), "/tmp");
    assert_eq!(resolve_tmpdir(Some("/var/tmp")), "/var/tmp");
}

#[test]
fn sandbox_is_made_or_refused() {
    let make = |macos, exists| {
        SandboxedRuntime::new("/r", "/t", true, RuntimeConfig::default(), macos, exists)
    };
    let e = make(false, true).unwrap_err();
    assert_eq!(e.kind, IoErrorKind::Other);
    assert_eq!(
        e.message,
        "Seatbelt sandbox requires macOS (sandbox-exec is not available on this platform)"
    );
    let e = make(true, false).unwrap_err();
    assert_eq!(e.kind, IoErrorKind::NotFound);
    assert_eq!(
        e.message,
        "/usr/bin/sandbox-exec not found; Seatbelt sandbox is not available on this system"
    );
    let rt = make(true, true).unwrap();
    assert_eq!(rt.argv("true", &[]), sandbox_argv("true", &[], "/r", "/t", true));
}

#[test]
fn nix_is_probed_first() {
    let config = RuntimeConfig::default();
    assert_eq!(NixRuntime::probe_args(), vec!["--version"]);
    let output = |code| {
        Ok(ExecOutput {
            code,
            output: String::new(),
        })
    };
    assert!(NixRuntime::new(config, output(0)).is_ok());
    assert_eq!(
        NixRuntime::new(config, output(3)).unwrap_err().message,
        "`nix --version` exited with code 3"
    );
    let e = NixRuntime::new(
        config,
        Err(ExecError::Io(IoError::new(IoErrorKind::NotFound, "no nix"))),
    )
    .unwrap_err();
    assert_eq!(e.kind, IoErrorKind::NotFound);
    assert_eq!(
        nix_unavailable(&e),
        "KARAKURI_RUNTIME=nix but nix is not available: no nix\n  install nix (https://nixos.org/download) or use KARAKURI_RUNTIME=local"
    );
    let e = NixRuntime::new(config, Err(ExecError::TimedOut(String::new()))).unwrap_err();
    assert_eq!(e.kind, IoErrorKind::TimedOut);
    assert_eq!(e.message, "`nix --version` timed out");
}

#[test]
fn commands_are_waited_for() {
    assert_eq!(poll_step(PollEvent::Running, 200, 200), PollAction::Wait);
    assert_eq!(poll_step(PollEvent::Running, 201, 200), PollAction::KillTimedOut);
    assert_eq!(poll_step(PollEvent::Exited(Some(3)), 999, 1), PollAction::Finish(3));
    assert_eq!(poll_step(PollEvent::Exited(None), 0, 1), PollAction::Finish(-1));
    assert_eq!(poll_step(PollEvent::Failed, 0, 1), PollAction::KillFailed);
    assert_eq!(
        LocalRuntime::with_timeout(Duration::from_millis(200)).config.exec_timeout,
        Duration::from_millis(200)
    );
}

#[test]
fn outputs_are_merged() {
    assert_eq!(merge_output("a", "b"), "a\nb");
    assert_eq!(merge_output("", "b"), "b");
    assert_eq!(merge_output("a", ""), "a");
    assert_eq!(merge_output("", ""), "");
}

#[test]
fn entries_are_classified() {
    let kind = |is_dir, is_file, is_symlink| {
        EntryKind::from_type(Some(FileType {
            is_dir,
            is_file,
            is_symlink,
        }))
    };
    assert_eq!(kind(true, false, false), EntryKind::Dir);
    assert_eq!(kind(false, true, false), EntryKind::File);
    assert_eq!(kind(false, false, true), EntryKind::Symlink);
    assert_eq!(kind(false, false, false), EntryKind::Other);
    assert_eq!(EntryKind::from_type(None), EntryKind::Other);
    assert_eq!(
        LocalRuntime::parent_to_create("/a/b/c.txt"),
        Some("/a/b".to_string())
    );
    assert_eq!(LocalRuntime::parent_to_create("c.txt"), None);
    assert_eq!(LocalRuntime::parent_to_create("/"), None);
}

#[test]
fn timeouts_are_complained_about() {
    assert_eq!(
        parse_exec_timeout("x\"y").unwrap_err(),
        "\"x\\\"y\" is not a positive integer number of seconds"
    );
    assert_eq!(
        parse_exec_timeout(" 0 ").unwrap_err(),
        "\" 0 \" is 0; exec timeout must be a positive number of seconds"
    );
    assert_eq!(parse_exec_timeout(" +007 "), Ok(Duration::from_secs(7)));
    assert_eq!(
        parse_exec_timeout("18446744073709551615"),
        Ok(Duration::from_secs(u64::MAX))
    );
    assert!(parse_exec_timeout("18446744073709551616").is_err());
    assert!(parse_exec_timeout("+").is_err());
}

#[test]
fn runtimes_are_selected() {
    let text = |s: &str| EnvValue::Text(s.to_string());
    assert_eq!(select_runtime(&EnvValue::Missing), Ok(RuntimeChoice::Local));
    assert_eq!(select_runtime(&text("local")), Ok(RuntimeChoice::Local));
    assert_eq!(select_runtime(&text("nix")), Ok(RuntimeChoice::Nix));
    assert_eq!(select_runtime(&text("ssh")), Ok(RuntimeChoice::Ssh));
    assert_eq!(
        select_runtime(&EnvValue::NotUnicode).unwrap_err(),
        "KARAKURI_RUNTIME must be valid UTF-8"
    );
    assert_eq!(
        select_runtime(&text("vm")).unwrap_err(),
        "unknown KARAKURI_RUNTIME value: \"vm\" (expected \"local\", \"nix\" or \"ssh\")"
    );
}

#[test]
fn ssh_settings_are_read() {
    assert_eq!(ssh_host_from(Some(" dok@h ")), Ok("dok@h".to_string()));
    assert!(ssh_host_from(Some("  ")).is_err());
    assert!(ssh_host_from(None).is_err());
    assert_eq!(parse_ssh_port(None), Ok(22));
    assert_eq!(parse_ssh_port(Some("2222")), Ok(2222));
    assert_eq!(parse_ssh_port(Some("65535")), Ok(65535));
    for bad in ["0", "65536", "x", "", "-1"] {
        assert_eq!(
            parse_ssh_port(Some(bad)).unwrap_err(),
            format!("{bad:?} is not a valid port (1..=65535)")
        );
    }
}

#[test]
fn switches_and_input() {
    for on in ["1", "true", " TRUE ", "True"] {
        assert!(switch(Some(on)));
    }
    for off in ["", "0", "yes", "truex", "11"] {
        assert!(!switch(Some(off)));
    }
    assert!(!switch(None));
    assert_eq!(session_path(None), "session.json");
    assert_eq!(session_path(Some("x.json")), "x.json");
    assert_eq!(read_input("  "), Input::Blank);
    assert_eq!(read_input(" /exit\n"), Input::Exit);
    assert_eq!(read_input(" hi there "), Input::Say("hi there".to_string()));
    assert_eq!(shown_arguments("{}"), "{}");
    assert_eq!(shown_arguments(&"ä".repeat(81)), "ä".repeat(80) + "...");
}
