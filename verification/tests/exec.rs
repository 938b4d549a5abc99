//! Which commands may run.

use karakuri::error::ToolError;
use karakuri::exec::{
    is_forbidden_git_option, is_valid_arg, parse_exec_allow, CmdPattern, ExecCommand, ExecPolicy,
};

#[test]
fn exec_parse_allows_plain_cargo_subcommands() {
    for sub in ["check", "test", "build", "clippy"] {
        let cmd = ExecCommand::parse(&format!("cargo {sub}")).unwrap();
        assert_eq!(cmd.program, "cargo");
        assert_eq!(cmd.args, vec![sub]);
    }
}

#[test]
fn exec_parse_allows_fmt_check_only() {
    let cmd = ExecCommand::parse("cargo fmt --check").unwrap();
    assert_eq!(cmd.program, "cargo");
    assert_eq!(cmd.args, vec!["fmt", "--check"]);
}

#[test]
fn exec_parse_rejects_fmt_without_check() {
    assert!(matches!(
        ExecCommand::parse("cargo fmt"),
        Err(ToolError::CommandNotAllowed(_))
    ));
}

#[test]
fn exec_parse_rejects_fmt_with_extra_args() {
    assert!(matches!(
        ExecCommand::parse("cargo fmt --check --verbose"),
        Err(ToolError::CommandNotAllowed(_))
    ));
}

#[test]
fn exec_parse_rejects_unknown_cargo_subcommand() {
    assert!(matches!(
        ExecCommand::parse("cargo run"),
        Err(ToolError::CommandNotAllowed(_))
    ));
    assert!(matches!(
        ExecCommand::parse("cargo publish"),
        Err(ToolError::CommandNotAllowed(_))
    ));
    assert!(matches!(
        ExecCommand::parse("cargo doc"),
        Err(ToolError::CommandNotAllowed(_))
    ));
}

#[test]
fn exec_parse_rejects_cargo_without_subcommand() {
    assert!(matches!(
        ExecCommand::parse("cargo"),
        Err(ToolError::CommandNotAllowed(_))
    ));
}

#[test]
fn exec_parse_rejects_shell_metacharacters() {
    for command in [
        "cargo check; rm -rf .",
        "cargo check && touch x",
        "cargo check | grep error",
        "cargo check > /dev/null",
        "cargo check 2>&1",
        "cargo check $(date)",
        "cargo check `id`",
        "cargo check --target 'x86_64'",
        "cargo check '--foo'",
        "cargo check --features \"a b\"",
        "sh -c 'cargo check'",
        "bash -c 'cargo check'",
    ] {
        assert!(
            matches!(
                ExecCommand::parse(command),
                Err(ToolError::CommandNotAllowed(_))
            ),
            "should reject: {command}"
        );
    }
}

#[test]
fn exec_parse_rejects_unknown_programs() {
    for command in [
        "rm", "cat", "grep", "ls", "bash", "sh", "zsh", "python", "curl", "git",
    ] {
        assert!(
            matches!(
                ExecCommand::parse(command),
                Err(ToolError::CommandNotAllowed(_))
            ),
            "should reject: {command}"
        );
    }
}

#[test]
fn exec_parse_rejects_unknown_program_with_args() {
    assert!(matches!(
        ExecCommand::parse("rm -rf ."),
        Err(ToolError::CommandNotAllowed(_))
    ));
    assert!(matches!(
        ExecCommand::parse("cat Cargo.toml"),
        Err(ToolError::CommandNotAllowed(_))
    ));
}

#[test]
fn exec_parse_allows_known_cargo_flags() {
    for command in [
        "cargo check --quiet",
        "cargo check --all-targets",
        "cargo check --all-features",
        "cargo check --no-default-features",
        "cargo check --manifest-path=Cargo.toml",
        "cargo check --lib",
        "cargo check --bins",
        "cargo check --tests",
        "cargo check --benches",
        "cargo check --examples",
        "cargo test -- --nocapture",
        "cargo clippy --all-targets",
        "cargo build --release",
        "cargo build --features foo",
        "cargo build --features foo,bar",
        "cargo build --target x86_64-apple-darwin",
        "cargo build --jobs 4",
        "cargo build --color always",
        "cargo build --offline",
        "cargo check --offline",
        "cargo test --offline",
        "cargo clippy --offline",
    ] {
        ExecCommand::parse(command).unwrap_or_else(|e| panic!("should allow: {command} ({})", e.message()));
    }
}

#[test]
fn exec_parse_allows_read_only_git_subcommands() {
    for command in [
        "git status",
        "git diff --staged",
        "git log --oneline -n 5",
        "git show HEAD",
    ] {
        let cmd = ExecCommand::parse(command)
            .unwrap_or_else(|e| panic!("should allow: {command} ({})", e.message()));
        assert_eq!(cmd.program, "git");
        assert_eq!(cmd.args[0], "--no-pager", "command: {command}");
    }
}

#[test]
fn exec_parse_git_argv_prepends_no_pager() {
    let cmd = ExecCommand::parse("git log --oneline -n 5").unwrap();
    assert_eq!(cmd.program, "git");
    assert_eq!(cmd.args, vec!["--no-pager", "log", "--oneline", "-n", "5"]);
}

#[test]
fn exec_parse_rejects_git_write_commands() {
    for command in [
        "git commit",
        "git push",
        "git add",
        "git checkout",
        "git reset",
        "git rm",
    ] {
        assert!(
            matches!(
                ExecCommand::parse(command),
                Err(ToolError::CommandNotAllowed(_))
            ),
            "should reject: {command}"
        );
    }
}

#[test]
fn exec_parse_rejects_dangerous_git_options() {
    for command in [
        "git -C /tmp status",
        "git status --git-dir=/x",
        "git -c core.pager=x log",
        "git diff --output=x",
        "git diff --ext-diff",
        "git log --textconv",
        "git --work-tree /x status",
    ] {
        assert!(
            matches!(
                ExecCommand::parse(command),
                Err(ToolError::CommandNotAllowed(_))
            ),
            "should reject: {command}"
        );
    }
}

#[test]
fn exec_parse_rejects_git_shell_metacharacters() {
    for command in ["git status; rm -rf .", "git status && x", "git status | x"] {
        assert!(
            matches!(
                ExecCommand::parse(command),
                Err(ToolError::CommandNotAllowed(_))
            ),
            "should reject: {command}"
        );
    }
}

#[test]
fn is_forbidden_git_option_rejects_dangerous_options() {
    for arg in [
        "-C",
        "-c",
        "--git-dir",
        "--git-dir=/x",
        "--work-tree",
        "--work-tree=/x",
        "--namespace",
        "--namespace=foo",
        "--super-prefix",
        "--super-prefix=foo",
        "--config-env",
        "--config-env=VAR",
        "--output",
        "--output=x",
        "--ext-diff",
        "--ext-diff=x",
        "--textconv",
        "--textconv=x",
        "--paginate",
    ] {
        assert!(is_forbidden_git_option(arg), "should forbid: {arg}");
    }
}

#[test]
fn is_forbidden_git_option_allows_safe_args() {
    for arg in [
        "--stat",
        "--oneline",
        "--staged",
        "--cached",
        "-n",
        "HEAD",
        "src/main.rs",
    ] {
        assert!(!is_forbidden_git_option(arg), "should allow: {arg}");
    }
}

#[test]
fn parse_exec_allow_parses_program_and_subcommand() {
    let patterns = parse_exec_allow("git grep, npm test").unwrap();
    assert_eq!(patterns.len(), 2);
    assert_eq!(
        patterns[0],
        CmdPattern {
            program: "git".to_string(),
            subcommand: Some("grep".to_string()),
        }
    );
    assert_eq!(
        patterns[1],
        CmdPattern {
            program: "npm".to_string(),
            subcommand: Some("test".to_string()),
        }
    );
}

#[test]
fn parse_exec_allow_parses_program_only() {
    let patterns = parse_exec_allow("make").unwrap();
    assert_eq!(
        patterns,
        vec![CmdPattern {
            program: "make".to_string(),
            subcommand: None,
        }]
    );
}

#[test]
fn parse_exec_allow_empty_and_blank_yields_empty() {
    assert_eq!(parse_exec_allow("").unwrap(), vec![]);
    assert_eq!(parse_exec_allow("   ").unwrap(), vec![]);
    assert_eq!(
        parse_exec_allow("make, , npm test").unwrap(),
        vec![
            CmdPattern {
                program: "make".to_string(),
                subcommand: None,
            },
            CmdPattern {
                program: "npm".to_string(),
                subcommand: Some("test".to_string()),
            },
        ]
    );
}

#[test]
fn parse_exec_allow_rejects_invalid_entries() {
    assert!(parse_exec_allow("git a b c").is_err());
    assert!(parse_exec_allow("sh 'x'").is_err());
    assert!(parse_exec_allow("echo $HOME").is_err());
    assert!(parse_exec_allow("/bin/sh").is_err());
    assert!(parse_exec_allow("make;rm").is_err());
}

#[test]
fn parse_with_extra_allow_matches_program_only() {
    let extra = vec![CmdPattern {
        program: "make".to_string(),
        subcommand: None,
    }];
    let cmd = ExecCommand::parse_with("make build", &extra).unwrap();
    assert_eq!(cmd.program, "make");
    assert_eq!(cmd.args, vec!["build"]);
    assert!(matches!(
        ExecCommand::parse_with("npm test", &extra),
        Err(ToolError::CommandNotAllowed(_))
    ));
}

#[test]
fn parse_with_extra_allow_matches_subcommand() {
    let extra = vec![CmdPattern {
        program: "git".to_string(),
        subcommand: Some("grep".to_string()),
    }];
    let cmd = ExecCommand::parse_with("git grep foo", &extra).unwrap();
    assert_eq!(cmd.program, "git");
    assert_eq!(cmd.args, vec!["grep", "foo"]);
    assert!(matches!(
        ExecCommand::parse_with("git stash", &extra),
        Err(ToolError::CommandNotAllowed(_))
    ));
}

#[test]
fn parse_with_extra_does_not_affect_cargo_rules() {
    let extra = vec![CmdPattern {
        program: "make".to_string(),
        subcommand: None,
    }];
    let cmd = ExecCommand::parse_with("cargo check", &extra).unwrap();
    assert_eq!(cmd.program, "cargo");
    assert_eq!(cmd.args, vec!["check"]);
    assert!(matches!(
        ExecCommand::parse_with("cargo run", &extra),
        Err(ToolError::CommandNotAllowed(_))
    ));
}

#[test]
fn parse_with_extra_args_still_validated() {
    let extra = vec![CmdPattern {
        program: "make".to_string(),
        subcommand: None,
    }];
    assert!(matches!(
        ExecCommand::parse_with("make build && rm -rf .", &extra),
        Err(ToolError::CommandNotAllowed(_))
    ));
    assert!(matches!(
        ExecCommand::parse_with("make build; x", &extra),
        Err(ToolError::CommandNotAllowed(_))
    ));
}

#[test]
fn complaints_about_the_allow_list() {
    assert_eq!(
        parse_exec_allow("make, git a b").unwrap_err(),
        "\"git a b\" has 3 tokens (expected a program name, or \"program subcommand\")"
    );
    assert_eq!(
        parse_exec_allow("/bin/sh").unwrap_err(),
        "\"/bin/sh\" contains '/' — program must be a bare command name resolved via PATH"
    );
    assert_eq!(
        parse_exec_allow("ma\"ke").unwrap_err(),
        "\"ma\\\"ke\" contains invalid characters"
    );
    assert_eq!(
        parse_exec_allow("git 'x'").unwrap_err(),
        "\"'x'\" contains invalid characters"
    );
}

#[test]
fn refused_commands_name_the_offender() {
    let refused = |command: &str| match ExecCommand::parse(command) {
        Err(ToolError::CommandNotAllowed(text)) => text,
        other => panic!("unexpected: {other:?}"),
    };
    assert_eq!(refused("  "), "  ");
    assert_eq!(refused("cargo check; ls"), "cargo check; ls");
    assert_eq!(refused("cargo check a;b c|d"), "a;b");
    assert_eq!(refused("cargo run x"), "cargo run x");
    assert_eq!(refused("git log --output=x"), "--output=x");
    assert_eq!(refused("rm -rf"), "rm");
}

#[test]
fn words_are_split_at_any_white_space() {
    let cmd = ExecCommand::parse("\u{3000}cargo\u{a0}test\t--lib\n").unwrap();
    assert_eq!(cmd.args, vec!["test", "--lib"]);
    assert_eq!(cmd.copy(), cmd);
}

#[test]
fn the_first_entry_that_fits_decides() {
    let extra = vec![
        CmdPattern {
            program: "git".to_string(),
            subcommand: Some("status".to_string()),
        },
        CmdPattern {
            program: "git".to_string(),
            subcommand: None,
        },
    ];
    let cmd = ExecCommand::parse_with("git status", &extra).unwrap();
    assert_eq!(cmd.args, vec!["--no-pager", "status"]);
    let cmd = ExecCommand::parse_with("git push origin", &extra).unwrap();
    assert_eq!(cmd.args, vec!["push", "origin"]);
    assert!(ExecCommand::parse_with("git status -C", &extra).is_err());
    assert!(ExecPolicy::default().extra_allow.is_empty());
}

#[test]
fn arguments_hold_plain_characters() {
    assert!(is_valid_arg("aZ09-_./=:+#,"));
    for arg in ["", "a b", "a*", "\"", "'", "$x", "ä"] {
        assert!(!is_valid_arg(arg), "should refuse: {arg}");
    }
}
