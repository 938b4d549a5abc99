//! The remote runtime.

use std::path::Path;

use karakuri::base64::{b64_decode, b64_encode};
use karakuri::error::{IoError, IoErrorKind};
use karakuri::runtime::{EntryKind, ExecError, ExecOutput, RuntimeConfig};
use karakuri::ssh_runtime::{
    exec_result_of, map_path, parse_dir_listing, read_dir_reply, read_reply, sh_quote, ssh_argv,
    write_reply, RemoteOutput, SshConnect, SshProgress, SshRuntime,
};

#[test]
fn ssh_argv_basic_form() {
    let argv = ssh_argv("dok@192.168.64.11", 22);
    assert_eq!(argv[0], "ssh");
    assert!(argv.contains(&"-T".to_string()));
    assert!(argv.contains(&"BatchMode=yes".to_string()));
    assert!(argv.contains(&"ConnectTimeout=10".to_string()));
    assert!(argv.contains(&"dok@192.168.64.11".to_string()));
    assert!(argv.contains(&"--".to_string()));
    assert!(argv.ends_with(&["--".to_string(), "sh".to_string(), "-s".to_string()]));
    assert!(!argv.contains(&"-p".to_string()));
}

#[test]
fn ssh_argv_without_user() {
    let argv = ssh_argv("192.168.64.11", 22);
    assert!(argv.contains(&"192.168.64.11".to_string()));
    assert!(!argv.contains(&"-p".to_string()));
}

#[test]
fn ssh_argv_non_default_port_adds_p() {
    let argv = ssh_argv("dok@192.168.64.11", 2222);
    let p = argv
        .iter()
        .position(|a| a == "-p")
        .expect("-p present");
    assert_eq!(argv[p + 1], "2222");
    let ddash = argv.iter().position(|a| a == "--").unwrap();
    assert_eq!(&argv[ddash + 1..], &["sh".to_string(), "-s".to_string()]);
}

#[test]
fn ssh_argv_ends_with_sh_s() {
    let argv = ssh_argv("h", 22);
    let ddash = argv.iter().position(|a| a == "--").unwrap();
    assert_eq!(&argv[ddash + 1..], &["sh".to_string(), "-s".to_string()]);
    assert!(argv.ends_with(&["--".to_string(), "sh".to_string(), "-s".to_string()]));
}

#[test]
fn sh_quote_plain_and_space() {
    assert_eq!(sh_quote("plain"), "'plain'");
    assert_eq!(sh_quote("a b"), "'a b'");
    assert_eq!(sh_quote("my file.txt"), "'my file.txt'");
    assert_eq!(sh_quote(""), "''");
}

#[test]
fn sh_quote_escapes_inner_quote() {
    assert_eq!(sh_quote("it's"), "'it'\\''s'");
    assert_eq!(sh_quote("a'b'c"), "'a'\\''b'\\''c'");
}

#[test]
fn map_path_plain_and_nested() {
    let local = "/home/u/proj";
    let remote = "/remote/proj";
    assert_eq!(
        map_path(&format!("{local}/main.rs"), local, remote).unwrap(),
        "/remote/proj/main.rs"
    );
    assert_eq!(
        map_path(&format!("{local}/src/lib.rs"), local, remote).unwrap(),
        "/remote/proj/src/lib.rs"
    );
}

#[test]
fn map_path_outside_root_errors() {
    let local = "/home/u/proj";
    let remote = "/remote/proj";
    assert!(map_path("/etc/passwd", local, remote).is_err());
    assert!(map_path("/home/u/proj2/x", local, remote).is_err());
}

#[test]
fn map_path_trailing_slash_is_normalized() {
    let local = "/home/u/proj";
    let remote = "/remote/proj";
    let with_slash = format!("{local}/src/");
    assert_eq!(
        map_path(&with_slash, local, remote).unwrap(),
        "/remote/proj/src"
    );
}

#[test]
fn parse_dir_listing_kinds_and_hidden() {
    let dir = "/remote/proj";
    let out = "D\tsrc\nF\tmain.rs\nL\tlink\nO\tfifo\nF\t.gitignore\n";
    let mut entries = parse_dir_listing(dir, out);
    entries.sort_by(|a, b| a.path.cmp(&b.path));
    let kinds: Vec<_> = entries.iter().map(|e| e.kind).collect();
    assert_eq!(
        kinds,
        vec![
            EntryKind::File,    // .gitignore
            EntryKind::Other,   // fifo
            EntryKind::Symlink, // link
            EntryKind::File,    // main.rs
            EntryKind::Dir,     // src
        ]
    );
    assert!(
        entries
            .iter()
            .any(|e| e.path == format!("{dir}/.gitignore") && e.kind == EntryKind::File)
    );
}

#[test]
fn parse_dir_listing_names_with_spaces() {
    let dir = "/remote/proj";
    let out = "F\tmy file.txt\nD\tmy dir\n";
    let entries = parse_dir_listing(dir, out);
    assert!(
        entries
            .iter()
            .any(|e| e.path == format!("{dir}/my file.txt") && e.kind == EntryKind::File)
    );
    assert!(
        entries
            .iter()
            .any(|e| e.path == format!("{dir}/my dir") && e.kind == EntryKind::Dir)
    );
}

#[test]
fn b64_roundtrip_various_lengths() {
    for len in 0..=70usize {
        let data: Vec<u8> = (0..len).map(|i| (i * 7 + 3) as u8).collect();
        let enc = b64_encode(&data);
        assert_eq!(b64_decode(&enc).unwrap(), data, "len={len}");
    }
}

#[test]
fn b64_encode_known_values() {
    assert_eq!(b64_encode(b""), "");
    assert_eq!(b64_encode(b"f"), "Zg==");
    assert_eq!(b64_encode(b"fo"), "Zm8=");
    assert_eq!(b64_encode(b"foo"), "Zm9v");
    assert_eq!(b64_encode(b"foob"), "Zm9vYg==");
}

#[test]
fn b64_decode_tolerates_newlines() {
    let plain = "foobar".repeat(10) + "baz";
    let mut wrapped = b64_encode(plain.as_bytes());
    let insert_at = 76;
    assert!(wrapped.len() > insert_at);
    wrapped.insert(insert_at, '\n');
    assert_eq!(b64_decode(&wrapped).unwrap(), plain.as_bytes());
}

#[test]
fn b64_decode_rejects_invalid() {
    assert!(b64_decode("!!not-base64!!").is_err());
    assert!(b64_decode("aGVsbG8").is_ok());
    assert!(b64_decode("a").is_err());
}


fn said(code: i32, stdout: &str, stderr: &str) -> Result<RemoteOutput, ExecError> {
    Ok(RemoteOutput {
        code,
        stdout: stdout.to_string(),
        stderr: stderr.to_string(),
    })
}

fn broken(message: &str) -> Result<RemoteOutput, ExecError> {
    Err(ExecError::Io(IoError::other(message)))
}

fn late(output: &str) -> Result<RemoteOutput, ExecError> {
    Err(ExecError::TimedOut(output.to_string()))
}

fn remote() -> SshRuntime {
    SshRuntime::from_parts(
        RuntimeConfig::default(),
        "/opt/bin/ssh",
        "dok@host",
        2222,
        "/home/u/proj",
        "/remote/it's",
    )
}

#[test]
fn remote_runtime_keeps_its_parts() {
    let rt = remote();
    assert_eq!(rt.remote_root(), "/remote/it's");
    assert_eq!(
        rt.argv(),
        vec![
            "/opt/bin/ssh",
            "-T",
            "-o",
            "BatchMode=yes",
            "-o",
            "ConnectTimeout=10",
            "-p",
            "2222",
            "dok@host",
            "--",
            "sh",
            "-s"
        ]
    );
}

#[test]
fn scripts_quote_the_mapped_path() {
    let rt = remote();
    assert_eq!(
        rt.read_request("/home/u/proj/a b.txt").unwrap(),
        "base64 -- '/remote/it'\\''s/a b.txt'"
    );
    assert_eq!(
        rt.write_request("/home/u/proj/d/x.txt", "foo").unwrap(),
        "mkdir -p '/remote/it'\\''s/d' && printf '%s' 'Zm9v' | base64 -d > '/remote/it'\\''s/d/x.txt'"
    );
    let (dir, script) = rt.read_dir_request("/home/u/proj/src").unwrap();
    assert_eq!(dir, "/remote/it's/src");
    assert_eq!(
        script,
        "cd '/remote/it'\\''s/src' && for f in * .[!.]* ..?*; do \
         [ -e \"$f\" ] || [ -L \"$f\" ] || continue; \
         if [ -L \"$f\" ]; then t=L; elif [ -d \"$f\" ]; then t=D; \
         elif [ -f \"$f\" ]; then t=F; else t=O; fi; \
         printf '%s\\t%s\\n' \"$t\" \"$f\"; done"
    );
    assert_eq!(
        rt.exec_request("cargo", &["test".to_string(), "--offline".to_string()]),
        "cd '/remote/it'\\''s' && exec cargo test --offline"
    );
    assert_eq!(rt.exec_request("true", &[]), "cd '/remote/it'\\''s' && exec true");
}

#[test]
fn paths_outside_the_project_have_no_script() {
    let rt = remote();
    let err = rt.read_request("/etc/passwd").unwrap_err();
    assert_eq!(err.kind, IoErrorKind::Other);
    assert_eq!(
        err.message,
        "path \"/etc/passwd\" is outside the local root \"/home/u/proj\"; refusing to map to remote"
    );
    assert!(rt.write_request("/etc/passwd", "x").is_err());
    let odd = "/etc/it's e\u{301}\"";
    assert_eq!(
        map_path(odd, "/a'b", "/r").unwrap_err().message,
        format!(
            "path {:?} is outside the local root {:?}; refusing to map to remote",
            Path::new(odd),
            Path::new("/a'b")
        )
    );
    assert!(rt.read_dir_request("/etc").is_err());
}

#[test]
fn reading_gives_back_what_was_written() {
    let content = "line äöü\n".repeat(40);
    let mut wire = b64_encode(content.as_bytes());
    wire.insert(76, '\n');
    wire.push('\n');
    assert_eq!(read_reply(said(0, &wire, "noise")).unwrap(), content);
}

#[test]
fn failed_reads_say_why() {
    let err = read_reply(said(1, "", "base64: x: No such file or directory\n")).unwrap_err();
    assert_eq!(err.kind, IoErrorKind::NotFound);
    assert_eq!(err.message, "base64: x: No such file or directory");
    let err = read_reply(said(1, "", "permission denied")).unwrap_err();
    assert_eq!(err.kind, IoErrorKind::Other);
    let err = read_reply(said(7, "", "  ")).unwrap_err();
    assert_eq!(err.message, "remote read failed (exit 7)");
    let err = read_reply(said(0, "!!", "")).unwrap_err();
    assert_eq!(err.kind, IoErrorKind::InvalidData);
    assert_eq!(err.message, "remote file is not valid base64");
    let err = read_reply(said(0, &b64_encode(&[0xff, 0xfe]), "")).unwrap_err();
    assert_eq!(err.kind, IoErrorKind::InvalidData);
    assert_eq!(err.message, "remote file is not valid UTF-8");
    let err = read_reply(late("half")).unwrap_err();
    assert_eq!(err.kind, IoErrorKind::TimedOut);
    assert_eq!(err.message, "remote command timed out\n\nhalf");
    assert_eq!(read_reply(broken("no ssh")).unwrap_err().message, "no ssh");
}

#[test]
fn writes_and_listings_report_failures() {
    assert!(write_reply(said(0, "", "")).is_ok());
    assert_eq!(
        write_reply(said(-1, "", "")).unwrap_err().message,
        "remote write failed (exit -1)"
    );
    assert_eq!(
        read_dir_reply("/r", said(2, "", "")).unwrap_err().message,
        "remote read_dir failed (exit 2)"
    );
    let entries = read_dir_reply("/r", said(0, "D\tsub\nno tab\n", "")).unwrap();
    assert_eq!(entries.len(), 1);
    assert_eq!(entries[0].path, "/r/sub");
    assert_eq!(entries[0].kind, EntryKind::Dir);
}

#[test]
fn commands_merge_their_outputs() {
    assert_eq!(
        exec_result_of(said(101, "out", "err")),
        Ok(ExecOutput {
            code: 101,
            output: "out\nerr".to_string()
        })
    );
    assert!(matches!(
        exec_result_of(late("x")),
        Err(ExecError::TimedOut(_))
    ));
}

fn connecting(root: Option<&str>) -> SshConnect {
    SshRuntime::new(RuntimeConfig::default(), "dok@host", 22, root)
}

fn reached(root: Option<&str>) -> SshConnect {
    match connecting(root).on_reply(said(0, "", "")) {
        Ok(SshProgress::Run(next)) => next,
        other => panic!("unexpected: {other:?}"),
    }
}

#[test]
fn connecting_probes_and_then_finds_the_project() {
    let start = connecting(Some("/srv/it's"));
    assert_eq!(start.script(), "true");
    assert_eq!(start.argv(), ssh_argv("dok@host", 22));
    let next = reached(Some("/srv/it's"));
    assert_eq!(next.script(), "cd '/srv/it'\\''s' && pwd -P");
    match next.on_reply(said(0, "/srv/real\n", "")) {
        Ok(SshProgress::Ready(root)) => assert_eq!(root, "/srv/real"),
        other => panic!("unexpected: {other:?}"),
    }
    assert_eq!(reached(None).script(), "pwd");
}

#[test]
fn connecting_reports_each_failure() {
    let fault = |r: Result<SshProgress, IoError>| r.unwrap_err();
    let e = fault(connecting(None).on_reply(said(255, "", "denied\n")));
    assert_eq!(e.kind, IoErrorKind::Other);
    assert_eq!(
        e.message,
        "ssh to dok@host failed (exit 255): denied\n  check KARAKURI_SSH_HOST, passwordless login (ssh-copy-id), network/firewall"
    );
    let e = fault(connecting(None).on_reply(broken("no such program")));
    assert_eq!(
        e.message,
        "failed to run ssh to dok@host: no such program\n  check KARAKURI_SSH_HOST, passwordless login (ssh-copy-id), network/firewall"
    );
    let e = fault(connecting(None).on_reply(late("")));
    assert_eq!(e.kind, IoErrorKind::TimedOut);
    assert_eq!(
        e.message,
        "ssh to dok@host timed out (ConnectTimeout=10s)\n  check network/firewall"
    );
    let e = fault(reached(Some("/x")).on_reply(said(1, "", "cd: nope")));
    assert_eq!(
        e.message,
        "remote root \"/x\" is not accessible (exit 1): cd: nope\n  check KARAKURI_SSH_ROOT is an absolute path that exists on the remote host"
    );
    let e = fault(reached(Some("/x")).on_reply(broken("gone")));
    assert_eq!(e.message, "failed to resolve remote root \"/x\": gone");
    let e = fault(reached(Some("/x")).on_reply(late("")));
    assert_eq!(e.kind, IoErrorKind::TimedOut);
    assert_eq!(e.message, "timed out resolving remote root \"/x\"");
    let e = fault(reached(None).on_reply(said(1, "", "boo")));
    assert_eq!(
        e.message,
        "failed to determine remote home (exit 1): boo\n  check the remote host is reachable and your login works"
    );
    let e = fault(reached(None).on_reply(broken("gone")));
    assert_eq!(e.message, "failed to determine remote home: gone");
    let e = fault(reached(None).on_reply(late("")));
    assert_eq!(e.message, "timed out determining remote home");
}

#[test]
fn white_space_in_base64_does_not_matter() {
    assert_eq!(b64_decode(" Zm\t9\r\nv\x0c ").unwrap(), b"foo");
    let err = b64_decode("Zm\x0b9v").unwrap_err();
    assert_eq!(err.kind, IoErrorKind::InvalidData);
}

#[test]
fn encoded_text_needs_no_quotes() {
    let all: Vec<u8> = (0..=255).collect();
    assert!(b64_encode(&all)
        .chars()
        .all(|c| c.is_ascii_alphanumeric() || c == '+' || c == '/' || c == '='));
}
