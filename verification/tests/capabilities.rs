//! What the agent may do.

use karakuri::capabilities::{denial_message, required_capability, Capabilities};
use karakuri::capabilities::Capability::{FilesystemRead, FilesystemWrite, ProcessExecute};

#[test]
fn maps_tool_names_to_capabilities() {
    assert_eq!(
        required_capability("read_file"),
        Some((FilesystemRead, "filesystem_read"))
    );
    assert_eq!(
        required_capability("search"),
        Some((FilesystemRead, "filesystem_read"))
    );
    assert_eq!(
        required_capability("write_file"),
        Some((FilesystemWrite, "filesystem_write"))
    );
    assert_eq!(
        required_capability("edit_file"),
        Some((FilesystemWrite, "filesystem_write"))
    );
    assert_eq!(
        required_capability("exec"),
        Some((ProcessExecute, "process_execute"))
    );
    assert_eq!(required_capability("unknown_tool"), None);
    assert_eq!(required_capability(""), None);
}

#[test]
fn default_allows_everything() {
    let caps = Capabilities::default();
    for tool in ["read_file", "search", "write_file", "edit_file", "exec"] {
        assert!(caps.allows(tool), "{tool} should be allowed by default");
    }
}

#[test]
fn read_only_blocks_writes_and_exec() {
    let caps = Capabilities::read_only();
    assert!(caps.allows("read_file"));
    assert!(caps.allows("search"));
    assert!(!caps.allows("write_file"));
    assert!(!caps.allows("edit_file"));
    assert!(!caps.allows("exec"));
    assert!(caps.allows("unknown_tool"));
    assert_eq!(caps.denied_capability_name("read_file"), None);
    assert_eq!(
        caps.denied_capability_name("write_file"),
        Some("filesystem_write")
    );
    assert_eq!(caps.denied_capability_name("exec"), Some("process_execute"));
}

#[test]
fn per_capability_flag_control() {
    let no_write = Capabilities {
        filesystem_read: true,
        filesystem_write: false,
        process_execute: true,
    };
    assert!(no_write.allows("read_file"));
    assert!(!no_write.allows("write_file"));
    assert!(!no_write.allows("edit_file"));
    assert!(no_write.allows("exec"));

    let no_read = Capabilities {
        filesystem_read: false,
        filesystem_write: true,
        process_execute: true,
    };
    assert!(!no_read.allows("read_file"));
    assert!(!no_read.allows("search"));
    assert!(no_read.allows("write_file"));
}

#[test]
fn refusals_name_what_is_missing() {
    let caps = Capabilities::read_only();
    assert_eq!(
        denial_message(&caps, "write_file").unwrap(),
        "tool error: permission denied: write_file requires filesystem_write capability"
    );
    assert_eq!(denial_message(&caps, "list_dir"), None);
    assert_eq!(denial_message(&caps, "no_such_tool"), None);
}
