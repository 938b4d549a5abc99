//! Tools and the agent that calls them, in a world made of memory.

use std::collections::{BTreeMap, VecDeque};

use karakuri::agent::{tool_reply, AgentError, NextStep, Turn, MAX_TOOL_ROUNDS};
use karakuri::capabilities::Capabilities;
use karakuri::error::{IoError, IoErrorKind, ToolError};
use karakuri::exec::{CmdPattern, ExecCommand, ExecPolicy};
use karakuri::listing::{show_directory, sort_by_name};
use karakuri::message::{Message, Role, ToolCall};
use karakuri::model::{
    api_error, parse_sse_line, read_sse_line, stream_to_response, OpenAICompatibleModel, Response,
    SseLine, StreamAccumulator, StreamChoice, StreamChunk, StreamDelta, StreamDeltaFunction,
    StreamDeltaToolCall,
};
use karakuri::runtime::{EntryKind, ExecError, ExecOutput, Runtime, RuntimeEntry};
use karakuri::tool::{
    all_definitions, EditFile, Exec, ListDir, ReadFile, Search, Tool, ToolArguments, ToolDefinition,
    WriteFile,
};
use karakuri::tool_run::{edit_text, perform, Action, Event, PathKind, ToolRun, MAX_LINKS};
use serde_json::Value;

/// What stands under a path.
#[derive(Clone)]
enum Node {
    File(Vec<u8>),
    Dir,
    Link(String),
    Fifo,
}

/// Files in memory. The project is at `/work`, reached also through the link `/project`.
struct Fs {
    nodes: BTreeMap<String, Node>,
    policy: ExecPolicy,
    reply: Result<ExecOutput, ExecError>,
    commands: Vec<String>,
    writes: usize,
    /// The paths that were asked to be written.
    written: Vec<String>,
}

fn missing(path: &str) -> IoError {
    IoError::new(IoErrorKind::NotFound, &format!("{path}: not found"))
}

impl Fs {
    fn new() -> Fs {
        let mut nodes = BTreeMap::new();
        nodes.insert("/work".to_string(), Node::Dir);
        nodes.insert("/project".to_string(), Node::Link("/work".to_string()));
        Fs {
            nodes,
            policy: ExecPolicy::default(),
            reply: Ok(ExecOutput {
                code: 0,
                output: String::new(),
            }),
            commands: Vec::new(),
            writes: 0,
            written: Vec::new(),
        }
    }

    fn mkdir(&mut self, path: &str) {
        let mut at = 1;
        while let Some(i) = path[at..].find('/') {
            self.nodes.insert(path[..at + i].to_string(), Node::Dir);
            at += i + 1;
        }
        self.nodes.insert(path.to_string(), Node::Dir);
    }

    fn write(&mut self, path: &str, content: impl AsRef<[u8]>) {
        self.nodes.insert(path.to_string(), Node::File(content.as_ref().to_vec()));
    }

    fn symlink(&mut self, target: &str, path: &str) {
        self.nodes.insert(path.to_string(), Node::Link(target.to_string()));
    }

    fn bytes(&self, path: &str) -> Vec<u8> {
        match self.nodes.get(path) {
            Some(Node::File(content)) => content.clone(),
            _ => panic!("no file at {path}"),
        }
    }

    fn text(&self, path: &str) -> String {
        String::from_utf8(self.bytes(path)).unwrap()
    }

    fn canonicalize(&self, path: &str) -> Result<String, IoError> {
        let mut left: VecDeque<String> = path.split('/').map(str::to_string).collect();
        let mut at = String::new();
        while let Some(name) = left.pop_front() {
            if name.is_empty() || name == "." {
                continue;
            }
            if name == ".." {
                at.truncate(at.rfind('/').unwrap_or(0));
                continue;
            }
            let next = format!("{at}/{name}");
            match self.nodes.get(&next) {
                None => return Err(missing(path)),
                Some(Node::Link(target)) => {
                    if target.starts_with('/') {
                        at = String::new();
                    }
                    for part in target.split('/').rev() {
                        left.push_front(part.to_string());
                    }
                }
                Some(_) => at = next,
            }
        }
        Ok(if at.is_empty() { "/".to_string() } else { at })
    }

    /// Makes a directory and those above it. What is there, and is no directory, is in the way.
    fn make_dirs(&mut self, path: &str) -> Result<(), IoError> {
        match self.canonicalize(path) {
            Ok(_) => Ok(()),
            Err(_) if self.nodes.contains_key(path) => Err(IoError::other("file exists")),
            Err(_) => {
                if let Some(i) = path.rfind('/') {
                    self.make_dirs(&path[..i])?;
                }
                self.nodes.insert(path.to_string(), Node::Dir);
                Ok(())
            }
        }
    }

    /// Writes a file, through links, into a directory that is there.
    fn write_through(&mut self, path: &str, content: &str) -> Result<(), IoError> {
        let (above, name) = path.rsplit_once('/').unwrap();
        let real = format!("{}/{name}", self.canonicalize(above)?);
        match self.nodes.get(&real).cloned() {
            Some(Node::Link(target)) if target.starts_with('/') => {
                self.write_through(&target, content)
            }
            Some(Node::Link(target)) => {
                let (dir, _) = real.rsplit_once('/').unwrap();
                self.write_through(&format!("{dir}/{target}"), content)
            }
            _ => {
                self.write(&real, content);
                Ok(())
            }
        }
    }

    fn read_dir(&self, dir: &str) -> Result<Vec<RuntimeEntry>, IoError> {
        if !matches!(self.nodes.get(dir), Some(Node::Dir)) {
            return Err(missing(dir));
        }
        let prefix = format!("{dir}/");
        let mut entries: Vec<RuntimeEntry> = self
            .nodes
            .iter()
            .filter(|(path, _)| path.starts_with(&prefix) && !path[prefix.len()..].contains('/'))
            .map(|(path, node)| RuntimeEntry {
                path: path.clone(),
                kind: match node {
                    Node::File(_) => EntryKind::File,
                    Node::Dir => EntryKind::Dir,
                    Node::Link(_) => EntryKind::Symlink,
                    Node::Fifo => EntryKind::Other,
                },
            })
            .collect();
        entries.reverse();
        Ok(entries)
    }

    fn perform(&mut self, action: &Action) -> Option<Event> {
        Some(match action {
            Action::Canonicalize(path) => Event::Canonical(self.canonicalize(path)),
            Action::Kind(path) => Event::Kind(match self.nodes.get(path) {
                Some(Node::File(_)) => PathKind::File,
                Some(Node::Dir) => PathKind::Dir,
                _ => PathKind::Neither,
            }),
            Action::ReadLink(path) => Event::Link(Ok(match self.nodes.get(path) {
                Some(Node::Link(target)) => Some(target.clone()),
                _ => None,
            })),
            Action::ReadFile(path) => Event::Content(match self.nodes.get(path) {
                Some(Node::File(content)) => String::from_utf8(content.clone())
                    .map_err(|_| IoError::new(IoErrorKind::InvalidData, "not UTF-8")),
                Some(_) => Err(IoError::other("is a directory")),
                None => Err(missing(path)),
            }),
            Action::WriteFile(path, content) => {
                self.writes += 1;
                self.written.push(path.clone());
                let made = match path.rfind('/') {
                    Some(i) => self.make_dirs(&path[..i]),
                    None => Ok(()),
                };
                Event::Written(made.and_then(|()| self.write_through(path, content)))
            }
            Action::ReadDir(path) => Event::Entries(self.read_dir(path)),
            Action::Exec(command) => {
                self.commands
                    .push(format!("{} {}", command.program, command.args.join(" ")));
                Event::Output(self.reply.clone())
            }
            Action::Finish(_) => return None,
        })
    }

    fn execute(&mut self, tool: &Tool) -> Result<String, ToolError> {
        self.execute_at(tool, "/project")
    }

    fn execute_at(&mut self, tool: &Tool, root: &str) -> Result<String, ToolError> {
        let policy = self.policy.clone();
        let mut run = ToolRun::start(tool.clone(), root, &policy);
        loop {
            let action = run.action();
            match self.perform(&action) {
                Some(event) => run = run.step(event),
                None => match action {
                    Action::Finish(result) => return result,
                    other => panic!("unexpected: {other:?}"),
                },
            }
        }
    }
}

/// A model that gives the replies that it was told to give.
struct FakeModel {
    responses: VecDeque<Result<Response, String>>,
    seen: Vec<Vec<Message>>,
}

impl FakeModel {
    fn new(responses: Vec<Response>) -> FakeModel {
        FakeModel {
            responses: responses.into_iter().map(Ok).collect(),
            seen: Vec::new(),
        }
    }

    fn failing() -> FakeModel {
        FakeModel {
            responses: vec![Err("model exploded".to_string())].into(),
            seen: Vec::new(),
        }
    }

    fn complete(&mut self, messages: &[Message]) -> Result<Response, String> {
        self.seen.push(messages.to_vec());
        self.responses.pop_front().expect("fake model exhausted")
    }
}

fn run_turn_with(
    fs: &mut Fs,
    model: &mut FakeModel,
    caps: &Capabilities,
    conversation: &mut Vec<Message>,
    text: &str,
) -> Result<(), AgentError> {
    let mut turn = Turn::begin(conversation, text);
    loop {
        match turn.next(caps) {
            NextStep::AskModel => {
                let reply = model.complete(conversation);
                if let Some(end) = turn.on_reply(conversation, reply) {
                    return end;
                }
            }
            NextStep::Answer(result, _) => turn.on_tool_result(conversation, &result),
            NextStep::Run(tool) => {
                let result = tool_reply(fs.execute(&tool));
                turn.on_tool_result(conversation, &result);
            }
        }
    }
}

fn run_turn(
    fs: &mut Fs,
    model: &mut FakeModel,
    conversation: &mut Vec<Message>,
    text: &str,
) -> Result<(), AgentError> {
    run_turn_with(fs, model, &Capabilities::default(), conversation, text)
}

fn tool_call(id: &str, name: &str, args: &str) -> ToolCall {
    ToolCall {
        id: id.to_string(),
        name: name.to_string(),
        arguments: args.to_string(),
    }
}

fn property_kind(d: &ToolDefinition, name: &str) -> &'static str {
    d.parameters
        .properties
        .iter()
        .find(|p| p.name == name)
        .unwrap()
        .kind
}

#[test]
fn reads_file_inside_root() {
    let mut fs = Fs::new();
    fs.write("/work/main.rs", "fn main() {}");

    let tool = Tool::ReadFile(ReadFile {
        path: "main.rs".to_string(),
    });
    assert_eq!(fs.execute(&tool).unwrap(), "fn main() {}");
}

#[test]
fn reads_file_in_subdirectory() {
    let mut fs = Fs::new();
    fs.mkdir("/work/src");
    fs.write("/work/src/lib.rs", "pub fn f() {}");

    let tool = Tool::ReadFile(ReadFile {
        path: "src/lib.rs".to_string(),
    });
    assert_eq!(fs.execute(&tool).unwrap(), "pub fn f() {}");
}

#[test]
fn rejects_parent_traversal() {
    let mut fs = Fs::new();
    let tool = Tool::ReadFile(ReadFile {
        path: "../../etc/passwd".to_string(),
    });
    assert!(matches!(
        fs.execute(&tool),
        Err(ToolError::OutsideProject(_))
    ));
}

#[test]
fn rejects_absolute_path() {
    let mut fs = Fs::new();
    let tool = Tool::ReadFile(ReadFile {
        path: "/etc/passwd".to_string(),
    });
    assert!(matches!(
        fs.execute(&tool),
        Err(ToolError::OutsideProject(_))
    ));
}

#[test]
fn rejects_symlink_escape() {
    let mut fs = Fs::new();
    let outside = "/outside";
    fs.write(outside, "outside");
    fs.symlink(outside, "/work/link.txt");

    let tool = Tool::ReadFile(ReadFile {
        path: "link.txt".to_string(),
    });
    let result = fs.execute(&tool);

    assert!(matches!(result, Err(ToolError::OutsideProject(_))));
}

#[test]
fn not_found_reports_clear_error() {
    let mut fs = Fs::new();
    let tool = Tool::ReadFile(ReadFile {
        path: "missing.rs".to_string(),
    });
    assert!(matches!(
        fs.execute(&tool),
        Err(ToolError::NotFound(_))
    ));
}

#[test]
fn from_call_parses_arguments() {
    let args = r#"{ "path": "src/main.rs" }"#;
    let tool = Tool::from_call("read_file", args).unwrap();
    assert_eq!(
        tool,
        Tool::ReadFile(ReadFile {
            path: "src/main.rs".to_string(),
        })
    );
}

#[test]
fn from_call_rejects_unknown_tool() {
    let args = r#"{}"#;
    assert!(matches!(
        Tool::from_call("delete_file", args),
        Err(ToolError::UnknownTool(_))
    ));
}

#[test]
fn from_call_rejects_missing_path() {
    let args = r#"{}"#;
    assert!(matches!(
        Tool::from_call("read_file", args),
        Err(ToolError::InvalidArguments(_))
    ));
}

#[test]
fn from_call_parses_write_file_arguments() {
    let args = r#"{ "path": "out.txt", "content": "hello" }"#;
    let tool = Tool::from_call("write_file", args).unwrap();
    assert_eq!(
        tool,
        Tool::WriteFile(WriteFile {
            path: "out.txt".to_string(),
            content: "hello".to_string(),
        })
    );
}

#[test]
fn from_call_rejects_write_file_missing_content() {
    let args = r#"{ "path": "out.txt" }"#;
    assert!(matches!(
        Tool::from_call("write_file", args),
        Err(ToolError::InvalidArguments(_))
    ));
}

#[test]
fn writes_file_inside_root() {
    let mut fs = Fs::new();
    let tool = Tool::WriteFile(WriteFile {
        path: "out.txt".to_string(),
        content: "hello world".to_string(),
    });

    let result = fs.execute(&tool).unwrap();
    assert!(result.contains("out.txt"));

    let written = fs.text("/work/out.txt");
    assert_eq!(written, "hello world");
}

#[test]
fn writes_file_in_subdirectory() {
    let mut fs = Fs::new();
    fs.mkdir("/work/src");

    let tool = Tool::WriteFile(WriteFile {
        path: "src/lib.rs".to_string(),
        content: "pub fn f() {}".to_string(),
    });
    fs.execute(&tool).unwrap();

    let written = fs.text("/work/src/lib.rs");
    assert_eq!(written, "pub fn f() {}");
}

#[test]
fn write_overwrites_existing_file() {
    let mut fs = Fs::new();
    fs.write("/work/out.txt", "old");

    let tool = Tool::WriteFile(WriteFile {
        path: "out.txt".to_string(),
        content: "new".to_string(),
    });
    fs.execute(&tool).unwrap();

    assert_eq!(fs.text("/work/out.txt"), "new");
}

#[test]
fn write_rejects_parent_traversal() {
    let mut fs = Fs::new();
    let tool = Tool::WriteFile(WriteFile {
        path: "../../etc/passwd".to_string(),
        content: "evil".to_string(),
    });
    assert!(matches!(
        fs.execute(&tool),
        Err(ToolError::OutsideProject(_))
    ));
}

#[test]
fn write_rejects_absolute_path() {
    let mut fs = Fs::new();
    let tool = Tool::WriteFile(WriteFile {
        path: "/etc/passwd".to_string(),
        content: "evil".to_string(),
    });
    assert!(matches!(
        fs.execute(&tool),
        Err(ToolError::OutsideProject(_))
    ));
}

#[test]
fn write_rejects_symlink_escape() {
    let mut fs = Fs::new();
    let outside = "/outside";
    fs.write(outside, "outside");
    fs.symlink(outside, "/work/link.txt");

    let tool = Tool::WriteFile(WriteFile {
        path: "link.txt".to_string(),
        content: "evil".to_string(),
    });
    let result = fs.execute(&tool);

    assert!(matches!(result, Err(ToolError::OutsideProject(_))));
}

#[test]
fn write_creates_missing_parent_directories() {
    let mut fs = Fs::new();
    let tool = Tool::WriteFile(WriteFile {
        path: "no/such/dir/out.txt".to_string(),
        content: "x".to_string(),
    });
    let result = fs.execute(&tool);
    assert!(result.is_ok(), "{result:?}");
    assert_eq!(
        fs.text("/work/no/such/dir/out.txt"),
        "x"
    );
}

#[test]
fn search_finds_matches_with_path_and_line() {
    let mut fs = Fs::new();
    fs.mkdir("/work/src");
    fs.write("/work/src/model.rs", "pub struct Model {}\npub fn build() {}\n// Model again\n");

    let tool = Tool::Search(Search {
        query: "Model".to_string(),
        path: None,
    });
    let result = fs.execute(&tool).unwrap();
    assert!(result.contains("src/model.rs:1:pub struct Model {}"));
    assert!(result.contains("src/model.rs:3:// Model again"));
}

#[test]
fn search_respects_path_scope() {
    let mut fs = Fs::new();
    fs.mkdir("/work/src");
    fs.mkdir("/work/tests");
    fs.write("/work/src/a.rs", "needle here\n");
    fs.write("/work/tests/b.rs", "needle there\n");

    let tool = Tool::Search(Search {
        query: "needle".to_string(),
        path: Some("src".to_string()),
    });
    let result = fs.execute(&tool).unwrap();
    assert!(result.contains("src/a.rs:1:needle here"));
    assert!(!result.contains("tests/b.rs"));
}

#[test]
fn search_can_target_single_file() {
    let mut fs = Fs::new();
    fs.mkdir("/work/src");
    fs.write("/work/src/a.rs", "needle\n");
    fs.write("/work/src/b.rs", "other\n");

    let tool = Tool::Search(Search {
        query: "needle".to_string(),
        path: Some("src/a.rs".to_string()),
    });
    let result = fs.execute(&tool).unwrap();
    assert!(result.contains("src/a.rs:1:needle"));
    assert!(!result.contains("src/b.rs"));
}

#[test]
fn search_reports_no_matches() {
    let mut fs = Fs::new();
    fs.write("/work/a.rs", "hello\n");

    let tool = Tool::Search(Search {
        query: "zzz".to_string(),
        path: None,
    });
    let result = fs.execute(&tool).unwrap();
    assert!(result.contains("no matches"));
}

#[test]
fn from_call_rejects_search_missing_query() {
    let args = r#"{ "path": "src" }"#;
    assert!(matches!(
        Tool::from_call("search", args),
        Err(ToolError::InvalidArguments(_))
    ));
}

#[test]
fn from_call_parses_search_arguments() {
    let args = r#"{ "query": "foo" }"#;
    let tool = Tool::from_call("search", args).unwrap();
    assert_eq!(
        tool,
        Tool::Search(Search {
            query: "foo".to_string(),
            path: None,
        })
    );

    let args = r#"{ "query": "foo", "path": "src" }"#;
    let tool = Tool::from_call("search", args).unwrap();
    assert_eq!(
        tool,
        Tool::Search(Search {
            query: "foo".to_string(),
            path: Some("src".to_string()),
        })
    );
}

#[test]
fn search_rejects_parent_traversal() {
    let mut fs = Fs::new();
    let tool = Tool::Search(Search {
        query: "x".to_string(),
        path: Some("../../etc".to_string()),
    });
    assert!(matches!(
        fs.execute(&tool),
        Err(ToolError::OutsideProject(_))
    ));
}

#[test]
fn search_rejects_absolute_path() {
    let mut fs = Fs::new();
    let tool = Tool::Search(Search {
        query: "x".to_string(),
        path: Some("/etc".to_string()),
    });
    assert!(matches!(
        fs.execute(&tool),
        Err(ToolError::OutsideProject(_))
    ));
}

#[test]
fn search_rejects_nonexistent_path() {
    let mut fs = Fs::new();
    let tool = Tool::Search(Search {
        query: "x".to_string(),
        path: Some("missing".to_string()),
    });
    assert!(matches!(
        fs.execute(&tool),
        Err(ToolError::NotFound(_))
    ));
}

#[test]
fn search_rejects_symlink_escape() {
    let mut fs = Fs::new();
    let outside = "/outside";
    fs.mkdir(outside);
    fs.write("/outside/secret.rs", "needle\n");
    fs.symlink(outside, "/work/link");

    let tool = Tool::Search(Search {
        query: "needle".to_string(),
        path: Some("link".to_string()),
    });
    let result = fs.execute(&tool);

    assert!(matches!(result, Err(ToolError::OutsideProject(_))));
}

#[test]
fn search_does_not_follow_symlinks_during_walk() {
    let mut fs = Fs::new();
    let outside = "/outside";
    fs.mkdir(outside);
    fs.write("/outside/secret.rs", "needle\n");
    fs.symlink(outside, "/work/link");

    let tool = Tool::Search(Search {
        query: "needle".to_string(),
        path: None,
    });
    let result = fs.execute(&tool).unwrap();

    assert!(result.contains("no matches"), "unexpected: {result}");
}

#[test]
fn search_skips_binary_files() {
    let mut fs = Fs::new();
    fs.write("/work/text.rs", "needle\n");
    fs.write("/work/blob.bin", [0x00, 0xff, 0xfe, b'n', b'e', b'e', b'd', b'l', b'e']);

    let tool = Tool::Search(Search {
        query: "needle".to_string(),
        path: None,
    });
    let result = fs.execute(&tool).unwrap();
    assert!(result.contains("text.rs:1:needle"));
    assert!(!result.contains("blob.bin"));
}

#[test]
fn from_call_parses_edit_file_arguments() {
    let args = r#"{ "path": "src/main.rs", "old": "foo", "new": "bar" }"#;
    let tool = Tool::from_call("edit_file", args).unwrap();
    assert_eq!(
        tool,
        Tool::EditFile(EditFile {
            path: "src/main.rs".to_string(),
            old: "foo".to_string(),
            new: "bar".to_string(),
        })
    );
}

#[test]
fn from_call_rejects_edit_file_missing_old() {
    let args = r#"{ "path": "a.txt", "new": "bar" }"#;
    assert!(matches!(
        Tool::from_call("edit_file", args),
        Err(ToolError::InvalidArguments(_))
    ));
}

#[test]
fn from_call_rejects_edit_file_missing_new() {
    let args = r#"{ "path": "a.txt", "old": "foo" }"#;
    assert!(matches!(
        Tool::from_call("edit_file", args),
        Err(ToolError::InvalidArguments(_))
    ));
}

#[test]
fn from_call_rejects_edit_file_missing_path() {
    let args = r#"{ "old": "foo", "new": "bar" }"#;
    assert!(matches!(
        Tool::from_call("edit_file", args),
        Err(ToolError::InvalidArguments(_))
    ));
}

#[test]
fn edit_replaces_single_occurrence() {
    let mut fs = Fs::new();
    fs.write("/work/a.txt", "hello world\n");

    let tool = Tool::EditFile(EditFile {
        path: "a.txt".to_string(),
        old: "hello".to_string(),
        new: "goodbye".to_string(),
    });
    let result = fs.execute(&tool).unwrap();
    assert!(result.contains("a.txt"));

    let edited = fs.text("/work/a.txt");
    assert_eq!(edited, "goodbye world\n");
}

#[test]
fn edit_keeps_unmatched_text_intact() {
    let mut fs = Fs::new();
    fs.write("/work/a.txt", "line one\nline two\nline three\n");

    let tool = Tool::EditFile(EditFile {
        path: "a.txt".to_string(),
        old: "line two".to_string(),
        new: "LINE TWO".to_string(),
    });
    fs.execute(&tool).unwrap();

    let edited = fs.text("/work/a.txt");
    assert_eq!(edited, "line one\nLINE TWO\nline three\n");
}

#[test]
fn edit_rejects_missing_old_text() {
    let mut fs = Fs::new();
    fs.write("/work/a.txt", "hello world\n");

    let tool = Tool::EditFile(EditFile {
        path: "a.txt".to_string(),
        old: "zzz".to_string(),
        new: "bar".to_string(),
    });
    assert!(matches!(
        fs.execute(&tool),
        Err(ToolError::OldTextNotFound(_))
    ));
}

#[test]
fn edit_rejects_multiple_matches_and_leaves_file_unchanged() {
    let mut fs = Fs::new();
    fs.write("/work/a.txt", "hello\nhello\n");

    let tool = Tool::EditFile(EditFile {
        path: "a.txt".to_string(),
        old: "hello".to_string(),
        new: "goodbye".to_string(),
    });
    assert!(matches!(
        fs.execute(&tool),
        Err(ToolError::MultipleMatches(_))
    ));

    let content = fs.text("/work/a.txt");
    assert_eq!(content, "hello\nhello\n");
}

#[test]
fn edit_rejects_overlapping_matches() {
    let mut fs = Fs::new();
    fs.write("/work/a.txt", "aaaa");

    let tool = Tool::EditFile(EditFile {
        path: "a.txt".to_string(),
        old: "aa".to_string(),
        new: "b".to_string(),
    });
    assert!(matches!(
        fs.execute(&tool),
        Err(ToolError::MultipleMatches(_))
    ));
}

#[test]
fn edit_allows_multiline_old_text() {
    let mut fs = Fs::new();
    fs.write("/work/a.txt", "one\ntwo\nthree\n");

    let tool = Tool::EditFile(EditFile {
        path: "a.txt".to_string(),
        old: "one\ntwo".to_string(),
        new: "ONE\nTWO".to_string(),
    });
    fs.execute(&tool).unwrap();

    let edited = fs.text("/work/a.txt");
    assert_eq!(edited, "ONE\nTWO\nthree\n");
}

#[test]
fn edit_rejects_empty_old_text() {
    let mut fs = Fs::new();
    fs.write("/work/a.txt", "hello\n");

    let tool = Tool::EditFile(EditFile {
        path: "a.txt".to_string(),
        old: "".to_string(),
        new: "bar".to_string(),
    });
    assert!(matches!(
        fs.execute(&tool),
        Err(ToolError::InvalidArguments(_))
    ));
}

#[test]
fn edit_rejects_nonexistent_file() {
    let mut fs = Fs::new();
    let tool = Tool::EditFile(EditFile {
        path: "missing.txt".to_string(),
        old: "foo".to_string(),
        new: "bar".to_string(),
    });
    assert!(matches!(
        fs.execute(&tool),
        Err(ToolError::NotFound(_))
    ));
}

#[test]
fn edit_rejects_parent_traversal() {
    let mut fs = Fs::new();
    let tool = Tool::EditFile(EditFile {
        path: "../../etc/passwd".to_string(),
        old: "root".to_string(),
        new: "x".to_string(),
    });
    assert!(matches!(
        fs.execute(&tool),
        Err(ToolError::OutsideProject(_))
    ));
}

#[test]
fn edit_rejects_absolute_path() {
    let mut fs = Fs::new();
    let tool = Tool::EditFile(EditFile {
        path: "/etc/passwd".to_string(),
        old: "root".to_string(),
        new: "x".to_string(),
    });
    assert!(matches!(
        fs.execute(&tool),
        Err(ToolError::OutsideProject(_))
    ));
}

#[test]
fn edit_rejects_symlink_escape() {
    let mut fs = Fs::new();
    let outside = "/outside";
    fs.write(outside, "outside\n");
    fs.symlink(outside, "/work/link.txt");

    let tool = Tool::EditFile(EditFile {
        path: "link.txt".to_string(),
        old: "outside".to_string(),
        new: "inside".to_string(),
    });
    let result = fs.execute(&tool);

    assert!(matches!(result, Err(ToolError::OutsideProject(_))));
}

#[test]
fn edit_rejects_non_utf8_file() {
    let mut fs = Fs::new();
    fs.write("/work/blob.bin", [0xff, 0xfe, 0x00]);

    let tool = Tool::EditFile(EditFile {
        path: "blob.bin".to_string(),
        old: "foo".to_string(),
        new: "bar".to_string(),
    });
    assert!(matches!(
        fs.execute(&tool),
        Err(ToolError::InvalidArguments(_))
    ));

    let bytes = fs.bytes("/work/blob.bin");
    assert_eq!(bytes, [0xff, 0xfe, 0x00]);
}

#[test]
fn edit_replaces_single_occurrence_of_repeated_word() {
    let mut fs = Fs::new();
    fs.write("/work/a.txt", "foo and foo");

    let tool = Tool::EditFile(EditFile {
        path: "a.txt".to_string(),
        old: "foo".to_string(),
        new: "bar".to_string(),
    });
    assert!(matches!(
        fs.execute(&tool),
        Err(ToolError::MultipleMatches(_))
    ));
}

#[test]
fn edit_with_identical_old_and_new_is_noop() {
    let mut fs = Fs::new();
    fs.write("/work/a.txt", "hello\n");

    let tool = Tool::EditFile(EditFile {
        path: "a.txt".to_string(),
        old: "hello".to_string(),
        new: "hello".to_string(),
    });
    fs.execute(&tool).unwrap();

    let edited = fs.text("/work/a.txt");
    assert_eq!(edited, "hello\n");
}

#[test]
fn edit_replaces_occurrence_inside_larger_text() {
    let mut fs = Fs::new();
    fs.write("/work/a.txt", "function foo() { return foo; }");

    let tool = Tool::EditFile(EditFile {
        path: "a.txt".to_string(),
        old: "return foo".to_string(),
        new: "return bar".to_string(),
    });
    fs.execute(&tool).unwrap();

    let edited = fs.text("/work/a.txt");
    assert_eq!(edited, "function foo() { return bar; }");
}

#[test]
fn from_call_list_dir_defaults_to_none() {
    let tool = Tool::from_call("list_dir", r#"{}"#).unwrap();
    assert_eq!(tool, Tool::ListDir(ListDir { path: None }));
    let tool = Tool::from_call("list_dir", r#"{ "path": null }"#).unwrap();
    assert_eq!(tool, Tool::ListDir(ListDir { path: None }));
    let tool = Tool::from_call("list_dir", r#"{ "path": "" }"#).unwrap();
    assert_eq!(tool, Tool::ListDir(ListDir { path: None }));
    let tool = Tool::from_call("list_dir", r#"{ "path": "   " }"#).unwrap();
    assert_eq!(tool, Tool::ListDir(ListDir { path: None }));
}

#[test]
fn from_call_list_dir_parses_path() {
    let args = r#"{ "path": "src" }"#;
    let tool = Tool::from_call("list_dir", args).unwrap();
    assert_eq!(
        tool,
        Tool::ListDir(ListDir {
            path: Some("src".to_string()),
        })
    );
    let args = r#"{ "path": "  src  " }"#;
    let tool = Tool::from_call("list_dir", args).unwrap();
    assert_eq!(
        tool,
        Tool::ListDir(ListDir {
            path: Some("src".to_string()),
        })
    );
}

#[test]
fn list_dir_lists_project_root() {
    let mut fs = Fs::new();
    fs.mkdir("/work/src");
    fs.write("/work/main.rs", "fn main() {}");
    fs.write("/work/.hidden", "dotfile");

    let tool = Tool::ListDir(ListDir { path: None });
    let result = fs.execute(&tool).unwrap();
    assert!(result.contains("main.rs (file)"), "unexpected: {result}");
    assert!(result.contains("src/ (directory)"), "unexpected: {result}");
    assert!(result.contains(".hidden (file)"), "unexpected: {result}");
}

#[test]
fn list_dir_is_non_recursive() {
    let mut fs = Fs::new();
    fs.mkdir("/work/src");
    fs.write("/work/src/lib.rs", "pub fn f() {}");
    fs.write("/work/main.rs", "fn main() {}");

    let tool = Tool::ListDir(ListDir { path: None });
    let result = fs.execute(&tool).unwrap();
    assert!(result.contains("main.rs (file)"), "unexpected: {result}");
    assert!(result.contains("src/ (directory)"), "unexpected: {result}");
    assert!(!result.contains("lib.rs"), "unexpected: {result}");
}

#[test]
fn list_dir_lists_subdirectory() {
    let mut fs = Fs::new();
    fs.mkdir("/work/src");
    fs.write("/work/src/lib.rs", "pub fn f() {}");
    fs.write("/work/main.rs", "fn main() {}");

    let tool = Tool::ListDir(ListDir {
        path: Some("src".to_string()),
    });
    let result = fs.execute(&tool).unwrap();
    assert!(result.contains("lib.rs (file)"), "unexpected: {result}");
    assert!(!result.contains("main.rs"), "unexpected: {result}");
}

#[test]
fn list_dir_marks_symlinks() {
    let mut fs = Fs::new();
    fs.write("/work/target.txt", "x");
    fs.symlink("target.txt", "/work/link.txt");

    let tool = Tool::ListDir(ListDir { path: None });
    let result = fs.execute(&tool).unwrap();
    assert!(result.contains("target.txt (file)"), "unexpected: {result}");
    assert!(
        result.contains("link.txt (symlink)"),
        "unexpected: {result}"
    );
}

#[test]
fn list_dir_rejects_parent_traversal() {
    let mut fs = Fs::new();
    let tool = Tool::ListDir(ListDir {
        path: Some("../outside".to_string()),
    });
    assert!(matches!(
        fs.execute(&tool),
        Err(ToolError::OutsideProject(_))
    ));
}

#[test]
fn list_dir_rejects_absolute_path() {
    let mut fs = Fs::new();
    let tool = Tool::ListDir(ListDir {
        path: Some("/etc".to_string()),
    });
    assert!(matches!(
        fs.execute(&tool),
        Err(ToolError::OutsideProject(_))
    ));
}

#[test]
fn list_dir_rejects_nonexistent_directory() {
    let mut fs = Fs::new();
    let tool = Tool::ListDir(ListDir {
        path: Some("missing".to_string()),
    });
    assert!(matches!(
        fs.execute(&tool),
        Err(ToolError::NotFound(_))
    ));
}

#[test]
fn list_dir_reports_empty_directory() {
    let mut fs = Fs::new();
    let tool = Tool::ListDir(ListDir { path: None });
    let result = fs.execute(&tool).unwrap();
    assert_eq!(result, "Directory is empty.");
}

#[test]
fn list_dir_output_is_sorted_and_deterministic() {
    let mut fs = Fs::new();
    fs.write("/work/zeta.txt", "x");
    fs.write("/work/alpha.rs", "x");
    fs.mkdir("/work/mid");
    fs.write("/work/.dot", "x");

    let tool = Tool::ListDir(ListDir { path: None });
    let first = fs.execute(&tool).unwrap();
    let second = fs.execute(&tool).unwrap();
    assert_eq!(first, second);
    assert_eq!(
        first,
        ".dot (file)\nalpha.rs (file)\nmid/ (directory)\nzeta.txt (file)"
    );
}

#[test]
fn all_definitions_includes_list_dir() {
    let defs = all_definitions();
    let list = defs
        .iter()
        .find(|d| d.name == "list_dir")
        .unwrap();

    assert_eq!(list.name, "list_dir");
    assert!(list.description.contains("non-recursive"));
    assert_eq!(list.parameters.kind, "object");
    assert_eq!(property_kind(list, "path"), "string");
    assert!(list.parameters.required.is_empty());
}

#[test]
fn all_definitions_includes_edit_file() {
    let defs = all_definitions();
    let edit = defs
        .iter()
        .find(|d| d.name == "edit_file")
        .unwrap();

    assert_eq!(edit.name, "edit_file");
    assert!(
        edit.description
            .contains("Replace an exact piece of text")
    );
    assert_eq!(edit.parameters.kind, "object");
    assert_eq!(property_kind(edit, "path"), "string");
    assert_eq!(property_kind(edit, "old"), "string");
    assert_eq!(property_kind(edit, "new"), "string");
    assert_eq!(edit.parameters.required, vec!["path", "old", "new"]);
}

#[test]
fn all_definitions_keeps_existing_tools() {
    let defs = all_definitions();
    let names: Vec<&str> = defs.iter().map(|d| d.name).collect();
    assert!(names.contains(&"read_file"));
    assert!(names.contains(&"write_file"));
    assert!(names.contains(&"search"));
    assert!(names.contains(&"list_dir"));
    assert!(names.contains(&"edit_file"));
}

#[test]
fn exec_from_call_parses_command() {
    let args = r#"{ "command": "cargo check" }"#;
    let tool = Tool::from_call("exec", args).unwrap();
    assert_eq!(
        tool,
        Tool::Exec(Exec {
            command: "cargo check".to_string(),
        })
    );
}

#[test]
fn exec_from_call_rejects_missing_command() {
    let args = r#"{}"#;
    assert!(matches!(
        Tool::from_call("exec", args),
        Err(ToolError::InvalidArguments(_))
    ));
}

#[test]
fn exec_from_call_rejects_empty_command() {
    let args = r#"{ "command": "   " }"#;
    assert!(matches!(
        Tool::from_call("exec", args),
        Err(ToolError::InvalidArguments(_))
    ));
}

#[test]
fn exec_from_call_does_not_trim_internal_spaces() {
    let args = r#"{ "command": "cargo  check" }"#;
    let tool = Tool::from_call("exec", args).unwrap();
    assert_eq!(
        tool,
        Tool::Exec(Exec {
            command: "cargo  check".to_string(),
        })
    );
}

#[test]
fn exec_all_definitions_schema() {
    let defs = all_definitions();
    let exec = defs
        .iter()
        .find(|d| d.name == "exec")
        .unwrap();

    assert_eq!(exec.name, "exec");
    assert!(
        exec.description
            .contains("allowed project development command")
    );
    assert_eq!(exec.parameters.kind, "object");
    assert_eq!(property_kind(exec, "command"), "string");
    assert_eq!(exec.parameters.required, vec!["command"]);
}

#[test]
fn exec_all_definitions_keeps_existing_tools() {
    let defs = all_definitions();
    let names: Vec<&str> = defs.iter().map(|d| d.name).collect();
    assert!(names.contains(&"read_file"));
    assert!(names.contains(&"write_file"));
    assert!(names.contains(&"search"));
    assert!(names.contains(&"list_dir"));
    assert!(names.contains(&"edit_file"));
    assert!(names.contains(&"exec"));
}

#[test]
fn exec_parse_echoes_back_error_for_unknown_command() {
    let args = r#"{ "command": "echo hello" }"#;
    let tool = Tool::from_call("exec", args).unwrap();
    assert!(matches!(
        Fs::new().execute(&tool),
        Err(ToolError::CommandNotAllowed(_))
    ));
}

#[test]
fn text_response_is_returned_and_appended() {
    let mut fs = Fs::new();
    let mut model = FakeModel::new(vec![Response::Text("hello back".to_string())]);

    let mut conversation = Vec::new();
    run_turn(&mut fs, &mut model, &mut conversation, "hi").unwrap();

    assert_eq!(conversation.len(), 2);
    assert_eq!(conversation[0].role, Role::User);
    assert_eq!(conversation[0].content, "hi");
    assert_eq!(conversation[1].role, Role::Assistant);
    assert_eq!(conversation[1].content, "hello back");
    assert_eq!(model.seen.len(), 1);
}

#[test]
fn single_tool_call_then_final_text() {
    let mut fs = Fs::new();
    let mut model = FakeModel::new(vec![
        Response::ToolCall(vec![tool_call(
            "call_1",
            "write_file",
            r#"{ "path": "out.txt", "content": "data" }"#,
        )]),
        Response::Text("done".to_string()),
    ]);

    let mut conversation = Vec::new();
    run_turn(&mut fs, &mut model, &mut conversation, "write a file").unwrap();

    let written = fs.text("/work/out.txt");
    assert_eq!(written, "data");

    assert_eq!(conversation.len(), 4);
    assert_eq!(conversation[1].role, Role::Assistant);
    assert_eq!(conversation[1].tool_calls.len(), 1);
    assert_eq!(conversation[2].role, Role::Tool);
    assert!(conversation[2].content.contains("out.txt"));
    assert_eq!(conversation[2].tool_call_id.as_deref(), Some("call_1"));
    assert_eq!(conversation[3].content, "done");

    let second = model.seen.last().cloned().unwrap_or_default();
    assert_eq!(second.len(), 3);
    assert!(second.iter().any(|m| m.role == Role::Tool));
}

#[test]
fn multiple_tool_calls_rounds() {
    let mut fs = Fs::new();
    let mut model = FakeModel::new(vec![
        Response::ToolCall(vec![tool_call(
            "call_1",
            "write_file",
            r#"{ "path": "a.txt", "content": "1" }"#,
        )]),
        Response::ToolCall(vec![tool_call(
            "call_2",
            "write_file",
            r#"{ "path": "b.txt", "content": "2" }"#,
        )]),
        Response::Text("both done".to_string()),
    ]);

    let mut conversation = Vec::new();
    run_turn(&mut fs, &mut model, &mut conversation, "write two files").unwrap();

    assert_eq!(fs.text("/work/a.txt"), "1");
    assert_eq!(fs.text("/work/b.txt"), "2");
    assert_eq!(model.seen.len(), 3);
    assert_eq!(conversation.len(), 6);
}

#[test]
fn multiple_tools_in_one_call_batch() {
    let mut fs = Fs::new();
    let mut model = FakeModel::new(vec![
        Response::ToolCall(vec![
            tool_call(
                "call_1",
                "write_file",
                r#"{ "path": "a.txt", "content": "1" }"#,
            ),
            tool_call(
                "call_2",
                "write_file",
                r#"{ "path": "b.txt", "content": "2" }"#,
            ),
        ]),
        Response::Text("done".to_string()),
    ]);

    let mut conversation = Vec::new();
    run_turn(&mut fs, &mut model, &mut conversation, "write two files at once").unwrap();

    assert_eq!(fs.text("/work/a.txt"), "1");
    assert_eq!(fs.text("/work/b.txt"), "2");
}

#[test]
fn tool_error_is_returned_to_model_not_crash() {
    let mut fs = Fs::new();
    let mut model = FakeModel::new(vec![
        Response::ToolCall(vec![tool_call(
            "call_1",
            "read_file",
            r#"{ "path": "missing.txt" }"#,
        )]),
        Response::Text("file not found, I see".to_string()),
    ]);

    let mut conversation = Vec::new();
    run_turn(&mut fs, &mut model, &mut conversation, "read missing").unwrap();

    let tool_msg = &conversation[2];
    assert_eq!(tool_msg.role, Role::Tool);
    assert!(
        tool_msg.content.contains("tool error"),
        "got: {}",
        tool_msg.content
    );
    assert_eq!(conversation[3].content, "file not found, I see");
}

#[test]
fn model_error_is_propagated_and_conversation_rolled_back() {
    let mut fs = Fs::new();
    let mut model = FakeModel::failing();

    let mut conversation = vec![Message::assistant("old context")];
    let result = run_turn(&mut fs, &mut model, &mut conversation, "hi");

    assert!(matches!(result, Err(AgentError::Model(_))));
    assert_eq!(conversation.len(), 1);
    assert_eq!(conversation[0].content, "old context");
}

#[test]
fn too_many_tool_rounds_is_capped() {
    let mut fs = Fs::new();
    let mut responses = Vec::new();
    for i in 0..=MAX_TOOL_ROUNDS {
        responses.push(Response::ToolCall(vec![tool_call(
            &format!("call_{i}"),
            "write_file",
            r#"{ "path": "loop.txt", "content": "x" }"#,
        )]));
    }
    let mut model = FakeModel::new(responses);

    let mut conversation = Vec::new();
    let result = run_turn(&mut fs, &mut model, &mut conversation, "loop forever")
        .unwrap_err();

    assert!(matches!(result, AgentError::TooManyToolRounds));
    assert!(conversation.is_empty());
}

#[test]
fn dispatches_different_tool_types() {
    let mut fs = Fs::new();
    fs.mkdir("/work/src");
    fs.write("/work/src/a.rs", "fn main() {}");

    let mut model = FakeModel::new(vec![
        Response::ToolCall(vec![
            tool_call(
                "call_1",
                "read_file",
                r#"{ "path": "src/a.rs" }"#,
            ),
            tool_call("call_2", "search", r#"{ "query": "main" }"#),
        ]),
        Response::Text("both worked".to_string()),
    ]);

    let mut conversation = Vec::new();
    run_turn(&mut fs, &mut model, &mut conversation, "inspect").unwrap();

    assert_eq!(conversation[2].role, Role::Tool);
    assert_eq!(conversation[2].content, "fn main() {}");
    assert!(
        conversation[3]
            .content
            .contains("src/a.rs:1"),
        "got: {}",
        conversation[3].content
    );
    assert_eq!(conversation[4].content, "both worked");
}

fn run_command(reply: Result<ExecOutput, ExecError>) -> (Result<String, ToolError>, Vec<String>) {
    let mut fs = Fs::new();
    fs.reply = reply;
    let tool = Tool::Exec(Exec {
        command: "git log -n 1".to_string(),
    });
    let result = fs.execute(&tool);
    (result, fs.commands)
}

#[test]
fn commands_report_their_output() {
    let (result, commands) = run_command(Ok(ExecOutput {
        code: 0,
        output: "abc".to_string(),
    }));
    assert_eq!(result.unwrap(), "exit code: 0\n\nstdout:\nabc\nstderr:\n");
    assert_eq!(commands, vec!["git --no-pager log -n 1"]);
    let (result, _) = run_command(Ok(ExecOutput {
        code: -1,
        output: "boom".to_string(),
    }));
    let err = result.unwrap_err();
    assert_eq!(err, ToolError::NonZeroExit(-1, "boom".to_string()));
    assert_eq!(err.message(), "command exited with code -1\n\nboom");
    let (result, _) = run_command(Err(ExecError::TimedOut("half".to_string())));
    assert_eq!(result.unwrap_err().message(), "command timed out\n\nhalf");
    let (result, _) = run_command(Err(ExecError::Io(IoError::other("no git"))));
    assert_eq!(result.unwrap_err().message(), "io error: no git");
}

#[test]
fn the_allow_list_reaches_the_tool() {
    let mut fs = Fs::new();
    let tool = Tool::Exec(Exec {
        command: "make all".to_string(),
    });
    assert!(fs.execute(&tool).is_err());
    assert!(fs.commands.is_empty());
    fs.policy = ExecPolicy {
        extra_allow: vec![CmdPattern {
            program: "make".to_string(),
            subcommand: None,
        }],
    };
    assert!(fs.execute(&tool).is_ok());
    assert_eq!(fs.commands, vec!["make all"]);
}

#[test]
fn errors_are_put_into_words() {
    let s = || "x".to_string();
    let said: Vec<String> = vec![
        ToolError::UnknownTool(s()),
        ToolError::InvalidArguments(s()),
        ToolError::NotFound(s()),
        ToolError::OutsideProject(s()),
        ToolError::OldTextNotFound(s()),
        ToolError::MultipleMatches(s()),
        ToolError::CommandNotAllowed(s()),
    ]
    .iter()
    .map(|e| {
        assert_eq!(&e.copy(), e);
        e.message()
    })
    .collect();
    assert_eq!(
        said,
        vec![
            "unknown tool: x",
            "invalid arguments: x",
            "file not found: x",
            "access denied: x is outside the project directory",
            "old text not found in x",
            "old text occurs multiple times in x; refusing to edit (exact replacement requires a single match)",
            "command not allowed: x",
        ]
    );
}

#[test]
fn writing_counts_bytes() {
    let mut fs = Fs::new();
    let tool = Tool::WriteFile(WriteFile {
        path: "a/ä.txt".to_string(),
        content: "äö".to_string(),
    });
    assert_eq!(fs.execute(&tool).unwrap(), "wrote 4 bytes to a/ä.txt");
    assert_eq!(fs.text("/work/a/ä.txt"), "äö");
}

#[test]
fn new_files_below_links_out_of_the_project_are_refused() {
    let mut fs = Fs::new();
    fs.mkdir("/outside");
    fs.symlink("/outside", "/work/link");
    let tool = Tool::WriteFile(WriteFile {
        path: "link/a/b.txt".to_string(),
        content: "x".to_string(),
    });
    assert_eq!(
        fs.execute(&tool),
        Err(ToolError::OutsideProject("link/a/b.txt".to_string()))
    );
    assert_eq!(fs.writes, 0);
    fs.mkdir("/work/real");
    fs.symlink("real", "/work/inner");
    let tool = Tool::WriteFile(WriteFile {
        path: "inner/./a/b.txt".to_string(),
        content: "x".to_string(),
    });
    assert!(fs.execute(&tool).is_ok());
    assert_eq!(fs.text("/work/real/a/b.txt"), "x");
}

fn write_to(fs: &mut Fs, path: &str) -> Result<String, ToolError> {
    fs.execute(&Tool::WriteFile(WriteFile {
        path: path.to_string(),
        content: "x".to_string(),
    }))
}

#[test]
fn links_to_nothing_outside_the_project_are_refused() {
    let mut fs = Fs::new();
    fs.mkdir("/outside");
    fs.mkdir("/work/d");
    fs.symlink("/outside/new.txt", "/work/a");
    fs.symlink("/nowhere/at/all", "/work/b");
    fs.symlink("../../outside/new.txt", "/work/d/c");
    fs.symlink("a", "/work/e");
    fs.symlink("a/deep/er", "/work/f");
    fs.symlink("gone/../../outside/new.txt", "/work/g");
    fs.symlink("/outside/gone/..", "/work/h");
    for path in [
        "a", "b", "d/c", "e", "f", "g", "h", "a/below.txt", "./a", "b/x/y", "e/x",
    ] {
        assert_eq!(
            write_to(&mut fs, path),
            Err(ToolError::OutsideProject(path.to_string())),
            "{path}"
        );
    }
    assert_eq!(fs.writes, 0);
}

#[test]
fn links_to_nothing_inside_the_project_are_written_through() {
    let mut fs = Fs::new();
    fs.mkdir("/work/d");
    fs.symlink("new.txt", "/work/a");
    fs.symlink("/work/d/other.txt", "/work/b");
    fs.symlink("../a2.txt", "/work/d/c");
    fs.symlink("b", "/work/e");
    assert_eq!(write_to(&mut fs, "a").unwrap(), "wrote 1 bytes to a");
    assert_eq!(fs.text("/work/new.txt"), "x");
    assert!(write_to(&mut fs, "d/c").is_ok());
    assert_eq!(fs.text("/work/a2.txt"), "x");
    assert!(write_to(&mut fs, "e").is_ok());
    assert_eq!(fs.text("/work/d/other.txt"), "x");
    assert_eq!(fs.written, vec!["/work/a", "/work/d/c", "/work/e"]);
}

#[test]
fn links_to_nothing_are_no_directories() {
    let mut fs = Fs::new();
    fs.symlink("target", "/work/link");
    fs.symlink("gone/file.txt", "/work/deep");
    fs.symlink("gone/../file.txt", "/work/up");
    for path in ["link/x", "link/x/y", "deep", "up"] {
        assert!(
            matches!(write_to(&mut fs, path), Err(ToolError::Io(_))),
            "{path}"
        );
    }
    assert_eq!(
        fs.written,
        vec!["/work/link/x", "/work/link/x/y", "/work/deep", "/work/up"]
    );
    assert!(!fs.nodes.contains_key("/work/target"));
    assert!(!fs.nodes.contains_key("/work/gone"));
}

/// Runs `write_file` of `a` in the project `/work`, in which nothing exists, with a given answer
/// to each look at a link.
fn write_with_links(
    link: impl Fn(&str) -> Result<Option<String>, IoError>,
) -> (Result<String, ToolError>, usize) {
    let tool = Tool::WriteFile(WriteFile {
        path: "a".to_string(),
        content: "x".to_string(),
    });
    let mut run = ToolRun::start(tool, "/work", &ExecPolicy::default());
    let mut looked = 0;
    loop {
        run = match run.action() {
            Action::Canonicalize(path) if path == "/work" => {
                run.step(Event::Canonical(Ok(path)))
            }
            Action::Canonicalize(path) => run.step(Event::Canonical(Err(missing(&path)))),
            Action::ReadLink(path) => {
                looked += 1;
                run.step(Event::Link(link(&path)))
            }
            Action::WriteFile(path, _) => {
                assert_eq!(path, "/work/a");
                run.step(Event::Written(Ok(())))
            }
            Action::Finish(result) => return (result, looked),
            other => panic!("unexpected: {other:?}"),
        };
    }
}

#[test]
fn links_are_not_followed_forever() {
    let (result, looked) = write_with_links(|_| Ok(Some("a".to_string())));
    assert_eq!(result, Err(ToolError::OutsideProject("a".to_string())));
    assert_eq!(looked, MAX_LINKS + 1);
}

#[test]
fn what_cannot_be_looked_at_is_left_to_the_write() {
    let (result, looked) = write_with_links(|_| Err(IoError::other("denied")));
    assert_eq!(result.unwrap(), "wrote 1 bytes to a");
    assert_eq!(looked, 1);
}

#[test]
fn refused_edits_write_nothing() {
    let mut fs = Fs::new();
    fs.write("/work/a.txt", "aXbXc");
    let edit = |old: &str| {
        Tool::EditFile(EditFile {
            path: "a.txt".to_string(),
            old: old.to_string(),
            new: "-".to_string(),
        })
    };
    assert!(fs.execute(&edit("X")).is_err());
    assert!(fs.execute(&edit("Y")).is_err());
    assert!(fs.execute(&edit("")).is_err());
    assert_eq!(fs.writes, 0);
    assert_eq!(fs.execute(&edit("bX")).unwrap(), "edited a.txt successfully");
    assert_eq!(fs.text("/work/a.txt"), "aX-c");
    assert_eq!(fs.writes, 1);
    assert_eq!(edit_text("p", "é", "e", "caf\u{e9}!").unwrap(), "cafe!");
}

#[test]
fn a_missing_project_is_an_io_error() {
    let mut fs = Fs::new();
    for tool in [
        Tool::ReadFile(ReadFile {
            path: "a".to_string(),
        }),
        Tool::Search(Search {
            query: "x".to_string(),
            path: None,
        }),
    ] {
        assert!(matches!(
            fs.execute_at(&tool, "/nowhere"),
            Err(ToolError::Io(_))
        ));
    }
}

#[test]
fn search_walks_in_order_and_numbers_lines() {
    let mut fs = Fs::new();
    fs.mkdir("/work/d/e");
    fs.write("/work/d/e/z.txt", "no\r\nhit one\r\n");
    fs.write("/work/d/y.txt", "hit two");
    fs.write("/work/a.txt", "x\n\nhit three\n");
    fs.nodes.insert("/work/b.pipe".to_string(), Node::Fifo);
    let tool = Tool::Search(Search {
        query: "hit".to_string(),
        path: None,
    });
    assert_eq!(fs.execute(&tool).unwrap(), "d/y.txt:1:hit two\nd/e/z.txt:2:hit one\na.txt:3:hit three");
    let tool = Tool::Search(Search {
        query: "hit".to_string(),
        path: Some("b.pipe".to_string()),
    });
    assert_eq!(
        fs.execute(&tool),
        Err(ToolError::NotFound("b.pipe".to_string()))
    );
    let tool = Tool::Search(Search {
        query: "nil".to_string(),
        path: Some("d".to_string()),
    });
    assert_eq!(fs.execute(&tool).unwrap(), "no matches for \"nil\"");
}

#[test]
fn listings_are_sorted_and_stable() {
    let entry = |path: &str, kind| RuntimeEntry {
        path: path.to_string(),
        kind,
    };
    let sorted = sort_by_name(vec![
        entry("/2/b", EntryKind::File),
        entry("/1/é", EntryKind::File),
        entry("/1/b", EntryKind::Dir),
        entry("/1/..", EntryKind::Dir),
        entry("/1/ab", EntryKind::Other),
        entry("/1/a", EntryKind::Symlink),
    ]);
    let paths: Vec<&str> = sorted.iter().map(|e| e.path.as_str()).collect();
    assert_eq!(paths, vec!["/1/..", "/1/a", "/1/ab", "/2/b", "/1/b", "/1/é"]);
    assert_eq!(
        show_directory(sorted),
        "a (symlink)\nb (file)\nb/ (directory)\né (file)"
    );
}

#[test]
fn calls_need_string_arguments() {
    assert_eq!(
        Tool::from_call("read_file", r#"{"path": 5}"#).unwrap_err().message(),
        "invalid arguments: read_file requires a string argument `path`"
    );
    assert_eq!(
        Tool::from_call("search", r#"{"query": ""}"#).unwrap_err().message(),
        "invalid arguments: search requires a non-empty string argument `query`"
    );
    assert!(Tool::from_call("read_file", "null").is_err());
    assert!(Tool::from_call("read_file", "not json").is_err());
    assert_eq!(
        Tool::from_call("exec", r#"{"command": " cargo test "}"#).unwrap(),
        Tool::Exec(Exec {
            command: "cargo test".to_string()
        })
    );
    assert_eq!(
        Tool::from_call("read_file", r#"{"path": "a\u00e4\"\n", "path2": []}"#).unwrap(),
        Tool::ReadFile(ReadFile {
            path: "aä\"\n".to_string()
        })
    );
}

#[test]
fn calls_read_their_members() {
    let read = ToolArguments::read(r#"{"old": "o", "new": "n", "query": "q", "content": null}"#);
    assert_eq!(read.old.as_deref(), Some("o"));
    assert_eq!(read.new.as_deref(), Some("n"));
    assert_eq!(read.query.as_deref(), Some("q"));
    assert_eq!(read.content, None);
    assert_eq!(
        Tool::from_arguments("search", read).unwrap(),
        Tool::Search(Search {
            query: "q".to_string(),
            path: None
        })
    );
}

#[test]
fn described_tools_are_the_known_ones() {
    for d in all_definitions() {
        assert!(!matches!(
            Tool::from_call(d.name, "{}"),
            Err(ToolError::UnknownTool(_))
        ));
        assert!(d
            .parameters
            .required
            .iter()
            .all(|r| d.parameters.properties.iter().any(|p| p.name == *r)));
    }
}

#[test]
fn required_arguments_suffice() {
    for d in all_definitions() {
        let members: Vec<String> = d
            .parameters
            .required
            .iter()
            .map(|name| format!("\"{name}\": \"x\""))
            .collect();
        let arguments = format!("{{{}}}", members.join(", "));
        assert!(Tool::from_call(d.name, &arguments).is_ok(), "{}", d.name);
    }
}

#[test]
fn calls_that_are_not_allowed_do_not_run() {
    let mut fs = Fs::new();
    let mut model = FakeModel::new(vec![
        Response::ToolCall(vec![
            tool_call("c1", "write_file", r#"{"path": "a.txt", "content": "x"}"#),
            tool_call("c2", "nonsense", "{}"),
            tool_call("c3", "write_file", "not even json"),
        ]),
        Response::Text("ok".to_string()),
    ]);
    let mut conversation = Vec::new();
    run_turn_with(
        &mut fs,
        &mut model,
        &Capabilities::read_only(),
        &mut conversation,
        "write",
    )
    .unwrap();
    assert_eq!(fs.writes, 0);
    let results: Vec<(&str, &str)> = conversation[2..5]
        .iter()
        .map(|m| (m.tool_call_id.as_deref().unwrap(), m.content.as_str()))
        .collect();
    assert_eq!(
        results,
        vec![
            (
                "c1",
                "tool error: permission denied: write_file requires filesystem_write capability"
            ),
            ("c2", "tool error: unknown tool: nonsense"),
            (
                "c3",
                "tool error: permission denied: write_file requires filesystem_write capability"
            ),
        ]
    );
}

/// A runtime that answers every operation with what it was asked.
struct Echo;

impl Runtime for Echo {
    fn read_file(&self, path: &str) -> Result<String, IoError> {
        Ok(path.to_string())
    }

    fn write_file(&self, path: &str, content: &str) -> Result<(), IoError> {
        Err(IoError::other(&format!("{path}={content}")))
    }

    fn read_dir(&self, path: &str) -> Result<Vec<RuntimeEntry>, IoError> {
        Err(IoError::other(path))
    }

    fn exec_command(&self, program: &str, args: &[String], cwd: &str) -> Result<ExecOutput, ExecError> {
        Err(ExecError::TimedOut(format!("{cwd}: {program} {}", args.join(" "))))
    }
}

#[test]
fn operations_go_to_the_runtime() {
    let told = |action: Action| match perform(&Echo, &action, "/work") {
        Some(Event::Content(Ok(text))) => text,
        Some(Event::Written(Err(e))) => e.message,
        Some(Event::Entries(Err(e))) => e.message,
        Some(Event::Output(Err(ExecError::TimedOut(text)))) => text,
        Some(other) => panic!("unexpected: {other:?}"),
        None => "nothing".to_string(),
    };
    assert_eq!(told(Action::ReadFile("a".to_string())), "a");
    assert_eq!(told(Action::WriteFile("a".to_string(), "b".to_string())), "a=b");
    assert_eq!(told(Action::ReadDir("d".to_string())), "d");
    let command = ExecCommand::parse("cargo test --lib").unwrap();
    assert_eq!(told(Action::Exec(command)), "/work: cargo test --lib");
    assert_eq!(told(Action::Canonicalize("a".to_string())), "nothing");
    assert_eq!(told(Action::Kind("a".to_string())), "nothing");
    assert_eq!(told(Action::ReadLink("a".to_string())), "nothing");
}

#[test]
fn a_turn_may_use_all_its_rounds() {
    let mut fs = Fs::new();
    let mut responses = Vec::new();
    for i in 0..MAX_TOOL_ROUNDS {
        responses.push(Response::ToolCall(vec![tool_call(
            &format!("c{i}"),
            "list_dir",
            "{}",
        )]));
    }
    responses.push(Response::Text("done".to_string()));
    let mut model = FakeModel::new(responses);
    let mut conversation = vec![Message::user("before")];
    run_turn(&mut fs, &mut model, &mut conversation, "go").unwrap();
    assert_eq!(conversation.len(), 1 + 2 + 2 * MAX_TOOL_ROUNDS);
    assert_eq!(
        AgentError::TooManyToolRounds.message(),
        "too many tool-call rounds, giving up"
    );
    assert_eq!(AgentError::Model("down".to_string()).message(), "down");
}

/// What a server answers: a status and a body.
type Answer = (u16, &'static str);

fn text_of(v: &Value) -> Option<String> {
    v.as_str().map(str::to_string)
}

fn chunk_of(json: &str) -> Option<StreamChunk> {
    let value: Value = serde_json::from_str(json).ok()?;
    let choices = value["choices"].as_array()?;
    Some(StreamChunk {
        choices: choices
            .iter()
            .map(|c| StreamChoice {
                delta: StreamDelta {
                    content: text_of(&c["delta"]["content"]),
                    tool_calls: c["delta"]["tool_calls"]
                        .as_array()
                        .unwrap_or(&Vec::new())
                        .iter()
                        .map(|t| StreamDeltaToolCall {
                            index: t["index"].as_u64().unwrap_or(0) as usize,
                            id: text_of(&t["id"]),
                            function: t.get("function").map(|f| StreamDeltaFunction {
                                name: text_of(&f["name"]),
                                arguments: text_of(&f["arguments"]),
                            }),
                        })
                        .collect(),
                },
                finish_reason: text_of(&c["finish_reason"]),
            })
            .collect(),
    })
}

fn reply_of(answer: Answer) -> Result<Response, String> {
    let (status, body) = answer;
    if status != 200 {
        return Err(api_error(&status.to_string(), Some(body.to_string())));
    }
    let mut acc = StreamAccumulator::default();
    for line in body.lines() {
        let chunk = match read_sse_line(line) {
            SseLine::Data(json) => chunk_of(&json),
            _ => None,
        };
        if parse_sse_line(line, &chunk, &mut acc).0 {
            break;
        }
    }
    Ok(stream_to_response(&acc))
}

fn served(answers: Vec<Answer>) -> FakeModel {
    FakeModel {
        responses: answers.into_iter().map(reply_of).collect(),
        seen: Vec::new(),
    }
}

fn client() -> OpenAICompatibleModel {
    OpenAICompatibleModel::new_with_base_url(
        "test-key".to_string(),
        "http://127.0.0.1:1".to_string(),
        "gpt-test".to_string(),
    )
}

#[test]
fn agent_plain_text_through_mock_server() {
    let mut model = served(vec![(
        200,
        "data: {\"choices\":[{\"delta\":{\"content\":\"hello back\"},\"finish_reason\":\"stop\"}]}\n\ndata: [DONE]\n",
    )]);
    let mut fs = Fs::new();
    let mut conversation = Vec::new();
    run_turn(&mut fs, &mut model, &mut conversation, "hi").unwrap();

    assert_eq!(conversation.len(), 2);
    assert_eq!(conversation[0].content, "hi");
    assert_eq!(conversation[1].content, "hello back");

    let request = client().request(&model.seen[0], true);
    assert_eq!(request.model, "gpt-test");
    assert_eq!(request.messages[0].role, "user");
    assert_eq!(request.messages[0].content.as_deref(), Some("hi"));
    assert!(request.stream);
    assert_eq!(request.tools[0].kind, "function");
}

#[test]
fn agent_tool_call_through_mock_server() {
    let first = r#"data: {"choices":[{"delta":{"tool_calls":[{"index":0,"id":"call_abc","type":"function","function":{"name":"read_file","arguments":"{\"path\": \"note"}}]},"finish_reason":null}]}

data: {"choices":[{"delta":{"tool_calls":[{"index":0,"function":{"arguments":".txt\"}"}}]},"finish_reason":"tool_calls"}]}

data: [DONE]
"#;
    let second = "data: {\"choices\":[{\"delta\":{\"content\":\"found the data\"},\"finish_reason\":\"stop\"}]}\n\ndata: [DONE]\n";
    let mut model = served(vec![(200, first), (200, second)]);
    let mut fs = Fs::new();
    fs.write("/work/note.txt", "important data");
    let mut conversation = Vec::new();
    run_turn(&mut fs, &mut model, &mut conversation, "read note.txt").unwrap();

    assert_eq!(conversation.len(), 4);
    assert_eq!(conversation[3].content, "found the data");

    let messages = client().request(&model.seen[1], true).messages;
    assert_eq!(messages.len(), 3);
    assert_eq!(messages[1].role, "assistant");
    assert_eq!(messages[1].content, None);
    assert_eq!(messages[1].tool_calls[0].id, "call_abc");
    assert_eq!(messages[1].tool_calls[0].function.name, "read_file");
    assert_eq!(
        messages[1].tool_calls[0].function.arguments,
        r#"{"path":"note.txt"}"#
    );
    assert_eq!(messages[2].role, "tool");
    assert_eq!(messages[2].tool_call_id.as_deref(), Some("call_abc"));
    assert_eq!(messages[2].content.as_deref(), Some("important data"));
}

#[test]
fn agent_api_error_propagates_from_mock_server() {
    let mut model = served(vec![(500, r#"{"error": "boom"}"#)]);
    let mut fs = Fs::new();
    let mut conversation = Vec::new();
    let result = run_turn(&mut fs, &mut model, &mut conversation, "hi");

    assert!(matches!(result, Err(AgentError::Model(_))));
    assert!(conversation.is_empty());
}
