//! The tools that the model can call: how they are described to it, and how its calls are read.

use vstd::prelude::*;

use crate::error::{ToolError, ToolFault};
use crate::json::{json_member, same_members, string_member};
use crate::text::{
    all_blank, law_trimming, lemma_trimmed_split, opt_text, same, trim, trimmed, white_space,
};

verus! {

// ---------------------------------------------------------------------------------------------
// Descriptions
// ---------------------------------------------------------------------------------------------

/// One argument of a tool.
#[derive(Debug, Clone, Copy)]
pub struct ToolProperty {
    pub name: &'static str,
    /// The JSON type of the argument.
    pub kind: &'static str,
    pub description: &'static str,
}

/// The arguments of a tool: a JSON object with these members, some of which have to be there.
#[derive(Debug, Clone)]
pub struct ToolParameters {
    /// The JSON type of the arguments together.
    pub kind: &'static str,
    pub properties: Vec<ToolProperty>,
    pub required: Vec<&'static str>,
}

/// A tool as it is described to the model.
#[derive(Debug, Clone)]
pub struct ToolDefinition {
    pub name: &'static str,
    pub description: &'static str,
    pub parameters: ToolParameters,
}

/// A [`ToolProperty`] as the contracts see it.
pub struct PropertyText {
    pub name: Seq<char>,
    pub kind: Seq<char>,
    pub description: Seq<char>,
}

/// A [`ToolParameters`] as the contracts see it.
pub struct ParametersText {
    pub kind: Seq<char>,
    pub properties: Seq<PropertyText>,
    pub required: Seq<Seq<char>>,
}

/// A [`ToolDefinition`] as the contracts see it.
pub struct DefinitionText {
    pub name: Seq<char>,
    pub description: Seq<char>,
    pub parameters: ParametersText,
}

impl View for ToolProperty {
    type V = PropertyText;

    open spec fn view(&self) -> PropertyText {
        PropertyText { name: self.name@, kind: self.kind@, description: self.description@ }
    }
}

impl View for ToolParameters {
    type V = ParametersText;

    open spec fn view(&self) -> ParametersText {
        ParametersText {
            kind: self.kind@,
            properties: self.properties@.map_values(|p: ToolProperty| p@),
            required: self.required@.map_values(|s: &'static str| s@),
        }
    }
}

impl View for ToolDefinition {
    type V = DefinitionText;

    open spec fn view(&self) -> DefinitionText {
        DefinitionText {
            name: self.name@,
            description: self.description@,
            parameters: self.parameters@,
        }
    }
}

/// What each description of a list holds.
pub open spec fn definitions(v: Seq<ToolDefinition>) -> Seq<DefinitionText> {
    v.map_values(|d: ToolDefinition| d@)
}

/// An argument that is a string.
pub open spec fn string_property(name: Seq<char>, description: Seq<char>) -> PropertyText {
    PropertyText { name, kind: "string"@, description }
}

/// A tool whose arguments are the members of an object.
pub open spec fn object_tool(
    name: Seq<char>,
    description: Seq<char>,
    properties: Seq<PropertyText>,
    required: Seq<Seq<char>>,
) -> DefinitionText {
    DefinitionText {
        name,
        description,
        parameters: ParametersText { kind: "object"@, properties, required },
    }
}

/// All tools, as they are described to the model.
pub open spec fn definition_texts() -> Seq<DefinitionText> {
    seq![
        object_tool(
            "read_file"@,
            "Read a file from the current project. The path must be inside the project directory."@,
            seq![
                string_property(
                    "path"@,
                    "Path of the file to read, relative to the project root."@,
                ),
            ],
            seq!["path"@],
        ),
        object_tool(
            "write_file"@,
            "Write a file to the current project. Creates missing parent directories automatically (e.g. src/main.rs). The path must be inside the project directory."@,
            seq![
                string_property(
                    "path"@,
                    "Path of the file to write, relative to the project root."@,
                ),
                string_property(
                    "content"@,
                    "Content to write to the file."@,
                ),
            ],
            seq!["path"@, "content"@],
        ),
        object_tool(
            "search"@,
            "Search file contents within the project. Returns matching file paths, line numbers and line contents."@,
            seq![
                string_property(
                    "query"@,
                    "Substring to search for in file contents."@,
                ),
                string_property(
                    "path"@,
                    "Optional file or directory path to limit the search, relative to the project root."@,
                ),
            ],
            seq!["query"@],
        ),
        object_tool(
            "list_dir"@,
            "List the entries of a directory inside the project (non-recursive, one level only). Returns each entry name with its kind (file/directory/symlink), including hidden dotfiles. Use this to discover what files exist before reading or searching; call it again on a subdirectory to go deeper."@,
            seq![
                string_property(
                    "path"@,
                    "Directory path relative to the project root. Omit or leave empty to list the project root."@,
                ),
            ],
            seq![],
        ),
        object_tool(
            "edit_file"@,
            "Replace an exact piece of text in a file. The path must be inside the project directory."@,
            seq![
                string_property(
                    "path"@,
                    "Path of the file to edit, relative to the project root."@,
                ),
                string_property(
                    "old"@,
                    "Exact text to find. Must occur exactly once in the file."@,
                ),
                string_property(
                    "new"@,
                    "Replacement text for the matched `old`."@,
                ),
            ],
            seq!["path"@, "old"@, "new"@],
        ),
        object_tool(
            "exec"@,
            "Run an allowed project development command (cargo check/build/test/clippy/fmt --check; read-only git status/diff/log/show; plus anything explicitly allowed via KARAKURI_EXEC_ALLOW). The command runs in the project directory and inherits the current environment."@,
            seq![
                string_property(
                    "command"@,
                    "Allowed project development command, e.g. \"cargo check\" or \"cargo test\"."@,
                ),
            ],
            seq!["command"@],
        ),
    ]
}

fn string_argument(name: &'static str, description: &'static str) -> (r: ToolProperty)
    ensures
        r@ == string_property(name@, description@),
{
    ToolProperty { name, kind: "string", description }
}

fn define(
    name: &'static str,
    description: &'static str,
    properties: Vec<ToolProperty>,
    required: Vec<&'static str>,
) -> (r: ToolDefinition)
    ensures
        r@ == object_tool(
            name@,
            description@,
            properties@.map_values(|p: ToolProperty| p@),
            required@.map_values(|s: &'static str| s@),
        ),
{
    ToolDefinition {
        name,
        description,
        parameters: ToolParameters { kind: "object", properties, required },
    }
}

/// All tools, as they are described to the model.
pub fn all_definitions() -> (r: Vec<ToolDefinition>)
    ensures
        definitions(r@) == definition_texts(),
{
    let r: Vec<ToolDefinition> = vec![
        define(
            "read_file",
            "Read a file from the current project. The path must be inside the project directory.",
            vec![
                string_argument(
                    "path",
                    "Path of the file to read, relative to the project root.",
                ),
            ],
            vec!["path"],
        ),
        define(
            "write_file",
            "Write a file to the current project. Creates missing parent directories automatically (e.g. src/main.rs). The path must be inside the project directory.",
            vec![
                string_argument(
                    "path",
                    "Path of the file to write, relative to the project root.",
                ),
                string_argument(
                    "content",
                    "Content to write to the file.",
                ),
            ],
            vec!["path", "content"],
        ),
        define(
            "search",
            "Search file contents within the project. Returns matching file paths, line numbers and line contents.",
            vec![
                string_argument(
                    "query",
                    "Substring to search for in file contents.",
                ),
                string_argument(
                    "path",
                    "Optional file or directory path to limit the search, relative to the project root.",
                ),
            ],
            vec!["query"],
        ),
        define(
            "list_dir",
            "List the entries of a directory inside the project (non-recursive, one level only). Returns each entry name with its kind (file/directory/symlink), including hidden dotfiles. Use this to discover what files exist before reading or searching; call it again on a subdirectory to go deeper.",
            vec![
                string_argument(
                    "path",
                    "Directory path relative to the project root. Omit or leave empty to list the project root.",
                ),
            ],
            vec![],
        ),
        define(
            "edit_file",
            "Replace an exact piece of text in a file. The path must be inside the project directory.",
            vec![
                string_argument(
                    "path",
                    "Path of the file to edit, relative to the project root.",
                ),
                string_argument(
                    "old",
                    "Exact text to find. Must occur exactly once in the file.",
                ),
                string_argument(
                    "new",
                    "Replacement text for the matched `old`.",
                ),
            ],
            vec!["path", "old", "new"],
        ),
        define(
            "exec",
            "Run an allowed project development command (cargo check/build/test/clippy/fmt --check; read-only git status/diff/log/show; plus anything explicitly allowed via KARAKURI_EXEC_ALLOW). The command runs in the project directory and inherits the current environment.",
            vec![
                string_argument(
                    "command",
                    "Allowed project development command, e.g. \"cargo check\" or \"cargo test\".",
                ),
            ],
            vec!["command"],
        ),
    ];
    proof {
        let want = definition_texts();
        let got = definitions(r@);
        assert(got.len() == want.len());
        assert forall|i: int| 0 <= i < 6 implies got[i] == want[i] by {
            assert(got[i].parameters.properties =~= want[i].parameters.properties);
            assert(got[i].parameters.required =~= want[i].parameters.required);
        }
        assert(got =~= want);
    }
    r
}

// ---------------------------------------------------------------------------------------------
// Calls
// ---------------------------------------------------------------------------------------------

/// Reads a file.
#[derive(Debug, Clone, PartialEq, Eq)]
pub struct ReadFile {
    pub path: String,
}

/// Writes a file.
#[derive(Debug, Clone, PartialEq, Eq)]
pub struct WriteFile {
    pub path: String,
    pub content: String,
}

/// Searches the contents of files.
#[derive(Debug, Clone, PartialEq, Eq)]
pub struct Search {
    pub query: String,
    pub path: Option<String>,
}

/// Lists a directory.
#[derive(Debug, Clone, PartialEq, Eq)]
pub struct ListDir {
    pub path: Option<String>,
}

/// Replaces a piece of text in a file.
#[derive(Debug, Clone, PartialEq, Eq)]
pub struct EditFile {
    pub path: String,
    pub old: String,
    pub new: String,
}

/// Runs a command.
#[derive(Debug, Clone, PartialEq, Eq)]
pub struct Exec {
    pub command: String,
}

/// A tool with its arguments.
#[derive(Debug, Clone, PartialEq, Eq)]
pub enum Tool {
    ReadFile(ReadFile),
    WriteFile(WriteFile),
    EditFile(EditFile),
    Search(Search),
    ListDir(ListDir),
    Exec(Exec),
}

/// A [`Tool`] as the contracts see it.
pub enum ToolText {
    ReadFile { path: Seq<char> },
    WriteFile { path: Seq<char>, content: Seq<char> },
    EditFile { path: Seq<char>, old_text: Seq<char>, new_text: Seq<char> },
    Search { query: Seq<char>, path: Option<Seq<char>> },
    ListDir { path: Option<Seq<char>> },
    Exec { command: Seq<char> },
}

impl View for Tool {
    type V = ToolText;

    open spec fn view(&self) -> ToolText {
        match self {
            Tool::ReadFile(t) => ToolText::ReadFile { path: t.path@ },
            Tool::WriteFile(t) => ToolText::WriteFile { path: t.path@, content: t.content@ },
            Tool::EditFile(t) => ToolText::EditFile {
                path: t.path@,
                old_text: t.old@,
                new_text: t.new@,
            },
            Tool::Search(t) => ToolText::Search { query: t.query@, path: opt_text(t.path) },
            Tool::ListDir(t) => ToolText::ListDir { path: opt_text(t.path) },
            Tool::Exec(t) => ToolText::Exec { command: t.command@ },
        }
    }
}

/// The string members of a call's arguments that tools read. What is missing, or is no string,
/// is not there.
#[derive(Debug, Clone, PartialEq, Eq)]
pub struct ToolArguments {
    pub path: Option<String>,
    pub content: Option<String>,
    pub old: Option<String>,
    pub new: Option<String>,
    pub command: Option<String>,
    pub query: Option<String>,
}

/// A [`ToolArguments`] as the contracts see it.
pub struct ArgumentsText {
    pub path: Option<Seq<char>>,
    pub content: Option<Seq<char>>,
    pub old_text: Option<Seq<char>>,
    pub new_text: Option<Seq<char>>,
    pub command: Option<Seq<char>>,
    pub query: Option<Seq<char>>,
}

impl View for ToolArguments {
    type V = ArgumentsText;

    open spec fn view(&self) -> ArgumentsText {
        ArgumentsText {
            path: opt_text(self.path),
            content: opt_text(self.content),
            old_text: opt_text(self.old),
            new_text: opt_text(self.new),
            command: opt_text(self.command),
            query: opt_text(self.query),
        }
    }
}

/// The members that tools read of arguments in JSON.
pub open spec fn arguments_of(json: Seq<char>) -> ArgumentsText {
    ArgumentsText {
        path: json_member(json, "path"@),
        content: json_member(json, "content"@),
        old_text: json_member(json, "old"@),
        new_text: json_member(json, "new"@),
        command: json_member(json, "command"@),
        query: json_member(json, "query"@),
    }
}

/// A complaint about the arguments.
pub open spec fn bad_arguments<T>(message: Seq<char>) -> Result<T, ToolFault> {
    Err(ToolFault::InvalidArguments(message))
}

/// The tool that a call stands for, or why it stands for none.
///
/// A command is trimmed and must not be blank, a query must not be empty. The directory to list
/// is trimmed; a blank one counts as none.
pub open spec fn tool_of(name: Seq<char>, a: ArgumentsText) -> Result<ToolText, ToolFault> {
    if name == "read_file"@ {
        match a.path {
            None => bad_arguments("read_file requires a string argument `path`"@),
            Some(path) => Ok(ToolText::ReadFile { path }),
        }
    } else if name == "write_file"@ {
        match (a.path, a.content) {
            (None, _) => bad_arguments("write_file requires a string argument `path`"@),
            (_, None) => bad_arguments("write_file requires a string argument `content`"@),
            (Some(path), Some(content)) => Ok(ToolText::WriteFile { path, content }),
        }
    } else if name == "edit_file"@ {
        match (a.path, a.old_text, a.new_text) {
            (None, _, _) => bad_arguments("edit_file requires a string argument `path`"@),
            (_, None, _) => bad_arguments("edit_file requires a string argument `old`"@),
            (_, _, None) => bad_arguments("edit_file requires a string argument `new`"@),
            (Some(path), Some(old_text), Some(new_text)) => Ok(
                ToolText::EditFile { path, old_text, new_text },
            ),
        }
    } else if name == "exec"@ {
        if a.command is Some && trimmed(a.command->0).len() > 0 {
            Ok(ToolText::Exec { command: trimmed(a.command->0) })
        } else {
            bad_arguments("exec requires a non-empty string argument `command`"@)
        }
    } else if name == "search"@ {
        if a.query is Some && a.query->0.len() > 0 {
            Ok(ToolText::Search { query: a.query->0, path: a.path })
        } else {
            bad_arguments("search requires a non-empty string argument `query`"@)
        }
    } else if name == "list_dir"@ {
        if a.path is Some && trimmed(a.path->0).len() > 0 {
            Ok(ToolText::ListDir { path: Some(trimmed(a.path->0)) })
        } else {
            Ok(ToolText::ListDir { path: None })
        }
    } else {
        Err(ToolFault::UnknownTool(name))
    }
}

/// The reading of a call as the contracts see it.
pub open spec fn tool_result(r: Result<Tool, ToolError>) -> Result<ToolText, ToolFault> {
    match r {
        Ok(t) => Ok(t@),
        Err(e) => Err(e@),
    }
}

fn invalid(message: &str) -> (r: Result<Tool, ToolError>)
    ensures
        tool_result(r) == bad_arguments::<ToolText>(message@),
{
    Err(ToolError::InvalidArguments(message.to_owned()))
}

impl ToolArguments {
    /// Takes the members that tools read out of arguments in JSON.
    pub fn read(json: &str) -> (r: ToolArguments)
        ensures
            r@ == arguments_of(json@),
    {
        ToolArguments {
            path: string_member(json, "path"),
            content: string_member(json, "content"),
            old: string_member(json, "old"),
            new: string_member(json, "new"),
            command: string_member(json, "command"),
            query: string_member(json, "query"),
        }
    }
}

impl Tool {
    /// Reads a tool call: the tool's name and its arguments in JSON.
    pub fn from_call(name: &str, arguments: &str) -> (r: Result<Tool, ToolError>)
        ensures
            tool_result(r) == tool_of(name@, arguments_of(arguments@)),
    {
        Tool::from_arguments(name, ToolArguments::read(arguments))
    }

    /// Reads a tool call whose arguments have been taken out of their JSON.
    pub fn from_arguments(name: &str, arguments: ToolArguments) -> (r: Result<Tool, ToolError>)
        ensures
            tool_result(r) == tool_of(name@, arguments@),
    {
        if same(name, "read_file") {
            match arguments.path {
                None => invalid("read_file requires a string argument `path`"),
                Some(path) => Ok(Tool::ReadFile(ReadFile { path })),
            }
        } else if same(name, "write_file") {
            match (arguments.path, arguments.content) {
                (None, _) => invalid("write_file requires a string argument `path`"),
                (_, None) => invalid("write_file requires a string argument `content`"),
                (Some(path), Some(content)) => Ok(Tool::WriteFile(WriteFile { path, content })),
            }
        } else if same(name, "edit_file") {
            match (arguments.path, arguments.old, arguments.new) {
                (None, _, _) => invalid("edit_file requires a string argument `path`"),
                (_, None, _) => invalid("edit_file requires a string argument `old`"),
                (_, _, None) => invalid("edit_file requires a string argument `new`"),
                (Some(path), Some(old), Some(new)) => Ok(
                    Tool::EditFile(EditFile { path, old, new }),
                ),
            }
        } else if same(name, "exec") {
            let complaint = "exec requires a non-empty string argument `command`";
            match arguments.command {
                None => invalid(complaint),
                Some(command) => {
                    let command = trim(command.as_str());
                    if command.as_str().is_empty() {
                        invalid(complaint)
                    } else {
                        Ok(Tool::Exec(Exec { command }))
                    }
                },
            }
        } else if same(name, "search") {
            let complaint = "search requires a non-empty string argument `query`";
            match arguments.query {
                None => invalid(complaint),
                Some(query) => if query.as_str().is_empty() {
                    invalid(complaint)
                } else {
                    Ok(Tool::Search(Search { query, path: arguments.path }))
                },
            }
        } else if same(name, "list_dir") {
            match arguments.path {
                None => Ok(Tool::ListDir(ListDir { path: None })),
                Some(path) => {
                    let path = trim(path.as_str());
                    if path.as_str().is_empty() {
                        Ok(Tool::ListDir(ListDir { path: None }))
                    } else {
                        Ok(Tool::ListDir(ListDir { path: Some(path) }))
                    }
                },
            }
        } else {
            Err(ToolError::UnknownTool(name.to_owned()))
        }
    }
}

// ---------------------------------------------------------------------------------------------
// Laws
// ---------------------------------------------------------------------------------------------

/// The tools that can be called are exactly those that are described to the model.
pub proof fn law_described_tools_are_known(name: Seq<char>, a: ArgumentsText)
    ensures
        tool_of(name, a) == Err::<ToolText, ToolFault>(ToolFault::UnknownTool(name)) <==> forall|
            i: int,
        |
            0 <= i < definition_texts().len() ==> (#[trigger] definition_texts()[i]).name != name,
{
    let defs = definition_texts();
    assert(defs[0].name == "read_file"@);
    assert(defs[1].name == "write_file"@);
    assert(defs[2].name == "search"@);
    assert(defs[3].name == "list_dir"@);
    assert(defs[4].name == "edit_file"@);
    assert(defs[5].name == "exec"@);
}

/// Arguments with the same string members make the same tool: how they are written down does
/// not matter.
pub proof fn law_same_members_make_the_same_tool(name: Seq<char>, a: Seq<char>, b: Seq<char>)
    requires
        same_members(a, b),
    ensures
        tool_of(name, arguments_of(a)) == tool_of(name, arguments_of(b)),
{
}

/// The member of the arguments that a description calls by the given name.
pub open spec fn argument(a: ArgumentsText, name: Seq<char>) -> Option<Seq<char>> {
    if name == "path"@ {
        a.path
    } else if name == "content"@ {
        a.content
    } else if name == "old"@ {
        a.old_text
    } else if name == "new"@ {
        a.new_text
    } else if name == "command"@ {
        a.command
    } else if name == "query"@ {
        a.query
    } else {
        None
    }
}

/// A call with every argument that the tool's description requires is accepted, as long as a
/// command is not blank and a query not empty; no other argument has to be there.
pub proof fn law_required_arguments_suffice(i: int, a: ArgumentsText)
    requires
        0 <= i < definition_texts().len(),
        forall|k: int|
            0 <= k < definition_texts()[i].parameters.required.len() ==> {
                let name = #[trigger] definition_texts()[i].parameters.required[k];
                let given = argument(a, name);
                &&& given is Some
                &&& name == "command"@ ==> trimmed(given->0).len() > 0
                &&& name == "query"@ ==> given->0.len() > 0
            },
    ensures
        tool_of(definition_texts()[i].name, a) is Ok,
{
    let d = definition_texts()[i];
    let required = d.parameters.required;
    lemma_argument_names();
    lemma_tool_names();
    if i == 0 {
        assert(required[0] == "path"@);
    } else if i == 1 {
        assert(required[0] == "path"@ && required[1] == "content"@);
    } else if i == 2 {
        assert(required[0] == "query"@);
    } else if i == 4 {
        assert(required[0] == "path"@ && required[1] == "old"@ && required[2] == "new"@);
    } else if i == 5 {
        assert(required[0] == "command"@);
    }
}

proof fn lemma_argument_names()
    ensures
        "path"@ != "content"@,
        "path"@ != "old"@,
        "path"@ != "new"@,
        "path"@ != "command"@,
        "path"@ != "query"@,
        "content"@ != "old"@,
        "content"@ != "new"@,
        "content"@ != "command"@,
        "content"@ != "query"@,
        "old"@ != "new"@,
        "old"@ != "command"@,
        "old"@ != "query"@,
        "new"@ != "command"@,
        "new"@ != "query"@,
        "command"@ != "query"@,
{
    reveal_strlit("path");
    reveal_strlit("content");
    reveal_strlit("old");
    reveal_strlit("new");
    reveal_strlit("command");
    reveal_strlit("query");
    assert("path"@[0] == 'p' && "content"@[0] == 'c' && "old"@[0] == 'o' && "new"@[0] == 'n'
        && "command"@[0] == 'c' && "query"@[0] == 'q');
    assert("content"@[2] == 'n' && "command"@[2] == 'm');
}

/// No two tools have the same name.
pub proof fn lemma_tool_names()
    ensures
        "read_file"@ != "write_file"@,
        "read_file"@ != "edit_file"@,
        "read_file"@ != "exec"@,
        "read_file"@ != "search"@,
        "read_file"@ != "list_dir"@,
        "write_file"@ != "edit_file"@,
        "write_file"@ != "exec"@,
        "write_file"@ != "search"@,
        "write_file"@ != "list_dir"@,
        "edit_file"@ != "exec"@,
        "edit_file"@ != "search"@,
        "edit_file"@ != "list_dir"@,
        "exec"@ != "search"@,
        "exec"@ != "list_dir"@,
        "search"@ != "list_dir"@,
{
    reveal_strlit("read_file");
    reveal_strlit("write_file");
    reveal_strlit("edit_file");
    reveal_strlit("exec");
    reveal_strlit("search");
    reveal_strlit("list_dir");
    assert("read_file"@[0] == 'r' && "write_file"@[0] == 'w' && "edit_file"@[0] == 'e' && "exec"@[0]
        == 'e' && "search"@[0] == 's' && "list_dir"@[0] == 'l');
    assert("edit_file"@[1] == 'd' && "exec"@[1] == 'x');
}

/// A call is made into the tool of its name with the arguments as they were given. Only a command
/// and the path of a directory lose the white space around them, and only a blank path counts as
/// none. Reading, writing and editing take any text, the empty one among it.
pub proof fn law_tools_keep_their_arguments(name: Seq<char>, a: ArgumentsText)
    ensures
        name == "read_file"@ ==> (tool_of(name, a) is Ok <==> a.path is Some),
        name == "read_file"@ && tool_of(name, a) is Ok ==> tool_of(name, a)->Ok_0
            == (ToolText::ReadFile { path: a.path->0 }),
        name == "write_file"@ ==> (tool_of(name, a) is Ok <==> a.path is Some && a.content is Some),
        name == "write_file"@ && tool_of(name, a) is Ok ==> tool_of(name, a)->Ok_0
            == (ToolText::WriteFile { path: a.path->0, content: a.content->0 }),
        name == "edit_file"@ ==> (tool_of(name, a) is Ok <==> a.path is Some && a.old_text is Some
            && a.new_text is Some),
        name == "edit_file"@ && tool_of(name, a) is Ok ==> tool_of(name, a)->Ok_0
            == (ToolText::EditFile {
            path: a.path->0,
            old_text: a.old_text->0,
            new_text: a.new_text->0,
        }),
        name == "search"@ ==> (tool_of(name, a) is Ok <==> a.query is Some && a.query->0.len() > 0),
        name == "search"@ && tool_of(name, a) is Ok ==> tool_of(name, a)->Ok_0
            == (ToolText::Search { query: a.query->0, path: a.path }),
        name == "exec"@ ==> (tool_of(name, a) is Ok <==> a.command is Some && !all_blank(
            a.command->0,
        )),
        name == "exec"@ && tool_of(name, a) is Ok ==> tool_of(name, a)->Ok_0 == (ToolText::Exec {
            command: trimmed(a.command->0),
        }),
        name == "list_dir"@ ==> tool_of(name, a) == Ok::<ToolText, ToolFault>(
            ToolText::ListDir {
                path: if a.path is Some && !all_blank(a.path->0) {
                    Some(trimmed(a.path->0))
                } else {
                    None
                },
            },
        ),
        tool_of(name, a) matches Err(e) ==> e is InvalidArguments || e == ToolFault::UnknownTool(
            name,
        ),
{
    lemma_tool_names();
    if a.command is Some {
        lemma_blank_trims_to_nothing(a.command->0);
    }
    if a.path is Some {
        lemma_blank_trims_to_nothing(a.path->0);
    }
}

proof fn lemma_blank_trims_to_nothing(s: Seq<char>)
    ensures
        trimmed(s).len() == 0 <==> all_blank(s),
{
    let none = Seq::<char>::empty();
    if all_blank(s) {
        law_trimming(s, none, none);
        assert(s + none + none =~= s);
    }
    if trimmed(s).len() == 0 {
        lemma_trimmed_split(s);
        let (a, b): (Seq<char>, Seq<char>) = choose|a: Seq<char>, b: Seq<char>|
            all_blank(a) && all_blank(b) && s == #[trigger] (a + trimmed(s) + b);
        assert forall|i: int| 0 <= i < s.len() implies white_space(#[trigger] s[i]) by {
            if i < a.len() {
                assert(s[i] == a[i]);
            } else {
                assert(s[i] == b[i - a.len()]);
            }
        }
    }
}

/// Each argument is the member of the JSON text that has its name.
pub proof fn law_arguments_go_by_name(json: Seq<char>, name: Seq<char>)
    ensures
        arguments_of(json).path == json_member(json, "path"@),
        arguments_of(json).content == json_member(json, "content"@),
        arguments_of(json).old_text == json_member(json, "old"@),
        arguments_of(json).new_text == json_member(json, "new"@),
        arguments_of(json).command == json_member(json, "command"@),
        arguments_of(json).query == json_member(json, "query"@),
        argument(arguments_of(json), name) is Some ==> argument(arguments_of(json), name)
            == json_member(json, name),
{
}

/// Only the arguments that a tool's description names count: two calls that agree on those are
/// the same call.
pub proof fn law_only_described_arguments_count(i: int, a: ArgumentsText, b: ArgumentsText)
    requires
        0 <= i < definition_texts().len(),
        forall|k: int|
            0 <= k < definition_texts()[i].parameters.properties.len() ==> argument(
                a,
                (#[trigger] definition_texts()[i].parameters.properties[k]).name,
            ) == argument(b, definition_texts()[i].parameters.properties[k].name),
    ensures
        tool_of(definition_texts()[i].name, a) == tool_of(definition_texts()[i].name, b),
{
    let d = definition_texts()[i];
    let named = d.parameters.properties;
    lemma_argument_names();
    lemma_tool_names();
    if i == 0 {
        assert(named[0].name == "path"@);
    } else if i == 1 {
        assert(named[0].name == "path"@ && named[1].name == "content"@);
    } else if i == 2 {
        assert(named[0].name == "query"@ && named[1].name == "path"@);
    } else if i == 3 {
        assert(named[0].name == "path"@);
    } else if i == 4 {
        assert(named[0].name == "path"@ && named[1].name == "old"@ && named[2].name == "new"@);
    } else {
        assert(named[0].name == "command"@);
    }
}

/// A description is an object of strings, and requires only arguments that it names.
pub proof fn law_descriptions_are_whole(i: int)
    requires
        0 <= i < definition_texts().len(),
    ensures
        definition_texts()[i].parameters.kind == "object"@,
        forall|k: int|
            0 <= k < definition_texts()[i].parameters.properties.len() ==> (
            #[trigger] definition_texts()[i].parameters.properties[k]).kind == "string"@,
        forall|k: int|
            0 <= k < definition_texts()[i].parameters.required.len() ==> names_property(
                definition_texts()[i].parameters.properties,
                #[trigger] definition_texts()[i].parameters.required[k],
            ),
{
    let d = definition_texts()[i];
    let named = d.parameters.properties;
    let required = d.parameters.required;
    if i == 0 {
        assert(named[0].name == "path"@ && required[0] == "path"@);
    } else if i == 1 {
        assert(named[0].name == "path"@ && named[1].name == "content"@);
        assert(required[0] == "path"@ && required[1] == "content"@);
    } else if i == 2 {
        assert(named[0].name == "query"@ && required[0] == "query"@);
    } else if i == 4 {
        assert(named[0].name == "path"@ && named[1].name == "old"@ && named[2].name == "new"@);
        assert(required[0] == "path"@ && required[1] == "old"@ && required[2] == "new"@);
    } else if i == 5 {
        assert(named[0].name == "command"@ && required[0] == "command"@);
    }
}

/// Whether one of the properties has the name.
pub open spec fn names_property(properties: Seq<PropertyText>, name: Seq<char>) -> bool {
    exists|k: int| 0 <= k < properties.len() && (#[trigger] properties[k]).name == name
}

/// Where an argument is missing the complaint names the tool and the argument, and of several the
/// first that the tool needs.
pub proof fn law_complaints_name_the_argument(a: ArgumentsText)
    ensures
        a.path is None ==> tool_of("read_file"@, a) == Err::<ToolText, ToolFault>(
            ToolFault::InvalidArguments("read_file requires a string argument `path`"@),
        ),
        a.path is None ==> tool_of("write_file"@, a) == Err::<ToolText, ToolFault>(
            ToolFault::InvalidArguments("write_file requires a string argument `path`"@),
        ),
        a.path is Some && a.content is None ==> tool_of("write_file"@, a) == Err::<
            ToolText,
            ToolFault,
        >(ToolFault::InvalidArguments("write_file requires a string argument `content`"@)),
        a.path is None ==> tool_of("edit_file"@, a) == Err::<ToolText, ToolFault>(
            ToolFault::InvalidArguments("edit_file requires a string argument `path`"@),
        ),
        a.path is Some && a.old_text is None ==> tool_of("edit_file"@, a) == Err::<
            ToolText,
            ToolFault,
        >(ToolFault::InvalidArguments("edit_file requires a string argument `old`"@)),
        a.path is Some && a.old_text is Some && a.new_text is None ==> tool_of("edit_file"@, a)
            == Err::<ToolText, ToolFault>(
            ToolFault::InvalidArguments("edit_file requires a string argument `new`"@),
        ),
        a.command is None ==> tool_of("exec"@, a) == Err::<ToolText, ToolFault>(
            ToolFault::InvalidArguments("exec requires a non-empty string argument `command`"@),
        ),
        a.query is None || a.query->0.len() == 0 ==> tool_of("search"@, a) == Err::<
            ToolText,
            ToolFault,
        >(ToolFault::InvalidArguments("search requires a non-empty string argument `query`"@)),
{
    lemma_tool_names();
}

} // verus!
