//! How a tool runs, step by step.
//!
//! A [`ToolRun`] says which operation on files or processes it needs next; the program around
//! this library performs it and hands the outcome back, until the tool has finished. Paths of a
//! tool lie in the project: absolute paths, `..`, and symbolic links that lead out of it are
//! refused, whether there is something at the end of the link or not.

use vstd::prelude::*;

use crate::error::{IoError, IoErrorKind, IoFault, ToolError, ToolFault};
use crate::exec::{
    command_rule, patterns, CommandText, ExecCommand, ExecPolicy, PatternText,
};
use crate::listing::{
    directory_text, file_matches, search_file, search_text, show_directory, show_matches,
};
use crate::number::{dec, dec_i32, dec_int, dec_usize};
use crate::path::{
    absolute, climbs, components, file_name, has_parent_dir, inside, is_absolute, is_inside,
    join_path, last_component, law_join_adds_components, law_joined_name, law_parent_has_the_rest,
    lemma_single_name, parent, path_join, path_name, path_parent,
};
use crate::runtime::{
    entries, exec_reply, EntryKind, EntryText, ExecError, ExecFault, ExecOutput, OutputText,
    Runtime, RuntimeEntry,
};
use crate::text::{
    cat2, cat3, chars_of, count_matches, find_from, first_match, law_contains, law_match_count,
    lemma_first_match, lemma_texts_push, match_count, occurs_at, opt_text, same, string_between,
    texts,
};
use crate::tool::{Tool, ToolText};

verus! {

// ---------------------------------------------------------------------------------------------
// Operations and their outcomes
// ---------------------------------------------------------------------------------------------

/// What stands under a path.
#[derive(Debug, Clone, Copy, PartialEq, Eq, Structural)]
pub enum PathKind {
    File,
    Dir,
    Neither,
}

/// What a tool needs next.
#[derive(Debug)]
pub enum Action {
    /// The path free of symbolic links and dots.
    Canonicalize(String),
    /// What stands under the path.
    Kind(String),
    /// Where the path leads, if it is a symbolic link itself.
    ReadLink(String),
    /// The text of a file.
    ReadFile(String),
    /// A file with the given text.
    WriteFile(String, String),
    /// The entries of a directory.
    ReadDir(String),
    /// A command, run in the project.
    Exec(ExecCommand),
    /// Nothing more: this is the result.
    Finish(Result<String, ToolError>),
}

/// An [`Action`] as the contracts see it.
pub enum ActionText {
    Canonicalize(Seq<char>),
    Kind(Seq<char>),
    ReadLink(Seq<char>),
    ReadFile(Seq<char>),
    WriteFile(Seq<char>, Seq<char>),
    ReadDir(Seq<char>),
    Exec(CommandText),
    Finish(Result<Seq<char>, ToolFault>),
}

/// A result as the contracts see it.
pub open spec fn outcome_text(r: Result<String, ToolError>) -> Result<Seq<char>, ToolFault> {
    match r {
        Ok(s) => Ok(s@),
        Err(e) => Err(e@),
    }
}

impl View for Action {
    type V = ActionText;

    open spec fn view(&self) -> ActionText {
        match self {
            Action::Canonicalize(p) => ActionText::Canonicalize(p@),
            Action::Kind(p) => ActionText::Kind(p@),
            Action::ReadLink(p) => ActionText::ReadLink(p@),
            Action::ReadFile(p) => ActionText::ReadFile(p@),
            Action::WriteFile(p, s) => ActionText::WriteFile(p@, s@),
            Action::ReadDir(p) => ActionText::ReadDir(p@),
            Action::Exec(c) => ActionText::Exec(c@),
            Action::Finish(r) => ActionText::Finish(outcome_text(*r)),
        }
    }
}

/// What came of an operation.
#[derive(Debug)]
pub enum Event {
    Canonical(Result<String, IoError>),
    Kind(PathKind),
    /// The target of a link; nothing where the path is no link, or nothing is there.
    Link(Result<Option<String>, IoError>),
    Content(Result<String, IoError>),
    Written(Result<(), IoError>),
    Entries(Result<Vec<RuntimeEntry>, IoError>),
    Output(Result<ExecOutput, ExecError>),
}

/// An [`Event`] as the contracts see it.
pub enum EventText {
    Canonical(Result<Seq<char>, IoFault>),
    Kind(PathKind),
    Link(Result<Option<Seq<char>>, IoFault>),
    Content(Result<Seq<char>, IoFault>),
    Written(Result<(), IoFault>),
    Entries(Result<Seq<EntryText>, IoFault>),
    Output(Result<OutputText, ExecFault>),
}

/// A text or a failure, as the contracts see it.
pub open spec fn io_text(r: Result<String, IoError>) -> Result<Seq<char>, IoFault> {
    match r {
        Ok(s) => Ok(s@),
        Err(e) => Err(e@),
    }
}

/// The target of a link or a failure, as the contracts see it.
pub open spec fn link_text(r: Result<Option<String>, IoError>) -> Result<
    Option<Seq<char>>,
    IoFault,
> {
    match r {
        Ok(target) => Ok(opt_text(target)),
        Err(e) => Err(e@),
    }
}

impl View for Event {
    type V = EventText;

    open spec fn view(&self) -> EventText {
        match self {
            Event::Canonical(r) => EventText::Canonical(io_text(*r)),
            Event::Kind(k) => EventText::Kind(*k),
            Event::Link(r) => EventText::Link(link_text(*r)),
            Event::Content(r) => EventText::Content(io_text(*r)),
            Event::Written(r) => EventText::Written(
                match r {
                    Ok(_) => Ok(()),
                    Err(e) => Err(e@),
                },
            ),
            Event::Entries(r) => EventText::Entries(
                match r {
                    Ok(v) => Ok(entries(v@)),
                    Err(e) => Err(e@),
                },
            ),
            Event::Output(r) => EventText::Output(exec_reply(*r)),
        }
    }
}

// ---------------------------------------------------------------------------------------------
// The stages of a run
// ---------------------------------------------------------------------------------------------

/// How many symbolic links that lead nowhere are followed, one from the other, before a path is
/// given up.
pub const MAX_LINKS: usize = 40;

/// Where a run stands.
#[derive(Debug)]
pub enum Stage {
    /// A search looks for the project.
    SearchRoot,
    /// The project at `base` is looked for; `outer` is the project that a search reports paths
    /// in.
    ResolveRoot { base: String, outer: String },
    /// The path is looked for in the project.
    ResolveFull { outer: String, project: String },
    /// The path does not exist yet; the nearest directory above it that does is looked for.
    /// `tail` holds the names below `existing`, from the last to the first.
    Climb { project: String, existing: String, tail: Vec<String> },
    /// `file` is to be made. On the way to it `at` is looked at, and then each name of `tail`
    /// below it, from the last to the first: a link among them may lead out of the project. So
    /// many `links` may still be followed.
    Check { project: String, file: String, at: String, tail: Vec<String>, links: usize },
    /// There is a link to nothing on the way to `file`; the nearest directory above where it
    /// leads is looked for. `tail` holds the components below `existing`, from the last to the
    /// first.
    Follow { project: String, file: String, existing: String, tail: Vec<String>, links: usize },
    Read { file: String },
    Write { file: String, content: String },
    List { dir: String },
    /// A search looks at what it is to start from.
    Start { outer: String, start: String },
    /// A search reads a directory; `pending` is still to be searched, the last entry first, and
    /// `found` was found.
    WalkDir { outer: String, dir: String, pending: Vec<RuntimeEntry>, found: Vec<String> },
    /// A search reads a file.
    WalkFile { outer: String, file: String, pending: Vec<RuntimeEntry>, found: Vec<String> },
    Exec { command: ExecCommand },
    Done { result: Result<String, ToolError> },
}

/// A [`Stage`] as the contracts see it.
pub enum StageText {
    SearchRoot,
    ResolveRoot { base: Seq<char>, outer: Seq<char> },
    ResolveFull { outer: Seq<char>, project: Seq<char> },
    Climb { project: Seq<char>, existing: Seq<char>, tail: Seq<Seq<char>> },
    Check {
        project: Seq<char>,
        file: Seq<char>,
        at: Seq<char>,
        tail: Seq<Seq<char>>,
        links: nat,
    },
    Follow {
        project: Seq<char>,
        file: Seq<char>,
        existing: Seq<char>,
        tail: Seq<Seq<char>>,
        links: nat,
    },
    Read { file: Seq<char> },
    Write { file: Seq<char>, content: Seq<char> },
    List { dir: Seq<char> },
    Start { outer: Seq<char>, start: Seq<char> },
    WalkDir {
        outer: Seq<char>,
        dir: Seq<char>,
        pending: Seq<EntryText>,
        found: Seq<Seq<char>>,
    },
    WalkFile {
        outer: Seq<char>,
        file: Seq<char>,
        pending: Seq<EntryText>,
        found: Seq<Seq<char>>,
    },
    Exec { command: CommandText },
    Done { result: Result<Seq<char>, ToolFault> },
}

impl View for Stage {
    type V = StageText;

    open spec fn view(&self) -> StageText {
        match self {
            Stage::SearchRoot => StageText::SearchRoot,
            Stage::ResolveRoot { base, outer } => StageText::ResolveRoot {
                base: base@,
                outer: outer@,
            },
            Stage::ResolveFull { outer, project } => StageText::ResolveFull {
                outer: outer@,
                project: project@,
            },
            Stage::Climb { project, existing, tail } => StageText::Climb {
                project: project@,
                existing: existing@,
                tail: texts(tail@),
            },
            Stage::Check { project, file, at, tail, links } => StageText::Check {
                project: project@,
                file: file@,
                at: at@,
                tail: texts(tail@),
                links: *links as nat,
            },
            Stage::Follow { project, file, existing, tail, links } => StageText::Follow {
                project: project@,
                file: file@,
                existing: existing@,
                tail: texts(tail@),
                links: *links as nat,
            },
            Stage::Read { file } => StageText::Read { file: file@ },
            Stage::Write { file, content } => StageText::Write {
                file: file@,
                content: content@,
            },
            Stage::List { dir } => StageText::List { dir: dir@ },
            Stage::Start { outer, start } => StageText::Start { outer: outer@, start: start@ },
            Stage::WalkDir { outer, dir, pending, found } => StageText::WalkDir {
                outer: outer@,
                dir: dir@,
                pending: entries(pending@).reverse(),
                found: texts(found@),
            },
            Stage::WalkFile { outer, file, pending, found } => StageText::WalkFile {
                outer: outer@,
                file: file@,
                pending: entries(pending@).reverse(),
                found: texts(found@),
            },
            Stage::Exec { command } => StageText::Exec { command: command@ },
            Stage::Done { result } => StageText::Done { result: outcome_text(*result) },
        }
    }
}

/// A stage that has finished with an error.
pub open spec fn fails(fault: ToolFault) -> StageText {
    StageText::Done { result: Err(fault) }
}

/// The path that a tool was given, as it is looked for in the project.
pub open spec fn path_given(tool: ToolText) -> Seq<char> {
    match tool {
        ToolText::ReadFile { path } => path,
        ToolText::WriteFile { path, content } => path,
        ToolText::EditFile { path, old_text, new_text } => path,
        ToolText::Search { query, path } => match path {
            Some(p) => p,
            None => "."@,
        },
        ToolText::ListDir { path } => match path {
            Some(p) => p,
            None => "."@,
        },
        ToolText::Exec { command } => seq![],
    }
}

/// Whether a path may be looked for in the project at all.
pub open spec fn stays_below(path: Seq<char>) -> bool {
    !absolute(path) && !climbs(path)
}

/// The stage in which a tool's path is looked for.
pub open spec fn resolving(tool: ToolText, base: Seq<char>, outer: Seq<char>) -> StageText {
    if stays_below(path_given(tool)) {
        StageText::ResolveRoot { base, outer }
    } else {
        fails(ToolFault::OutsideProject(path_given(tool)))
    }
}

/// The first stage of a tool in the project at `root`, with an allow list for commands.
pub open spec fn first_stage(tool: ToolText, root: Seq<char>, extra: Seq<PatternText>) -> StageText {
    match tool {
        ToolText::Exec { command } => match command_rule(command, extra) {
            Ok(c) => StageText::Exec { command: c },
            Err(text) => fails(ToolFault::CommandNotAllowed(text)),
        },
        ToolText::Search { query, path } => StageText::SearchRoot,
        ToolText::EditFile { path, old_text, new_text } => if old_text.len() == 0 {
            fails(ToolFault::InvalidArguments("edit_file requires a non-empty `old`"@))
        } else {
            resolving(tool, root, seq![])
        },
        _ => resolving(tool, root, seq![]),
    }
}

/// `base` with the names of `tail` below it, the last one first.
pub open spec fn joined_back(base: Seq<char>, tail: Seq<Seq<char>>) -> Seq<char>
    decreases tail.len(),
{
    if tail.len() == 0 {
        base
    } else {
        joined_back(path_join(base, tail.last()), tail.drop_last())
    }
}

/// One component further: `..` leads up, any other name down.
pub open spec fn stepped(at: Seq<char>, name: Seq<char>) -> Seq<char> {
    if name == seq!['.', '.'] {
        match path_parent(at) {
            Some(above) => above,
            None => at,
        }
    } else {
        path_join(at, name)
    }
}

/// Where the components of `tail` lead from `at`, the last one first.
pub open spec fn stepped_back(at: Seq<char>, tail: Seq<Seq<char>>) -> Seq<char>
    decreases tail.len(),
{
    if tail.len() == 0 {
        at
    } else {
        stepped_back(stepped(at, tail.last()), tail.drop_last())
    }
}

/// Where a link leads that stands at `at`.
pub open spec fn link_end(at: Seq<char>, target: Seq<char>) -> Seq<char> {
    match path_parent(at) {
        Some(above) => path_join(above, target),
        None => path_join(at, target),
    }
}

/// The stage in which the way to `file` is looked at, from below `at` down the components of
/// `tail`; where there are none, the file may be used.
pub open spec fn checking(
    tool: ToolText,
    project: Seq<char>,
    file: Seq<char>,
    at: Seq<char>,
    tail: Seq<Seq<char>>,
    links: nat,
) -> StageText {
    if tail.len() == 0 {
        reached(tool, seq![], file)
    } else {
        StageText::Check {
            project,
            file,
            at: stepped(at, tail.last()),
            tail: tail.drop_last(),
            links,
        }
    }
}

/// The stage of a tool whose path has been found.
pub open spec fn reached(tool: ToolText, outer: Seq<char>, file: Seq<char>) -> StageText {
    match tool {
        ToolText::WriteFile { path, content } => StageText::Write { file, content },
        ToolText::ListDir { path } => StageText::List { dir: file },
        ToolText::Search { query, path } => StageText::Start { outer, start: file },
        _ => StageText::Read { file },
    }
}

/// What a search does next.
pub open spec fn walking(
    query: Seq<char>,
    outer: Seq<char>,
    pending: Seq<EntryText>,
    found: Seq<Seq<char>>,
) -> StageText
    decreases pending.len(),
{
    if pending.len() == 0 {
        StageText::Done { result: Ok(search_text(query, found)) }
    } else {
        let e = pending[0];
        let rest = pending.skip(1);
        match e.kind {
            EntryKind::Dir => StageText::WalkDir { outer, dir: e.path, pending: rest, found },
            EntryKind::File => StageText::WalkFile { outer, file: e.path, pending: rest, found },
            _ => walking(query, outer, rest, found),
        }
    }
}

/// A text with its first occurrence of `old_text` replaced.
pub open spec fn replaced_once(
    text: Seq<char>,
    old_text: Seq<char>,
    new_text: Seq<char>,
) -> Seq<char> {
    match first_match(text, old_text, 0) {
        Some(i) => text.take(i) + new_text + text.skip(i + old_text.len()),
        None => text,
    }
}

/// What `edit_file` does with the text of the file: the old text has to occur exactly once.
pub open spec fn edited(
    path: Seq<char>,
    old_text: Seq<char>,
    new_text: Seq<char>,
    text: Seq<char>,
) -> Result<Seq<char>, ToolFault> {
    let n = match_count(text, old_text);
    if n == 0 {
        Err(ToolFault::OldTextNotFound(path))
    } else if n == 1 {
        Ok(replaced_once(text, old_text, new_text))
    } else {
        Err(ToolFault::MultipleMatches(path))
    }
}

/// The query of a search.
pub open spec fn query_of(tool: ToolText) -> Seq<char> {
    match tool {
        ToolText::Search { query, path } => query,
        _ => seq![],
    }
}

/// What a file that was read leads to.
pub open spec fn after_read(
    tool: ToolText,
    file: Seq<char>,
    content: Result<Seq<char>, IoFault>,
) -> StageText {
    match tool {
        ToolText::EditFile { path, old_text, new_text } => match content {
            Ok(text) => match edited(path, old_text, new_text, text) {
                Ok(changed) => StageText::Write { file, content: changed },
                Err(fault) => fails(fault),
            },
            Err(e) => if e.kind == IoErrorKind::InvalidData {
                fails(ToolFault::InvalidArguments(path + " is not a valid UTF-8 text file"@))
            } else {
                fails(ToolFault::Io(e))
            },
        },
        _ => match content {
            Ok(text) => StageText::Done { result: Ok(text) },
            Err(e) => fails(ToolFault::Io(e)),
        },
    }
}

/// What is said of a file that was written.
pub open spec fn written_text(tool: ToolText) -> Seq<char> {
    match tool {
        ToolText::WriteFile { path, content } => "wrote "@ + dec(
            vstd::utf8::encode_utf8(content).len(),
        ) + " bytes to "@ + path,
        _ => "edited "@ + path_given(tool) + " successfully"@,
    }
}

/// What is made of the output of a command.
pub open spec fn exec_outcome(reply: Result<OutputText, ExecFault>) -> Result<
    Seq<char>,
    ToolFault,
> {
    match reply {
        Ok(o) => if o.code == 0 {
            Ok("exit code: "@ + dec_int(0) + "\n\nstdout:\n"@ + o.output + "\nstderr:\n"@)
        } else {
            Err(ToolFault::NonZeroExit(o.code, o.output))
        },
        Err(ExecFault::Io(e)) => Err(ToolFault::Io(e)),
        Err(ExecFault::TimedOut(output)) => Err(ToolFault::TimedOut(output)),
    }
}

/// The stage after an operation. An event that does not belong to the operation changes nothing.
pub open spec fn next_stage(tool: ToolText, stage: StageText, event: EventText) -> StageText {
    let path = path_given(tool);
    match (stage, event) {
        (StageText::SearchRoot, EventText::Canonical(r)) => match r {
            Err(e) => fails(ToolFault::Io(e)),
            Ok(project) => match tool {
                ToolText::Search { query, path: Some(p) } => resolving(tool, project, project),
                _ => StageText::Start { outer: project, start: project },
            },
        },
        (StageText::ResolveRoot { base, outer }, EventText::Canonical(r)) => match r {
            Err(e) => fails(ToolFault::Io(e)),
            Ok(project) => StageText::ResolveFull { outer, project },
        },
        (StageText::ResolveFull { outer, project }, EventText::Canonical(r)) => match r {
            Ok(file) => if inside(file, project) {
                reached(tool, outer, file)
            } else {
                fails(ToolFault::OutsideProject(path))
            },
            Err(e) => if e.kind != IoErrorKind::NotFound {
                fails(ToolFault::Io(e))
            } else if tool is WriteFile {
                StageText::Climb { project, existing: path_join(project, path), tail: seq![] }
            } else {
                fails(ToolFault::NotFound(path))
            },
        },
        (StageText::Climb { project, existing, tail }, EventText::Canonical(r)) => match r {
            Ok(dir) => if inside(dir, project) {
                checking(tool, project, joined_back(dir, tail), dir, tail, MAX_LINKS as nat)
            } else {
                fails(ToolFault::OutsideProject(path))
            },
            Err(e) => match (path_name(existing), path_parent(existing)) {
                (Some(name), Some(above)) => if e.kind == IoErrorKind::NotFound {
                    StageText::Climb { project, existing: above, tail: tail.push(name) }
                } else {
                    fails(ToolFault::Io(e))
                },
                _ => fails(ToolFault::Io(e)),
            },
        },
        (StageText::Check { project, file, at, tail, links }, EventText::Link(r)) => match r {
            Ok(Some(target)) => if links == 0 {
                fails(ToolFault::OutsideProject(path))
            } else {
                StageText::Follow {
                    project,
                    file,
                    existing: link_end(at, target),
                    tail: seq![],
                    links: (links - 1) as nat,
                }
            },
            _ => checking(tool, project, file, at, tail, links),
        },
        (
            StageText::Follow { project, file, existing, tail, links },
            EventText::Canonical(r),
        ) => match r {
            Ok(dir) => if inside(stepped_back(dir, tail), project) {
                checking(tool, project, file, dir, tail, links)
            } else {
                fails(ToolFault::OutsideProject(path))
            },
            Err(_) => match path_parent(existing) {
                Some(above) => StageText::Follow {
                    project,
                    file,
                    existing: above,
                    tail: tail.push(components(existing).last()),
                    links,
                },
                None => reached(tool, seq![], file),
            },
        },
        (StageText::Read { file }, EventText::Content(r)) => after_read(tool, file, r),
        (StageText::Write { file, content }, EventText::Written(r)) => match r {
            Ok(_) => StageText::Done { result: Ok(written_text(tool)) },
            Err(e) => fails(ToolFault::Io(e)),
        },
        (StageText::List { dir }, EventText::Entries(r)) => match r {
            Ok(list) => StageText::Done { result: Ok(directory_text(list)) },
            Err(e) => fails(ToolFault::Io(e)),
        },
        (StageText::Start { outer, start }, EventText::Kind(kind)) => match kind {
            PathKind::File => StageText::WalkFile {
                outer,
                file: start,
                pending: seq![],
                found: seq![],
            },
            PathKind::Dir => StageText::WalkDir {
                outer,
                dir: start,
                pending: seq![],
                found: seq![],
            },
            PathKind::Neither => fails(ToolFault::NotFound(path)),
        },
        (StageText::WalkDir { outer, dir, pending, found }, EventText::Entries(r)) => match r {
            Ok(list) => walking(query_of(tool), outer, list + pending, found),
            Err(_) => walking(query_of(tool), outer, pending, found),
        },
        (StageText::WalkFile { outer, file, pending, found }, EventText::Content(r)) => match r {
            Ok(text) => walking(
                query_of(tool),
                outer,
                pending,
                found + file_matches(outer, file, text, query_of(tool)),
            ),
            Err(_) => walking(query_of(tool), outer, pending, found),
        },
        (StageText::Exec { command }, EventText::Output(r)) => StageText::Done {
            result: exec_outcome(r),
        },
        _ => stage,
    }
}

/// The operation that a stage needs.
pub open spec fn action_of(tool: ToolText, root: Seq<char>, stage: StageText) -> ActionText {
    match stage {
        StageText::SearchRoot => ActionText::Canonicalize(root),
        StageText::ResolveRoot { base, outer } => ActionText::Canonicalize(base),
        StageText::ResolveFull { outer, project } => ActionText::Canonicalize(
            path_join(project, path_given(tool)),
        ),
        StageText::Climb { project, existing, tail } => ActionText::Canonicalize(existing),
        StageText::Check { project, file, at, tail, links } => ActionText::ReadLink(at),
        StageText::Follow { project, file, existing, tail, links } => ActionText::Canonicalize(
            existing,
        ),
        StageText::Read { file } => ActionText::ReadFile(file),
        StageText::Write { file, content } => ActionText::WriteFile(file, content),
        StageText::List { dir } => ActionText::ReadDir(dir),
        StageText::Start { outer, start } => ActionText::Kind(start),
        StageText::WalkDir { outer, dir, pending, found } => ActionText::ReadDir(dir),
        StageText::WalkFile { outer, file, pending, found } => ActionText::ReadFile(file),
        StageText::Exec { command } => ActionText::Exec(command),
        StageText::Done { result } => ActionText::Finish(result),
    }
}

// ---------------------------------------------------------------------------------------------
// Runs
// ---------------------------------------------------------------------------------------------

/// A tool that is running.
#[derive(Debug)]
pub struct ToolRun {
    tool: Tool,
    /// The project.
    root: String,
    stage: Stage,
}

/// A [`ToolRun`] as the contracts see it.
pub struct RunText {
    pub tool: ToolText,
    pub root: Seq<char>,
    pub stage: StageText,
}

impl View for ToolRun {
    type V = RunText;

    closed spec fn view(&self) -> RunText {
        RunText { tool: self.tool@, root: self.root@, stage: self.stage@ }
    }
}

impl RunText {
    /// A run that begins.
    pub open spec fn begun(tool: ToolText, root: Seq<char>, extra: Seq<PatternText>) -> RunText {
        RunText { tool, root, stage: first_stage(tool, root, extra) }
    }

    /// The operation that is needed next.
    pub open spec fn action(self) -> ActionText {
        action_of(self.tool, self.root, self.stage)
    }

    /// The run after an operation.
    pub open spec fn after(self, event: EventText) -> RunText {
        RunText {
            tool: self.tool,
            root: self.root,
            stage: next_stage(self.tool, self.stage, event),
        }
    }

    /// What holds of every run: a file is only edited where there is a text to replace.
    pub open spec fn valid(self) -> bool {
        self.tool matches ToolText::EditFile { path, old_text, new_text } ==> old_text.len() > 0
            || self.stage is Done
    }
}

fn failing(e: ToolError) -> (r: Stage)
    ensures
        r@ == fails(e@),
{
    Stage::Done { result: Err(e) }
}

fn empty() -> (r: String)
    ensures
        r@ == Seq::<char>::empty(),
{
    let r = String::new();
    proof {
        assert(r@ =~= Seq::<char>::empty());
    }
    r
}

fn given_path(tool: &Tool) -> (r: String)
    ensures
        r@ == path_given(tool@),
{
    match tool {
        Tool::ReadFile(t) => t.path.clone(),
        Tool::WriteFile(t) => t.path.clone(),
        Tool::EditFile(t) => t.path.clone(),
        Tool::Search(t) => match &t.path {
            Some(p) => p.clone(),
            None => ".".to_owned(),
        },
        Tool::ListDir(t) => match &t.path {
            Some(p) => p.clone(),
            None => ".".to_owned(),
        },
        Tool::Exec(_) => empty(),
    }
}

fn start_resolving(tool: &Tool, base: String, outer: String) -> (r: Stage)
    ensures
        r@ == resolving(tool@, base@, outer@),
{
    let path = given_path(tool);
    if is_absolute(path.as_str()) || has_parent_dir(path.as_str()) {
        failing(ToolError::OutsideProject(path))
    } else {
        Stage::ResolveRoot { base, outer }
    }
}

fn stage_at(tool: &Tool, outer: String, file: String) -> (r: Stage)
    ensures
        r@ == reached(tool@, outer@, file@),
{
    match tool {
        Tool::WriteFile(t) => Stage::Write { file, content: t.content.clone() },
        Tool::ListDir(_) => Stage::List { dir: file },
        Tool::Search(_) => Stage::Start { outer, start: file },
        _ => Stage::Read { file },
    }
}

fn join_back(base: &str, tail: &Vec<String>) -> (r: String)
    ensures
        r@ == joined_back(base@, texts(tail@)),
{
    let ghost all = texts(tail@);
    let mut r = base.to_owned();
    let mut i: usize = tail.len();
    proof {
        assert(all.take(i as int) =~= all);
    }
    while i > 0
        invariant
            i <= tail@.len(),
            all == texts(tail@),
            joined_back(r@, all.take(i as int)) == joined_back(base@, all),
        decreases i,
    {
        proof {
            assert(all.take(i as int).last() == tail@[i - 1]@);
            assert(all.take(i as int).drop_last() =~= all.take(i - 1));
        }
        i = i - 1;
        r = join_path(r.as_str(), tail[i].as_str());
    }
    r
}

fn step_to(at: &str, name: &str) -> (r: String)
    ensures
        r@ == stepped(at@, name@),
{
    proof {
        reveal_strlit("..");
        assert(".."@ =~= seq!['.', '.']);
    }
    if same(name, "..") {
        match parent(at) {
            Some(above) => above,
            None => at.to_owned(),
        }
    } else {
        join_path(at, name)
    }
}

fn step_back(at: &str, tail: &Vec<String>) -> (r: String)
    ensures
        r@ == stepped_back(at@, texts(tail@)),
{
    let ghost all = texts(tail@);
    let mut r = at.to_owned();
    let mut i: usize = tail.len();
    proof {
        assert(all.take(i as int) =~= all);
    }
    while i > 0
        invariant
            i <= tail@.len(),
            all == texts(tail@),
            stepped_back(r@, all.take(i as int)) == stepped_back(at@, all),
        decreases i,
    {
        proof {
            assert(all.take(i as int).last() == tail@[i - 1]@);
            assert(all.take(i as int).drop_last() =~= all.take(i - 1));
        }
        i = i - 1;
        r = step_to(r.as_str(), tail[i].as_str());
    }
    r
}

fn keep_checking(
    tool: &Tool,
    project: String,
    file: String,
    at: &str,
    tail: Vec<String>,
    links: usize,
) -> (r: Stage)
    ensures
        r@ == checking(tool@, project@, file@, at@, texts(tail@), links as nat),
{
    let ghost all = tail@;
    let mut rest = tail;
    match rest.pop() {
        Some(name) => {
            proof {
                assert(texts(rest@) =~= texts(all).drop_last());
                assert(texts(all).last() == name@);
            }
            let next = step_to(at, name.as_str());
            Stage::Check { project, file, at: next, tail: rest, links }
        },
        None => {
            proof {
                assert(texts(all).len() == 0);
            }
            stage_at(tool, empty(), file)
        },
    }
}

fn keep_walking(
    query: &str,
    outer: String,
    pending: Vec<RuntimeEntry>,
    found: Vec<String>,
) -> (r: Stage)
    ensures
        r@ == walking(query@, outer@, entries(pending@).reverse(), texts(found@)),
{
    let ghost want = walking(query@, outer@, entries(pending@).reverse(), texts(found@));
    let mut rest = pending;
    while rest.len() > 0
        invariant
            want == walking(query@, outer@, entries(pending@).reverse(), texts(found@)),
            walking(query@, outer@, entries(rest@).reverse(), texts(found@)) == want,
        decreases rest@.len(),
    {
        let ghost all = rest@;
        match rest.pop() {
            Some(e) => {
                proof {
                    assert(entries(all).reverse()[0] == e@);
                    assert(entries(rest@).reverse() =~= entries(all).reverse().skip(1));
                }
                match e.kind {
                    EntryKind::Dir => {
                        return Stage::WalkDir { outer, dir: e.path, pending: rest, found };
                    },
                    EntryKind::File => {
                        return Stage::WalkFile { outer, file: e.path, pending: rest, found };
                    },
                    _ => {},
                }
            },
            None => {},
        }
    }
    proof {
        assert(entries(rest@).reverse().len() == 0);
    }
    Stage::Done { result: Ok(show_matches(query, &found)) }
}

/// Replaces the only occurrence of `old_text` in a text.
pub fn edit_text(path: &str, old_text: &str, new_text: &str, text: &str) -> (r: Result<
    String,
    ToolError,
>)
    requires
        old_text@.len() > 0,
    ensures
        outcome_text(r) == edited(path@, old_text@, new_text@, text@),
{
    let n = count_matches(text, old_text);
    if n == 0 {
        return Err(ToolError::OldTextNotFound(path.to_owned()));
    }
    if n > 1 {
        return Err(ToolError::MultipleMatches(path.to_owned()));
    }
    let cs = chars_of(text);
    let old_chars = chars_of(old_text);
    proof {
        lemma_first_match(text@, old_text@, 0);
    }
    match find_from(cs.as_slice(), old_chars.as_slice(), 0) {
        Some(i) => {
            let end: usize = cs.len();
            proof {
                assert(i + old_text@.len() <= end);
            }
            let mut changed = string_between(cs.as_slice(), 0, i);
            changed.append(new_text);
            changed.append(string_between(cs.as_slice(), i + old_chars.len(), end).as_str());
            proof {
                assert(text@.subrange(0, i as int) =~= text@.take(i as int));
                assert(text@.subrange(i + old_text@.len(), end as int) =~= text@.skip(
                    i + old_text@.len(),
                ));
            }
            Ok(changed)
        },
        None => Ok(text.to_owned()),
    }
}

fn stage_after_read(tool: &Tool, file: String, content: Result<String, IoError>) -> (r: Stage)
    requires
        tool@ matches ToolText::EditFile { path, old_text, new_text } ==> old_text.len() > 0,
    ensures
        r@ == after_read(tool@, file@, io_text(content)),
{
    match tool {
        Tool::EditFile(t) => match content {
            Ok(text) => match edit_text(
                t.path.as_str(),
                t.old.as_str(),
                t.new.as_str(),
                text.as_str(),
            ) {
                Ok(changed) => Stage::Write { file, content: changed },
                Err(e) => failing(e),
            },
            Err(e) => match e.kind {
                IoErrorKind::InvalidData => failing(
                    ToolError::InvalidArguments(
                        cat2(t.path.as_str(), " is not a valid UTF-8 text file"),
                    ),
                ),
                _ => failing(ToolError::Io(e)),
            },
        },
        _ => match content {
            Ok(text) => Stage::Done { result: Ok(text) },
            Err(e) => failing(ToolError::Io(e)),
        },
    }
}

fn written_message(tool: &Tool) -> (r: String)
    ensures
        r@ == written_text(tool@),
{
    match tool {
        Tool::WriteFile(t) => {
            let mut r = cat3(
                "wrote ",
                dec_usize(t.content.as_str().as_bytes().len()).as_str(),
                " bytes to ",
            );
            r.append(t.path.as_str());
            r
        },
        _ => cat3("edited ", given_path(tool).as_str(), " successfully"),
    }
}

fn exec_message(reply: Result<ExecOutput, ExecError>) -> (r: Result<String, ToolError>)
    ensures
        outcome_text(r) == exec_outcome(exec_reply(reply)),
{
    match reply {
        Ok(o) => {
            if o.code == 0 {
                let mut r = cat3("exit code: ", dec_i32(o.code).as_str(), "\n\nstdout:\n");
                r.append(o.output.as_str());
                r.append("\nstderr:\n");
                Ok(r)
            } else {
                Err(ToolError::NonZeroExit(o.code, o.output))
            }
        },
        Err(ExecError::Io(e)) => Err(ToolError::Io(e)),
        Err(ExecError::TimedOut(output)) => Err(ToolError::TimedOut(output)),
    }
}

fn copy_result(r: &Result<String, ToolError>) -> (c: Result<String, ToolError>)
    ensures
        outcome_text(c) == outcome_text(*r),
{
    match r {
        Ok(s) => Ok(s.clone()),
        Err(e) => Err(e.copy()),
    }
}

fn stage_after_root(tool: &Tool, project: String) -> (r: Stage)
    requires
        tool@ is Search,
    ensures
        r@ == next_stage(tool@, StageText::SearchRoot, EventText::Canonical(Ok(project@))),
{
    let searches_below = match tool {
        Tool::Search(t) => t.path.is_some(),
        _ => false,
    };
    if searches_below {
        let outer = project.clone();
        start_resolving(tool, project, outer)
    } else {
        let start = project.clone();
        Stage::Start { outer: project, start }
    }
}

fn stage_after_full(
    tool: &Tool,
    outer: String,
    project: String,
    found: Result<String, IoError>,
) -> (r: Stage)
    ensures
        r@ == next_stage(
            tool@,
            StageText::ResolveFull { outer: outer@, project: project@ },
            EventText::Canonical(io_text(found)),
        ),
{
    let path = given_path(tool);
    match found {
        Ok(file) => if is_inside(file.as_str(), project.as_str()) {
            stage_at(tool, outer, file)
        } else {
            failing(ToolError::OutsideProject(path))
        },
        Err(e) => match e.kind {
            IoErrorKind::NotFound => match tool {
                Tool::WriteFile(_) => {
                    let existing = join_path(project.as_str(), path.as_str());
                    let tail: Vec<String> = Vec::new();
                    proof {
                        assert(texts(tail@) =~= seq![]);
                    }
                    Stage::Climb { project, existing, tail }
                },
                _ => failing(ToolError::NotFound(path)),
            },
            _ => failing(ToolError::Io(e)),
        },
    }
}

fn stage_after_climb(
    tool: &Tool,
    project: String,
    existing: String,
    tail: Vec<String>,
    found: Result<String, IoError>,
) -> (r: Stage)
    ensures
        r@ == next_stage(
            tool@,
            StageText::Climb { project: project@, existing: existing@, tail: texts(tail@) },
            EventText::Canonical(io_text(found)),
        ),
{
    match found {
        Ok(dir) => if is_inside(dir.as_str(), project.as_str()) {
            let file = join_back(dir.as_str(), &tail);
            keep_checking(tool, project, file, dir.as_str(), tail, MAX_LINKS)
        } else {
            failing(ToolError::OutsideProject(given_path(tool)))
        },
        Err(e) => match (file_name(existing.as_str()), parent(existing.as_str())) {
            (Some(name), Some(above)) => match e.kind {
                IoErrorKind::NotFound => {
                    let ghost before = tail@;
                    let mut longer = tail;
                    longer.push(name);
                    proof {
                        lemma_texts_push(before, name);
                    }
                    Stage::Climb { project, existing: above, tail: longer }
                },
                _ => failing(ToolError::Io(e)),
            },
            _ => failing(ToolError::Io(e)),
        },
    }
}

fn stage_after_check(
    tool: &Tool,
    project: String,
    file: String,
    at: String,
    tail: Vec<String>,
    links: usize,
    found: Result<Option<String>, IoError>,
) -> (r: Stage)
    ensures
        r@ == next_stage(
            tool@,
            StageText::Check {
                project: project@,
                file: file@,
                at: at@,
                tail: texts(tail@),
                links: links as nat,
            },
            EventText::Link(link_text(found)),
        ),
{
    match found {
        Ok(Some(target)) => {
            if links == 0 {
                return failing(ToolError::OutsideProject(given_path(tool)));
            }
            let existing = match parent(at.as_str()) {
                Some(above) => join_path(above.as_str(), target.as_str()),
                None => join_path(at.as_str(), target.as_str()),
            };
            let none: Vec<String> = Vec::new();
            proof {
                assert(texts(none@) =~= seq![]);
            }
            Stage::Follow { project, file, existing, tail: none, links: links - 1 }
        },
        _ => keep_checking(tool, project, file, at.as_str(), tail, links),
    }
}

fn stage_after_follow(
    tool: &Tool,
    project: String,
    file: String,
    existing: String,
    tail: Vec<String>,
    links: usize,
    found: Result<String, IoError>,
) -> (r: Stage)
    ensures
        r@ == next_stage(
            tool@,
            StageText::Follow {
                project: project@,
                file: file@,
                existing: existing@,
                tail: texts(tail@),
                links: links as nat,
            },
            EventText::Canonical(io_text(found)),
        ),
{
    match found {
        Ok(dir) => if is_inside(step_back(dir.as_str(), &tail).as_str(), project.as_str()) {
            keep_checking(tool, project, file, dir.as_str(), tail, links)
        } else {
            failing(ToolError::OutsideProject(given_path(tool)))
        },
        Err(_) => match (last_component(existing.as_str()), parent(existing.as_str())) {
            (Some(name), Some(above)) => {
                let ghost before = tail@;
                let mut longer = tail;
                longer.push(name);
                proof {
                    lemma_texts_push(before, name);
                }
                Stage::Follow { project, file, existing: above, tail: longer, links }
            },
            _ => stage_at(tool, empty(), file),
        },
    }
}

fn query_text(tool: &Tool) -> (r: String)
    ensures
        r@ == query_of(tool@),
{
    match tool {
        Tool::Search(t) => t.query.clone(),
        _ => empty(),
    }
}

fn stage_after_start(tool: &Tool, outer: String, start: String, kind: PathKind) -> (r: Stage)
    ensures
        r@ == next_stage(
            tool@,
            StageText::Start { outer: outer@, start: start@ },
            EventText::Kind(kind),
        ),
{
    let pending: Vec<RuntimeEntry> = Vec::new();
    let found: Vec<String> = Vec::new();
    proof {
        assert(entries(pending@).reverse() =~= seq![]);
        assert(texts(found@) =~= seq![]);
    }
    match kind {
        PathKind::File => Stage::WalkFile { outer, file: start, pending, found },
        PathKind::Dir => Stage::WalkDir { outer, dir: start, pending, found },
        PathKind::Neither => failing(ToolError::NotFound(given_path(tool))),
    }
}

fn stage_after_entries(
    tool: &Tool,
    outer: String,
    pending: Vec<RuntimeEntry>,
    found: Vec<String>,
    list: Vec<RuntimeEntry>,
) -> (r: Stage)
    ensures
        r@ == walking(
            query_of(tool@),
            outer@,
            entries(list@) + entries(pending@).reverse(),
            texts(found@),
        ),
{
    let ghost want = entries(list@) + entries(pending@).reverse();
    let ghost given = list@;
    let mut left = list;
    let mut all = pending;
    proof {
        assert(entries(left@) + entries(all@).reverse() =~= want);
    }
    while left.len() > 0
        invariant
            entries(left@) + entries(all@).reverse() == want,
        decreases left@.len(),
    {
        let ghost before = left@;
        let ghost stack = all@;
        match left.pop() {
            Some(e) => {
                all.push(e);
                proof {
                    assert(entries(left@) + entries(all@).reverse() =~= entries(before) + entries(
                        stack,
                    ).reverse());
                }
            },
            None => {},
        }
    }
    proof {
        assert(entries(all@).reverse() =~= want);
    }
    keep_walking(query_text(tool).as_str(), outer, all, found)
}

fn stage_after_file(
    tool: &Tool,
    outer: String,
    file: String,
    pending: Vec<RuntimeEntry>,
    found: Vec<String>,
    text: String,
) -> (r: Stage)
    ensures
        r@ == walking(
            query_of(tool@),
            outer@,
            entries(pending@).reverse(),
            texts(found@) + file_matches(outer@, file@, text@, query_of(tool@)),
        ),
{
    let query = query_text(tool);
    let mut all = found;
    search_file(outer.as_str(), file.as_str(), text.as_str(), query.as_str(), &mut all);
    keep_walking(query.as_str(), outer, pending, all)
}

/// Whether an event can come of an operation.
pub open spec fn belongs(action: ActionText, event: EventText) -> bool {
    match action {
        ActionText::Canonicalize(_) => event is Canonical,
        ActionText::Kind(_) => event is Kind,
        ActionText::ReadLink(_) => event is Link,
        ActionText::ReadFile(_) => event is Content,
        ActionText::WriteFile(_, _) => event is Written,
        ActionText::ReadDir(_) => event is Entries,
        ActionText::Exec(_) => event is Output,
        ActionText::Finish(_) => false,
    }
}

/// Performs an operation on files or processes in a runtime, and hands back what came of it;
/// commands run in the project at `root`. Looking at paths, and finishing, are not the
/// runtime's.
pub fn perform<R: Runtime>(rt: &R, action: &Action, root: &str) -> (r: Option<Event>)
    ensures
        r is None <==> action is Canonicalize || action is Kind || action is ReadLink
            || action is Finish,
        r matches Some(event) ==> belongs(action@, event@),
        action matches Action::ReadFile(path) ==> exists|p: &str, res: Result<String, IoError>|
            p@ == path@ && #[trigger] call_ensures(R::read_file, (rt, p), res) && r == Some(
                Event::Content(res),
            ),
        action matches Action::WriteFile(path, content) ==> exists|
            p: &str,
            c: &str,
            res: Result<(), IoError>,
        |
            p@ == path@ && c@ == content@ && #[trigger] call_ensures(
                R::write_file,
                (rt, p, c),
                res,
            ) && r == Some(Event::Written(res)),
        action matches Action::ReadDir(path) ==> exists|
            p: &str,
            res: Result<Vec<RuntimeEntry>, IoError>,
        |
            p@ == path@ && #[trigger] call_ensures(R::read_dir, (rt, p), res) && r == Some(
                Event::Entries(res),
            ),
        action matches Action::Exec(command) ==> exists|
            p: &str,
            args: &[String],
            res: Result<ExecOutput, ExecError>,
        |
            p@ == command.program@ && args@ == command.args@ && #[trigger] call_ensures(
                R::exec_command,
                (rt, p, args, root),
                res,
            ) && r == Some(Event::Output(res)),
{
    match action {
        Action::ReadFile(path) => Some(Event::Content(rt.read_file(path.as_str()))),
        Action::WriteFile(path, content) => Some(
            Event::Written(rt.write_file(path.as_str(), content.as_str())),
        ),
        Action::ReadDir(path) => Some(Event::Entries(rt.read_dir(path.as_str()))),
        Action::Exec(command) => Some(
            Event::Output(
                rt.exec_command(command.program.as_str(), command.args.as_slice(), root),
            ),
        ),
        _ => None,
    }
}

impl ToolRun {
    /// Begins to run a tool in the project at `root`.
    pub fn start(tool: Tool, root: &str, policy: &ExecPolicy) -> (r: ToolRun)
        ensures
            r@ == RunText::begun(tool@, root@, patterns(policy.extra_allow@)),
            r@.valid(),
    {
        let base = root.to_owned();
        let stage = match &tool {
            Tool::Exec(t) => match ExecCommand::parse_with(
                t.command.as_str(),
                policy.extra_allow.as_slice(),
            ) {
                Ok(command) => Stage::Exec { command },
                Err(e) => failing(e),
            },
            Tool::Search(_) => Stage::SearchRoot,
            Tool::EditFile(t) => if t.old.as_str().is_empty() {
                failing(
                    ToolError::InvalidArguments("edit_file requires a non-empty `old`".to_owned()),
                )
            } else {
                start_resolving(&tool, base, empty())
            },
            _ => start_resolving(&tool, base, empty()),
        };
        ToolRun { tool, root: root.to_owned(), stage }
    }

    /// The operation that is needed next.
    pub fn action(&self) -> (r: Action)
        ensures
            r@ == self@.action(),
    {
        match &self.stage {
            Stage::SearchRoot => Action::Canonicalize(self.root.clone()),
            Stage::ResolveRoot { base, outer } => Action::Canonicalize(base.clone()),
            Stage::ResolveFull { outer, project } => Action::Canonicalize(
                join_path(project.as_str(), given_path(&self.tool).as_str()),
            ),
            Stage::Climb { project, existing, tail } => Action::Canonicalize(existing.clone()),
            Stage::Check { project, file, at, tail, links } => Action::ReadLink(at.clone()),
            Stage::Follow { project, file, existing, tail, links } => Action::Canonicalize(
                existing.clone(),
            ),
            Stage::Read { file } => Action::ReadFile(file.clone()),
            Stage::Write { file, content } => Action::WriteFile(file.clone(), content.clone()),
            Stage::List { dir } => Action::ReadDir(dir.clone()),
            Stage::Start { outer, start } => Action::Kind(start.clone()),
            Stage::WalkDir { outer, dir, pending, found } => Action::ReadDir(dir.clone()),
            Stage::WalkFile { outer, file, pending, found } => Action::ReadFile(file.clone()),
            Stage::Exec { command } => Action::Exec(command.copy()),
            Stage::Done { result } => Action::Finish(copy_result(result)),
        }
    }

    /// Takes the outcome of the operation that was needed.
    pub fn step(self, event: Event) -> (r: ToolRun)
        requires
            self@.valid(),
        ensures
            r@ == self@.after(event@),
            r@.valid(),
    {
        let ToolRun { tool, root, stage } = self;
        let next = match (stage, event) {
            (Stage::SearchRoot, Event::Canonical(r)) => match r {
                Ok(project) => match &tool {
                    Tool::Search(_) => stage_after_root(&tool, project),
                    _ => {
                        let start = project.clone();
                        Stage::Start { outer: project, start }
                    },
                },
                Err(e) => failing(ToolError::Io(e)),
            },
            (Stage::ResolveRoot { base, outer }, Event::Canonical(r)) => match r {
                Ok(project) => Stage::ResolveFull { outer, project },
                Err(e) => failing(ToolError::Io(e)),
            },
            (Stage::ResolveFull { outer, project }, Event::Canonical(r)) => stage_after_full(
                &tool,
                outer,
                project,
                r,
            ),
            (Stage::Climb { project, existing, tail }, Event::Canonical(r)) => stage_after_climb(
                &tool,
                project,
                existing,
                tail,
                r,
            ),
            (Stage::Check { project, file, at, tail, links }, Event::Link(r)) =>
                stage_after_check(&tool, project, file, at, tail, links, r),
            (Stage::Follow { project, file, existing, tail, links }, Event::Canonical(r)) =>
                stage_after_follow(&tool, project, file, existing, tail, links, r),
            (Stage::Read { file }, Event::Content(r)) => stage_after_read(&tool, file, r),
            (Stage::Write { file, content }, Event::Written(r)) => match r {
                Ok(_) => Stage::Done { result: Ok(written_message(&tool)) },
                Err(e) => failing(ToolError::Io(e)),
            },
            (Stage::List { dir }, Event::Entries(r)) => match r {
                Ok(list) => Stage::Done { result: Ok(show_directory(list)) },
                Err(e) => failing(ToolError::Io(e)),
            },
            (Stage::Start { outer, start }, Event::Kind(kind)) => stage_after_start(
                &tool,
                outer,
                start,
                kind,
            ),
            (Stage::WalkDir { outer, dir, pending, found }, Event::Entries(r)) => match r {
                Ok(list) => stage_after_entries(&tool, outer, pending, found, list),
                Err(_) => keep_walking(query_text(&tool).as_str(), outer, pending, found),
            },
            (Stage::WalkFile { outer, file, pending, found }, Event::Content(r)) => match r {
                Ok(text) => stage_after_file(&tool, outer, file, pending, found, text),
                Err(_) => keep_walking(query_text(&tool).as_str(), outer, pending, found),
            },
            (Stage::Exec { command }, Event::Output(r)) => Stage::Done { result: exec_message(r) },
            (stage, _) => stage,
        };
        ToolRun { tool, root, stage: next }
    }
}

/// An edit puts the new text in the place of the old one and leaves what stands before and behind
/// it as it was: where the old text occurs once only, between `a` and `b`, the file is `a`, the
/// new text and `b` afterwards, however long the new text is.
pub proof fn law_edit_replaces_the_one_occurrence(
    path: Seq<char>,
    a: Seq<char>,
    old_text: Seq<char>,
    b: Seq<char>,
    new_text: Seq<char>,
)
    requires
        old_text.len() > 0,
        forall|i: int| #[trigger] occurs_at(a + old_text + b, old_text, i) ==> i == a.len(),
    ensures
        edited(path, old_text, new_text, a + old_text + b) == Ok::<Seq<char>, ToolFault>(
            a + new_text + b,
        ),
{
    let text = a + old_text + b;
    let n = a.len() as int;
    assert(text.subrange(n, n + old_text.len()) =~= old_text);
    assert(occurs_at(text, old_text, n));
    law_match_count(text, old_text);
    lemma_first_match(text, old_text, 0);
    assert(first_match(text, old_text, 0) == Some(n));
    assert(text.take(n) =~= a);
    assert(text.skip(n + old_text.len()) =~= b);
}

/// An edit that is made changes one place: the text before it and behind it stays, and the old
/// text occurs neither before that place nor behind it. The new length is the old one without the
/// old text and with the new one.
pub proof fn law_edit_changes_one_place(
    path: Seq<char>,
    old_text: Seq<char>,
    new_text: Seq<char>,
    text: Seq<char>,
    r: Seq<char>,
)
    requires
        old_text.len() > 0,
        edited(path, old_text, new_text, text) == Ok::<Seq<char>, ToolFault>(r),
    ensures
        exists|a: Seq<char>, b: Seq<char>|
            {
                &&& text == #[trigger] (a + old_text + b)
                &&& r == a + new_text + b
                &&& forall|i: int| #[trigger]
                    occurs_at(text, old_text, i) ==> a.len() <= i < a.len() + old_text.len()
            },
        r.len() == text.len() - old_text.len() + new_text.len(),
{
    law_match_count(text, old_text);
    lemma_first_match(text, old_text, 0);
    let n = first_match(text, old_text, 0)->0;
    let a = text.take(n);
    let b = text.skip(n + old_text.len());
    assert(text =~= a + old_text + b);
    assert forall|i: int| #[trigger] occurs_at(text, old_text, i) implies a.len() <= i < a.len()
        + old_text.len() by {
        assert(occurs_at(text, old_text, n));
    }
}

/// An edit is refused exactly where the old text does not occur, or occurs at two places that do
/// not overlap; the error names the path and which of the two it is.
pub proof fn law_edit_is_refused(
    path: Seq<char>,
    old_text: Seq<char>,
    new_text: Seq<char>,
    text: Seq<char>,
)
    requires
        old_text.len() > 0,
    ensures
        edited(path, old_text, new_text, text) == Err::<Seq<char>, ToolFault>(
            ToolFault::OldTextNotFound(path),
        ) <==> forall|a: Seq<char>, b: Seq<char>| text != #[trigger] (a + old_text + b),
        edited(path, old_text, new_text, text) == Err::<Seq<char>, ToolFault>(
            ToolFault::MultipleMatches(path),
        ) <==> exists|a: Seq<char>, b: Seq<char>, c: Seq<char>|
            text == #[trigger] (a + old_text + b + old_text + c),
        edited(path, old_text, new_text, text) matches Err(e) ==> e == ToolFault::OldTextNotFound(
            path,
        ) || e == ToolFault::MultipleMatches(path),
{
    law_match_count(text, old_text);
    law_contains(text, old_text);
    let n = old_text.len();
    if exists|a: Seq<char>, b: Seq<char>, c: Seq<char>|
        text == #[trigger] (a + old_text + b + old_text + c) {
        let (a, b, c): (Seq<char>, Seq<char>, Seq<char>) =
            choose|a: Seq<char>, b: Seq<char>, c: Seq<char>|
            text == #[trigger] (a + old_text + b + old_text + c);
        let i = a.len() as int;
        let j = i + n + b.len();
        assert(text.subrange(i, i + n) =~= old_text);
        assert(text.subrange(j, j + n) =~= old_text);
        assert(occurs_at(text, old_text, i) && occurs_at(text, old_text, j));
    }
    if match_count(text, old_text) > 1 {
        let (i, j): (int, int) = choose|i: int, j: int| #[trigger]
            occurs_at(text, old_text, i) && #[trigger] occurs_at(text, old_text, j) && i + n <= j;
        let a = text.take(i);
        let b = text.subrange(i + n, j);
        let c = text.skip(j + n);
        assert(text =~= a + old_text + b + old_text + c);
    }
}

/// A command that ends with code zero is a success that tells its whole output; one that ends
/// otherwise is a failure with its code and its output; one that ran out of time is told apart.
pub proof fn law_command_results(o: OutputText, e: IoFault, output: Seq<char>)
    ensures
        exec_outcome(Ok(o)) is Ok <==> o.code == 0,
        o.code == 0 ==> exec_outcome(Ok(o)) == Ok::<Seq<char>, ToolFault>(
            "exit code: 0\n\nstdout:\n"@ + o.output + "\nstderr:\n"@,
        ),
        o.code != 0 ==> exec_outcome(Ok(o)) == Err::<Seq<char>, ToolFault>(
            ToolFault::NonZeroExit(o.code, o.output),
        ),
        exec_outcome(Err(ExecFault::Io(e))) == Err::<Seq<char>, ToolFault>(ToolFault::Io(e)),
        exec_outcome(Err(ExecFault::TimedOut(output))) == Err::<Seq<char>, ToolFault>(
            ToolFault::TimedOut(output),
        ),
{
    reveal_strlit("exit code: 0\n\nstdout:\n");
    reveal_strlit("exit code: ");
    reveal_strlit("\n\nstdout:\n");
    assert(dec_int(0) =~= seq!['0']);
    assert("exit code: 0\n\nstdout:\n"@ =~= "exit code: "@ + dec_int(0) + "\n\nstdout:\n"@);
}

/// Going one component down joins its name; two dots go up, and stay where nothing is above.
pub proof fn law_steps_on_the_way(at: Seq<char>, name: Seq<char>)
    ensures
        name != seq!['.', '.'] ==> stepped(at, name) == path_join(at, name),
        name == seq!['.', '.'] && path_parent(at) is Some ==> components(stepped(at, name))
            == components(at).drop_last(),
        name == seq!['.', '.'] && path_parent(at) is None ==> stepped(at, name) == at,
{
    law_parent_has_the_rest(at);
}

/// Where a link leads: a target from the root stands for itself, any other is taken from the
/// directory that the link is in.
pub proof fn law_link_targets(dir: Seq<char>, name: Seq<char>, target: Seq<char>)
    requires
        name.len() > 0,
        !name.contains('/'),
        name != seq!['.'],
        name != seq!['.', '.'],
    ensures
        target.len() > 0 && target[0] == '/' ==> link_end(path_join(dir, name), target) == target,
        (target.len() == 0 || target[0] != '/') && (components(target).len() > 0 ==> components(
            target,
        )[0] != seq!['.']) ==> components(link_end(path_join(dir, name), target)) == components(dir)
            + components(target),
{
    law_joined_name(dir, name);
    let above = path_parent(path_join(dir, name))->0;
    if (target.len() == 0 || target[0] != '/') && (components(target).len() > 0 ==> components(
        target,
    )[0] != seq!['.']) {
        law_join_adds_components(above, target);
    }
}

/// The names that were taken off a path, last one first, are put back in their order.
pub proof fn law_names_are_put_back(base: Seq<char>, tail: Seq<Seq<char>>)
    requires
        forall|i: int|
            0 <= i < tail.len() ==> (#[trigger] tail[i]).len() > 0 && !tail[i].contains('/')
                && tail[i] != seq!['.'],
    ensures
        components(joined_back(base, tail)) == components(base) + tail.reverse(),
    decreases tail.len(),
{
    if tail.len() == 0 {
        assert(components(base) + tail.reverse() =~= components(base));
    } else {
        let name = tail[tail.len() - 1];
        let rest = tail.drop_last();
        assert forall|i: int| 0 <= i < name.len() implies name[i] != '/' by {
            assert(name.contains(name[i]));
        }
        lemma_single_name(name);
        law_join_adds_components(base, name);
        assert forall|i: int| 0 <= i < rest.len() implies (#[trigger] rest[i]).len() > 0
            && !rest[i].contains('/') && rest[i] != seq!['.'] by {
            assert(rest[i] == tail[i]);
        }
        law_names_are_put_back(path_join(base, name), rest);
        assert(components(joined_back(base, tail)) =~= components(base) + tail.reverse());
    }
}

/// What [`edit_text`] gives back: where the old text occurs once only, between `a` and `b`, just
/// `a`, the new text and `b`; where it does not occur, or occurs at two places apart, no text.
pub proof fn law_edit_text(
    path: &str,
    old_text: &str,
    new_text: &str,
    text: &str,
    a: Seq<char>,
    b: Seq<char>,
    r: Result<String, ToolError>,
)
    requires
        old_text@.len() > 0,
        call_ensures(edit_text, (path, old_text, new_text, text), r),
    ensures
        text@ == a + old_text@ + b && (forall|i: int| #[trigger]
            occurs_at(text@, old_text@, i) ==> i == a.len()) ==> (r matches Ok(s) && s@ == a
            + new_text@ + b),
        r matches Ok(s) ==> s@.len() == text@.len() - old_text@.len() + new_text@.len(),
        (forall|i: int| !#[trigger] occurs_at(text@, old_text@, i)) ==> (
        r matches Err(ToolError::OldTextNotFound(p)) && p@ == path@),
        (exists|i: int, j: int| #[trigger]
            occurs_at(text@, old_text@, i) && #[trigger] occurs_at(text@, old_text@, j) && i
                + old_text@.len() <= j) ==> (r matches Err(ToolError::MultipleMatches(p)) && p@
            == path@),
{
    law_match_count(text@, old_text@);
    if text@ == a + old_text@ + b && (forall|i: int| #[trigger]
        occurs_at(text@, old_text@, i) ==> i == a.len()) {
        law_edit_replaces_the_one_occurrence(path@, a, old_text@, b, new_text@);
    }
    if r is Ok {
        law_edit_changes_one_place(path@, old_text@, new_text@, text@, r->Ok_0@);
    }
}

} // verus!
