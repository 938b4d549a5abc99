//! What tools do, seen as a whole: the result of each tool in a world whose files and processes
//! answer in a given way, and the proof that running the tool step by step gives that result.

use vstd::prelude::*;

use crate::agent::{call_decision, NextText};
use crate::capabilities::Capabilities;
use crate::error::{IoErrorKind, IoFault, ToolFault};
use crate::exec::{command_rule, CommandText, PatternText};
use crate::listing::{directory_text, file_matches, search_text};
use crate::message::CallText;
use crate::number::dec;
use crate::path::{
    component_spans, components, inside, law_join_adds_components, law_two_dots_climb,
    lemma_component_name, lemma_component_spans, lemma_single_name, path_join, path_name,
    path_parent,
};
use crate::runtime::{EntryKind, EntryText, ExecFault, OutputText};
use crate::text::{law_match_count, match_count, occurs_at, split};
use crate::tool::{lemma_tool_names, ToolText};
use crate::tool_run::{
    checking, edited, exec_outcome, joined_back, law_edit_changes_one_place, law_edit_is_refused,
    law_edit_replaces_the_one_occurrence, link_end, path_given, query_of, reached, replaced_once,
    stays_below, stepped, stepped_back, walking, written_text, ActionText, EventText, MAX_LINKS,
    PathKind, RunText, StageText,
};

verus! {

/// A world: what comes of each operation.
pub struct World {
    pub canonicalize: spec_fn(Seq<char>) -> Result<Seq<char>, IoFault>,
    pub kind: spec_fn(Seq<char>) -> PathKind,
    /// Where a path leads that is a symbolic link itself.
    pub link: spec_fn(Seq<char>) -> Result<Option<Seq<char>>, IoFault>,
    pub read_file: spec_fn(Seq<char>) -> Result<Seq<char>, IoFault>,
    pub write_file: spec_fn(Seq<char>, Seq<char>) -> Result<(), IoFault>,
    pub read_dir: spec_fn(Seq<char>) -> Result<Seq<EntryText>, IoFault>,
    pub command: spec_fn(CommandText) -> Result<OutputText, ExecFault>,
}

/// What comes of an operation in a world.
pub open spec fn answer(w: World, action: ActionText) -> EventText {
    match action {
        ActionText::Canonicalize(p) => EventText::Canonical((w.canonicalize)(p)),
        ActionText::Kind(p) => EventText::Kind((w.kind)(p)),
        ActionText::ReadLink(p) => EventText::Link((w.link)(p)),
        ActionText::ReadFile(p) => EventText::Content((w.read_file)(p)),
        ActionText::WriteFile(p, s) => EventText::Written((w.write_file)(p, s)),
        ActionText::ReadDir(p) => EventText::Entries((w.read_dir)(p)),
        ActionText::Exec(c) => EventText::Output((w.command)(c)),
        ActionText::Finish(r) => EventText::Kind(PathKind::Neither),
    }
}

// ---------------------------------------------------------------------------------------------
// Paths
// ---------------------------------------------------------------------------------------------

/// Where a path that does not exist yet will be: below the nearest directory above it that
/// does, which has to lie in the project; and no link on the way may lead out of it.
pub open spec fn climbed(
    w: World,
    project: Seq<char>,
    path: Seq<char>,
    existing: Seq<char>,
    tail: Seq<Seq<char>>,
) -> Result<Seq<char>, ToolFault>
    decreases existing.len(),
    when true
    via climbed_decreases
{
    match (w.canonicalize)(existing) {
        Ok(dir) => if inside(dir, project) && !strays(w, project, dir, tail, MAX_LINKS as nat) {
            Ok(joined_back(dir, tail))
        } else {
            Err(ToolFault::OutsideProject(path))
        },
        Err(e) => match (path_name(existing), path_parent(existing)) {
            (Some(name), Some(above)) => if e.kind == IoErrorKind::NotFound {
                climbed(w, project, path, above, tail.push(name))
            } else {
                Err(ToolFault::Io(e))
            },
            _ => Err(ToolFault::Io(e)),
        },
    }
}

#[via_fn]
proof fn climbed_decreases(
    w: World,
    project: Seq<char>,
    path: Seq<char>,
    existing: Seq<char>,
    tail: Seq<Seq<char>>,
) {
    lemma_parent_is_shorter(existing);
}

/// Whether the way from `at` down the components of `tail`, the last one first, leaves the
/// project through a link: the first link on it leads out. More links in a row than may be
/// followed count as leading out.
pub open spec fn strays(
    w: World,
    project: Seq<char>,
    at: Seq<char>,
    tail: Seq<Seq<char>>,
    links: nat,
) -> bool
    decreases links, 0nat, tail.len(),
{
    if tail.len() == 0 {
        false
    } else {
        let next = stepped(at, tail.last());
        match (w.link)(next) {
            Ok(Some(target)) => links == 0 || leads_out(
                w,
                project,
                link_end(next, target),
                seq![],
                (links - 1) as nat,
            ),
            _ => strays(w, project, next, tail.drop_last(), links),
        }
    }
}

/// Whether a path leads out of the project, `tail` being the components below `existing` that do
/// not exist: seen from the nearest directory that exists it lies outside, or another link on the
/// way to it leads out.
pub open spec fn leads_out(
    w: World,
    project: Seq<char>,
    existing: Seq<char>,
    tail: Seq<Seq<char>>,
    links: nat,
) -> bool
    decreases links, 1nat, existing.len(),
    when true
    via leads_out_decreases
{
    match (w.canonicalize)(existing) {
        Ok(dir) => !inside(stepped_back(dir, tail), project) || strays(
            w,
            project,
            dir,
            tail,
            links,
        ),
        Err(_) => match path_parent(existing) {
            Some(above) => leads_out(
                w,
                project,
                above,
                tail.push(components(existing).last()),
                links,
            ),
            None => false,
        },
    }
}

#[via_fn]
proof fn leads_out_decreases(
    w: World,
    project: Seq<char>,
    existing: Seq<char>,
    tail: Seq<Seq<char>>,
    links: nat,
) {
    lemma_parent_is_shorter(existing);
}

/// A path is longer than its parent.
pub proof fn lemma_parent_is_shorter(s: Seq<char>)
    ensures
        path_parent(s) matches Some(p) ==> p.len() < s.len(),
{
    let spans = component_spans(s);
    lemma_component_spans(s);
    if spans.len() == 1 {
        assert(spans[0].1 <= s.len());
    } else if spans.len() > 1 {
        assert(spans[spans.len() - 2].1 <= spans[spans.len() - 1].0);
        assert(spans[spans.len() - 1].0 < spans[spans.len() - 1].1 <= s.len());
    }
}

/// Where the path of a tool is in the project at `base`.
pub open spec fn resolved(w: World, base: Seq<char>, tool: ToolText) -> Result<
    Seq<char>,
    ToolFault,
> {
    if !stays_below(path_given(tool)) {
        Err(ToolFault::OutsideProject(path_given(tool)))
    } else {
        match (w.canonicalize)(base) {
            Err(e) => Err(ToolFault::Io(e)),
            Ok(project) => resolved_in(w, project, tool),
        }
    }
}

/// Where the path of a tool is in a project that has been found. Only `write_file` takes one
/// that does not exist yet.
pub open spec fn resolved_in(w: World, project: Seq<char>, tool: ToolText) -> Result<
    Seq<char>,
    ToolFault,
> {
    let path = path_given(tool);
    let full = path_join(project, path);
    match (w.canonicalize)(full) {
        Ok(file) => if inside(file, project) {
            Ok(file)
        } else {
            Err(ToolFault::OutsideProject(path))
        },
        Err(e) => if e.kind != IoErrorKind::NotFound {
            Err(ToolFault::Io(e))
        } else if tool is WriteFile {
            climbed(w, project, path, full, seq![])
        } else {
            Err(ToolFault::NotFound(path))
        },
    }
}

// ---------------------------------------------------------------------------------------------
// Results
// ---------------------------------------------------------------------------------------------

/// What searching finds in one entry: in a file the lines that match, in a directory what `below`
/// says is found in it. Symbolic links are not followed, and what cannot be read is passed over.
pub open spec fn found_in(
    w: World,
    outer: Seq<char>,
    query: Seq<char>,
    below: spec_fn(Seq<char>) -> Seq<Seq<char>>,
    e: EntryText,
) -> Seq<Seq<char>> {
    match e.kind {
        EntryKind::Dir => below(e.path),
        EntryKind::File => match (w.read_file)(e.path) {
            Ok(text) => file_matches(outer, e.path, text, query),
            Err(_) => seq![],
        },
        _ => seq![],
    }
}

/// What searching finds in entries, one after the other.
pub open spec fn found_in_all(
    w: World,
    outer: Seq<char>,
    query: Seq<char>,
    below: spec_fn(Seq<char>) -> Seq<Seq<char>>,
    list: Seq<EntryText>,
) -> Seq<Seq<char>>
    decreases list.len(),
{
    if list.len() == 0 {
        seq![]
    } else {
        found_in(w, outer, query, below, list[0]) + found_in_all(
            w,
            outer,
            query,
            below,
            list.skip(1),
        )
    }
}

/// Whether `below` says of every directory what searching it finds: what is found in its entries,
/// one after the other.
pub open spec fn searches(
    w: World,
    outer: Seq<char>,
    query: Seq<char>,
    below: spec_fn(Seq<char>) -> Seq<Seq<char>>,
) -> bool {
    forall|dir: Seq<char>| #[trigger]
        below(dir) == match (w.read_dir)(dir) {
            Ok(list) => found_in_all(w, outer, query, below, list),
            Err(_) => seq![],
        }
}

/// What a search finds from its start on.
pub open spec fn search_outcome(
    w: World,
    outer: Seq<char>,
    start: Seq<char>,
    tool: ToolText,
    below: spec_fn(Seq<char>) -> Seq<Seq<char>>,
) -> Result<Seq<char>, ToolFault> {
    let query = query_of(tool);
    match (w.kind)(start) {
        PathKind::File => Ok(
            search_text(
                query,
                found_in(
                    w,
                    outer,
                    query,
                    below,
                    EntryText { path: start, kind: EntryKind::File },
                ),
            ),
        ),
        PathKind::Dir => Ok(search_text(query, below(start))),
        PathKind::Neither => Err(ToolFault::NotFound(path_given(tool))),
    }
}

/// What comes of writing a file.
pub open spec fn write_outcome(
    w: World,
    tool: ToolText,
    file: Seq<char>,
    content: Seq<char>,
) -> Result<Seq<char>, ToolFault> {
    match (w.write_file)(file, content) {
        Ok(_) => Ok(written_text(tool)),
        Err(e) => Err(ToolFault::Io(e)),
    }
}

/// What comes of a tool whose path has been found.
pub open spec fn outcome_at(
    w: World,
    tool: ToolText,
    outer: Seq<char>,
    file: Seq<char>,
    below: spec_fn(Seq<char>) -> Seq<Seq<char>>,
) -> Result<Seq<char>, ToolFault> {
    match tool {
        ToolText::WriteFile { path, content } => write_outcome(w, tool, file, content),
        ToolText::ListDir { path } => match (w.read_dir)(file) {
            Ok(list) => Ok(directory_text(list)),
            Err(e) => Err(ToolFault::Io(e)),
        },
        ToolText::Search { query, path } => search_outcome(w, outer, file, tool, below),
        ToolText::EditFile { path, old_text, new_text } => match (w.read_file)(file) {
            Ok(text) => match edited(path, old_text, new_text, text) {
                Ok(changed) => write_outcome(w, tool, file, changed),
                Err(fault) => Err(fault),
            },
            Err(e) => if e.kind == IoErrorKind::InvalidData {
                Err(ToolFault::InvalidArguments(path + " is not a valid UTF-8 text file"@))
            } else {
                Err(ToolFault::Io(e))
            },
        },
        _ => match (w.read_file)(file) {
            Ok(text) => Ok(text),
            Err(e) => Err(ToolFault::Io(e)),
        },
    }
}

/// What comes of a tool once it is known where its path is.
pub open spec fn outcome_when(
    w: World,
    tool: ToolText,
    outer: Seq<char>,
    place: Result<Seq<char>, ToolFault>,
    below: spec_fn(Seq<char>) -> Seq<Seq<char>>,
) -> Result<Seq<char>, ToolFault> {
    match place {
        Ok(file) => outcome_at(w, tool, outer, file, below),
        Err(fault) => Err(fault),
    }
}

/// What comes of a tool whose path would be `file`, unless the way to it is known to stray.
pub open spec fn outcome_unless(
    w: World,
    tool: ToolText,
    file: Seq<char>,
    stray: bool,
    below: spec_fn(Seq<char>) -> Seq<Seq<char>>,
) -> Result<Seq<char>, ToolFault> {
    if stray {
        Err(ToolFault::OutsideProject(path_given(tool)))
    } else {
        outcome_at(w, tool, seq![], file, below)
    }
}

/// Whether the way strays at `at` itself, or from there down the components of `tail`.
pub open spec fn strays_from(
    w: World,
    project: Seq<char>,
    at: Seq<char>,
    tail: Seq<Seq<char>>,
    links: nat,
) -> bool {
    match (w.link)(at) {
        Ok(Some(target)) => links == 0 || leads_out(
            w,
            project,
            link_end(at, target),
            seq![],
            (links - 1) as nat,
        ),
        _ => strays(w, project, at, tail, links),
    }
}

/// What comes of a search in the project at `root`.
pub open spec fn search_from_root(
    w: World,
    tool: ToolText,
    root: Seq<char>,
    below: spec_fn(Seq<char>) -> Seq<Seq<char>>,
) -> Result<Seq<char>, ToolFault> {
    match (w.canonicalize)(root) {
        Err(e) => Err(ToolFault::Io(e)),
        Ok(project) => match tool {
            ToolText::Search { query, path: Some(p) } => outcome_when(
                w,
                tool,
                project,
                resolved(w, project, tool),
                below,
            ),
            _ => search_outcome(w, project, project, tool, below),
        },
    }
}

/// What comes of a tool in the project at `root`, with an allow list for commands.
pub open spec fn tool_outcome(
    w: World,
    tool: ToolText,
    root: Seq<char>,
    extra: Seq<PatternText>,
    below: spec_fn(Seq<char>) -> Seq<Seq<char>>,
) -> Result<Seq<char>, ToolFault> {
    match tool {
        ToolText::Exec { command } => match command_rule(command, extra) {
            Ok(c) => exec_outcome((w.command)(c)),
            Err(text) => Err(ToolFault::CommandNotAllowed(text)),
        },
        ToolText::Search { query, path } => search_from_root(w, tool, root, below),
        ToolText::EditFile { path, old_text, new_text } => if old_text.len() == 0 {
            Err(ToolFault::InvalidArguments("edit_file requires a non-empty `old`"@))
        } else {
            outcome_when(w, tool, seq![], resolved(w, root, tool), below)
        },
        _ => outcome_when(w, tool, seq![], resolved(w, root, tool), below),
    }
}

/// What will come of a run from the stage that it has reached.
pub open spec fn outcome_from(
    w: World,
    tool: ToolText,
    root: Seq<char>,
    stage: StageText,
    below: spec_fn(Seq<char>) -> Seq<Seq<char>>,
) -> Result<Seq<char>, ToolFault> {
    let query = query_of(tool);
    match stage {
        StageText::Done { result } => result,
        StageText::SearchRoot => search_from_root(w, tool, root, below),
        StageText::ResolveRoot { base, outer } => outcome_when(
            w,
            tool,
            outer,
            match (w.canonicalize)(base) {
                Err(e) => Err(ToolFault::Io(e)),
                Ok(project) => resolved_in(w, project, tool),
            },
            below,
        ),
        StageText::ResolveFull { outer, project } => outcome_when(
            w,
            tool,
            outer,
            resolved_in(w, project, tool),
            below,
        ),
        StageText::Climb { project, existing, tail } => outcome_when(
            w,
            tool,
            seq![],
            climbed(w, project, path_given(tool), existing, tail),
            below,
        ),
        StageText::Check { project, file, at, tail, links } => outcome_unless(
            w,
            tool,
            file,
            strays_from(w, project, at, tail, links),
            below,
        ),
        StageText::Follow { project, file, existing, tail, links } => outcome_unless(
            w,
            tool,
            file,
            leads_out(w, project, existing, tail, links),
            below,
        ),
        StageText::Read { file } => match tool {
            ToolText::EditFile { path: p, old_text, new_text } => outcome_at(
                w,
                tool,
                seq![],
                file,
                below,
            ),
            _ => match (w.read_file)(file) {
                Ok(text) => Ok(text),
                Err(e) => Err(ToolFault::Io(e)),
            },
        },
        StageText::Write { file, content } => write_outcome(w, tool, file, content),
        StageText::List { dir } => match (w.read_dir)(dir) {
            Ok(list) => Ok(directory_text(list)),
            Err(e) => Err(ToolFault::Io(e)),
        },
        StageText::Start { outer, start } => search_outcome(w, outer, start, tool, below),
        StageText::WalkDir { outer, dir, pending, found } => Ok(
            search_text(
                query,
                found + below(dir) + found_in_all(w, outer, query, below, pending),
            ),
        ),
        StageText::WalkFile { outer, file, pending, found } => Ok(
            search_text(
                query,
                found + found_in(
                    w,
                    outer,
                    query,
                    below,
                    EntryText { path: file, kind: EntryKind::File },
                ) + found_in_all(w, outer, query, below, pending),
            ),
        ),
        StageText::Exec { command } => exec_outcome((w.command)(command)),
    }
}

// ---------------------------------------------------------------------------------------------
// Laws
// ---------------------------------------------------------------------------------------------

/// A run begins with the tool's result ahead of it.
pub proof fn law_run_begins_with_the_outcome_ahead(
    w: World,
    tool: ToolText,
    root: Seq<char>,
    extra: Seq<PatternText>,
    below: spec_fn(Seq<char>) -> Seq<Seq<char>>,
)
    ensures
        outcome_from(w, tool, root, RunText::begun(tool, root, extra).stage, below)
            == tool_outcome(w, tool, root, extra, below),
{
}

proof fn lemma_walking(
    w: World,
    tool: ToolText,
    root: Seq<char>,
    outer: Seq<char>,
    pending: Seq<EntryText>,
    found: Seq<Seq<char>>,
    below: spec_fn(Seq<char>) -> Seq<Seq<char>>,
)
    ensures
        outcome_from(w, tool, root, walking(query_of(tool), outer, pending, found), below) == Ok::<
            Seq<char>,
            ToolFault,
        >(
            search_text(
                query_of(tool),
                found + found_in_all(w, outer, query_of(tool), below, pending),
            ),
        ),
    decreases pending.len(),
{
    let query = query_of(tool);
    if pending.len() == 0 {
        assert(found + found_in_all(w, outer, query, below, pending) =~= found);
    } else {
        let e = pending[0];
        let rest = pending.skip(1);
        let here = found_in(w, outer, query, below, e);
        let more = found_in_all(w, outer, query, below, rest);
        assert(found + (here + more) =~= found + here + more);
        match e.kind {
            EntryKind::Dir => {},
            EntryKind::File => {
                assert(e == EntryText { path: e.path, kind: EntryKind::File });
            },
            _ => {
                lemma_walking(w, tool, root, outer, rest, found, below);
                assert(here + more =~= more);
            },
        }
    }
}

proof fn lemma_found_concat(
    w: World,
    outer: Seq<char>,
    query: Seq<char>,
    below: spec_fn(Seq<char>) -> Seq<Seq<char>>,
    a: Seq<EntryText>,
    b: Seq<EntryText>,
)
    ensures
        found_in_all(w, outer, query, below, a + b) == found_in_all(w, outer, query, below, a)
            + found_in_all(w, outer, query, below, b),
    decreases a.len(),
{
    let fb = found_in_all(w, outer, query, below, b);
    if a.len() == 0 {
        assert(a + b =~= b);
        assert(found_in_all(w, outer, query, below, a) + fb =~= fb);
    } else {
        assert((a + b)[0] == a[0]);
        assert((a + b).skip(1) =~= a.skip(1) + b);
        lemma_found_concat(w, outer, query, below, a.skip(1), b);
        let here = found_in(w, outer, query, below, a[0]);
        let fa = found_in_all(w, outer, query, below, a.skip(1));
        assert(here + (fa + fb) =~= here + fa + fb);
    }
}

proof fn lemma_checking_keeps_the_outcome(
    w: World,
    tool: ToolText,
    root: Seq<char>,
    project: Seq<char>,
    file: Seq<char>,
    at: Seq<char>,
    tail: Seq<Seq<char>>,
    links: nat,
    below: spec_fn(Seq<char>) -> Seq<Seq<char>>,
)
    ensures
        outcome_from(w, tool, root, checking(tool, project, file, at, tail, links), below)
            == outcome_unless(w, tool, file, strays(w, project, at, tail, links), below),
{
    if tail.len() == 0 {
        lemma_reached_has_the_outcome(w, tool, root, seq![], file, below);
    }
}

proof fn lemma_reached_has_the_outcome(
    w: World,
    tool: ToolText,
    root: Seq<char>,
    outer: Seq<char>,
    file: Seq<char>,
    below: spec_fn(Seq<char>) -> Seq<Seq<char>>,
)
    ensures
        outcome_from(w, tool, root, reached(tool, outer, file), below) == outcome_at(
            w,
            tool,
            outer,
            file,
            below,
        ),
{
}

proof fn lemma_path_steps_keep_the_outcome(
    w: World,
    run: RunText,
    below: spec_fn(Seq<char>) -> Seq<Seq<char>>,
)
    requires
        run.stage is Climb || run.stage is Check || run.stage is Follow,
    ensures
        outcome_from(w, run.tool, run.root, run.after(answer(w, run.action())).stage, below)
            == outcome_from(w, run.tool, run.root, run.stage, below),
{
    let tool = run.tool;
    let root = run.root;
    match run.stage {
        StageText::Climb { project, existing, tail } => {
            if (w.canonicalize)(existing) is Ok {
                let dir = (w.canonicalize)(existing)->Ok_0;
                let file = joined_back(dir, tail);
                let links = MAX_LINKS as nat;
                lemma_checking_keeps_the_outcome(
                    w,
                    tool,
                    root,
                    project,
                    file,
                    dir,
                    tail,
                    links,
                    below,
                );
            }
        },
        StageText::Check { project, file, at, tail, links } => {
            lemma_checking_keeps_the_outcome(w, tool, root, project, file, at, tail, links, below);
        },
        StageText::Follow { project, file, existing, tail, links } => {
            match (w.canonicalize)(existing) {
                Ok(dir) => {
                    lemma_checking_keeps_the_outcome(
                        w,
                        tool,
                        root,
                        project,
                        file,
                        dir,
                        tail,
                        links,
                        below,
                    );
                },
                Err(_) => {
                    lemma_reached_has_the_outcome(w, tool, root, seq![], file, below);
                },
            }
        },
        _ => {},
    }
}

/// Each step keeps the result that lies ahead: run step by step in a world, a tool comes to the
/// result that it has in that world.
pub proof fn law_steps_keep_the_outcome(
    w: World,
    run: RunText,
    below: spec_fn(Seq<char>) -> Seq<Seq<char>>,
)
    requires
        run.stage matches StageText::WalkDir { outer, dir, pending, found } ==> searches(
            w,
            outer,
            query_of(run.tool),
            below,
        ),
    ensures
        outcome_from(w, run.tool, run.root, run.after(answer(w, run.action())).stage, below)
            == outcome_from(w, run.tool, run.root, run.stage, below),
        run.action() matches ActionText::Finish(r) ==> r == outcome_from(
            w,
            run.tool,
            run.root,
            run.stage,
            below,
        ),
{
    let tool = run.tool;
    let query = query_of(tool);
    match run.stage {
        StageText::WalkDir { outer, dir, pending, found } => {
            match (w.read_dir)(dir) {
                Ok(list) => {
                    lemma_walking(w, tool, run.root, outer, list + pending, found, below);
                    lemma_found_concat(w, outer, query, below, list, pending);
                    let a = found_in_all(w, outer, query, below, list);
                    let b = found_in_all(w, outer, query, below, pending);
                    assert(below(dir) == a);
                    assert(found + (a + b) =~= found + a + b);
                },
                Err(_) => {
                    lemma_walking(w, tool, run.root, outer, pending, found, below);
                    assert(below(dir) == Seq::<Seq<char>>::empty());
                    assert(found + Seq::<Seq<char>>::empty() =~= found);
                },
            }
        },
        StageText::WalkFile { outer, file, pending, found } => {
            match (w.read_file)(file) {
                Ok(text) => {
                    let hits = file_matches(outer, file, text, query);
                    lemma_walking(w, tool, run.root, outer, pending, found + hits, below);
                },
                Err(_) => {
                    lemma_walking(w, tool, run.root, outer, pending, found, below);
                    assert(found + Seq::<Seq<char>>::empty() =~= found);
                },
            }
        },
        StageText::Start { outer, start } => {
            let none = Seq::<Seq<char>>::empty();
            let nothing = Seq::<EntryText>::empty();
            let one = found_in(
                w,
                outer,
                query,
                below,
                EntryText { path: start, kind: EntryKind::File },
            );
            assert(found_in_all(w, outer, query, below, nothing) =~= none);
            assert(none + one + none =~= one);
            assert(none + below(start) + none =~= below(start));
        },
        StageText::Climb { project, existing, tail } => {
            lemma_path_steps_keep_the_outcome(w, run, below);
        },
        StageText::Check { project, file, at, tail, links } => {
            lemma_path_steps_keep_the_outcome(w, run, below);
        },
        StageText::Follow { project, file, existing, tail, links } => {
            lemma_path_steps_keep_the_outcome(w, run, below);
        },
        _ => {},
    }
}

// ---------------------------------------------------------------------------------------------
// Whole runs
// ---------------------------------------------------------------------------------------------

/// A run after `n` steps in a world.
pub open spec fn run_for(w: World, run: RunText, n: nat) -> RunText
    decreases n,
{
    if n == 0 {
        run
    } else {
        let before = run_for(w, run, (n - 1) as nat);
        before.after(answer(w, before.action()))
    }
}

/// Whether a path lies in the project at `root`.
pub open spec fn in_project(w: World, root: Seq<char>, file: Seq<char>) -> bool {
    (w.canonicalize)(root) matches Ok(project) && inside(file, project)
}

/// A name that can be joined to a path as one component.
pub open spec fn single_name(name: Seq<char>) -> bool {
    &&& name.len() > 0
    &&& name != seq!['.']
    &&& forall|i: int| 0 <= i < name.len() ==> name[i] != '/'
}

/// Whether a file is where a tool may write: below a directory in the project that the system
/// has resolved from `from`, by plain names, and `stray` says whether the way to it strays.
pub open spec fn placed(
    w: World,
    project: Seq<char>,
    file: Seq<char>,
    from: Seq<char>,
    dir: Seq<char>,
    tail: Seq<Seq<char>>,
    stray: bool,
) -> bool {
    &&& (w.canonicalize)(from) == Ok::<Seq<char>, IoFault>(dir)
    &&& inside(dir, project)
    &&& file == joined_back(dir, tail)
    &&& forall|i: int| 0 <= i < tail.len() ==> single_name(#[trigger] tail[i])
    &&& stray == strays(w, project, dir, tail, MAX_LINKS as nat)
}

/// Whether a file is below a directory in the project that the system has resolved, by plain
/// names, and whether the way to it strays is what `stray` says.
pub open spec fn strays_as(w: World, project: Seq<char>, file: Seq<char>, stray: bool) -> bool {
    exists|from: Seq<char>, dir: Seq<char>, tail: Seq<Seq<char>>| #[trigger]
        placed(w, project, file, from, dir, tail, stray)
}

/// What is known of a run at each stage.
pub open spec fn fits(w: World, run: RunText, extra: Seq<PatternText>) -> bool {
    let tool = run.tool;
    let found = (w.canonicalize)(run.root);
    match run.stage {
        StageText::SearchRoot => tool is Search,
        StageText::ResolveRoot { base, outer } => {
            &&& !(tool is Exec)
            &&& tool matches ToolText::EditFile { path, old_text, new_text } ==> old_text.len() > 0
            &&& if tool is Search {
                found == Ok::<Seq<char>, IoFault>(outer) && base == outer
            } else {
                base == run.root
            }
        },
        StageText::ResolveFull { outer, project } => {
            &&& !(tool is Exec)
            &&& tool matches ToolText::EditFile { path, old_text, new_text } ==> old_text.len() > 0
            &&& if tool is Search {
                found == Ok::<Seq<char>, IoFault>(outer) && (w.canonicalize)(outer) == Ok::<
                    Seq<char>,
                    IoFault,
                >(project)
            } else {
                found == Ok::<Seq<char>, IoFault>(project)
            }
        },
        StageText::Climb { project, existing, tail } => {
            &&& tool is WriteFile
            &&& found == Ok::<Seq<char>, IoFault>(project)
            &&& forall|i: int| 0 <= i < tail.len() ==> single_name(#[trigger] tail[i])
        },
        StageText::Check { project, file, at, tail, links } => {
            &&& tool is WriteFile
            &&& found == Ok::<Seq<char>, IoFault>(project)
            &&& strays_as(w, project, file, strays_from(w, project, at, tail, links))
        },
        StageText::Follow { project, file, existing, tail, links } => {
            &&& tool is WriteFile
            &&& found == Ok::<Seq<char>, IoFault>(project)
            &&& strays_as(w, project, file, leads_out(w, project, existing, tail, links))
        },
        StageText::Read { file } => {
            &&& tool is ReadFile || tool is EditFile
            &&& tool matches ToolText::EditFile { path, old_text, new_text } ==> old_text.len() > 0
            &&& in_project(w, run.root, file)
            &&& strays_as(w, found->Ok_0, file, false)
        },
        StageText::Write { file, content } => {
            &&& in_project(w, run.root, file)
            &&& strays_as(w, found->Ok_0, file, false)
            &&& match tool {
                ToolText::WriteFile { path, content: given } => content == given,
                ToolText::EditFile { path, old_text, new_text } => (w.read_file)(
                    file,
                ) matches Ok(text) && match_count(text, old_text) == 1 && content
                    == replaced_once(text, old_text, new_text),
                _ => false,
            }
        },
        StageText::List { dir } => tool is ListDir && in_project(w, run.root, dir),
        StageText::Start { outer, start } => {
            &&& tool is Search
            &&& found == Ok::<Seq<char>, IoFault>(outer)
            &&& start == outer || in_project(w, outer, start)
        },
        StageText::WalkDir { outer, dir, pending, found: hits } => tool is Search && found == Ok::<
            Seq<char>,
            IoFault,
        >(outer),
        StageText::WalkFile { outer, file, pending, found: hits } => tool is Search && found
            == Ok::<Seq<char>, IoFault>(outer),
        StageText::Exec { command } => tool matches ToolText::Exec { command: line }
            && command_rule(line, extra) == Ok::<CommandText, Seq<char>>(command),
        StageText::Done { result } => true,
    }
}

proof fn lemma_joined_back_inside(dir: Seq<char>, tail: Seq<Seq<char>>, project: Seq<char>)
    requires
        inside(dir, project),
        forall|i: int| 0 <= i < tail.len() ==> single_name(#[trigger] tail[i]),
    ensures
        inside(joined_back(dir, tail), project),
    decreases tail.len(),
{
    if tail.len() > 0 {
        let name = tail.last();
        assert(single_name(tail[tail.len() - 1]));
        lemma_single_name(name);
        law_join_adds_components(dir, name);
        let longer = path_join(dir, name);
        let c = components(project);
        assert(c == components(dir).subrange(0, c.len() as int));
        assert(c =~= components(longer).subrange(0, c.len() as int));
        assert forall|i: int| 0 <= i < tail.drop_last().len() implies single_name(
            #[trigger] tail.drop_last()[i],
        ) by {
            assert(tail.drop_last()[i] == tail[i]);
        }
        lemma_joined_back_inside(longer, tail.drop_last(), project);
    }
}

proof fn lemma_strays_as_inside(w: World, project: Seq<char>, file: Seq<char>, stray: bool)
    requires
        strays_as(w, project, file, stray),
    ensures
        inside(file, project),
{
    let (from, dir, tail): (Seq<char>, Seq<char>, Seq<Seq<char>>) = choose|
        from: Seq<char>,
        dir: Seq<char>,
        tail: Seq<Seq<char>>,
    | #[trigger]
        placed(w, project, file, from, dir, tail, stray);
    lemma_joined_back_inside(dir, tail, project);
}

proof fn lemma_walking_fits(
    w: World,
    run: RunText,
    extra: Seq<PatternText>,
    outer: Seq<char>,
    pending: Seq<EntryText>,
    found: Seq<Seq<char>>,
)
    requires
        run.tool is Search,
        (w.canonicalize)(run.root) == Ok::<Seq<char>, IoFault>(outer),
    ensures
        fits(
            w,
            RunText {
                tool: run.tool,
                root: run.root,
                stage: walking(query_of(run.tool), outer, pending, found),
            },
            extra,
        ),
    decreases pending.len(),
{
    if pending.len() > 0 {
        lemma_walking_fits(w, run, extra, outer, pending.skip(1), found);
    }
}

proof fn lemma_checking_fits(
    w: World,
    run: RunText,
    extra: Seq<PatternText>,
    project: Seq<char>,
    file: Seq<char>,
    at: Seq<char>,
    tail: Seq<Seq<char>>,
    links: nat,
)
    requires
        run.tool is WriteFile,
        (w.canonicalize)(run.root) == Ok::<Seq<char>, IoFault>(project),
        strays_as(w, project, file, strays(w, project, at, tail, links)),
    ensures
        fits(
            w,
            RunText {
                tool: run.tool,
                root: run.root,
                stage: checking(run.tool, project, file, at, tail, links),
            },
            extra,
        ),
{
    lemma_strays_as_inside(w, project, file, strays(w, project, at, tail, links));
    if tail.len() > 0 {
        let next = stepped(at, tail.last());
        assert(strays(w, project, at, tail, links) == strays_from(
            w,
            project,
            next,
            tail.drop_last(),
            links,
        ));
    }
}

proof fn lemma_path_step_fits(w: World, run: RunText, extra: Seq<PatternText>)
    requires
        fits(w, run, extra),
        run.stage is Climb || run.stage is Check || run.stage is Follow,
    ensures
        fits(w, run.after(answer(w, run.action())), extra),
{
    match run.stage {
        StageText::Check { project, file, at, tail, links } => {
            match (w.link)(at) {
                Ok(Some(_)) => {},
                _ => {
                    lemma_checking_fits(w, run, extra, project, file, at, tail, links);
                },
            }
        },
        StageText::Follow { project, file, existing, tail, links } => {
            lemma_strays_as_inside(w, project, file, leads_out(w, project, existing, tail, links));
            match (w.canonicalize)(existing) {
                Ok(dir) => {
                    if inside(stepped_back(dir, tail), project) {
                        lemma_checking_fits(w, run, extra, project, file, dir, tail, links);
                    }
                },
                Err(_) => {},
            }
        },
        StageText::Climb { project, existing, tail } => {
            match (w.canonicalize)(existing) {
                Ok(dir) => {
                    if inside(dir, project) {
                        let file = joined_back(dir, tail);
                        let stray = strays(w, project, dir, tail, MAX_LINKS as nat);
                        lemma_joined_back_inside(dir, tail, project);
                        assert(placed(w, project, file, existing, dir, tail, stray));
                        assert(strays_as(w, project, file, stray));
                        let links = MAX_LINKS as nat;
                        lemma_checking_fits(w, run, extra, project, file, dir, tail, links);
                    }
                },
                Err(e) => {
                    if path_name(existing) is Some {
                        let name = path_name(existing)->0;
                        lemma_component_name(existing, components(existing).len() - 1);
                        assert(single_name(name));
                        let longer = tail.push(name);
                        assert forall|i: int| 0 <= i < longer.len() implies single_name(
                            #[trigger] longer[i],
                        ) by {
                            if i < tail.len() {
                                assert(longer[i] == tail[i]);
                            }
                        }
                    }
                },
            }
        },
        _ => {},
    }
}

proof fn lemma_step_fits(w: World, run: RunText, extra: Seq<PatternText>)
    requires
        fits(w, run, extra),
    ensures
        fits(w, run.after(answer(w, run.action())), extra),
{
    match run.stage {
        StageText::WalkDir { outer, dir, pending, found } => {
            match (w.read_dir)(dir) {
                Ok(list) => {
                    lemma_walking_fits(w, run, extra, outer, list + pending, found);
                },
                Err(_) => {
                    lemma_walking_fits(w, run, extra, outer, pending, found);
                },
            }
        },
        StageText::WalkFile { outer, file, pending, found } => {
            match (w.read_file)(file) {
                Ok(text) => {
                    let hits = file_matches(outer, file, text, query_of(run.tool));
                    lemma_walking_fits(w, run, extra, outer, pending, found + hits);
                },
                Err(_) => {
                    lemma_walking_fits(w, run, extra, outer, pending, found);
                },
            }
        },
        StageText::ResolveFull { outer, project } => {
            let full = path_join(project, path_given(run.tool));
            if (w.canonicalize)(full) is Ok {
                let file = (w.canonicalize)(full)->Ok_0;
                if inside(file, project) {
                    assert(placed(w, project, file, full, file, seq![], false));
                }
            }
        },
        StageText::Climb { project, existing, tail } => {
            lemma_path_step_fits(w, run, extra);
        },
        StageText::Check { project, file, at, tail, links } => {
            lemma_path_step_fits(w, run, extra);
        },
        StageText::Follow { project, file, existing, tail, links } => {
            lemma_path_step_fits(w, run, extra);
        },
        _ => {},
    }
}

proof fn lemma_run_fits(
    w: World,
    tool: ToolText,
    root: Seq<char>,
    extra: Seq<PatternText>,
    n: nat,
)
    ensures
        fits(w, run_for(w, RunText::begun(tool, root, extra), n), extra),
        run_for(w, RunText::begun(tool, root, extra), n).tool == tool,
        run_for(w, RunText::begun(tool, root, extra), n).root == root,
    decreases n,
{
    if n > 0 {
        lemma_run_fits(w, tool, root, extra, (n - 1) as nat);
        lemma_step_fits(w, run_for(w, RunText::begun(tool, root, extra), (n - 1) as nat), extra);
    }
}

/// A tool that has finished has the result that it has in its world.
pub proof fn law_finished_run_has_the_outcome(
    w: World,
    tool: ToolText,
    root: Seq<char>,
    extra: Seq<PatternText>,
    below: spec_fn(Seq<char>) -> Seq<Seq<char>>,
    n: nat,
)
    requires
        tool is Search ==> ((w.canonicalize)(root) matches Ok(project) ==> searches(
            w,
            project,
            query_of(tool),
            below,
        )),
    ensures
        ({
            let run = run_for(w, RunText::begun(tool, root, extra), n);
            &&& outcome_from(w, tool, root, run.stage, below) == tool_outcome(
                w,
                tool,
                root,
                extra,
                below,
            )
            &&& run.action() matches ActionText::Finish(r) ==> r == tool_outcome(
                w,
                tool,
                root,
                extra,
                below,
            )
        }),
    decreases n,
{
    let start = RunText::begun(tool, root, extra);
    if n == 0 {
        law_run_begins_with_the_outcome_ahead(w, tool, root, extra, below);
    } else {
        let before = run_for(w, start, (n - 1) as nat);
        law_finished_run_has_the_outcome(w, tool, root, extra, below, (n - 1) as nat);
        lemma_run_fits(w, tool, root, extra, (n - 1) as nat);
        law_steps_keep_the_outcome(w, before, below);
    }
}

/// Whatever the world answers, a tool stays in the project: what `write_file` and `edit_file`
/// write, what `read_file` reads, what `list_dir` lists and where `search` starts lies below the
/// project. What is written lies where the system has resolved a path in the project to, or by
/// plain names below such a directory, and no symbolic link on the way there leads out of the
/// project. Files are only written by these two tools, and commands only run as allowed.
pub proof fn law_tools_stay_in_the_project(
    w: World,
    tool: ToolText,
    root: Seq<char>,
    extra: Seq<PatternText>,
    n: nat,
)
    ensures
        match run_for(w, RunText::begun(tool, root, extra), n).action() {
            ActionText::WriteFile(file, content) => {
                &&& tool is WriteFile || tool is EditFile
                &&& in_project(w, root, file)
                &&& (w.canonicalize)(root) matches Ok(project) && strays_as(w, project, file, false)
            },
            ActionText::ReadFile(file) => {
                &&& tool is ReadFile || tool is EditFile || tool is Search
                &&& !(tool is Search) ==> in_project(w, root, file)
            },
            ActionText::ReadDir(dir) => {
                &&& tool is ListDir || tool is Search
                &&& tool is ListDir ==> in_project(w, root, dir)
            },
            ActionText::Kind(start) => {
                &&& tool is Search
                &&& (w.canonicalize)(root) matches Ok(project) && (start == project || in_project(
                    w,
                    project,
                    start,
                ))
            },
            ActionText::Exec(command) => tool matches ToolText::Exec { command: line }
                && command_rule(line, extra) == Ok::<CommandText, Seq<char>>(command),
            _ => true,
        },
{
    lemma_run_fits(w, tool, root, extra, n);
}

/// `edit_file` writes only where the old text occurs exactly once in the file, and then only
/// replaces it; `write_file` writes what it was given.
pub proof fn law_writes_are_exact(
    w: World,
    tool: ToolText,
    root: Seq<char>,
    extra: Seq<PatternText>,
    n: nat,
)
    ensures
        run_for(w, RunText::begun(tool, root, extra), n).action() matches ActionText::WriteFile(
            file,
            content,
        ) ==> match tool {
            ToolText::WriteFile { path, content: given } => content == given,
            ToolText::EditFile { path, old_text, new_text } => (w.read_file)(file) matches Ok(text)
                && match_count(text, old_text) == 1 && content == replaced_once(
                text,
                old_text,
                new_text,
            ),
            _ => false,
        },
{
    lemma_run_fits(w, tool, root, extra, n);
}

/// Absolute paths and paths with `..` are refused before anything is looked at.
pub proof fn law_escaping_paths_are_refused(
    tool: ToolText,
    root: Seq<char>,
    extra: Seq<PatternText>,
)
    requires
        !stays_below(path_given(tool)),
        tool is ReadFile || tool is WriteFile || tool is ListDir || (
        tool matches ToolText::EditFile { path, old_text, new_text } && old_text.len() > 0),
    ensures
        RunText::begun(tool, root, extra).action() == ActionText::Finish(
            Err(ToolFault::OutsideProject(path_given(tool))),
        ),
{
}

/// A link to nothing on the way to a new file is refused where it leads out of the project: from
/// there on the tool comes to no other result. A link that stays in the project changes nothing.
pub proof fn law_links_out_are_refused(
    w: World,
    run: RunText,
    below: spec_fn(Seq<char>) -> Seq<Seq<char>>,
)
    requires
        run.stage matches StageText::Check { project, file, at, tail, links } && links > 0 && (
        w.link)(at) matches Ok(Some(target)),
    ensures
        run.stage matches StageText::Check { project, file, at, tail, links } && {
            let target = (w.link)(at)->Ok_0->0;
            outcome_from(w, run.tool, run.root, run.stage, below) == if leads_out(
                w,
                project,
                link_end(at, target),
                seq![],
                (links - 1) as nat,
            ) {
                Err(ToolFault::OutsideProject(path_given(run.tool)))
            } else {
                outcome_at(w, run.tool, seq![], file, below)
            }
        },
{
}

/// Writing to a link in the project that leads out of it to something that does not exist yet is
/// refused, and so is writing below one; writing to one that stays in the project is writing to
/// the link. `dir` is the directory of the link, `tail` the names from it on, the last one first.
pub proof fn law_dangling_links_out_are_refused(
    w: World,
    project: Seq<char>,
    path: Seq<char>,
    existing: Seq<char>,
    dir: Seq<char>,
    tail: Seq<Seq<char>>,
    target: Seq<char>,
)
    requires
        tail.len() > 0,
        single_name(tail.last()),
        tail.last() != seq!['.', '.'],
        (w.canonicalize)(existing) == Ok::<Seq<char>, IoFault>(dir),
        inside(dir, project),
        (w.link)(path_join(dir, tail.last())) == Ok::<Option<Seq<char>>, IoFault>(Some(target)),
    ensures
        climbed(w, project, path, existing, tail) == if leads_out(
            w,
            project,
            link_end(path_join(dir, tail.last()), target),
            seq![],
            (MAX_LINKS - 1) as nat,
        ) {
            Err::<Seq<char>, ToolFault>(ToolFault::OutsideProject(path))
        } else {
            Ok::<Seq<char>, ToolFault>(joined_back(dir, tail))
        },
{
}

/// A whole call: `write_file` of a path that is itself a link out of the project, to something
/// that does not exist yet, is refused. `dir` is the directory of the link, `name` its name.
pub proof fn law_writing_to_a_link_out_is_refused(
    w: World,
    tool: ToolText,
    root: Seq<char>,
    extra: Seq<PatternText>,
    below: spec_fn(Seq<char>) -> Seq<Seq<char>>,
    project: Seq<char>,
    dir: Seq<char>,
    name: Seq<char>,
    target: Seq<char>,
)
    requires
        tool is WriteFile,
        stays_below(path_given(tool)),
        (w.canonicalize)(root) == Ok::<Seq<char>, IoFault>(project),
        ({
            let full = path_join(project, path_given(tool));
            &&& (w.canonicalize)(full) matches Err(e) && e.kind == IoErrorKind::NotFound
            &&& path_name(full) == Some(name)
            &&& path_parent(full) matches Some(above) && (w.canonicalize)(above) == Ok::<
                Seq<char>,
                IoFault,
            >(dir)
        }),
        inside(dir, project),
        (w.link)(path_join(dir, name)) == Ok::<Option<Seq<char>>, IoFault>(Some(target)),
        leads_out(
            w,
            project,
            link_end(path_join(dir, name), target),
            seq![],
            (MAX_LINKS - 1) as nat,
        ),
    ensures
        tool_outcome(w, tool, root, extra, below) == Err::<Seq<char>, ToolFault>(
            ToolFault::OutsideProject(path_given(tool)),
        ),
{
    let path = path_given(tool);
    let full = path_join(project, path);
    let above = path_parent(full)->0;
    let none = Seq::<Seq<char>>::empty();
    let tail = none.push(name);
    lemma_component_name(full, components(full).len() - 1);
    assert(tail.last() == name);
    law_dangling_links_out_are_refused(w, project, path, above, dir, tail, target);
    assert(climbed(w, project, path, full, none) == climbed(w, project, path, above, tail));
}

/// A path that does not exist leads out of the project where its nearest directory that exists
/// lies outside and only plain names follow.
pub proof fn law_missing_paths_outside_lead_out(
    w: World,
    project: Seq<char>,
    existing: Seq<char>,
    tail: Seq<Seq<char>>,
    links: nat,
)
    requires
        (w.canonicalize)(existing) matches Ok(dir) && !inside(joined_back(dir, tail), project),
        forall|i: int| 0 <= i < tail.len() ==> #[trigger] tail[i] != seq!['.', '.'],
    ensures
        leads_out(w, project, existing, tail, links),
{
    lemma_stepped_back_plain((w.canonicalize)(existing)->Ok_0, tail);
}

proof fn lemma_stepped_back_plain(dir: Seq<char>, tail: Seq<Seq<char>>)
    requires
        forall|i: int| 0 <= i < tail.len() ==> #[trigger] tail[i] != seq!['.', '.'],
    ensures
        stepped_back(dir, tail) == joined_back(dir, tail),
    decreases tail.len(),
{
    if tail.len() > 0 {
        assert(tail[tail.len() - 1] != seq!['.', '.']);
        assert forall|i: int| 0 <= i < tail.drop_last().len() implies #[trigger] tail.drop_last()[i]
            != seq!['.', '.'] by {
            assert(tail.drop_last()[i] == tail[i]);
        }
        lemma_stepped_back_plain(path_join(dir, tail.last()), tail.drop_last());
    }
}

/// With nothing but reading allowed, no call of the model changes anything: whatever it asks for
/// and whatever the world answers, no file is written and no command is run.
pub proof fn law_read_only_changes_nothing(
    caps: Capabilities,
    call: CallText,
    tool: ToolText,
    w: World,
    root: Seq<char>,
    extra: Seq<PatternText>,
    n: nat,
)
    requires
        !caps.filesystem_write && !caps.process_execute,
        call_decision(caps, call) == NextText::Run(tool),
    ensures
        ({
            let action = run_for(w, RunText::begun(tool, root, extra), n).action();
            !(action is WriteFile) && !(action is Exec)
        }),
{
    lemma_tool_names();
    law_tools_stay_in_the_project(w, tool, root, extra, n);
}

// ---------------------------------------------------------------------------------------------
// Every run ends
// ---------------------------------------------------------------------------------------------

/// Whether a run comes to its end after some number of steps.
pub open spec fn finishes(w: World, run: RunText) -> bool {
    exists|n: nat| (#[trigger] run_for(w, run, n)).action() is Finish
}

/// How much there is to search in an entry, where `size` says how much there is in a directory.
pub open spec fn weight(size: spec_fn(Seq<char>) -> nat, e: EntryText) -> nat {
    match e.kind {
        EntryKind::Dir => 1 + size(e.path),
        _ => 1,
    }
}

/// How much there is to search in entries.
pub open spec fn weight_all(size: spec_fn(Seq<char>) -> nat, list: Seq<EntryText>) -> nat
    decreases list.len(),
{
    if list.len() == 0 {
        0
    } else {
        weight(size, list[0]) + weight_all(size, list.skip(1))
    }
}

/// Whether every directory holds finitely much: more than its entries together, as `size` has
/// it.
pub open spec fn finite(w: World, size: spec_fn(Seq<char>) -> nat) -> bool {
    forall|dir: Seq<char>|
        #![trigger size(dir)]
        (w.read_dir)(dir) matches Ok(list) ==> weight_all(size, list) <= size(dir)
}

proof fn lemma_run_for_shift(w: World, run: RunText, n: nat)
    ensures
        run_for(w, run, n + 1) == run_for(w, run.after(answer(w, run.action())), n),
    decreases n,
{
    let next = run.after(answer(w, run.action()));
    if n == 0 {
        assert(run_for(w, run, 0) == run);
        assert(run_for(w, next, 0) == next);
        assert(run_for(w, run, 1) == next);
    } else {
        lemma_run_for_shift(w, run, (n - 1) as nat);
    }
}

proof fn lemma_finishes_before(w: World, run: RunText)
    requires
        finishes(w, run.after(answer(w, run.action()))),
    ensures
        finishes(w, run),
{
    let next = run.after(answer(w, run.action()));
    let n = choose|n: nat| (#[trigger] run_for(w, next, n)).action() is Finish;
    lemma_run_for_shift(w, run, n);
    assert(run_for(w, run, n + 1).action() is Finish);
}

proof fn lemma_done_finishes(w: World, run: RunText)
    requires
        run.stage is Done,
    ensures
        finishes(w, run),
{
    assert(run_for(w, run, 0).action() is Finish);
}

/// A run that needs one file, one directory or one command more ends.
proof fn lemma_last_steps_finish(w: World, run: RunText)
    requires
        run.stage is Read || run.stage is Write || run.stage is List || run.stage is Exec,
    ensures
        finishes(w, run),
{
    let next = run.after(answer(w, run.action()));
    if next.stage is Write {
        lemma_done_finishes(w, next.after(answer(w, next.action())));
        lemma_finishes_before(w, next);
    } else {
        lemma_done_finishes(w, next);
    }
    lemma_finishes_before(w, run);
}

proof fn lemma_weight_concat(
    size: spec_fn(Seq<char>) -> nat,
    a: Seq<EntryText>,
    b: Seq<EntryText>,
)
    ensures
        weight_all(size, a + b) == weight_all(size, a) + weight_all(size, b),
    decreases a.len(),
{
    if a.len() == 0 {
        assert(a + b =~= b);
    } else {
        assert((a + b)[0] == a[0]);
        assert((a + b).skip(1) =~= a.skip(1) + b);
        lemma_weight_concat(size, a.skip(1), b);
    }
}

proof fn lemma_walk_finishes(
    w: World,
    run: RunText,
    size: spec_fn(Seq<char>) -> nat,
    outer: Seq<char>,
    pending: Seq<EntryText>,
    found: Seq<Seq<char>>,
)
    requires
        finite(w, size),
        run.stage == walking(query_of(run.tool), outer, pending, found),
    ensures
        finishes(w, run),
    decreases weight_all(size, pending), pending.len(),
{
    let query = query_of(run.tool);
    if pending.len() == 0 {
        lemma_done_finishes(w, run);
    } else {
        let e = pending[0];
        let rest = pending.skip(1);
        let next = run.after(answer(w, run.action()));
        match e.kind {
            EntryKind::Dir => {
                match (w.read_dir)(e.path) {
                    Ok(list) => {
                        assert(weight_all(size, list) <= size(e.path));
                        lemma_weight_concat(size, list, rest);
                        lemma_walk_finishes(w, next, size, outer, list + rest, found);
                    },
                    Err(_) => {
                        lemma_walk_finishes(w, next, size, outer, rest, found);
                    },
                }
                lemma_finishes_before(w, run);
            },
            EntryKind::File => {
                match (w.read_file)(e.path) {
                    Ok(text) => {
                        let hits = file_matches(outer, e.path, text, query);
                        lemma_walk_finishes(w, next, size, outer, rest, found + hits);
                    },
                    Err(_) => {
                        lemma_walk_finishes(w, next, size, outer, rest, found);
                    },
                }
                lemma_finishes_before(w, run);
            },
            _ => {
                lemma_walk_finishes(w, run, size, outer, rest, found);
            },
        }
    }
}

proof fn lemma_start_finishes(w: World, run: RunText, size: spec_fn(Seq<char>) -> nat)
    requires
        finite(w, size),
        run.stage is Start,
    ensures
        finishes(w, run),
{
    let next = run.after(answer(w, run.action()));
    match run.stage {
        StageText::Start { outer, start } => {
            let none = Seq::<Seq<char>>::empty();
            match (w.kind)(start) {
                PathKind::Neither => {
                    lemma_done_finishes(w, next);
                },
                PathKind::File => {
                    let one = seq![EntryText { path: start, kind: EntryKind::File }];
                    assert(one.skip(1) =~= seq![]);
                    lemma_walk_finishes(w, next, size, outer, one, none);
                },
                PathKind::Dir => {
                    let one = seq![EntryText { path: start, kind: EntryKind::Dir }];
                    assert(one.skip(1) =~= seq![]);
                    lemma_walk_finishes(w, next, size, outer, one, none);
                },
            }
        },
        _ => {},
    }
    lemma_finishes_before(w, run);
}

proof fn lemma_reached_finishes(w: World, run: RunText, size: spec_fn(Seq<char>) -> nat)
    requires
        run.tool is Search ==> finite(w, size),
        exists|outer: Seq<char>, file: Seq<char>|
            run.stage == #[trigger] reached(run.tool, outer, file),
    ensures
        finishes(w, run),
{
    if run.stage is Start {
        lemma_start_finishes(w, run, size);
    } else {
        lemma_last_steps_finish(w, run);
    }
}

proof fn lemma_climb_finishes(
    w: World,
    run: RunText,
    size: spec_fn(Seq<char>) -> nat,
    project: Seq<char>,
    existing: Seq<char>,
    tail: Seq<Seq<char>>,
)
    requires
        run.tool is Search ==> finite(w, size),
        run.stage == (StageText::Climb { project, existing, tail }),
    ensures
        finishes(w, run),
    decreases existing.len(),
{
    let next = run.after(answer(w, run.action()));
    lemma_parent_is_shorter(existing);
    match (w.canonicalize)(existing) {
        Ok(dir) => {
            if inside(dir, project) {
                let links = MAX_LINKS as nat;
                let file = joined_back(dir, tail);
                lemma_checking_finishes(w, next, size, project, file, dir, tail, links);
            } else {
                lemma_done_finishes(w, next);
            }
        },
        Err(e) => {
            match (path_name(existing), path_parent(existing)) {
                (Some(name), Some(above)) => {
                    if e.kind == IoErrorKind::NotFound {
                        lemma_climb_finishes(w, next, size, project, above, tail.push(name));
                    } else {
                        lemma_done_finishes(w, next);
                    }
                },
                _ => {
                    lemma_done_finishes(w, next);
                },
            }
        },
    }
    lemma_finishes_before(w, run);
}

proof fn lemma_checking_finishes(
    w: World,
    run: RunText,
    size: spec_fn(Seq<char>) -> nat,
    project: Seq<char>,
    file: Seq<char>,
    at: Seq<char>,
    tail: Seq<Seq<char>>,
    links: nat,
)
    requires
        run.tool is Search ==> finite(w, size),
        run.stage == checking(run.tool, project, file, at, tail, links),
    ensures
        finishes(w, run),
    decreases links, 0nat, tail.len(),
{
    if tail.len() == 0 {
        assert(run.stage == reached(run.tool, seq![], file));
        lemma_reached_finishes(w, run, size);
    } else {
        let here = stepped(at, tail.last());
        let next = run.after(answer(w, run.action()));
        match (w.link)(here) {
            Ok(Some(target)) => {
                if links == 0 {
                    lemma_done_finishes(w, next);
                } else {
                    let existing = link_end(here, target);
                    let fewer = (links - 1) as nat;
                    lemma_follow_finishes(w, next, size, project, file, existing, seq![], fewer);
                }
            },
            _ => {
                let rest = tail.drop_last();
                lemma_checking_finishes(w, next, size, project, file, here, rest, links);
            },
        }
        lemma_finishes_before(w, run);
    }
}

proof fn lemma_follow_finishes(
    w: World,
    run: RunText,
    size: spec_fn(Seq<char>) -> nat,
    project: Seq<char>,
    file: Seq<char>,
    existing: Seq<char>,
    tail: Seq<Seq<char>>,
    links: nat,
)
    requires
        run.tool is Search ==> finite(w, size),
        run.stage == (StageText::Follow { project, file, existing, tail, links }),
    ensures
        finishes(w, run),
    decreases links, 1nat, existing.len(),
{
    let next = run.after(answer(w, run.action()));
    lemma_parent_is_shorter(existing);
    match (w.canonicalize)(existing) {
        Ok(dir) => {
            if inside(stepped_back(dir, tail), project) {
                lemma_checking_finishes(w, next, size, project, file, dir, tail, links);
            } else {
                lemma_done_finishes(w, next);
            }
        },
        Err(_) => {
            match path_parent(existing) {
                Some(above) => {
                    let longer = tail.push(components(existing).last());
                    lemma_follow_finishes(w, next, size, project, file, above, longer, links);
                },
                None => {
                    assert(next.stage == reached(run.tool, seq![], file));
                    lemma_reached_finishes(w, next, size);
                },
            }
        },
    }
    lemma_finishes_before(w, run);
}

proof fn lemma_resolve_full_finishes(w: World, run: RunText, size: spec_fn(Seq<char>) -> nat)
    requires
        run.tool is Search ==> finite(w, size),
        run.stage is ResolveFull,
    ensures
        finishes(w, run),
{
    let next = run.after(answer(w, run.action()));
    match run.stage {
        StageText::ResolveFull { outer, project } => {
            let full = path_join(project, path_given(run.tool));
            match (w.canonicalize)(full) {
                Ok(file) => {
                    if inside(file, project) {
                        assert(next.stage == reached(run.tool, outer, file));
                        lemma_reached_finishes(w, next, size);
                    } else {
                        lemma_done_finishes(w, next);
                    }
                },
                Err(e) => {
                    if e.kind == IoErrorKind::NotFound && run.tool is WriteFile {
                        lemma_climb_finishes(w, next, size, project, full, seq![]);
                    } else {
                        lemma_done_finishes(w, next);
                    }
                },
            }
        },
        _ => {},
    }
    lemma_finishes_before(w, run);
}

proof fn lemma_resolve_root_finishes(w: World, run: RunText, size: spec_fn(Seq<char>) -> nat)
    requires
        run.tool is Search ==> finite(w, size),
        run.stage is ResolveRoot,
    ensures
        finishes(w, run),
{
    let next = run.after(answer(w, run.action()));
    if next.stage is ResolveFull {
        lemma_resolve_full_finishes(w, next, size);
    } else {
        lemma_done_finishes(w, next);
    }
    lemma_finishes_before(w, run);
}

/// Every tool comes to its end. A search does so where the directories hold finitely much.
pub proof fn law_every_run_ends(
    w: World,
    tool: ToolText,
    root: Seq<char>,
    extra: Seq<PatternText>,
    size: spec_fn(Seq<char>) -> nat,
)
    requires
        tool is Search ==> finite(w, size),
    ensures
        finishes(w, RunText::begun(tool, root, extra)),
{
    let run = RunText::begun(tool, root, extra);
    let next = run.after(answer(w, run.action()));
    match run.stage {
        StageText::SearchRoot => {
            if next.stage is ResolveRoot {
                lemma_resolve_root_finishes(w, next, size);
            } else if next.stage is Start {
                lemma_start_finishes(w, next, size);
            } else {
                lemma_done_finishes(w, next);
            }
            lemma_finishes_before(w, run);
        },
        StageText::ResolveRoot { base, outer } => {
            lemma_resolve_root_finishes(w, run, size);
        },
        StageText::Exec { command } => {
            lemma_last_steps_finish(w, run);
        },
        _ => {
            lemma_done_finishes(w, run);
        },
    }
}

/// Whether a path of the project exists in it: it neither starts at the root nor climbs, and what
/// it leads to lies inside the project.
pub open spec fn lies_at(
    w: World,
    root: Seq<char>,
    project: Seq<char>,
    path: Seq<char>,
    file: Seq<char>,
) -> bool {
    &&& path.len() == 0 || path[0] != '/'
    &&& !split(path, '/').contains(seq!['.', '.'])
    &&& (w.canonicalize)(root) == Ok::<Seq<char>, IoFault>(project)
    &&& (w.canonicalize)(path_join(project, path)) == Ok::<Seq<char>, IoFault>(file)
    &&& inside(file, project)
}

/// Reading a file that exists gives its text, whole; writing one writes just what was given, where
/// the path leads, and tells how many bytes that was; where either fails, that is the result.
pub proof fn law_existing_files(
    w: World,
    root: Seq<char>,
    project: Seq<char>,
    path: Seq<char>,
    file: Seq<char>,
    content: Seq<char>,
    extra: Seq<PatternText>,
    below: spec_fn(Seq<char>) -> Seq<Seq<char>>,
)
    requires
        lies_at(w, root, project, path, file),
    ensures
        tool_outcome(w, ToolText::ReadFile { path }, root, extra, below) == (match (w.read_file)(
            file,
        ) {
            Ok(text) => Ok::<Seq<char>, ToolFault>(text),
            Err(e) => Err(ToolFault::Io(e)),
        }),
        tool_outcome(w, ToolText::WriteFile { path, content }, root, extra, below) == (match (
        w.write_file)(file, content) {
            Ok(_) => Ok::<Seq<char>, ToolFault>(
                "wrote "@ + dec(vstd::utf8::encode_utf8(content).len()) + " bytes to "@ + path,
            ),
            Err(e) => Err(ToolFault::Io(e)),
        }),
{
    law_two_dots_climb(path);
}

/// Editing a file in which the old text occurs once writes the file with the new text in that
/// place and nothing else changed; where it occurs not at all, or at two places apart, nothing is
/// written; neither where the file cannot be read.
pub proof fn law_existing_files_are_edited(
    w: World,
    root: Seq<char>,
    project: Seq<char>,
    path: Seq<char>,
    file: Seq<char>,
    a: Seq<char>,
    old_text: Seq<char>,
    b: Seq<char>,
    new_text: Seq<char>,
    extra: Seq<PatternText>,
    below: spec_fn(Seq<char>) -> Seq<Seq<char>>,
)
    requires
        lies_at(w, root, project, path, file),
        old_text.len() > 0,
    ensures
        ({
            let r = tool_outcome(
                w,
                ToolText::EditFile { path, old_text, new_text },
                root,
                extra,
                below,
            );
            &&& (w.read_file)(file) == Ok::<Seq<char>, IoFault>(a + old_text + b) && (forall|i: int|
                #[trigger]
                occurs_at(a + old_text + b, old_text, i) ==> i == a.len()) ==> r == (match (
            w.write_file)(file, a + new_text + b) {
                Ok(_) => Ok::<Seq<char>, ToolFault>("edited "@ + path + " successfully"@),
                Err(e) => Err(ToolFault::Io(e)),
            })
            &&& (w.read_file)(file) == Ok::<Seq<char>, IoFault>(a) && (forall|i: int|
                !#[trigger] occurs_at(a, old_text, i)) ==> r == Err::<Seq<char>, ToolFault>(
                ToolFault::OldTextNotFound(path),
            )
            &&& (w.read_file)(file) == Ok::<Seq<char>, IoFault>(
                a + old_text + b + old_text + new_text,
            ) ==> r == Err::<Seq<char>, ToolFault>(ToolFault::MultipleMatches(path))
            &&& (w.read_file)(file) matches Err(e) ==> r == (if e.kind == IoErrorKind::InvalidData {
                Err::<Seq<char>, ToolFault>(
                    ToolFault::InvalidArguments(path + " is not a valid UTF-8 text file"@),
                )
            } else {
                Err(ToolFault::Io(e))
            })
        }),
{
    law_two_dots_climb(path);
    let one = a + old_text + b;
    if forall|i: int| #[trigger] occurs_at(one, old_text, i) ==> i == a.len() {
        law_edit_replaces_the_one_occurrence(path, a, old_text, b, new_text);
    }
    law_match_count(a, old_text);
    law_edit_is_refused(path, old_text, new_text, one + old_text + new_text);
}

/// Listing a directory that exists shows its entries; without a path it shows the project itself.
pub proof fn law_existing_directories_are_listed(
    w: World,
    root: Seq<char>,
    project: Seq<char>,
    path: Option<Seq<char>>,
    dir: Seq<char>,
    extra: Seq<PatternText>,
    below: spec_fn(Seq<char>) -> Seq<Seq<char>>,
)
    requires
        lies_at(
            w,
            root,
            project,
            if path is Some {
                path->0
            } else {
                "."@
            },
            dir,
        ),
    ensures
        tool_outcome(w, ToolText::ListDir { path }, root, extra, below) == (match (w.read_dir)(
            dir,
        ) {
            Ok(list) => Ok::<Seq<char>, ToolFault>(directory_text(list)),
            Err(e) => Err(ToolFault::Io(e)),
        }),
{
    law_two_dots_climb(path_given(ToolText::ListDir { path }));
}

/// A search below a path that exists starts there, and one without a path starts at the project:
/// a file is searched itself, of a directory all that stands below it.
pub proof fn law_searches_start_where_they_should(
    w: World,
    root: Seq<char>,
    project: Seq<char>,
    path: Seq<char>,
    start: Seq<char>,
    query: Seq<char>,
    extra: Seq<PatternText>,
    below: spec_fn(Seq<char>) -> Seq<Seq<char>>,
)
    requires
        (w.canonicalize)(root) == Ok::<Seq<char>, IoFault>(project),
        lies_at(w, project, project, path, start),
    ensures
        ({
            let r = tool_outcome(
                w,
                ToolText::Search { query, path: Some(path) },
                root,
                extra,
                below,
            );
            &&& (w.kind)(start) == PathKind::Dir ==> r == Ok::<Seq<char>, ToolFault>(
                search_text(query, below(start)),
            )
            &&& (w.kind)(start) == PathKind::File ==> r == Ok::<Seq<char>, ToolFault>(
                search_text(
                    query,
                    match (w.read_file)(start) {
                        Ok(text) => file_matches(project, start, text, query),
                        Err(_) => Seq::<Seq<char>>::empty(),
                    },
                ),
            )
            &&& (w.kind)(start) == PathKind::Neither ==> r == Err::<Seq<char>, ToolFault>(
                ToolFault::NotFound(path),
            )
        }),
        (w.kind)(project) == PathKind::Dir ==> tool_outcome(
            w,
            ToolText::Search { query, path: None },
            root,
            extra,
            below,
        ) == Ok::<Seq<char>, ToolFault>(search_text(query, below(project))),
{
    law_two_dots_climb(path);
}

/// Entries are searched one after the other: a file gives what its text holds, and nothing where
/// it cannot be read; a directory gives all that stands below it; a link and anything else give
/// nothing.
pub proof fn law_entries_are_searched_in_turn(
    w: World,
    outer: Seq<char>,
    query: Seq<char>,
    below: spec_fn(Seq<char>) -> Seq<Seq<char>>,
    a: Seq<EntryText>,
    b: Seq<EntryText>,
    e: EntryText,
)
    ensures
        found_in_all(w, outer, query, below, a + b) == found_in_all(w, outer, query, below, a)
            + found_in_all(w, outer, query, below, b),
        e.kind == EntryKind::Dir ==> found_in_all(w, outer, query, below, seq![e]) == below(e.path),
        e.kind == EntryKind::File && (w.read_file)(e.path) is Ok ==> found_in_all(
            w,
            outer,
            query,
            below,
            seq![e],
        ) == file_matches(outer, e.path, (w.read_file)(e.path)->Ok_0, query),
        e.kind == EntryKind::File && (w.read_file)(e.path) is Err ==> found_in_all(
            w,
            outer,
            query,
            below,
            seq![e],
        ).len() == 0,
        e.kind == EntryKind::Symlink || e.kind == EntryKind::Other ==> found_in_all(
            w,
            outer,
            query,
            below,
            seq![e],
        ).len() == 0,
    decreases a.len(),
{
    let one = seq![e];
    let none = Seq::<Seq<char>>::empty();
    assert(one.skip(1) =~= seq![]);
    assert(found_in_all(w, outer, query, below, one.skip(1)) =~= none);
    assert(found_in_all(w, outer, query, below, one) =~= found_in(w, outer, query, below, e));
    if a.len() == 0 {
        assert(a + b =~= b);
        assert(none + found_in_all(w, outer, query, below, b) =~= found_in_all(
            w,
            outer,
            query,
            below,
            b,
        ));
    } else {
        assert((a + b)[0] == a[0]);
        assert((a + b).skip(1) =~= a.skip(1) + b);
        law_entries_are_searched_in_turn(w, outer, query, below, a.skip(1), b, e);
        assert(found_in_all(w, outer, query, below, a + b) =~= found_in_all(
            w,
            outer,
            query,
            below,
            a,
        ) + found_in_all(w, outer, query, below, b));
    }
}

/// Whether a tool works on the given path.
pub open spec fn works_on(tool: ToolText, path: Seq<char>) -> bool {
    match tool {
        ToolText::ReadFile { path: p } => p == path,
        ToolText::WriteFile { path: p, content } => p == path,
        ToolText::EditFile { path: p, old_text, new_text } => p == path && old_text.len() > 0,
        ToolText::Search { query, path: p } => p == Some(path),
        ToolText::ListDir { path: p } => p == Some(path),
        ToolText::Exec { command } => false,
    }
}

/// No tool works outside the project: a path from the root, one that climbs, and one that leads
/// out are refused with the path in the error. A path that does not exist is not found, unless it
/// is to be written; any other failure to follow it is the result.
pub proof fn law_other_paths_are_refused(
    w: World,
    tool: ToolText,
    root: Seq<char>,
    project: Seq<char>,
    path: Seq<char>,
    extra: Seq<PatternText>,
    below: spec_fn(Seq<char>) -> Seq<Seq<char>>,
)
    requires
        works_on(tool, path),
        (w.canonicalize)(root) == Ok::<Seq<char>, IoFault>(project),
        (w.canonicalize)(project) == Ok::<Seq<char>, IoFault>(project),
    ensures
        ({
            let r = tool_outcome(w, tool, root, extra, below);
            let outside = Err::<Seq<char>, ToolFault>(ToolFault::OutsideProject(path));
            let strange = (path.len() > 0 && path[0] == '/') || split(path, '/').contains(
                seq!['.', '.'],
            );
            &&& strange ==> r == outside
            &&& !strange ==> match (w.canonicalize)(path_join(project, path)) {
                Ok(file) => !inside(file, project) ==> r == outside,
                Err(e) => if e.kind == IoErrorKind::NotFound {
                    !(tool is WriteFile) ==> r == Err::<Seq<char>, ToolFault>(
                        ToolFault::NotFound(path),
                    )
                } else {
                    r == Err::<Seq<char>, ToolFault>(ToolFault::Io(e))
                },
            }
        }),
{
    law_two_dots_climb(path);
}

/// A new file is written into the directory that its path leads to, under its own name, where no
/// link stands in its place.
pub proof fn law_new_files_are_written(
    w: World,
    root: Seq<char>,
    project: Seq<char>,
    path: Seq<char>,
    dir: Seq<char>,
    name: Seq<char>,
    content: Seq<char>,
    extra: Seq<PatternText>,
    below: spec_fn(Seq<char>) -> Seq<Seq<char>>,
)
    requires
        path.len() == 0 || path[0] != '/',
        !split(path, '/').contains(seq!['.', '.']),
        (w.canonicalize)(root) == Ok::<Seq<char>, IoFault>(project),
        (w.canonicalize)(path_join(project, path)) is Err,
        (w.canonicalize)(path_join(project, path))->Err_0.kind == IoErrorKind::NotFound,
        path_name(path_join(project, path)) == Some(name),
        path_parent(path_join(project, path)) is Some,
        (w.canonicalize)(path_parent(path_join(project, path))->0) == Ok::<Seq<char>, IoFault>(dir),
    ensures
        ({
            let r = tool_outcome(w, ToolText::WriteFile { path, content }, root, extra, below);
            &&& !inside(dir, project) ==> r == Err::<Seq<char>, ToolFault>(
                ToolFault::OutsideProject(path),
            )
            &&& inside(dir, project) && !((w.link)(path_join(dir, name)) matches Ok(Some(_)))
                ==> r == (match (w.write_file)(path_join(dir, name), content) {
                Ok(_) => Ok::<Seq<char>, ToolFault>(
                    "wrote "@ + dec(vstd::utf8::encode_utf8(content).len()) + " bytes to "@ + path,
                ),
                Err(e) => Err(ToolFault::Io(e)),
            })
        }),
{
    law_two_dots_climb(path);
    let full = path_join(project, path);
    let above = path_parent(full)->0;
    let none = Seq::<Seq<char>>::empty();
    let tail = none.push(name);
    let next = path_join(dir, name);
    assert(tail.last() == name);
    assert(tail.drop_last() =~= none);
    assert(stepped(dir, name) == next);
    if inside(dir, project) && !((w.link)(next) matches Ok(Some(_))) {
        assert(!strays(w, project, next, none, MAX_LINKS as nat));
        assert(!strays(w, project, dir, tail, MAX_LINKS as nat));
        assert(joined_back(next, none) == next);
        assert(joined_back(dir, tail) == next);
    }
    assert(climbed(w, project, path, full, none) == climbed(w, project, path, above, tail));
}

/// Where there is no link, no way leads out through one.
pub proof fn law_without_links_nothing_strays(
    w: World,
    project: Seq<char>,
    at: Seq<char>,
    tail: Seq<Seq<char>>,
    links: nat,
)
    requires
        forall|p: Seq<char>| !(#[trigger] (w.link)(p) matches Ok(Some(_))),
    ensures
        !strays(w, project, at, tail, links),
    decreases tail.len(),
{
    if tail.len() > 0 {
        law_without_links_nothing_strays(
            w,
            project,
            stepped(at, tail.last()),
            tail.drop_last(),
            links,
        );
    }
}

/// A command runs where the rules let it through, as the command that they make of it, and is
/// refused with the text that they refuse.
pub proof fn law_commands_go_by_the_rules(
    w: World,
    command: Seq<char>,
    root: Seq<char>,
    extra: Seq<PatternText>,
    below: spec_fn(Seq<char>) -> Seq<Seq<char>>,
)
    ensures
        ({
            let r = tool_outcome(w, ToolText::Exec { command }, root, extra, below);
            match command_rule(command, extra) {
                Ok(c) => r == exec_outcome((w.command)(c)),
                Err(refused) => r == Err::<Seq<char>, ToolFault>(
                    ToolFault::CommandNotAllowed(refused),
                ),
            }
        }),
{
}

/// What an edit writes is the text of the file with the new text in the place of the old one, and
/// the rest as it was.
pub proof fn law_edits_are_exact(
    w: World,
    path: Seq<char>,
    old_text: Seq<char>,
    new_text: Seq<char>,
    root: Seq<char>,
    extra: Seq<PatternText>,
    n: nat,
)
    requires
        old_text.len() > 0,
    ensures
        run_for(
            w,
            RunText::begun(ToolText::EditFile { path, old_text, new_text }, root, extra),
            n,
        ).action() matches ActionText::WriteFile(file, content) ==> exists|
            a: Seq<char>,
            b: Seq<char>,
        |
            {
                &&& (w.read_file)(file) == Ok::<Seq<char>, IoFault>(#[trigger] (a + old_text + b))
                &&& content == a + new_text + b
            },
{
    let tool = ToolText::EditFile { path, old_text, new_text };
    law_writes_are_exact(w, tool, root, extra, n);
    let action = run_for(w, RunText::begun(tool, root, extra), n).action();
    if action is WriteFile {
        let file = action->WriteFile_0;
        let content = action->WriteFile_1;
        let text = (w.read_file)(file)->Ok_0;
        law_edit_changes_one_place(path, old_text, new_text, text, content);
    }
}

/// A path that exists leads out of the project exactly where it lies outside of it. So does a path
/// that does not exist but whose directory does, seen from there, where no link stands in its
/// place. A link that may no longer be followed leads out.
pub proof fn law_ways_out(
    w: World,
    project: Seq<char>,
    existing: Seq<char>,
    dir: Seq<char>,
    tail: Seq<Seq<char>>,
    links: nat,
)
    ensures
        (w.canonicalize)(existing) == Ok::<Seq<char>, IoFault>(dir) ==> (leads_out(
            w,
            project,
            existing,
            seq![],
            links,
        ) <==> !inside(dir, project)),
        (w.canonicalize)(existing) is Err && path_parent(existing) is Some && (w.canonicalize)(
            path_parent(existing)->0,
        ) == Ok::<Seq<char>, IoFault>(dir) && !((w.link)(
            stepped(dir, components(existing).last()),
        ) matches Ok(Some(_))) ==> (leads_out(w, project, existing, seq![], links) <==> !inside(
            stepped(dir, components(existing).last()),
            project,
        )),
        tail.len() > 0 && ((w.link)(stepped(dir, tail.last())) matches Ok(Some(_))) ==> strays(
            w,
            project,
            dir,
            tail,
            0,
        ),
{
    let none = Seq::<Seq<char>>::empty();
    if (w.canonicalize)(existing) == Ok::<Seq<char>, IoFault>(dir) {
        assert(stepped_back(dir, none) == dir);
        assert(!strays(w, project, dir, none, links));
    }
    if (w.canonicalize)(existing) is Err && path_parent(existing) is Some {
        let above = path_parent(existing)->0;
        let c = components(existing).last();
        let one = none.push(c);
        assert(one.last() == c);
        assert(one.drop_last() =~= none);
        assert(leads_out(w, project, existing, none, links) == leads_out(
            w,
            project,
            above,
            one,
            links,
        ));
        let next = stepped(dir, c);
        assert(stepped_back(next, none) == next);
        assert(stepped_back(dir, one) == next);
        if !((w.link)(next) matches Ok(Some(_))) {
            assert(!strays(w, project, next, none, links));
            assert(strays(w, project, dir, one, links) == strays(w, project, next, none, links));
        }
    }
}

} // verus!
