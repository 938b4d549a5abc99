//! Which commands the `exec` tool may run.
//!
//! A command line is split at white space and never handed to a shell. `cargo` and read-only
//! `git` commands are built in; an allow list adds further programs. Every argument is held to
//! a fixed set of characters, so no shell syntax gets through.

use vstd::prelude::*;

use crate::error::ToolError;
use crate::number::{dec, dec_usize};
use crate::text::{
    all_blank, cat2, cat3, chars_of, debug_text, find_char_from, law_split_concat, law_trimming,
    law_words, law_words_apart, lemma_texts_push, lemma_trimmed_split, lemma_trimmed_start_len,
    no_blank, opt_text, owned_all, quoted, same, split, split_at_char, split_words, starts_with,
    texts, trim, trimmed, trimmed_end, trimmed_start, white_space, words,
};

verus! {

// ---------------------------------------------------------------------------------------------
// Arguments
// ---------------------------------------------------------------------------------------------

/// The characters that an argument may hold: ASCII letters and digits and `- _ . / = : + # ,`.
pub open spec fn arg_char(c: char) -> bool {
    let n = c as u32;
    ||| 'a' as u32 <= n <= 'z' as u32
    ||| 'A' as u32 <= n <= 'Z' as u32
    ||| '0' as u32 <= n <= '9' as u32
    ||| c == '-'
    ||| c == '_'
    ||| c == '.'
    ||| c == '/'
    ||| c == '='
    ||| c == ':'
    ||| c == '+'
    ||| c == '#'
    ||| c == ','
}

/// An argument is not empty and holds only characters of the fixed set.
pub open spec fn valid_arg(s: Seq<char>) -> bool {
    s.len() > 0 && forall|i: int| 0 <= i < s.len() ==> arg_char(#[trigger] s[i])
}

fn is_arg_char(c: char) -> (r: bool)
    ensures
        r == arg_char(c),
{
    let n: u32 = c as u32;
    ('a' as u32 <= n && n <= 'z' as u32) || ('A' as u32 <= n && n <= 'Z' as u32) || ('0' as u32
        <= n && n <= '9' as u32) || c == '-' || c == '_' || c == '.' || c == '/' || c == '=' || c
        == ':' || c == '+' || c == '#' || c == ','
}

/// Whether `arg` may stand in a command.
pub fn is_valid_arg(arg: &str) -> (r: bool)
    ensures
        r == valid_arg(arg@),
{
    let cs = chars_of(arg);
    let mut i: usize = 0;
    while i < cs.len()
        invariant
            i <= cs@.len(),
            cs@ == arg@,
            forall|j: int| 0 <= j < i ==> arg_char(#[trigger] cs@[j]),
        decreases cs@.len() - i,
    {
        if !is_arg_char(cs[i]) {
            return false;
        }
        i = i + 1;
    }
    cs.len() > 0
}

/// `arg` is the long option `opt`, with or without a value behind an equals sign.
pub open spec fn long_option(arg: Seq<char>, opt: Seq<char>) -> bool {
    arg == opt || (opt + "="@).is_prefix_of(arg)
}

/// The options of `git` that are refused: those that move the repository or the work tree,
/// inject configuration, write files, run other programs or start a pager.
pub open spec fn forbidden_git_option(arg: Seq<char>) -> bool {
    ||| arg == "-C"@
    ||| arg == "-c"@
    ||| long_option(arg, "--git-dir"@)
    ||| long_option(arg, "--work-tree"@)
    ||| long_option(arg, "--namespace"@)
    ||| long_option(arg, "--super-prefix"@)
    ||| long_option(arg, "--config-env"@)
    ||| long_option(arg, "--output"@)
    ||| long_option(arg, "--ext-diff"@)
    ||| long_option(arg, "--textconv"@)
    ||| long_option(arg, "--paginate"@)
}

fn is_long_option(arg: &str, opt: &str) -> (r: bool)
    ensures
        r == long_option(arg@, opt@),
{
    same(arg, opt) || starts_with(arg, cat2(opt, "=").as_str())
}

/// Whether `arg` is one of the refused options of `git`.
pub fn is_forbidden_git_option(arg: &str) -> (r: bool)
    ensures
        r == forbidden_git_option(arg@),
{
    same(arg, "-C") || same(arg, "-c") || is_long_option(arg, "--git-dir") || is_long_option(
        arg,
        "--work-tree",
    ) || is_long_option(arg, "--namespace") || is_long_option(arg, "--super-prefix")
        || is_long_option(arg, "--config-env") || is_long_option(arg, "--output") || is_long_option(
        arg,
        "--ext-diff",
    ) || is_long_option(arg, "--textconv") || is_long_option(arg, "--paginate")
}

// ---------------------------------------------------------------------------------------------
// The allow list
// ---------------------------------------------------------------------------------------------

/// One entry of the allow list: a program, or a program and its first argument.
#[derive(Clone, Debug, PartialEq, Eq)]
pub struct CmdPattern {
    /// The bare name of a program, found through `PATH`.
    pub program: String,
    /// Where there is one, only `program subcommand ...` is let through.
    pub subcommand: Option<String>,
}

/// A [`CmdPattern`] as the contracts see it.
pub struct PatternText {
    pub program: Seq<char>,
    pub subcommand: Option<Seq<char>>,
}

impl View for CmdPattern {
    type V = PatternText;

    open spec fn view(&self) -> PatternText {
        PatternText { program: self.program@, subcommand: opt_text(self.subcommand) }
    }
}

/// What each entry of an allow list holds.
pub open spec fn patterns(v: Seq<CmdPattern>) -> Seq<PatternText> {
    v.map_values(|p: CmdPattern| p@)
}

/// What `exec` lets through besides the built-in commands.
#[derive(Clone, Debug, PartialEq, Eq)]
pub struct ExecPolicy {
    pub extra_allow: Vec<CmdPattern>,
}

impl Default for ExecPolicy {
    /// Nothing besides the built-in commands.
    fn default() -> (r: ExecPolicy)
        ensures
            r.extra_allow@ == Seq::<CmdPattern>::empty(),
    {
        ExecPolicy { extra_allow: Vec::new() }
    }
}

/// What one item of the allow list text means: an entry, nothing where it is blank, or the
/// complaint about it.
pub open spec fn allow_item(raw: Seq<char>) -> Result<Option<PatternText>, Seq<char>> {
    let item = trimmed(raw);
    let tokens = words(item);
    if item.len() == 0 {
        Ok(None)
    } else if tokens.len() > 2 {
        Err(
            debug_text(item) + " has "@ + dec(tokens.len())
                + " tokens (expected a program name, or \"program subcommand\")"@,
        )
    } else if tokens[0].contains('/') {
        Err(
            debug_text(tokens[0])
                + " contains '/' — program must be a bare command name resolved via PATH"@,
        )
    } else if !valid_arg(tokens[0]) {
        Err(debug_text(tokens[0]) + " contains invalid characters"@)
    } else if tokens.len() == 2 && !valid_arg(tokens[1]) {
        Err(debug_text(tokens[1]) + " contains invalid characters"@)
    } else {
        Ok(
            Some(
                PatternText {
                    program: tokens[0],
                    subcommand: if tokens.len() == 2 {
                        Some(tokens[1])
                    } else {
                        None
                    },
                },
            ),
        )
    }
}

/// The entries of the items in order, or the complaint about the first bad one.
pub open spec fn allow_items(items: Seq<Seq<char>>) -> Result<Seq<PatternText>, Seq<char>>
    decreases items.len(),
{
    if items.len() == 0 {
        Ok(seq![])
    } else {
        match allow_item(items[0]) {
            Err(e) => Err(e),
            Ok(None) => allow_items(items.skip(1)),
            Ok(Some(p)) => match allow_items(items.skip(1)) {
                Err(e) => Err(e),
                Ok(ps) => Ok(seq![p] + ps),
            },
        }
    }
}

/// What the allow list text means: its items stand between commas.
pub open spec fn exec_allow(raw: Seq<char>) -> Result<Seq<PatternText>, Seq<char>> {
    allow_items(split(raw, ','))
}

/// Text that is not blank has a word in it.
pub proof fn lemma_some_word(s: Seq<char>)
    requires
        trimmed(s).len() > 0,
    ensures
        words(trimmed(s)).len() > 0,
{
    let t = trimmed_start(s);
    lemma_trimmed_start_len(s);
    lemma_trimmed_end_prefix(t);
    let u = trimmed_end(t);
    assert(u[0] == t[0]);
    assert(trimmed_start(u) == u);
}

proof fn lemma_trimmed_end_prefix(s: Seq<char>)
    ensures
        trimmed_end(s).len() <= s.len(),
        trimmed_end(s) == s.take(trimmed_end(s).len() as int),
    decreases s.len(),
{
    if s.len() > 0 && white_space(s.last()) {
        lemma_trimmed_end_prefix(s.drop_last());
        assert(s.drop_last().take(trimmed_end(s).len() as int) =~= s.take(
            trimmed_end(s).len() as int,
        ));
    } else {
        assert(s.take(s.len() as int) =~= s);
    }
}

fn parse_allow_item(raw: &str) -> (r: Result<Option<CmdPattern>, String>)
    ensures
        match r {
            Ok(Some(p)) => allow_item(raw@) == Ok::<Option<PatternText>, Seq<char>>(Some(p@)),
            Ok(None) => allow_item(raw@) == Ok::<Option<PatternText>, Seq<char>>(None),
            Err(e) => allow_item(raw@) == Err::<Option<PatternText>, Seq<char>>(e@),
        },
{
    let item = trim(raw);
    if item.as_str().is_empty() {
        return Ok(None);
    }
    proof {
        lemma_some_word(raw@);
    }
    let tokens = split_words(item.as_str());
    proof {
        assert(texts(tokens@).len() == tokens@.len());
        assert(forall|i: int| 0 <= i < tokens@.len() ==> texts(tokens@)[i] == tokens@[i]@);
    }
    if tokens.len() > 2 {
        let mut e = cat3(quoted(item.as_str()).as_str(), " has ", dec_usize(tokens.len()).as_str());
        e.append(" tokens (expected a program name, or \"program subcommand\")");
        return Err(e);
    }
    let program = tokens[0].as_str();
    let cs = chars_of(program);
    let slash = find_char_from(cs.as_slice(), '/', 0);
    proof {
        if slash < cs@.len() {
            assert(program@.contains('/')) by {
                assert(program@[slash as int] == '/');
            }
        }
    }
    if slash < cs.len() {
        return Err(
            cat2(
                quoted(program).as_str(),
                " contains '/' — program must be a bare command name resolved via PATH",
            ),
        );
    }
    if !is_valid_arg(program) {
        return Err(cat2(quoted(program).as_str(), " contains invalid characters"));
    }
    if tokens.len() == 2 {
        let sub = tokens[1].as_str();
        if !is_valid_arg(sub) {
            return Err(cat2(quoted(sub).as_str(), " contains invalid characters"));
        }
        return Ok(
            Some(CmdPattern { program: program.to_owned(), subcommand: Some(sub.to_owned()) }),
        );
    }
    Ok(Some(CmdPattern { program: program.to_owned(), subcommand: None }))
}

/// Reads an allow list: items between commas, each a program or a program and a subcommand.
/// Blank items are skipped; the first bad item is complained about.
pub fn parse_exec_allow(raw: &str) -> (r: Result<Vec<CmdPattern>, String>)
    ensures
        match r {
            Ok(ps) => exec_allow(raw@) == Ok::<Seq<PatternText>, Seq<char>>(patterns(ps@)),
            Err(e) => exec_allow(raw@) == Err::<Seq<PatternText>, Seq<char>>(e@),
        },
{
    let items = split_at_char(raw, ',');
    let ghost all = texts(items@);
    let mut found: Vec<CmdPattern> = Vec::new();
    let mut i: usize = 0;
    proof {
        assert(all.skip(0) =~= all);
        assert forall|ps: Seq<PatternText>| #[trigger] (patterns(found@) + ps) == ps by {
            assert(patterns(found@) + ps =~= ps);
        }
    }
    while i < items.len()
        invariant
            i <= items@.len(),
            all == texts(items@),
            all == split(raw@, ','),
            match allow_items(all.skip(i as int)) {
                Ok(ps) => allow_items(all) == Ok::<Seq<PatternText>, Seq<char>>(
                    patterns(found@) + ps,
                ),
                Err(e) => allow_items(all) == Err::<Seq<PatternText>, Seq<char>>(e),
            },
        decreases items@.len() - i,
    {
        proof {
            assert(all.skip(i as int)[0] == items@[i as int]@);
            assert(all.skip(i as int).skip(1) =~= all.skip(i + 1));
        }
        match parse_allow_item(items[i].as_str()) {
            Err(e) => {
                return Err(e);
            },
            Ok(None) => {},
            Ok(Some(p)) => {
                let ghost before = found@;
                found.push(p);
                proof {
                    assert(patterns(found@) =~= patterns(before).push(p@));
                    match allow_items(all.skip(i + 1)) {
                        Ok(ps) => {
                            assert(patterns(before) + (seq![p@] + ps) =~= patterns(found@) + ps);
                        },
                        Err(e) => {},
                    }
                }
            },
        }
        i = i + 1;
    }
    proof {
        assert(all.skip(i as int) =~= seq![]);
        assert(patterns(found@) + seq![] =~= patterns(found@));
    }
    Ok(found)
}

// ---------------------------------------------------------------------------------------------
// Commands
// ---------------------------------------------------------------------------------------------

/// A command that may run: a program and its arguments, free of shell syntax.
#[derive(Clone, Debug, PartialEq, Eq)]
pub struct ExecCommand {
    /// The bare name of the program, found through `PATH`.
    pub program: String,
    pub args: Vec<String>,
}

/// An [`ExecCommand`] as the contracts see it.
pub struct CommandText {
    pub program: Seq<char>,
    pub args: Seq<Seq<char>>,
}

impl View for ExecCommand {
    type V = CommandText;

    open spec fn view(&self) -> CommandText {
        CommandText { program: self.program@, args: texts(self.args@) }
    }
}

/// The first argument that may not stand in a command; of `git`, the refused options are such
/// arguments too.
pub open spec fn first_refused(args: Seq<Seq<char>>, git: bool) -> Option<Seq<char>>
    decreases args.len(),
{
    if args.len() == 0 {
        None
    } else if !valid_arg(args[0]) || (git && forbidden_git_option(args[0])) {
        Some(args[0])
    } else {
        first_refused(args.skip(1), git)
    }
}

/// The subcommands of `cargo` that take any arguments.
pub open spec fn cargo_subcommand(sub: Seq<char>) -> bool {
    sub == "check"@ || sub == "build"@ || sub == "test"@ || sub == "clippy"@
}

/// The subcommands of `git` that only read.
pub open spec fn git_subcommand(sub: Seq<char>) -> bool {
    sub == "status"@ || sub == "diff"@ || sub == "log"@ || sub == "show"@
}

/// What becomes of a `cargo` command: the command, or the text that is not allowed.
pub open spec fn cargo_rule(command: Seq<char>, tokens: Seq<Seq<char>>) -> Result<
    CommandText,
    Seq<char>,
> {
    if tokens.len() < 2 {
        Err(command)
    } else if first_refused(tokens.skip(2), false) is Some {
        Err(first_refused(tokens.skip(2), false)->0)
    } else if cargo_subcommand(tokens[1]) || (tokens[1] == "fmt"@ && tokens.skip(2)
        == seq!["--check"@]) {
        Ok(CommandText { program: "cargo"@, args: tokens.skip(1) })
    } else {
        Err(command)
    }
}

/// What becomes of a read-only `git` command: it runs without a pager.
pub open spec fn git_rule(tokens: Seq<Seq<char>>) -> Result<CommandText, Seq<char>> {
    match first_refused(tokens.skip(2), true) {
        Some(arg) => Err(arg),
        None => Ok(
            CommandText { program: "git"@, args: seq!["--no-pager"@] + tokens.skip(1) },
        ),
    }
}

/// Whether an entry of the allow list lets the command through.
pub open spec fn pattern_matches(p: PatternText, tokens: Seq<Seq<char>>) -> bool {
    &&& p.program == tokens[0]
    &&& p.subcommand matches Some(sub) ==> tokens.len() >= 2 && tokens[1] == sub
}

/// What becomes of a command that no built-in rule settles: the first entry of the allow list
/// that fits lets it through.
pub open spec fn extra_rule(tokens: Seq<Seq<char>>, extra: Seq<PatternText>) -> Result<
    CommandText,
    Seq<char>,
>
    decreases extra.len(),
{
    if extra.len() == 0 {
        Err(tokens[0])
    } else if pattern_matches(extra[0], tokens) {
        match first_refused(tokens.skip(1), false) {
            Some(arg) => Err(arg),
            None => Ok(CommandText { program: tokens[0], args: tokens.skip(1) }),
        }
    } else {
        extra_rule(tokens, extra.skip(1))
    }
}

/// What becomes of a command line under an allow list: the command that runs, or the text that
/// is not allowed.
pub open spec fn command_rule(command: Seq<char>, extra: Seq<PatternText>) -> Result<
    CommandText,
    Seq<char>,
> {
    let tokens = words(command);
    if tokens.len() == 0 {
        Err(command)
    } else if tokens[0] == "cargo"@ {
        cargo_rule(command, tokens)
    } else if tokens[0] == "git"@ && tokens.len() >= 2 && git_subcommand(tokens[1]) {
        git_rule(tokens)
    } else {
        extra_rule(tokens, extra)
    }
}

/// The result of a rule as the functions below return it.
pub open spec fn is_outcome(
    r: Result<ExecCommand, ToolError>,
    rule: Result<CommandText, Seq<char>>,
) -> bool {
    match r {
        Ok(c) => rule == Ok::<CommandText, Seq<char>>(c@),
        Err(e) => e@ is CommandNotAllowed && rule == Err::<CommandText, Seq<char>>(
            e@->CommandNotAllowed_0,
        ),
    }
}

/// Copies the tokens from `from` on, or reports the first that may not stand in a command.
fn checked_args(tokens: &Vec<String>, from: usize, git: bool) -> (r: Result<Vec<String>, ToolError>)
    requires
        from <= tokens@.len(),
    ensures
        match r {
            Ok(args) => texts(args@) == texts(tokens@).skip(from as int) && first_refused(
                texts(tokens@).skip(from as int),
                git,
            ) is None,
            Err(e) => e@ is CommandNotAllowed && first_refused(
                texts(tokens@).skip(from as int),
                git,
            ) == Some(e@->CommandNotAllowed_0),
        },
{
    let ghost all = texts(tokens@);
    let mut args: Vec<String> = Vec::new();
    let mut i: usize = from;
    proof {
        assert(texts(args@) =~= all.subrange(from as int, from as int));
    }
    while i < tokens.len()
        invariant
            from <= i <= tokens@.len(),
            all == texts(tokens@),
            texts(args@) == all.subrange(from as int, i as int),
            first_refused(all.skip(i as int), git) == first_refused(all.skip(from as int), git),
        decreases tokens@.len() - i,
    {
        let t = tokens[i].as_str();
        proof {
            assert(all.skip(i as int)[0] == t@);
            assert(all.skip(i as int).skip(1) =~= all.skip(i + 1));
        }
        if !is_valid_arg(t) || (git && is_forbidden_git_option(t)) {
            return Err(ToolError::CommandNotAllowed(t.to_owned()));
        }
        let ghost before = args@;
        args.push(t.to_owned());
        proof {
            lemma_texts_push(before, args@.last());
            assert(all.subrange(from as int, i + 1) =~= all.subrange(from as int, i as int).push(
                t@,
            ));
        }
        i = i + 1;
    }
    proof {
        assert(all.subrange(from as int, i as int) =~= all.skip(from as int));
    }
    Ok(args)
}

fn is_cargo_subcommand(sub: &str) -> (r: bool)
    ensures
        r == cargo_subcommand(sub@),
{
    same(sub, "check") || same(sub, "build") || same(sub, "test") || same(sub, "clippy")
}

fn is_git_subcommand(sub: &str) -> (r: bool)
    ensures
        r == git_subcommand(sub@),
{
    same(sub, "status") || same(sub, "diff") || same(sub, "log") || same(sub, "show")
}

/// A command of `program` with the given words before `args`.
fn command_of(program: &str, first: Vec<String>, args: Vec<String>) -> (r: ExecCommand)
    ensures
        r@ == (CommandText { program: program@, args: texts(first@) + texts(args@) }),
{
    let ghost given = texts(first@) + texts(args@);
    let mut all: Vec<String> = first;
    let mut rest: Vec<String> = args;
    all.append(&mut rest);
    proof {
        assert(texts(all@) =~= given);
    }
    ExecCommand { program: program.to_owned(), args: all }
}

fn parse_cargo(command: &str, tokens: &Vec<String>) -> (r: Result<ExecCommand, ToolError>)
    requires
        tokens@.len() > 0,
    ensures
        is_outcome(r, cargo_rule(command@, texts(tokens@))),
{
    if tokens.len() < 2 {
        return Err(ToolError::CommandNotAllowed(command.to_owned()));
    }
    let args = match checked_args(tokens, 2, false) {
        Ok(args) => args,
        Err(e) => {
            return Err(e);
        },
    };
    let sub = tokens[1].as_str();
    let ghost given = texts(tokens@);
    let fmt_check = same(sub, "fmt") && args.len() == 1 && same(args[0].as_str(), "--check");
    proof {
        assert(texts(args@).len() == args@.len());
        if fmt_check {
            assert(texts(args@)[0] == args@[0]@);
            assert(texts(args@) =~= seq!["--check"@]);
        } else if texts(args@) == seq!["--check"@] {
            assert(texts(args@)[0] == args@[0]@);
            assert(sub@ != "fmt"@);
        }
    }
    if !is_cargo_subcommand(sub) && !fmt_check {
        return Err(ToolError::CommandNotAllowed(command.to_owned()));
    }
    let mut first: Vec<String> = Vec::new();
    first.push(sub.to_owned());
    proof {
        assert(texts(first@) + texts(args@) =~= given.skip(1));
    }
    Ok(command_of("cargo", first, args))
}

/// Reads a command of `git`: `None` where it is none of the subcommands that only read.
fn parse_read_only_git(tokens: &Vec<String>) -> (r: Result<Option<ExecCommand>, ToolError>)
    ensures
        tokens@.len() < 2 || !git_subcommand(texts(tokens@)[1]) <==> r == Ok::<
            Option<ExecCommand>,
            ToolError,
        >(None),
        tokens@.len() >= 2 && git_subcommand(texts(tokens@)[1]) ==> match r {
            Ok(c) => c is Some && is_outcome(Ok(c->0), git_rule(texts(tokens@))),
            Err(e) => is_outcome(Err(e), git_rule(texts(tokens@))),
        },
{
    if tokens.len() < 2 {
        return Ok(None);
    }
    let sub = tokens[1].as_str();
    if !is_git_subcommand(sub) {
        return Ok(None);
    }
    let args = match checked_args(tokens, 2, true) {
        Ok(args) => args,
        Err(e) => {
            return Err(e);
        },
    };
    let ghost given = texts(tokens@);
    let mut first: Vec<String> = Vec::new();
    first.push("--no-pager".to_owned());
    first.push(sub.to_owned());
    proof {
        assert(texts(first@) + texts(args@) =~= seq!["--no-pager"@] + given.skip(1));
    }
    Ok(Some(command_of("git", first, args)))
}

fn matches_pattern(p: &CmdPattern, tokens: &Vec<String>) -> (r: bool)
    requires
        tokens@.len() > 0,
    ensures
        r == pattern_matches(p@, texts(tokens@)),
{
    proof {
        assert(texts(tokens@)[0] == tokens@[0]@);
    }
    if !same(p.program.as_str(), tokens[0].as_str()) {
        return false;
    }
    match &p.subcommand {
        Some(sub) => tokens.len() >= 2 && same(tokens[1].as_str(), sub.as_str()),
        None => true,
    }
}

fn parse_extra(tokens: &Vec<String>, extra: &[CmdPattern]) -> (r: Result<ExecCommand, ToolError>)
    requires
        tokens@.len() > 0,
    ensures
        is_outcome(r, extra_rule(texts(tokens@), patterns(extra@))),
{
    let ghost all = texts(tokens@);
    let ghost list = patterns(extra@);
    let mut i: usize = 0;
    proof {
        assert(list.skip(0) =~= list);
        assert(all[0] == tokens@[0]@);
    }
    while i < extra.len()
        invariant
            i <= extra@.len(),
            tokens@.len() > 0,
            all == texts(tokens@),
            all[0] == tokens@[0]@,
            list == patterns(extra@),
            extra_rule(all, list.skip(i as int)) == extra_rule(all, list),
        decreases extra@.len() - i,
    {
        proof {
            assert(list.skip(i as int)[0] == extra@[i as int]@);
            assert(list.skip(i as int).skip(1) =~= list.skip(i + 1));
        }
        if matches_pattern(&extra[i], tokens) {
            let args = match checked_args(tokens, 1, false) {
                Ok(args) => args,
                Err(e) => {
                    return Err(e);
                },
            };
            return Ok(ExecCommand { program: extra[i].program.clone(), args });
        }
        i = i + 1;
    }
    proof {
        assert(list.skip(i as int) =~= seq![]);
    }
    Err(ToolError::CommandNotAllowed(tokens[0].clone()))
}

impl ExecCommand {
    /// A copy of the command.
    pub fn copy(&self) -> (r: ExecCommand)
        ensures
            r@ == self@,
    {
        ExecCommand { program: self.program.clone(), args: owned_all(self.args.as_slice()) }
    }

    /// Reads a command line with no allow list besides the built-in commands.
    pub fn parse(command: &str) -> (r: Result<ExecCommand, ToolError>)
        ensures
            is_outcome(r, command_rule(command@, seq![])),
    {
        let none: Vec<CmdPattern> = Vec::new();
        proof {
            assert(patterns(none@) =~= seq![]);
        }
        ExecCommand::parse_with(command, none.as_slice())
    }

    /// Reads a command line and holds it to the built-in rules and the allow list.
    ///
    /// - `cargo check`, `build`, `test` and `clippy` take any arguments, `cargo fmt` only
    ///   `--check`.
    /// - `git status`, `diff`, `log` and `show` run with `--no-pager` and without the refused
    ///   options.
    /// - Anything else has to fit an entry of `extra`.
    pub fn parse_with(command: &str, extra: &[CmdPattern]) -> (r: Result<ExecCommand, ToolError>)
        ensures
            is_outcome(r, command_rule(command@, patterns(extra@))),
    {
        let tokens = split_words(command);
        proof {
            assert(texts(tokens@).len() == tokens@.len());
        }
        if tokens.len() == 0 {
            return Err(ToolError::CommandNotAllowed(command.to_owned()));
        }
        proof {
            assert(texts(tokens@)[0] == tokens@[0]@);
        }
        if same(tokens[0].as_str(), "cargo") {
            return parse_cargo(command, &tokens);
        }
        if same(tokens[0].as_str(), "git") {
            match parse_read_only_git(&tokens) {
                Ok(Some(cmd)) => {
                    return Ok(cmd);
                },
                Ok(None) => {},
                Err(e) => {
                    return Err(e);
                },
            }
        }
        parse_extra(&tokens, extra)
    }
}

// ---------------------------------------------------------------------------------------------
// Laws
// ---------------------------------------------------------------------------------------------

proof fn lemma_none_refused(args: Seq<Seq<char>>, git: bool)
    requires
        first_refused(args, git) is None,
    ensures
        forall|i: int|
            0 <= i < args.len() ==> valid_arg(#[trigger] args[i]) && !(git && forbidden_git_option(
                args[i],
            )),
    decreases args.len(),
{
    if args.len() > 0 {
        let rest = args.skip(1);
        lemma_none_refused(rest, git);
        assert forall|i: int| 0 <= i < args.len() implies valid_arg(#[trigger] args[i]) && !(git
            && forbidden_git_option(args[i])) by {
            if i > 0 {
                assert(rest[i - 1] == args[i]);
            }
        }
    }
}

proof fn lemma_extra_rule(tokens: Seq<Seq<char>>, extra: Seq<PatternText>)
    requires
        tokens.len() > 0,
    ensures
        extra_rule(tokens, extra) matches Ok(c) ==> {
            &&& c.program == tokens[0]
            &&& c.args == tokens.skip(1)
            &&& first_refused(tokens.skip(1), false) is None
            &&& exists|k: int| 0 <= k < extra.len() && pattern_matches(#[trigger] extra[k], tokens)
        },
    decreases extra.len(),
{
    if extra.len() > 0 {
        if pattern_matches(extra[0], tokens) {
        } else {
            lemma_extra_rule(tokens, extra.skip(1));
            if extra_rule(tokens, extra) is Ok {
                let k = choose|k: int|
                    0 <= k < extra.skip(1).len() && pattern_matches(
                        #[trigger] extra.skip(1)[k],
                        tokens,
                    );
                assert(extra[k + 1] == extra.skip(1)[k]);
            }
        }
    }
}

proof fn lemma_fixed_words_valid()
    ensures
        valid_arg("check"@),
        valid_arg("build"@),
        valid_arg("test"@),
        valid_arg("clippy"@),
        valid_arg("fmt"@),
        valid_arg("status"@),
        valid_arg("diff"@),
        valid_arg("log"@),
        valid_arg("show"@),
        valid_arg("--no-pager"@),
{
    reveal_strlit("check");
    reveal_strlit("build");
    reveal_strlit("test");
    reveal_strlit("clippy");
    reveal_strlit("fmt");
    reveal_strlit("status");
    reveal_strlit("diff");
    reveal_strlit("log");
    reveal_strlit("show");
    reveal_strlit("--no-pager");
}

/// No command that may run has an argument outside the fixed set of characters: quotes, `;`,
/// `&`, `|`, `<`, `>`, `$`, backquotes, `*` and white space never reach a program.
pub proof fn law_allowed_args_are_plain(command: Seq<char>, extra: Seq<PatternText>)
    ensures
        command_rule(command, extra) matches Ok(c) ==> forall|i: int|
            0 <= i < c.args.len() ==> valid_arg(#[trigger] c.args[i]),
{
    let tokens = words(command);
    if command_rule(command, extra) is Ok {
        let c = command_rule(command, extra)->Ok_0;
        lemma_fixed_words_valid();
        if tokens[0] == "cargo"@ {
            lemma_none_refused(tokens.skip(2), false);
            assert forall|i: int| 0 <= i < c.args.len() implies valid_arg(#[trigger] c.args[i]) by {
                if i > 0 {
                    assert(c.args[i] == tokens.skip(2)[i - 1]);
                }
            }
        } else if tokens[0] == "git"@ && tokens.len() >= 2 && git_subcommand(tokens[1]) {
            lemma_none_refused(tokens.skip(2), true);
            assert forall|i: int| 0 <= i < c.args.len() implies valid_arg(#[trigger] c.args[i]) by {
                if i > 1 {
                    assert(c.args[i] == tokens.skip(2)[i - 2]);
                }
            }
        } else {
            lemma_extra_rule(tokens, extra);
            lemma_none_refused(tokens.skip(1), false);
        }
    }
}

/// The program of a command that may run is the first word of the command line, and it is
/// `cargo`, `git` or a program of the allow list.
pub proof fn law_allowed_program(command: Seq<char>, extra: Seq<PatternText>)
    ensures
        command_rule(command, extra) matches Ok(c) ==> {
            &&& words(command).len() > 0
            &&& c.program == words(command)[0]
            &&& c.program == "cargo"@ || c.program == "git"@ || exists|k: int|
                0 <= k < extra.len() && (#[trigger] extra[k]).program == c.program
        },
{
    let tokens = words(command);
    if command_rule(command, extra) is Ok && tokens[0] != "cargo"@ && !(tokens[0] == "git"@
        && tokens.len() >= 2 && git_subcommand(tokens[1])) {
        lemma_extra_rule(tokens, extra);
        let k = choose|k: int|
            0 <= k < extra.len() && pattern_matches(#[trigger] extra[k], tokens);
        assert(extra[k].program == tokens[0]);
    }
}

/// A read-only `git` command runs without a pager, and with none of the refused options; no
/// allow list changes that.
pub proof fn law_git_is_read_only(command: Seq<char>, extra: Seq<PatternText>)
    requires
        words(command).len() >= 2,
        words(command)[0] == "git"@,
        git_subcommand(words(command)[1]),
    ensures
        command_rule(command, extra) == command_rule(command, seq![]),
        command_rule(command, extra) matches Ok(c) ==> {
            &&& c.program == "git"@
            &&& c.args.len() >= 2
            &&& c.args[0] == "--no-pager"@
            &&& c.args.skip(1) == words(command).skip(1)
            &&& forall|i: int| 2 <= i < c.args.len() ==> !forbidden_git_option(#[trigger] c.args[i])
        },
{
    let tokens = words(command);
    reveal_strlit("git");
    reveal_strlit("cargo");
    assert("git"@.len() != "cargo"@.len());
    if command_rule(command, extra) is Ok {
        let c = command_rule(command, extra)->Ok_0;
        lemma_none_refused(tokens.skip(2), true);
        assert(c.args.skip(1) =~= tokens.skip(1));
        assert forall|i: int| 2 <= i < c.args.len() implies !forbidden_git_option(
            #[trigger] c.args[i],
        ) by {
            assert(c.args[i] == tokens.skip(2)[i - 2]);
        }
    }
}

/// The allow list only adds: `cargo` is settled without it, and what runs without it runs the
/// same way with it.
pub proof fn law_allow_list_only_adds(command: Seq<char>, extra: Seq<PatternText>)
    ensures
        words(command).len() > 0 && words(command)[0] == "cargo"@ ==> command_rule(command, extra)
            == command_rule(command, seq![]),
        command_rule(command, seq![]) is Ok ==> command_rule(command, extra) == command_rule(
            command,
            seq![],
        ),
{
    if words(command).len() > 0 {
        lemma_extra_rule(words(command), seq![]);
    }
}

/// Every entry of an allow list that was read is a bare program name and, where there is one, a
/// subcommand, both free of shell syntax.
pub proof fn law_allow_list_entries(raw: Seq<char>)
    ensures
        exec_allow(raw) matches Ok(ps) ==> forall|i: int|
            0 <= i < ps.len() ==> valid_arg((#[trigger] ps[i]).program) && !ps[i].program.contains(
                '/',
            ) && (ps[i].subcommand matches Some(sub) ==> valid_arg(sub)),
{
    lemma_allow_items(split(raw, ','));
}

proof fn lemma_allow_items(items: Seq<Seq<char>>)
    ensures
        allow_items(items) matches Ok(ps) ==> forall|i: int|
            0 <= i < ps.len() ==> valid_arg((#[trigger] ps[i]).program) && !ps[i].program.contains(
                '/',
            ) && (ps[i].subcommand matches Some(sub) ==> valid_arg(sub)),
    decreases items.len(),
{
    if items.len() > 0 {
        lemma_allow_items(items.skip(1));
    }
}

proof fn lemma_first_refused_first(args: Seq<Seq<char>>, git: bool)
    ensures
        first_refused(args, git) is None <==> forall|i: int|
            0 <= i < args.len() ==> valid_arg(#[trigger] args[i]) && !(git && forbidden_git_option(
                args[i],
            )),
        first_refused(args, git) matches Some(arg) ==> exists|i: int|
            {
                &&& 0 <= i < args.len()
                &&& #[trigger] args[i] == arg
                &&& !valid_arg(arg) || (git && forbidden_git_option(arg))
                &&& forall|j: int|
                    0 <= j < i ==> valid_arg(#[trigger] args[j]) && !(git && forbidden_git_option(
                        args[j],
                    ))
            },
    decreases args.len(),
{
    if args.len() > 0 && valid_arg(args[0]) && !(git && forbidden_git_option(args[0])) {
        let rest = args.skip(1);
        lemma_first_refused_first(rest, git);
        match first_refused(rest, git) {
            None => {
                assert forall|i: int| 0 <= i < args.len() implies valid_arg(#[trigger] args[i]) && !(
                git && forbidden_git_option(args[i])) by {
                    if i > 0 {
                        assert(args[i] == rest[i - 1]);
                    }
                }
            },
            Some(arg) => {
                let i = choose|i: int|
                    {
                        &&& 0 <= i < rest.len()
                        &&& #[trigger] rest[i] == arg
                        &&& !valid_arg(arg) || (git && forbidden_git_option(arg))
                        &&& forall|j: int|
                            0 <= j < i ==> valid_arg(#[trigger] rest[j]) && !(git
                                && forbidden_git_option(rest[j]))
                    };
                assert(args[i + 1] == rest[i]);
                assert forall|j: int| 0 <= j < i + 1 implies valid_arg(#[trigger] args[j]) && !(git
                    && forbidden_git_option(args[j])) by {
                    if j > 0 {
                        assert(args[j] == rest[j - 1]);
                    }
                }
            },
        }
    }
}

/// A `cargo` command that is let through runs `cargo` with all the words that follow it, none
/// added and none left out. It is let through exactly where `check`, `build`, `test` or `clippy`
/// stands behind `cargo` with plain arguments, or `fmt` with `--check` alone. Where an argument is
/// not plain, the first such is what is refused, else the whole command.
pub proof fn law_cargo_runs_as_written(command: Seq<char>, extra: Seq<PatternText>)
    requires
        words(command).len() > 0,
        words(command)[0] == "cargo"@,
    ensures
        ({
            let tokens = words(command);
            let plain = forall|i: int| 2 <= i < tokens.len() ==> valid_arg(#[trigger] tokens[i]);
            &&& command_rule(command, extra) matches Ok(c) ==> c.program == "cargo"@ && c.args
                == tokens.skip(1)
            &&& command_rule(command, extra) is Ok <==> tokens.len() >= 2 && plain && (tokens[1]
                == "check"@ || tokens[1] == "build"@ || tokens[1] == "test"@ || tokens[1]
                == "clippy"@ || (tokens[1] == "fmt"@ && tokens.len() == 3 && tokens[2]
                == "--check"@))
            &&& command_rule(command, extra) matches Err(refused) ==> if plain {
                refused == command
            } else {
                exists|i: int|
                    {
                        &&& 2 <= i < tokens.len()
                        &&& #[trigger] tokens[i] == refused
                        &&& !valid_arg(tokens[i])
                        &&& forall|j: int| 2 <= j < i ==> valid_arg(#[trigger] tokens[j])
                    }
            }
        }),
{
    let tokens = words(command);
    if tokens.len() >= 2 {
        let args = tokens.skip(2);
        lemma_first_refused_first(args, false);
        assert(forall|i: int| 2 <= i < tokens.len() ==> #[trigger] tokens[i] == args[i - 2]);
        assert(forall|i: int| 0 <= i < args.len() ==> #[trigger] args[i] == tokens[i + 2]);
        if tokens.len() == 3 && tokens[2] == "--check"@ {
            assert(args =~= seq!["--check"@]);
        }
        if args == seq!["--check"@] {
            assert(args.len() == 1 && args[0] == "--check"@);
            assert(tokens[2] == args[0]);
        }
        if first_refused(args, false) is Some {
            let arg = first_refused(args, false)->0;
            let k = choose|i: int|
                {
                    &&& 0 <= i < args.len()
                    &&& #[trigger] args[i] == arg
                    &&& !valid_arg(arg) || (false && forbidden_git_option(arg))
                    &&& forall|j: int|
                        0 <= j < i ==> valid_arg(#[trigger] args[j]) && !(false
                            && forbidden_git_option(args[j]))
                };
            assert(tokens[k + 2] == arg);
            assert forall|j: int| 2 <= j < k + 2 implies valid_arg(#[trigger] tokens[j]) by {
                assert(tokens[j] == args[j - 2]);
            }
        } else {
            assert forall|i: int| 2 <= i < tokens.len() implies valid_arg(#[trigger] tokens[i]) by {
                assert(tokens[i] == args[i - 2]);
            }
        }
    }
}

/// The characters that an argument may hold, one by one.
pub open spec fn plain_characters() -> Seq<char> {
    "abcdefghijklmnopqrstuvwxyzABCDEFGHIJKLMNOPQRSTUVWXYZ0123456789-_./=:+#,"@
}

proof fn lemma_plain_character(c: char)
    ensures
        arg_char(c) <==> plain_characters().contains(c),
{
    reveal_strlit("abcdefghijklmnopqrstuvwxyzABCDEFGHIJKLMNOPQRSTUVWXYZ0123456789-_./=:+#,");
    let all = plain_characters();
    let n = c as u32;
    assert(all.len() == 71);
    if 'a' as u32 <= n <= 'z' as u32 {
        let k = n - 97;
        vstd::utf8::char_u32_cast(all[k], all[k] as u32);
        vstd::utf8::char_u32_cast(c, n);
        assert(all[k] as u32 == n);
        assert(all[k] == c);
    } else if 'A' as u32 <= n <= 'Z' as u32 {
        let k = n - 65 + 26;
        vstd::utf8::char_u32_cast(all[k], all[k] as u32);
        vstd::utf8::char_u32_cast(c, n);
        assert(all[k] as u32 == n);
        assert(all[k] == c);
    } else if '0' as u32 <= n <= '9' as u32 {
        let k = n - 48 + 52;
        vstd::utf8::char_u32_cast(all[k], all[k] as u32);
        vstd::utf8::char_u32_cast(c, n);
        assert(all[k] as u32 == n);
        assert(all[k] == c);
    } else {
        assert(all[62] == '-' && all[63] == '_' && all[64] == '.' && all[65] == '/' && all[66]
            == '=' && all[67] == ':' && all[68] == '+' && all[69] == '#' && all[70] == ',');
    }
}

/// An argument may stand in a command exactly where it is not empty and each of its characters is
/// one of the fixed set, at whatever place and however long the argument is.
pub proof fn law_plain_arguments(arg: Seq<char>)
    ensures
        valid_arg(arg) <==> arg.len() > 0 && forall|i: int|
            0 <= i < arg.len() ==> plain_characters().contains(#[trigger] arg[i]),
{
    assert forall|i: int| 0 <= i < arg.len() implies arg_char(#[trigger] arg[i])
        == plain_characters().contains(arg[i]) by {
        lemma_plain_character(arg[i]);
    }
}

/// The long options of `git` that are refused.
pub open spec fn refused_options() -> Seq<Seq<char>> {
    seq![
        "--git-dir"@,
        "--work-tree"@,
        "--namespace"@,
        "--super-prefix"@,
        "--config-env"@,
        "--output"@,
        "--ext-diff"@,
        "--textconv"@,
        "--paginate"@,
    ]
}

proof fn lemma_long_option(arg: Seq<char>, opt: Seq<char>)
    ensures
        long_option(arg, opt) <==> arg == opt || exists|value: Seq<char>|
            arg == #[trigger] (opt + "="@ + value),
{
    let p = opt + "="@;
    if p.is_prefix_of(arg) {
        assert(arg =~= p + arg.skip(p.len() as int));
    }
}

/// An option of `git` is refused exactly where it is `-C`, `-c`, or one of the refused long
/// options, alone or with a value behind an equals sign, whatever the value.
pub proof fn law_refused_options(arg: Seq<char>)
    ensures
        forbidden_git_option(arg) <==> arg == "-C"@ || arg == "-c"@ || exists|k: int|
            0 <= k < refused_options().len() && (arg == #[trigger] refused_options()[k] || exists|
                value: Seq<char>,
            | arg == #[trigger] (refused_options()[k] + "="@ + value)),
{
    let all = refused_options();
    assert(all.len() == 9);
    assert forall|k: int| 0 <= k < 9 implies long_option(arg, #[trigger] all[k]) == (arg == all[k]
        || exists|value: Seq<char>| arg == #[trigger] (all[k] + "="@ + value)) by {
        lemma_long_option(arg, all[k]);
    }
    assert(forbidden_git_option(arg) <==> arg == "-C"@ || arg == "-c"@ || exists|k: int|
        0 <= k < 9 && long_option(arg, #[trigger] all[k])) by {
        assert(all[0] == "--git-dir"@ && all[1] == "--work-tree"@ && all[2] == "--namespace"@
            && all[3] == "--super-prefix"@ && all[4] == "--config-env"@ && all[5] == "--output"@
            && all[6] == "--ext-diff"@ && all[7] == "--textconv"@ && all[8] == "--paginate"@);
        if exists|k: int| 0 <= k < 9 && long_option(arg, #[trigger] all[k]) {
            let k = choose|k: int| 0 <= k < 9 && long_option(arg, #[trigger] all[k]);
            assert(k == 0 || k == 1 || k == 2 || k == 3 || k == 4 || k == 5 || k == 6 || k == 7 || k
                == 8);
        }
    }
}

/// The first of the words from `from` on that is refused: all before it are not.
pub open spec fn is_first_bad(
    tokens: Seq<Seq<char>>,
    from: int,
    git: bool,
    refused: Seq<char>,
) -> bool {
    exists|i: int|
        {
            &&& from <= i < tokens.len()
            &&& #[trigger] tokens[i] == refused
            &&& !valid_arg(tokens[i]) || (git && forbidden_git_option(tokens[i]))
            &&& forall|j: int|
                from <= j < i ==> valid_arg(#[trigger] tokens[j]) && !(git && forbidden_git_option(
                    tokens[j],
                ))
        }
}

/// None of the words from `from` on is refused.
pub open spec fn none_bad(tokens: Seq<Seq<char>>, from: int, git: bool) -> bool {
    forall|i: int|
        from <= i < tokens.len() ==> valid_arg(#[trigger] tokens[i]) && !(git
            && forbidden_git_option(tokens[i]))
}

proof fn lemma_first_bad(tokens: Seq<Seq<char>>, from: int, git: bool)
    requires
        0 <= from <= tokens.len(),
    ensures
        first_refused(tokens.skip(from), git) is None <==> none_bad(tokens, from, git),
        first_refused(tokens.skip(from), git) matches Some(arg) ==> is_first_bad(
            tokens,
            from,
            git,
            arg,
        ),
{
    let args = tokens.skip(from);
    lemma_first_refused_first(args, git);
    if first_refused(args, git) is Some {
        let arg = first_refused(args, git)->0;
        let k = choose|i: int|
            {
                &&& 0 <= i < args.len()
                &&& #[trigger] args[i] == arg
                &&& !valid_arg(arg) || (git && forbidden_git_option(arg))
                &&& forall|j: int|
                    0 <= j < i ==> valid_arg(#[trigger] args[j]) && !(git && forbidden_git_option(
                        args[j],
                    ))
            };
        assert(tokens[k + from] == arg);
        assert forall|j: int| from <= j < k + from implies valid_arg(#[trigger] tokens[j]) && !(git
            && forbidden_git_option(tokens[j])) by {
            assert(tokens[j] == args[j - from]);
        }
    } else {
        assert forall|i: int| from <= i < tokens.len() implies valid_arg(#[trigger] tokens[i]) && !(
        git && forbidden_git_option(tokens[i])) by {
            assert(tokens[i] == args[i - from]);
        }
    }
}

/// `git status`, `git diff`, `git log` and `git show` run without a pager and with all the words
/// that follow, none left out. They are refused exactly where one of those words is not plain or
/// is a refused option, and the first such word is what is refused. No allow list changes that.
pub proof fn law_git_runs_as_written(command: Seq<char>, extra: Seq<PatternText>)
    requires
        words(command).len() >= 2,
        words(command)[0] == "git"@,
        words(command)[1] == "status"@ || words(command)[1] == "diff"@ || words(command)[1]
            == "log"@ || words(command)[1] == "show"@,
    ensures
        command_rule(command, extra) is Ok <==> none_bad(words(command), 2, true),
        command_rule(command, extra) matches Ok(c) ==> c.program == "git"@ && c.args
            == seq!["--no-pager"@] + words(command).skip(1),
        command_rule(command, extra) matches Err(refused) ==> is_first_bad(
            words(command),
            2,
            true,
            refused,
        ),
{
    reveal_strlit("git");
    reveal_strlit("cargo");
    assert("git"@.len() != "cargo"@.len());
    lemma_first_bad(words(command), 2, true);
}

/// Any other command, one of `git` that does more than read among them, runs exactly where an
/// entry of the allow list has its program, and its first argument where the entry names one, and
/// all its arguments are plain; it then runs as written. Where no entry fits, the program is what
/// is refused; where one fits, the first argument that is not plain. A command without a word is
/// refused as it is.
pub proof fn law_other_commands_need_an_entry(command: Seq<char>, extra: Seq<PatternText>)
    requires
        words(command).len() > 0 ==> words(command)[0] != "cargo"@,
        words(command).len() >= 2 && words(command)[0] == "git"@ ==> words(command)[1] != "status"@
            && words(command)[1] != "diff"@ && words(command)[1] != "log"@ && words(command)[1]
            != "show"@,
    ensures
        ({
            let tokens = words(command);
            let fits = exists|k: int|
                {
                    &&& 0 <= k < extra.len()
                    &&& (#[trigger] extra[k]).program == tokens[0]
                    &&& extra[k].subcommand is None || (tokens.len() >= 2
                        && extra[k].subcommand->0 == tokens[1])
                };
            &&& tokens.len() == 0 ==> command_rule(command, extra) == Err::<CommandText, Seq<char>>(
                command,
            )
            &&& tokens.len() > 0 && !fits ==> command_rule(command, extra) == Err::<
                CommandText,
                Seq<char>,
            >(tokens[0])
            &&& tokens.len() > 0 && fits && none_bad(tokens, 1, false) ==> command_rule(
                command,
                extra,
            ) == Ok::<CommandText, Seq<char>>(
                CommandText { program: tokens[0], args: tokens.skip(1) },
            )
            &&& tokens.len() > 0 && fits && !none_bad(tokens, 1, false) ==> (command_rule(
                command,
                extra,
            ) matches Err(refused) && is_first_bad(tokens, 1, false, refused))
        }),
{
    let tokens = words(command);
    if tokens.len() > 0 {
        lemma_extra_rule_fits(tokens, extra);
        lemma_first_bad(tokens, 1, false);
    }
}

proof fn lemma_extra_rule_fits(tokens: Seq<Seq<char>>, extra: Seq<PatternText>)
    requires
        tokens.len() > 0,
    ensures
        extra_rule(tokens, extra) == (if exists|k: int|
            0 <= k < extra.len() && pattern_matches(#[trigger] extra[k], tokens) {
            match first_refused(tokens.skip(1), false) {
                Some(arg) => Err::<CommandText, Seq<char>>(arg),
                None => Ok(CommandText { program: tokens[0], args: tokens.skip(1) }),
            }
        } else {
            Err(tokens[0])
        }),
    decreases extra.len(),
{
    if extra.len() > 0 && !pattern_matches(extra[0], tokens) {
        let rest = extra.skip(1);
        lemma_extra_rule_fits(tokens, rest);
        assert(forall|k: int| 0 <= k < rest.len() ==> #[trigger] rest[k] == extra[k + 1]);
        if exists|k: int| 0 <= k < extra.len() && pattern_matches(#[trigger] extra[k], tokens) {
            let k = choose|k: int|
                0 <= k < extra.len() && pattern_matches(#[trigger] extra[k], tokens);
            assert(rest[k - 1] == extra[k]);
        }
    }
}

/// An allow list before a comma and one behind it make up the whole: their entries follow each
/// other, and the first error of either is the error of the whole.
pub proof fn law_allow_lists_follow_each_other(a: Seq<char>, b: Seq<char>)
    ensures
        exec_allow(a) matches Err(e) ==> exec_allow(a + seq![','] + b) == Err::<
            Seq<PatternText>,
            Seq<char>,
        >(e),
        exec_allow(a) is Ok && exec_allow(b) is Err ==> exec_allow(a + seq![','] + b) == exec_allow(
            b,
        ),
        exec_allow(a) is Ok && exec_allow(b) is Ok ==> exec_allow(a + seq![','] + b) == Ok::<
            Seq<PatternText>,
            Seq<char>,
        >(exec_allow(a)->Ok_0 + exec_allow(b)->Ok_0),
{
    law_split_concat(a, ',', b);
    lemma_allow_items_concat(split(a, ','), split(b, ','));
}

proof fn lemma_allow_items_concat(xs: Seq<Seq<char>>, ys: Seq<Seq<char>>)
    ensures
        allow_items(xs) is Err ==> allow_items(xs + ys) == allow_items(xs),
        allow_items(xs) is Ok && allow_items(ys) is Err ==> allow_items(xs + ys) == allow_items(ys),
        allow_items(xs) is Ok && allow_items(ys) is Ok ==> allow_items(xs + ys) == Ok::<
            Seq<PatternText>,
            Seq<char>,
        >(allow_items(xs)->Ok_0 + allow_items(ys)->Ok_0),
    decreases xs.len(),
{
    if xs.len() == 0 {
        assert(xs + ys =~= ys);
        if allow_items(ys) is Ok {
            assert(Seq::<PatternText>::empty() + allow_items(ys)->Ok_0 =~= allow_items(ys)->Ok_0);
        }
    } else {
        assert((xs + ys)[0] == xs[0]);
        assert((xs + ys).skip(1) =~= xs.skip(1) + ys);
        lemma_allow_items_concat(xs.skip(1), ys);
        if allow_items(xs) is Ok && allow_items(ys) is Ok {
            assert(allow_items(xs + ys)->Ok_0 =~= allow_items(xs)->Ok_0 + allow_items(ys)->Ok_0);
        }
    }
}

/// One item of an allow list: blank ones count for nothing; a program, or a program and its first
/// argument, with any white space around and between them, is an entry for just that; a word that
/// is not plain, a program with a slash in it and a third word are errors.
pub proof fn law_allow_list_items(
    a: Seq<char>,
    program: Seq<char>,
    w: Seq<char>,
    sub: Seq<char>,
    b: Seq<char>,
    more: Seq<char>,
)
    requires
        all_blank(a),
        all_blank(w),
        all_blank(b),
        w.len() > 0,
        no_blank(program),
        program.len() > 0,
        no_blank(sub),
        sub.len() > 0,
        words(more).len() > 0,
    ensures
        allow_item(a) == Ok::<Option<PatternText>, Seq<char>>(None),
        allow_item(a + program + b) == (if valid_arg(program) && !program.contains('/') {
            Ok::<Option<PatternText>, Seq<char>>(
                Some(PatternText { program, subcommand: None }),
            )
        } else if program.contains('/') {
            Err(
                debug_text(program)
                    + " contains '/' — program must be a bare command name resolved via PATH"@,
            )
        } else {
            Err(debug_text(program) + " contains invalid characters"@)
        }),
        valid_arg(program) && !program.contains('/') && valid_arg(sub) ==> allow_item(
            a + (program + w + sub) + b,
        ) == Ok::<Option<PatternText>, Seq<char>>(
            Some(PatternText { program, subcommand: Some(sub) }),
        ),
        valid_arg(program) && !program.contains('/') && !valid_arg(sub) ==> allow_item(
            a + (program + w + sub) + b,
        ) == Err::<Option<PatternText>, Seq<char>>(
            debug_text(sub) + " contains invalid characters"@,
        ),
        program.contains('/') ==> allow_item(a + (program + w + sub) + b) == Err::<
            Option<PatternText>,
            Seq<char>,
        >(
            debug_text(program)
                + " contains '/' — program must be a bare command name resolved via PATH"@,
        ),
        !program.contains('/') && !valid_arg(program) ==> allow_item(a + (program + w + sub) + b)
            == Err::<Option<PatternText>, Seq<char>>(
            debug_text(program) + " contains invalid characters"@,
        ),
        allow_item((program + w + sub) + w + more) is Err,
{
    let two = program + w + sub;
    let none = Seq::<char>::empty();
    law_trimming(a, none, none);
    assert(a + none + none =~= a);
    assert(allow_item(a) == Ok::<Option<PatternText>, Seq<char>>(None));
    assert(!white_space(program[0]) && !white_space(program[program.len() - 1]));
    assert(!white_space(sub[sub.len() - 1]));
    law_trimming(a, program, b);
    law_words(program, ' ', none);
    law_words(sub, ' ', none);
    assert(two[0] == program[0] && two.last() == sub.last());
    law_trimming(a, two, b);
    law_words_apart(a, program, w, sub, b);
    assert(words(two) =~= seq![program, sub]);
    law_words_apart(none, two, w, more, none);
    let all = two + w + more;
    lemma_words_of_trimmed(all);
    assert(words(all) == words(two) + words(more));
    assert(words(all).len() > 2);
    if trimmed(all).len() == 0 {
        assert(trimmed(all) =~= none);
        law_words(none, ' ', none);
    }
}

proof fn lemma_words_of_trimmed(s: Seq<char>)
    ensures
        words(trimmed(s)) == words(s),
{
    lemma_trimmed_split(s);
    let (a, b): (Seq<char>, Seq<char>) = choose|a: Seq<char>, b: Seq<char>|
        all_blank(a) && all_blank(b) && s == #[trigger] (a + trimmed(s) + b);
    law_words_apart(a, trimmed(s), seq![' '], trimmed(s), b);
}

/// The outcome of a rule is told without loss: it lets a command through as just that command, and
/// refuses with just the text that is refused.
pub proof fn law_outcomes_tell_the_rule(
    r: Result<ExecCommand, ToolError>,
    rule: Result<CommandText, Seq<char>>,
)
    requires
        is_outcome(r, rule),
    ensures
        r is Ok <==> rule is Ok,
        r matches Ok(c) ==> c@ == rule->Ok_0,
        r matches Err(e) ==> (e matches ToolError::CommandNotAllowed(s) && s@ == rule->Err_0),
{
}

/// What [`ExecCommand::parse_with`] gives back for a `cargo` command that it lets through: `cargo`
/// with all the words that follow it.
pub proof fn law_parsed_cargo(
    command: &str,
    extra: &[CmdPattern],
    r: Result<ExecCommand, ToolError>,
)
    requires
        call_ensures(ExecCommand::parse_with, (command, extra), r),
        words(command@).len() > 0,
        words(command@)[0] == "cargo"@,
    ensures
        r matches Ok(c) ==> c.program@ == "cargo"@ && texts(c.args@) == words(command@).skip(1),
        words(command@).len() >= 2 && (words(command@)[1] == "check"@ || words(command@)[1]
            == "build"@ || words(command@)[1] == "test"@ || words(command@)[1] == "clippy"@) && (
        forall|i: int| 2 <= i < words(command@).len() ==> valid_arg(#[trigger] words(command@)[i]))
            ==> r is Ok,
{
    law_cargo_runs_as_written(command@, patterns(extra@));
}

/// An item of the allow list with more than two words is refused with the item and the number of
/// its words.
pub proof fn law_long_allow_list_items(raw: Seq<char>)
    requires
        words(raw).len() > 2,
    ensures
        allow_item(raw) == Err::<Option<PatternText>, Seq<char>>(
            debug_text(trimmed(raw)) + " has "@ + dec(words(raw).len())
                + " tokens (expected a program name, or \"program subcommand\")"@,
        ),
{
    lemma_words_of_trimmed(raw);
    if trimmed(raw).len() == 0 {
        assert(trimmed(raw) =~= Seq::<char>::empty());
        law_words(Seq::<char>::empty(), ' ', Seq::<char>::empty());
    }
}

} // verus!
