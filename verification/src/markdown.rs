//! Markdown for the terminal, drawn while it streams in.
//!
//! Text arrives in pieces and is drawn line by line. The subset covers what answers are made of:
//!
//! - fenced code blocks: the fence becomes a dim rule, each line inside gets a dim bar and is
//!   otherwise left alone;
//! - headings of one to three `#`, quotes, lists with `-`, `*`, `+` or a number;
//! - inside a line `` `code` ``, `**bold**`, `*italic*` and `_italic_`.
//!
//! With colours off, text passes through untouched.

use vstd::prelude::*;

use crate::number::is_digit;
use crate::text::{
    all_blank, chars_of, find_char, find_char_from, find_from, first_match, is_at, law_split,
    lemma_find_char, lemma_find_char_is, lemma_first_match, lemma_first_match_skip,
    lemma_trimmed_start_is, lemma_trimmed_start_split, occurs_at, skip_white_space, split,
    string_between, string_of, trim_end, trimmed_end, trimmed_start, white_space, without_cr,
};
use crate::ui::{
    is_code, lemma_code_prefix, lemma_codes, lemma_plain_prefix, painted, plain, without_escapes,
    Ui,
};

verus! {

// ---------------------------------------------------------------------------------------------
// Inside a line
// ---------------------------------------------------------------------------------------------

/// How a stretch of a line is drawn.
#[derive(Clone, Copy, Debug, PartialEq, Eq, Structural)]
pub enum SpanKind {
    /// One character, as it is.
    Plain,
    Code,
    Bold,
    Italic,
}

/// A stretch of a line: its contents from `from` up to `to`, and where the next one begins.
pub struct Span {
    pub kind: SpanKind,
    pub from: int,
    pub to: int,
    pub next: int,
}

/// A blank inside a line.
pub open spec fn blank(c: char) -> bool {
    c == ' ' || c == '\t'
}

/// A star that has no other star beside it.
pub open spec fn lone_star(s: Seq<char>, j: int) -> bool {
    &&& s[j] == '*'
    &&& !(j > 0 && s[j - 1] == '*')
    &&& !(j + 1 < s.len() && s[j + 1] == '*')
}

/// An underscore that ends a word: a blank or the end of the line behind it, none before it.
pub open spec fn closing_underscore(s: Seq<char>, j: int) -> bool {
    &&& s[j] == '_'
    &&& j + 1 >= s.len() || blank(s[j + 1])
    &&& j > 0 && !blank(s[j - 1])
}

/// The first lone star at or after `from`, or the length of `s` where there is none.
pub open spec fn star_close(s: Seq<char>, from: int) -> int
    decreases s.len() - from,
{
    if from >= s.len() {
        s.len() as int
    } else if lone_star(s, from) {
        from
    } else {
        star_close(s, from + 1)
    }
}

/// The first closing underscore at or after `from`, or the length of `s` where there is none.
pub open spec fn underscore_close(s: Seq<char>, from: int) -> int
    decreases s.len() - from,
{
    if from >= s.len() {
        s.len() as int
    } else if closing_underscore(s, from) {
        from
    } else {
        underscore_close(s, from + 1)
    }
}

/// The stretch that begins at index `i`. A mark without its counterpart, or with nothing
/// between the two, is a plain character.
pub open spec fn span_at(s: Seq<char>, i: int) -> Span {
    let plain = Span { kind: SpanKind::Plain, from: i, to: i + 1, next: i + 1 };
    if s[i] == '`' {
        let end = i + 1 + find_char(s.skip(i + 1), '`');
        if i + 1 < end < s.len() {
            Span { kind: SpanKind::Code, from: i + 1, to: end, next: end + 1 }
        } else {
            plain
        }
    } else if s[i] == '*' && i + 1 < s.len() && s[i + 1] == '*' {
        match first_match(s, "**"@, i + 2) {
            Some(end) => if end > i + 2 {
                Span { kind: SpanKind::Bold, from: i + 2, to: end, next: end + 2 }
            } else {
                plain
            },
            None => plain,
        }
    } else if s[i] == '*' {
        let end = star_close(s, i + 1);
        if i + 1 < end < s.len() {
            Span { kind: SpanKind::Italic, from: i + 1, to: end, next: end + 1 }
        } else {
            plain
        }
    } else if s[i] == '_' && (i == 0 || blank(s[i - 1])) {
        let end = underscore_close(s, i + 1);
        if i + 1 < end < s.len() {
            Span { kind: SpanKind::Italic, from: i + 1, to: end, next: end + 1 }
        } else {
            plain
        }
    } else {
        plain
    }
}

/// How a stretch with the given contents looks.
pub open spec fn span_text(on: bool, kind: SpanKind, inner: Seq<char>) -> Seq<char> {
    match kind {
        SpanKind::Plain => inner,
        SpanKind::Code => painted(on, "\x1b[36m"@, inner),
        SpanKind::Bold => painted(on, "\x1b[1m"@, inner),
        SpanKind::Italic => painted(on, "\x1b[3m"@, inner),
    }
}

/// How the rest of a line from index `i` looks.
pub open spec fn inline_from(on: bool, s: Seq<char>, i: int) -> Seq<char>
    decreases s.len() - i,
    when 0 <= i
    via inline_from_decreases
{
    if i >= s.len() {
        seq![]
    } else {
        let sp = span_at(s, i);
        span_text(on, sp.kind, s.subrange(sp.from, sp.to)) + inline_from(on, s, sp.next)
    }
}

#[via_fn]
proof fn inline_from_decreases(on: bool, s: Seq<char>, i: int) {
    if i < s.len() {
        lemma_span(s, i);
    }
}

/// How a line looks, marks inside it resolved.
pub open spec fn inline_text(on: bool, s: Seq<char>) -> Seq<char> {
    inline_from(on, s, 0)
}

proof fn lemma_star_close(s: Seq<char>, from: int)
    requires
        0 <= from <= s.len(),
    ensures
        from <= star_close(s, from) <= s.len(),
        star_close(s, from) < s.len() ==> s[star_close(s, from)] == '*',
    decreases s.len() - from,
{
    if from < s.len() && !lone_star(s, from) {
        lemma_star_close(s, from + 1);
    }
}

proof fn lemma_underscore_close(s: Seq<char>, from: int)
    requires
        0 <= from <= s.len(),
    ensures
        from <= underscore_close(s, from) <= s.len(),
        underscore_close(s, from) < s.len() ==> s[underscore_close(s, from)] == '_',
    decreases s.len() - from,
{
    if from < s.len() && !closing_underscore(s, from) {
        lemma_underscore_close(s, from + 1);
    }
}

/// A stretch lies within its line, its contents inside it, and it is not empty.
pub proof fn lemma_span(s: Seq<char>, i: int)
    requires
        0 <= i < s.len(),
    ensures
        i <= span_at(s, i).from < span_at(s, i).to <= span_at(s, i).next <= s.len(),
        i < span_at(s, i).next,
{
    reveal_strlit("**");
    lemma_find_char(s.skip(i + 1), '`');
    if i + 1 < s.len() {
        lemma_first_match(s, "**"@, i + 2);
    }
    lemma_star_close(s, i + 1);
    lemma_underscore_close(s, i + 1);
}

fn find_star_italic_close(b: &[char], from: usize) -> (r: usize)
    requires
        from <= b@.len(),
    ensures
        r == star_close(b@, from as int),
        from <= r <= b@.len(),
{
    let mut j: usize = from;
    let n: usize = b.len();
    while j < n
        invariant
            from <= j <= n,
            n == b@.len(),
            star_close(b@, j as int) == star_close(b@, from as int),
        decreases n - j,
    {
        if b[j] == '*' && !(j > 0 && b[j - 1] == '*') && !(n - j > 1 && b[j + 1] == '*') {
            return j;
        }
        j = j + 1;
    }
    j
}

fn find_underscore_close(b: &[char], from: usize) -> (r: usize)
    requires
        from <= b@.len(),
    ensures
        r == underscore_close(b@, from as int),
        from <= r <= b@.len(),
{
    let mut j: usize = from;
    let n: usize = b.len();
    while j < n
        invariant
            from <= j <= n,
            n == b@.len(),
            underscore_close(b@, j as int) == underscore_close(b@, from as int),
        decreases n - j,
    {
        if b[j] == '_' && (n - j <= 1 || is_blank(b[j + 1])) && j > 0 && !is_blank(b[j - 1]) {
            return j;
        }
        j = j + 1;
    }
    j
}

fn is_blank(c: char) -> (r: bool)
    ensures
        r == blank(c),
{
    c == ' ' || c == '\t'
}

/// The stretch that begins at index `i` of a line: its kind, where its contents begin and end,
/// and where the next one begins.
fn next_span(b: &[char], i: usize) -> (r: (SpanKind, usize, usize, usize))
    requires
        i < b@.len(),
    ensures
        r.0 == span_at(b@, i as int).kind,
        r.1 == span_at(b@, i as int).from,
        r.2 == span_at(b@, i as int).to,
        r.3 == span_at(b@, i as int).next,
{
    let n: usize = b.len();
    let c = b[i];
    if c == '`' {
        let end = find_char_from(b, '`', i + 1);
        if end > i + 1 && end < n {
            return (SpanKind::Code, i + 1, end, end + 1);
        }
    } else if c == '*' && n - i > 1 && b[i + 1] == '*' {
        let mark = chars_of("**");
        let found = find_from(b, mark.as_slice(), i + 2);
        proof {
            reveal_strlit("**");
            lemma_first_match(b@, "**"@, i + 2);
        }
        match found {
            Some(end) => {
                if end > i + 2 {
                    return (SpanKind::Bold, i + 2, end, end + 2);
                }
            },
            None => {},
        }
    } else if c == '*' {
        let end = find_star_italic_close(b, i + 1);
        if end > i + 1 && end < n {
            return (SpanKind::Italic, i + 1, end, end + 1);
        }
    } else if c == '_' && (i == 0 || is_blank(b[i - 1])) {
        let end = find_underscore_close(b, i + 1);
        if end > i + 1 && end < n {
            return (SpanKind::Italic, i + 1, end, end + 1);
        }
    }
    (SpanKind::Plain, i, i + 1, i + 1)
}

/// Draws a line, with the marks inside it resolved. Marks without a counterpart stay as they
/// are.
pub fn render_inline(text: &str, ui: &Ui) -> (r: String)
    ensures
        r@ == inline_text(ui.on(), text@),
{
    let b = chars_of(text);
    let mut out: String = String::new();
    let mut i: usize = 0;
    proof {
        assert(out@ + inline_from(ui.on(), b@, 0) =~= inline_text(ui.on(), text@));
    }
    while i < b.len()
        invariant
            i <= b@.len(),
            b@ == text@,
            out@ + inline_from(ui.on(), b@, i as int) == inline_text(ui.on(), text@),
        decreases b@.len() - i,
    {
        let ghost before = out@;
        let (kind, from, to, next) = next_span(b.as_slice(), i);
        proof {
            lemma_span(b@, i as int);
        }
        let inner = string_between(b.as_slice(), from, to);
        let piece = match kind {
            SpanKind::Plain => inner,
            SpanKind::Code => ui.cyan(inner.as_str()),
            SpanKind::Bold => ui.bold(inner.as_str()),
            SpanKind::Italic => ui.italic(inner.as_str()),
        };
        out.append(piece.as_str());
        proof {
            assert(out@ + inline_from(ui.on(), b@, next as int) =~= before + inline_from(
                ui.on(),
                b@,
                i as int,
            ));
        }
        i = next;
    }
    proof {
        assert(out@ + inline_from(ui.on(), b@, i as int) =~= out@);
    }
    out
}

// ---------------------------------------------------------------------------------------------
// Whole lines
// ---------------------------------------------------------------------------------------------

/// The number of characters `#` at the start.
pub open spec fn hashes(t: Seq<char>) -> int
    decreases t.len(),
{
    if t.len() > 0 && t[0] == '#' {
        1 + hashes(t.skip(1))
    } else {
        0
    }
}

/// The level of a heading: one to three `#`, then a space.
pub open spec fn heading(t: Seq<char>) -> Option<int> {
    let n = hashes(t);
    if 1 <= n <= 3 && n < t.len() && t[n] == ' ' {
        Some(n)
    } else {
        None
    }
}

/// The number of digits at the start.
pub open spec fn leading_digits(t: Seq<char>) -> int
    decreases t.len(),
{
    if t.len() > 0 && is_digit(t[0]) {
        1 + leading_digits(t.skip(1))
    } else {
        0
    }
}

/// The length of the marker of a numbered item: digits, a full stop and a space.
pub open spec fn ordered_marker(t: Seq<char>) -> Option<int> {
    let n = leading_digits(t);
    if n > 0 && n + 1 < t.len() && t[n] == '.' && t[n + 1] == ' ' {
        Some(n + 2)
    } else {
        None
    }
}

/// The length of the marker that an item begins with, of either kind of list.
pub open spec fn list_marker(t: Seq<char>) -> Option<int> {
    if "- "@.is_prefix_of(t) || "* "@.is_prefix_of(t) || "+ "@.is_prefix_of(t) {
        Some(2)
    } else {
        ordered_marker(t)
    }
}

/// How a line looks, and whether what follows is inside a code block.
pub open spec fn line_text(on: bool, in_code: bool, line: Seq<char>) -> (Seq<char>, bool) {
    let t = trimmed_start(line);
    let indent = line.take(line.len() - t.len());
    if "```"@.is_prefix_of(t) {
        (painted(on, "\x1b[2m"@, "┄┄┄┄┄┄┄┄"@), !in_code)
    } else if in_code {
        (painted(on, "\x1b[2m"@, "│ "@) + line, true)
    } else if heading(t) is Some {
        (painted(on, "\x1b[36m"@ + "\x1b[1m"@, trimmed_end(line)), false)
    } else if t == ">"@ || "> "@.is_prefix_of(t) {
        (painted(on, "\x1b[3m"@, painted(on, "\x1b[2m"@, trimmed_end(line))), false)
    } else {
        match list_marker(t) {
            Some(n) => (
                indent + painted(on, "\x1b[2m"@, t.take(n)) + inline_text(on, t.skip(n)),
                false,
            ),
            None => (inline_text(on, line), false),
        }
    }
}

/// The level of the heading that `t` is.
pub fn heading_level(t: &str) -> (r: Option<usize>)
    ensures
        r is Some == heading(t@) is Some,
        r matches Some(n) ==> heading(t@) == Some(n as int),
{
    let cs = chars_of(t);
    let mut n: usize = 0;
    proof {
        assert(cs@.skip(0) =~= t@);
    }
    while n < cs.len() && cs[n] == '#'
        invariant
            n <= cs@.len(),
            hashes(t@) == n + hashes(cs@.skip(n as int)),
        decreases cs@.len() - n,
    {
        proof {
            assert(cs@.skip(n as int).skip(1) =~= cs@.skip(n + 1));
        }
        n = n + 1;
    }
    proof {
        assert(hashes(cs@.skip(n as int)) == 0);
    }
    if 1 <= n && n <= 3 && n < cs.len() && cs[n] == ' ' {
        Some(n)
    } else {
        None
    }
}

/// The length of the marker of a numbered item.
fn ordered_item(cs: &[char]) -> (r: Option<usize>)
    ensures
        r is Some == ordered_marker(cs@) is Some,
        r matches Some(n) ==> ordered_marker(cs@) == Some(n as int) && n <= cs@.len(),
{
    let mut n: usize = 0;
    let len: usize = cs.len();
    proof {
        assert(cs@.skip(0) =~= cs@);
    }
    while n < len && '0' as u32 <= cs[n] as u32 && cs[n] as u32 <= '9' as u32
        invariant
            n <= len,
            len == cs@.len(),
            leading_digits(cs@) == n + leading_digits(cs@.skip(n as int)),
        decreases len - n,
    {
        proof {
            assert(cs@.skip(n as int).skip(1) =~= cs@.skip(n + 1));
        }
        n = n + 1;
    }
    proof {
        assert(leading_digits(cs@.skip(n as int)) == 0);
    }
    if n > 0 && len - n > 1 && cs[n] == '.' && cs[n + 1] == ' ' {
        Some(n + 2)
    } else {
        None
    }
}

fn begins(cs: &[char], p: &str) -> (r: bool)
    ensures
        r == p@.is_prefix_of(cs@),
{
    proof {
        assert(occurs_at(cs@, p@, 0) == p@.is_prefix_of(cs@));
    }
    is_at(cs, chars_of(p).as_slice(), 0)
}

fn marker_len(cs: &[char]) -> (r: Option<usize>)
    ensures
        r is Some == list_marker(cs@) is Some,
        r matches Some(n) ==> list_marker(cs@) == Some(n as int) && n <= cs@.len(),
{
    proof {
        reveal_strlit("- ");
        reveal_strlit("* ");
        reveal_strlit("+ ");
    }
    if begins(cs, "- ") || begins(cs, "* ") || begins(cs, "+ ") {
        Some(2)
    } else {
        ordered_item(cs)
    }
}

/// Draws one line, and says whether what follows it is inside a code block.
fn render_line(line: &str, in_code: bool, ui: &Ui) -> (r: (String, bool))
    ensures
        (r.0@, r.1) == line_text(ui.on(), in_code, line@),
        r.1 == if is_fence(line@) {
            !in_code
        } else {
            in_code
        },
{
    proof {
        law_fence_flips(ui.on(), in_code, line@);
    }
    let cs = chars_of(line);
    let start = skip_white_space(cs.as_slice(), 0);
    let t = vstd::slice::slice_subrange(cs.as_slice(), start, cs.len());
    proof {
        assert(cs@.skip(0) =~= line@);
        assert(t@ =~= trimmed_start(line@));
        assert(line@.take(line@.len() - t@.len()) =~= cs@.subrange(0, start as int));
    }
    if begins(t, "```") {
        return (ui.dim("┄┄┄┄┄┄┄┄"), !in_code);
    }
    if in_code {
        let mut out = ui.dim("│ ");
        out.append(line);
        return (out, true);
    }
    let t_text = string_of(t);
    if heading_level(t_text.as_str()).is_some() {
        return (ui.cyan_bold(trim_end(line).as_str()), false);
    }
    if crate::text::same(t_text.as_str(), ">") || begins(t, "> ") {
        return (ui.italic(ui.dim(trim_end(line).as_str()).as_str()), false);
    }
    match marker_len(t) {
        Some(n) => {
            let mut out = string_between(cs.as_slice(), 0, start);
            out.append(ui.dim(string_between(t, 0, n).as_str()).as_str());
            out.append(render_inline(string_between(t, n, t.len()).as_str(), ui).as_str());
            proof {
                assert(t@.subrange(0, n as int) =~= t@.take(n as int));
                assert(t@.subrange(n as int, t@.len() as int) =~= t@.skip(n as int));
            }
            (out, false)
        },
        None => (render_inline(line, ui), false),
    }
}

// ---------------------------------------------------------------------------------------------
// The stream
// ---------------------------------------------------------------------------------------------

/// Draws Markdown that arrives piece by piece. Each turn of a conversation gets a new one.
pub struct MarkdownRenderer {
    line_buf: String,
    in_code_block: bool,
}

/// A [`MarkdownRenderer`] as the contracts see it: the line that has not ended yet, and whether
/// it stands in a code block.
pub struct MarkdownState {
    pub pending: Seq<char>,
    pub in_code: bool,
}

impl View for MarkdownRenderer {
    type V = MarkdownState;

    closed spec fn view(&self) -> MarkdownState {
        MarkdownState { pending: self.line_buf@, in_code: self.in_code_block }
    }
}

/// What a text with complete lines in it draws, and the state that it leaves behind.
pub open spec fn fed(in_code: bool, text: Seq<char>) -> (Seq<char>, MarkdownState)
    decreases text.len(),
    when text.len() >= 0
    via fed_decreases
{
    let i = find_char(text, '\n');
    if i == text.len() {
        (seq![], MarkdownState { pending: text, in_code })
    } else {
        let (drawn, next) = line_text(true, in_code, without_cr(text.take(i)));
        let (more, state) = fed(next, text.skip(i + 1));
        (drawn.push('\n') + more, state)
    }
}

#[via_fn]
proof fn fed_decreases(in_code: bool, text: Seq<char>) {
    lemma_find_char(text, '\n');
}

/// What a piece of text draws, and the state that it leaves behind.
pub open spec fn pushed(on: bool, state: MarkdownState, delta: Seq<char>) -> (
    Seq<char>,
    MarkdownState,
) {
    if on {
        fed(state.in_code, state.pending + delta)
    } else {
        (delta, state)
    }
}

/// What the end of the text draws, and the state that it leaves behind.
pub open spec fn flushed(on: bool, state: MarkdownState) -> (Seq<char>, MarkdownState) {
    let line = without_cr(state.pending);
    if on && line.len() > 0 {
        let (drawn, next) = line_text(true, state.in_code, line);
        (drawn, MarkdownState { pending: seq![], in_code: next })
    } else {
        (seq![], MarkdownState { pending: seq![], in_code: state.in_code })
    }
}

impl Default for MarkdownRenderer {
    fn default() -> (r: MarkdownRenderer)
        ensures
            r@ == (MarkdownState { pending: seq![], in_code: false }),
    {
        MarkdownRenderer::new()
    }
}

impl MarkdownRenderer {
    /// A renderer at the start of a text.
    pub fn new() -> (r: MarkdownRenderer)
        ensures
            r@ == (MarkdownState { pending: seq![], in_code: false }),
    {
        let r = MarkdownRenderer { line_buf: String::new(), in_code_block: false };
        proof {
            assert(r.line_buf@ =~= seq![]);
        }
        r
    }

    /// Takes a piece of text and returns what to write to the terminal: the lines that it
    /// completes.
    pub fn push(&mut self, delta: &str, ui: &Ui) -> (r: String)
        ensures
            (r@, final(self)@) == pushed(ui.on(), old(self)@, delta@),
    {
        if !ui.enabled() {
            return delta.to_owned();
        }
        let mut full = self.line_buf.clone();
        full.append(delta);
        let cs = chars_of(full.as_str());
        let mut out: String = String::new();
        let mut at: usize = 0;
        let mut in_code: bool = self.in_code_block;
        let ghost all = fed(self.in_code_block, full@);
        proof {
            assert(cs@.skip(0) =~= full@);
            assert(out@ + fed(in_code, cs@.skip(0)).0 =~= all.0);
        }
        loop
            invariant
                ui.on(),
                at <= cs@.len(),
                out@ + fed(in_code, cs@.skip(at as int)).0 == all.0,
                fed(in_code, cs@.skip(at as int)).1 == all.1,
                all == pushed(ui.on(), old(self)@, delta@),
            decreases cs@.len() - at,
        {
            let end = find_char_from(cs.as_slice(), '\n', at);
            let ghost rest = cs@.skip(at as int);
            if end == cs.len() {
                self.line_buf = string_between(cs.as_slice(), at, end);
                self.in_code_block = in_code;
                proof {
                    assert(rest =~= cs@.subrange(at as int, end as int));
                    assert(out@ + Seq::<char>::empty() =~= out@);
                }
                return out;
            }
            let stop: usize = if end > at && cs[end - 1] == '\r' {
                end - 1
            } else {
                end
            };
            let line = string_between(cs.as_slice(), at, stop);
            let ghost before = out@;
            let (drawn, next) = render_line(line.as_str(), in_code, ui);
            out.append(drawn.as_str());
            out.push('\n');
            proof {
                assert(rest.take(end - at) =~= cs@.subrange(at as int, end as int));
                assert(without_cr(rest.take(end - at)) =~= line@);
                assert(rest.skip(end - at + 1) =~= cs@.skip(end + 1));
                assert(out@ + fed(next, cs@.skip(end + 1)).0 =~= before + fed(in_code, rest).0);
            }
            in_code = next;
            at = end + 1;
        }
    }

    /// Ends the text: draws the line that was not completed, if there is one.
    pub fn flush(&mut self, ui: &Ui) -> (r: String)
        ensures
            (r@, final(self)@) == flushed(ui.on(), old(self)@),
    {
        let rest = self.line_buf.clone();
        self.line_buf = String::new();
        proof {
            assert(self.line_buf@ =~= seq![]);
        }
        let none = String::new();
        proof {
            assert(none@ =~= seq![]);
        }
        if !ui.enabled() {
            return none;
        }
        let cs = chars_of(rest.as_str());
        let stop: usize = if cs.len() > 0 && cs[cs.len() - 1] == '\r' {
            cs.len() - 1
        } else {
            cs.len()
        };
        let line = string_between(cs.as_slice(), 0, stop);
        proof {
            assert(line@ =~= without_cr(rest@));
        }
        if line.as_str().is_empty() {
            none
        } else {
            let (drawn, next) = render_line(line.as_str(), self.in_code_block, ui);
            self.in_code_block = next;
            drawn
        }
    }
}

// ---------------------------------------------------------------------------------------------
// Laws
// ---------------------------------------------------------------------------------------------

/// How a text is cut into pieces does not matter: two pieces in a row draw what their
/// concatenation draws, and leave the same state behind.
pub proof fn law_pieces_do_not_matter(
    on: bool,
    state: MarkdownState,
    a: Seq<char>,
    b: Seq<char>,
)
    ensures
        ({
            let (first, between) = pushed(on, state, a);
            let (second, after) = pushed(on, between, b);
            pushed(on, state, a + b) == (first + second, after)
        }),
{
    if on {
        lemma_fed_pieces(state.in_code, state.pending + a, b);
        assert(state.pending + a + b =~= state.pending + (a + b));
    }
}

proof fn lemma_fed_pieces(in_code: bool, a: Seq<char>, b: Seq<char>)
    ensures
        ({
            let (first, between) = fed(in_code, a);
            let (second, after) = fed(between.in_code, between.pending + b);
            fed(in_code, a + b) == (first + second, after)
        }),
    decreases a.len(),
{
    let i = find_char(a, '\n');
    lemma_find_char(a, '\n');
    if i == a.len() {
        let (second, after) = fed(in_code, a + b);
        assert(Seq::<char>::empty() + second =~= second);
    } else {
        let ab = a + b;
        assert forall|j: int| 0 <= j < i implies ab[j] != '\n' by {
            assert(ab[j] == a[j]);
        }
        lemma_find_char_is(ab, '\n', i);
        assert(ab.take(i) =~= a.take(i));
        assert(ab.skip(i + 1) =~= a.skip(i + 1) + b);
        let (drawn, next) = line_text(true, in_code, without_cr(a.take(i)));
        lemma_fed_pieces(next, a.skip(i + 1), b);
        let (more, between) = fed(next, a.skip(i + 1));
        let (second, after) = fed(between.in_code, between.pending + b);
        assert(drawn.push('\n') + (more + second) =~= drawn.push('\n') + more + second);
    }
}

/// With colours off, text passes through as it is.
pub proof fn law_colours_off_passes_through(state: MarkdownState, delta: Seq<char>)
    ensures
        pushed(false, state, delta) == (delta, state),
        flushed(false, state).0 == Seq::<char>::empty(),
{
}

/// A character that marks a style.
pub open spec fn mark(c: char) -> bool {
    c == '`' || c == '*' || c == '_'
}

/// `s` without the characters that mark a style.
pub open spec fn without_marks(s: Seq<char>) -> Seq<char>
    decreases s.len(),
{
    if s.len() == 0 {
        seq![]
    } else if mark(s.last()) {
        without_marks(s.drop_last())
    } else {
        without_marks(s.drop_last()).push(s.last())
    }
}

/// The contents of the stretches of a line from index `i`, in a row.
pub open spec fn contents_from(s: Seq<char>, i: int) -> Seq<char>
    decreases s.len() - i,
    when 0 <= i
    via contents_from_decreases
{
    if i >= s.len() {
        seq![]
    } else {
        let sp = span_at(s, i);
        s.subrange(sp.from, sp.to) + contents_from(s, sp.next)
    }
}

#[via_fn]
proof fn contents_from_decreases(s: Seq<char>, i: int) {
    if i < s.len() {
        lemma_span(s, i);
    }
}

/// Whether no stretch from index `i` on is styled.
pub open spec fn unstyled_from(s: Seq<char>, i: int) -> bool
    decreases s.len() - i,
    when 0 <= i
    via unstyled_from_decreases
{
    i >= s.len() || (span_at(s, i).kind == SpanKind::Plain && unstyled_from(s, i + 1))
}

#[via_fn]
proof fn unstyled_from_decreases(s: Seq<char>, i: int) {
}

proof fn lemma_without_marks_concat(a: Seq<char>, b: Seq<char>)
    ensures
        without_marks(a + b) == without_marks(a) + without_marks(b),
    decreases b.len(),
{
    if b.len() == 0 {
        assert(a + b =~= a);
        assert(without_marks(a) + without_marks(b) =~= without_marks(a));
    } else {
        assert((a + b).drop_last() =~= a + b.drop_last());
        assert((a + b).last() == b.last());
        lemma_without_marks_concat(a, b.drop_last());
        if !mark(b.last()) {
            assert((without_marks(a) + without_marks(b.drop_last())).push(b.last())
                =~= without_marks(a) + without_marks(b.drop_last()).push(b.last()));
        }
    }
}

proof fn lemma_only_marks(s: Seq<char>)
    requires
        forall|i: int| 0 <= i < s.len() ==> mark(#[trigger] s[i]),
    ensures
        without_marks(s) == Seq::<char>::empty(),
    decreases s.len(),
{
    if s.len() > 0 {
        assert(mark(s[s.len() - 1]));
        assert forall|i: int| 0 <= i < s.drop_last().len() implies mark(
            #[trigger] s.drop_last()[i],
        ) by {
            assert(s.drop_last()[i] == s[i]);
        }
        lemma_only_marks(s.drop_last());
    }
}

/// Around the contents of a stretch stand only marks.
proof fn lemma_span_marks(s: Seq<char>, i: int)
    requires
        0 <= i < s.len(),
    ensures
        forall|j: int| i <= j < span_at(s, i).from ==> mark(#[trigger] s[j]),
        forall|j: int| span_at(s, i).to <= j < span_at(s, i).next ==> mark(#[trigger] s[j]),
{
    reveal_strlit("**");
    lemma_span(s, i);
    lemma_find_char(s.skip(i + 1), '`');
    if i + 1 < s.len() {
        lemma_first_match(s, "**"@, i + 2);
    }
    lemma_star_close(s, i + 1);
    lemma_underscore_close(s, i + 1);
    let sp = span_at(s, i);
    if sp.kind == SpanKind::Code {
        assert(s.skip(i + 1)[sp.to - i - 1] == s[sp.to]);
    } else if sp.kind == SpanKind::Bold {
        let m = s.subrange(sp.to, sp.to + 2);
        assert(m[0] == s[sp.to] && m[1] == s[sp.to + 1]);
    }
}

#[verifier::rlimit(30)]
proof fn lemma_contents(s: Seq<char>, i: int)
    requires
        0 <= i <= s.len(),
    ensures
        without_marks(contents_from(s, i)) == without_marks(s.skip(i)),
    decreases s.len() - i,
{
    if i < s.len() {
        let sp = span_at(s, i);
        lemma_span(s, i);
        lemma_span_marks(s, i);
        lemma_contents(s, sp.next);
        let open = s.subrange(i, sp.from);
        let inner = s.subrange(sp.from, sp.to);
        let close = s.subrange(sp.to, sp.next);
        let rest = s.skip(sp.next);
        assert(s.skip(i) =~= open + (inner + (close + rest)));
        lemma_without_marks_concat(open, inner + (close + rest));
        lemma_without_marks_concat(inner, close + rest);
        lemma_without_marks_concat(close, rest);
        lemma_without_marks_concat(inner, contents_from(s, sp.next));
        lemma_only_marks(open);
        lemma_only_marks(close);
        assert(without_marks(s.skip(i)) =~= without_marks(contents_from(s, i)));
    } else {
        assert(s.skip(i) =~= seq![]);
    }
}

proof fn lemma_painted_prefix(on: bool, sgr: Seq<char>, inner: Seq<char>, rest: Seq<char>)
    requires
        is_code(sgr),
        plain(inner),
    ensures
        without_escapes(painted(on, sgr, inner) + rest) == inner + without_escapes(rest),
{
    lemma_codes();
    let reset = "\x1b[0m"@;
    if on {
        assert(sgr + inner + reset + rest =~= sgr + (inner + (reset + rest)));
        lemma_code_prefix(sgr, inner + (reset + rest));
        lemma_plain_prefix(inner, reset + rest);
        lemma_code_prefix(reset, rest);
    } else {
        lemma_plain_prefix(inner, rest);
    }
}

proof fn lemma_inline_contents(on: bool, s: Seq<char>, i: int)
    requires
        plain(s),
        0 <= i,
    ensures
        without_escapes(inline_from(on, s, i)) == contents_from(s, i),
    decreases s.len() - i,
{
    if i < s.len() {
        let sp = span_at(s, i);
        lemma_span(s, i);
        lemma_codes();
        lemma_inline_contents(on, s, sp.next);
        let inner = s.subrange(sp.from, sp.to);
        let rest = inline_from(on, s, sp.next);
        match sp.kind {
            SpanKind::Plain => {
                lemma_plain_prefix(inner, rest);
            },
            SpanKind::Code => {
                lemma_painted_prefix(on, "\x1b[36m"@, inner, rest);
            },
            SpanKind::Bold => {
                lemma_painted_prefix(on, "\x1b[1m"@, inner, rest);
            },
            SpanKind::Italic => {
                lemma_painted_prefix(on, "\x1b[3m"@, inner, rest);
            },
        }
    }
}

/// Drawing a line loses none of its text: without the escape codes, and marks aside, it reads
/// as the line does.
pub proof fn law_inline_loses_nothing(on: bool, s: Seq<char>)
    requires
        plain(s),
    ensures
        without_marks(without_escapes(inline_text(on, s))) == without_marks(s),
{
    lemma_inline_contents(on, s, 0);
    lemma_contents(s, 0);
    assert(s.skip(0) =~= s);
}

proof fn lemma_unstyled(on: bool, s: Seq<char>, i: int)
    requires
        0 <= i <= s.len(),
        unstyled_from(s, i),
    ensures
        inline_from(on, s, i) == s.skip(i),
    decreases s.len() - i,
{
    if i < s.len() {
        lemma_span(s, i);
        assert(span_at(s, i).kind == SpanKind::Plain);
        lemma_unstyled(on, s, i + 1);
        assert(s.subrange(i, i + 1) + s.skip(i + 1) =~= s.skip(i));
    } else {
        assert(s.skip(i) =~= seq![]);
    }
}

/// Marks without a counterpart stay: a line in which nothing is styled is drawn as it is.
pub proof fn law_unpaired_marks_stay(on: bool, s: Seq<char>)
    requires
        unstyled_from(s, 0),
    ensures
        inline_text(on, s) == s,
{
    lemma_unstyled(on, s, 0);
    assert(s.skip(0) =~= s);
}

proof fn lemma_trimmed_end_plain(s: Seq<char>)
    requires
        plain(s),
    ensures
        plain(trimmed_end(s)),
    decreases s.len(),
{
    if s.len() > 0 && crate::text::white_space(s.last()) {
        assert(plain(s.drop_last())) by {
            assert forall|i: int| 0 <= i < s.drop_last().len() implies s.drop_last()[i]
                != crate::ui::escape_char() by {
                assert(s.drop_last()[i] == s[i]);
            }
        }
        lemma_trimmed_end_plain(s.drop_last());
    }
}

proof fn lemma_trimmed_start_suffix(s: Seq<char>)
    ensures
        trimmed_start(s).len() <= s.len(),
        trimmed_start(s) == s.skip(s.len() - trimmed_start(s).len()),
    decreases s.len(),
{
    if s.len() > 0 && crate::text::white_space(s[0]) {
        let rest = s.skip(1);
        lemma_trimmed_start_suffix(rest);
        assert(rest.skip(rest.len() - trimmed_start(rest).len()) =~= s.skip(
            s.len() - trimmed_start(s).len(),
        ));
    } else {
        assert(s.skip(0) =~= s);
    }
}

proof fn lemma_marker_len(t: Seq<char>)
    ensures
        list_marker(t) matches Some(n) ==> 0 <= n <= t.len(),
{
    reveal_strlit("- ");
    reveal_strlit("* ");
    reveal_strlit("+ ");
}

/// Drawing a line outside a code block loses none of its text: the only line that is not shown
/// is a fence, headings and quotes lose at most white space at their end, and of any other line
/// at most marks go. Inside a code block a line is shown as it is behind its bar.
pub proof fn law_line_keeps_text(on: bool, in_code: bool, line: Seq<char>)
    requires
        plain(line),
        !"```"@.is_prefix_of(trimmed_start(line)),
    ensures
        line_text(on, in_code, line).1 == in_code,
        in_code ==> without_escapes(line_text(on, in_code, line).0) == "│ "@ + line,
        !in_code ==> {
            let shown = without_escapes(line_text(on, in_code, line).0);
            let t = trimmed_start(line);
            if heading(t) is Some || t == ">"@ || "> "@.is_prefix_of(t) {
                shown == trimmed_end(line)
            } else {
                without_marks(shown) == without_marks(line)
            }
        },
{
    let t = trimmed_start(line);
    let none = Seq::<char>::empty();
    lemma_codes();
    lemma_trimmed_start_suffix(line);
    if in_code {
        reveal_strlit("│ ");
        lemma_painted_prefix(on, "\x1b[2m"@, "│ "@, line);
        lemma_plain_prefix(line, none);
        assert(line + none =~= line);
    } else if heading(t) is Some {
        let shown = trimmed_end(line);
        lemma_trimmed_end_plain(line);
        let sgr = "\x1b[36m"@ + "\x1b[1m"@;
        let reset = "\x1b[0m"@;
        if on {
            assert(sgr + shown + reset =~= "\x1b[36m"@ + ("\x1b[1m"@ + (shown + (reset + none))));
            lemma_code_prefix("\x1b[36m"@, "\x1b[1m"@ + (shown + (reset + none)));
            lemma_code_prefix("\x1b[1m"@, shown + (reset + none));
            lemma_plain_prefix(shown, reset + none);
            lemma_code_prefix(reset, none);
        } else {
            lemma_plain_prefix(shown, none);
        }
        assert(shown + none =~= shown);
        if !on {
            assert(painted(on, sgr, shown) + none =~= shown);
        }
    } else if t == ">"@ || "> "@.is_prefix_of(t) {
        let shown = trimmed_end(line);
        lemma_trimmed_end_plain(line);
        let reset = "\x1b[0m"@;
        let inner = painted(on, "\x1b[2m"@, shown);
        if on {
            assert("\x1b[3m"@ + inner + reset =~= "\x1b[3m"@ + (inner + (reset + none)));
            lemma_code_prefix("\x1b[3m"@, inner + (reset + none));
            lemma_painted_prefix(on, "\x1b[2m"@, shown, reset + none);
            lemma_code_prefix(reset, none);
        } else {
            lemma_plain_prefix(shown, none);
        }
        assert(shown + none =~= shown);
    } else {
        match list_marker(t) {
            Some(n) => {
                lemma_marker_len(t);
                let indent = line.take(line.len() - t.len());
                let marker = t.take(n);
                let rest = t.skip(n);
                let drawn = inline_text(on, rest);
                let shown = painted(on, "\x1b[2m"@, marker);
                assert(indent + shown + drawn =~= indent + (shown + drawn));
                lemma_plain_prefix(indent, shown + drawn);
                lemma_painted_prefix(on, "\x1b[2m"@, marker, drawn);
                law_inline_loses_nothing(on, rest);
                let read = without_escapes(drawn);
                lemma_without_marks_concat(indent, marker + read);
                lemma_without_marks_concat(marker, read);
                lemma_without_marks_concat(indent, marker + rest);
                lemma_without_marks_concat(marker, rest);
                assert(line =~= indent + (marker + rest));
            },
            None => {
                law_inline_loses_nothing(on, line);
            },
        }
    }
}

/// Whether a line is a fence: three backticks are the first thing on it.
pub open spec fn is_fence(line: Seq<char>) -> bool {
    exists|a: Seq<char>, b: Seq<char>|
        all_blank(a) && line == #[trigger] (a + "```"@ + b)
}

proof fn lemma_fence(line: Seq<char>)
    ensures
        is_fence(line) <==> "```"@.is_prefix_of(trimmed_start(line)),
{
    reveal_strlit("```");
    let mark = seq!['`', '`', '`'];
    assert("```"@ =~= mark);
    let t = trimmed_start(line);
    lemma_trimmed_start_split(line);
    let n = line.len() - t.len();
    if mark.is_prefix_of(t) {
        let a = line.take(n);
        let b = t.skip(3);
        assert(line =~= a + mark + b);
        assert(all_blank(a));
    }
    if is_fence(line) {
        let (a, b): (Seq<char>, Seq<char>) = choose|a: Seq<char>, b: Seq<char>|
            all_blank(a) && line == #[trigger] (a + "```"@ + b);
        lemma_trimmed_start_is(a, mark + b);
        assert(a + mark + b =~= a + (mark + b));
        assert(mark.is_prefix_of(t));
    }
}

/// A fence flips the state, whatever it was, and draws a rule; nothing else leaves a code block or
/// enters one.
pub proof fn law_fence_flips(on: bool, in_code: bool, line: Seq<char>)
    ensures
        is_fence(line) ==> line_text(on, in_code, line).1 == !in_code,
        !is_fence(line) ==> line_text(on, in_code, line).1 == in_code,
        is_fence(line) ==> line_text(on, in_code, line).0 == painted(
            on,
            "\x1b[2m"@,
            "┄┄┄┄┄┄┄┄"@,
        ),
        !is_fence(line) && in_code ==> line_text(on, in_code, line).0 == painted(
            on,
            "\x1b[2m"@,
            "│ "@,
        ) + line,
{
    lemma_fence(line);
}

/// How many of the lines are fences.
pub open spec fn fences(all: Seq<Seq<char>>) -> nat
    decreases all.len(),
{
    if all.len() == 0 {
        0
    } else {
        fences(all.skip(1)) + if is_fence(all[0]) {
            1nat
        } else {
            0nat
        }
    }
}

/// After an even number of fences what follows stands where it stood before them, outside a code
/// block or inside one; after an odd number on the other side. What stands behind the last line
/// feed waits.
pub proof fn law_fences_pair(in_code: bool, text: Seq<char>)
    ensures
        ({
            let parts = split(text, '\n');
            let whole = parts.drop_last().map_values(|l: Seq<char>| without_cr(l));
            &&& fed(in_code, text).1.pending == parts.last()
            &&& fences(whole) % 2 == 0 ==> fed(in_code, text).1.in_code == in_code
            &&& fences(whole) % 2 == 1 ==> fed(in_code, text).1.in_code == !in_code
        }),
    decreases text.len(),
{
    let i = find_char(text, '\n');
    lemma_find_char(text, '\n');
    let parts = split(text, '\n');
    let whole = parts.drop_last().map_values(|l: Seq<char>| without_cr(l));
    if i == text.len() {
        assert(whole =~= seq![]);
    } else {
        let rest = text.skip(i + 1);
        let line = without_cr(text.take(i));
        let more = split(rest, '\n');
        let whole_more = more.drop_last().map_values(|l: Seq<char>| without_cr(l));
        law_fences_pair(line_text(true, in_code, line).1, rest);
        law_fence_flips(true, in_code, line);
        law_split(rest, '\n');
        assert(parts =~= seq![text.take(i)] + more);
        assert(whole[0] == line);
        assert(whole.skip(1) =~= whole_more);
        assert(parts.last() == more.last());
    }
}

/// Whether what stands behind `p` reads as it would at the beginning of a line: only an underscore
/// reads otherwise behind a character that is no blank.
pub open spec fn reads_afresh(p: Seq<char>, b: Seq<char>) -> bool {
    p.len() == 0 || b.len() == 0 || b[0] != '_' || blank(p.last())
}

proof fn lemma_closes_shift(p: Seq<char>, b: Seq<char>, j: int)
    requires
        1 <= j,
    ensures
        star_close(p + b, p.len() + j) == p.len() + star_close(b, j) || j > b.len(),
        underscore_close(p + b, p.len() + j) == p.len() + underscore_close(b, j) || j > b.len(),
    decreases b.len() - j,
{
    let s = p + b;
    let n = p.len() as int;
    if j < b.len() {
        assert(s[n + j] == b[j]);
        assert(s[n + j - 1] == b[j - 1]);
        if j + 1 < b.len() {
            assert(s[n + j + 1] == b[j + 1]);
        }
        lemma_closes_shift(p, b, j + 1);
    }
}

proof fn lemma_span_shift(p: Seq<char>, b: Seq<char>, i: int)
    requires
        0 <= i < b.len(),
        reads_afresh(p, b),
    ensures
        ({
            let n = p.len() as int;
            let x = span_at(p + b, n + i);
            let y = span_at(b, i);
            x.kind == y.kind && x.from == n + y.from && x.to == n + y.to && x.next == n + y.next
        }),
{
    let s = p + b;
    let n = p.len() as int;
    assert(s[n + i] == b[i]);
    assert(s.skip(n + i + 1) =~= b.skip(i + 1));
    lemma_closes_shift(p, b, i + 1);
    if i + 1 < b.len() {
        assert(s[n + i + 1] == b[i + 1]);
        assert(s.skip(n + i + 2) =~= b.skip(i + 2));
        lemma_first_match_skip(s, "**"@, n + i + 2);
        lemma_first_match_skip(b, "**"@, i + 2);
    }
    if i > 0 {
        assert(s[n + i - 1] == b[i - 1]);
    } else if n > 0 {
        assert(s[n - 1] == p.last());
    }
}

proof fn lemma_inline_shift(on: bool, p: Seq<char>, b: Seq<char>, i: int)
    requires
        0 <= i,
        reads_afresh(p, b),
    ensures
        inline_from(on, p + b, p.len() + i) == inline_from(on, b, i),
    decreases b.len() - i,
{
    if i < b.len() {
        let n = p.len() as int;
        let y = span_at(b, i);
        lemma_span_shift(p, b, i);
        lemma_span(b, i);
        assert((p + b).subrange(n + y.from, n + y.to) =~= b.subrange(y.from, y.to));
        lemma_inline_shift(on, p, b, y.next);
    }
}

proof fn lemma_inline_after(on: bool, p: Seq<char>, b: Seq<char>)
    requires
        reads_afresh(p, b),
    ensures
        inline_from(on, p + b, p.len() as int) == inline_text(on, b),
{
    lemma_inline_shift(on, p, b, 0);
}

/// Text without a mark in it is drawn as it is, and what follows it as it would be on its own.
pub proof fn law_text_is_drawn_as_it_is(on: bool, a: Seq<char>, b: Seq<char>)
    requires
        forall|i: int| 0 <= i < a.len() ==> !mark(#[trigger] a[i]),
        reads_afresh(a, b),
    ensures
        inline_text(on, a + b) == a + inline_text(on, b),
        inline_text(on, a) == a,
{
    let none = Seq::<char>::empty();
    lemma_text_from(on, a, b, 0);
    lemma_inline_after(on, a, b);
    assert(a.skip(0) =~= a);
    lemma_text_from(on, a, none, 0);
    lemma_inline_after(on, a, none);
    assert(a + none =~= a);
    assert(inline_text(on, none) =~= none);
}

proof fn lemma_text_from(on: bool, a: Seq<char>, b: Seq<char>, i: int)
    requires
        0 <= i <= a.len(),
        forall|k: int| 0 <= k < a.len() ==> !mark(#[trigger] a[k]),
    ensures
        inline_from(on, a + b, i) == a.skip(i) + inline_from(on, a + b, a.len() as int),
    decreases a.len() - i,
{
    let s = a + b;
    let end = inline_from(on, s, a.len() as int);
    if i == a.len() {
        assert(a.skip(i) + end =~= end);
    } else {
        assert(s[i] == a[i]);
        lemma_text_from(on, a, b, i + 1);
        assert(s.subrange(i, i + 1) + (a.skip(i + 1) + end) =~= a.skip(i) + end);
    }
}

/// What stands between two backticks is code, whatever else it holds, and no mark inside it
/// counts; a backtick that no other follows stays.
pub proof fn law_code_span(on: bool, c: Seq<char>, b: Seq<char>)
    requires
        c.len() > 0,
        !c.contains('`'),
        b.len() == 0 || b[0] != '_',
    ensures
        inline_text(on, seq!['`'] + c + seq!['`'] + b) == painted(on, "\x1b[36m"@, c) + inline_text(
            on,
            b,
        ),
        !b.contains('`') ==> inline_text(on, seq!['`'] + b) == seq!['`'] + inline_text(on, b),
{
    let p = seq!['`'] + c + seq!['`'];
    let s = p + b;
    let n = c.len() as int;
    let rest = s.skip(1);
    assert forall|i: int| 0 <= i < n implies rest[i] != '`' by {
        assert(rest[i] == c[i]);
    }
    assert(rest[n] == '`');
    lemma_find_char_is(rest, '`', n);
    assert(s.subrange(1, n + 1) =~= c);
    lemma_inline_after(on, p, b);
    let lone = seq!['`'];
    let t = lone + b;
    if !b.contains('`') {
        assert(t.skip(1) =~= b);
        lemma_find_char_is(b, '`', b.len() as int);
        lemma_inline_after(on, lone, b);
        assert(t.subrange(0, 1) =~= lone);
    }
}

/// What stands between two pairs of stars is bold, single stars among it.
pub proof fn law_bold_span(on: bool, c: Seq<char>, b: Seq<char>)
    requires
        c.len() > 0,
        c.last() != '*',
        forall|i: int| !#[trigger] occurs_at(c, "**"@, i),
        b.len() == 0 || b[0] != '_',
    ensures
        inline_text(on, seq!['*', '*'] + c + seq!['*', '*'] + b) == painted(on, "\x1b[1m"@, c)
            + inline_text(on, b),
{
    reveal_strlit("**");
    let m = "**"@;
    let p = seq!['*', '*'] + c + seq!['*', '*'];
    let s = p + b;
    let n = c.len() as int;
    assert(s.subrange(n + 2, n + 4) =~= m);
    assert(occurs_at(s, m, n + 2));
    assert forall|i: int| 2 <= i < n + 2 implies !#[trigger] occurs_at(s, m, i) by {
        if occurs_at(s, m, i) {
            let q = s.subrange(i, i + 2);
            assert(q[0] == s[i] && q[1] == s[i + 1]);
            assert(s[i] == c[i - 2]);
            if i == n + 1 {
                assert(c.last() == '*');
            } else {
                assert(c.subrange(i - 2, i) =~= m);
                assert(occurs_at(c, m, i - 2));
            }
        }
    }
    lemma_first_match(s, m, 2);
    assert(first_match(s, m, 2) == Some(n + 2));
    assert(s.subrange(2, n + 2) =~= c);
    lemma_inline_after(on, p, b);
}

/// Whether every star has another one beside it, and none stands at the beginning or the end.
pub open spec fn no_lone_star(c: Seq<char>) -> bool {
    forall|i: int|
        0 <= i < c.len() && #[trigger] c[i] == '*' ==> 0 < i < c.len() - 1 && (c[i - 1] == '*'
            || c[i + 1] == '*')
}

/// Whether no underscore has a blank behind it.
pub open spec fn no_closing_underscore(c: Seq<char>) -> bool {
    forall|i: int| 0 <= i < c.len() - 1 && #[trigger] c[i] == '_' ==> !blank(c[i + 1])
}

/// What stands between two single stars is italic, and so is what stands between an underscore at
/// the beginning of a word and one at the end of a word; a star that no other follows stays.
pub proof fn law_italic_span(on: bool, c: Seq<char>, b: Seq<char>)
    requires
        c.len() > 0,
    ensures
        no_lone_star(c) && (b.len() == 0 || (b[0] != '*' && b[0] != '_')) ==> inline_text(
            on,
            seq!['*'] + c + seq!['*'] + b,
        ) == painted(on, "\x1b[3m"@, c) + inline_text(on, b),
        no_closing_underscore(c) && !blank(c.last()) && (b.len() == 0 || blank(b[0])) ==> inline_text(
            on,
            seq!['_'] + c + seq!['_'] + b,
        ) == painted(on, "\x1b[3m"@, c) + inline_text(on, b),
        !b.contains('*') && (b.len() == 0 || b[0] != '_') ==> inline_text(on, seq!['*'] + b)
            == seq!['*'] + inline_text(on, b),
{
    let n = c.len() as int;
    if no_lone_star(c) && (b.len() == 0 || (b[0] != '*' && b[0] != '_')) {
        let p = seq!['*'] + c + seq!['*'];
        let s = p + b;
        assert forall|i: int| 1 <= i < n + 1 implies !lone_star(s, i) by {
            assert(s[i] == c[i - 1]);
            if c[i - 1] == '*' {
                assert(1 < i < n);
                assert(s[i - 1] == c[i - 2]);
                assert(s[i + 1] == c[i]);
            }
        }
        assert(s[n] == c[n - 1]);
        assert(s[1] == c[0]);
        assert(s[n + 1] == '*');
        assert(s[n] != '*');
        if n + 2 < s.len() {
            assert(s[n + 2] == b[0]);
        }
        lemma_star_close_is(s, 1, n + 1);
        assert(s[1] != '*');
        assert(s.subrange(1, n + 1) =~= c);
        lemma_inline_after(on, p, b);
    }
    if no_closing_underscore(c) && !blank(c.last()) && (b.len() == 0 || blank(b[0])) {
        let p = seq!['_'] + c + seq!['_'];
        let s = p + b;
        assert forall|i: int| 1 <= i < n + 1 implies !closing_underscore(s, i) by {
            assert(s[i] == c[i - 1]);
            if i < n {
                assert(s[i + 1] == c[i]);
            } else {
                assert(s[i + 1] == '_');
            }
        }
        assert(s[n + 1] == '_');
        assert(s[n] == c.last());
        if n + 2 < s.len() {
            assert(s[n + 2] == b[0]);
        }
        lemma_underscore_close_is(s, 1, n + 1);
        assert(s.subrange(1, n + 1) =~= c);
        lemma_inline_after(on, p, b);
    }
    if !b.contains('*') && (b.len() == 0 || b[0] != '_') {
        let lone = seq!['*'];
        let s = lone + b;
        assert forall|i: int| 1 <= i < s.len() implies s[i] != '*' by {
            assert(s[i] == b[i - 1]);
        }
        lemma_star_close_is(s, 1, s.len() as int);
        if s.len() > 1 {
            assert(s[1] != '*');
        }
        assert(s.subrange(0, 1) =~= lone);
        lemma_inline_after(on, lone, b);
    }
}

proof fn lemma_star_close_is(s: Seq<char>, from: int, end: int)
    requires
        0 <= from <= end <= s.len(),
        forall|j: int| from <= j < end ==> !lone_star(s, j),
        end < s.len() ==> lone_star(s, end),
    ensures
        star_close(s, from) == end,
    decreases end - from,
{
    if from < end {
        assert(!lone_star(s, from));
        lemma_star_close_is(s, from + 1, end);
    }
}

proof fn lemma_underscore_close_is(s: Seq<char>, from: int, end: int)
    requires
        0 <= from <= end <= s.len(),
        forall|j: int| from <= j < end ==> !closing_underscore(s, j),
        end < s.len() ==> closing_underscore(s, end),
    ensures
        underscore_close(s, from) == end,
    decreases end - from,
{
    if from < end {
        assert(!closing_underscore(s, from));
        lemma_underscore_close_is(s, from + 1, end);
    }
}

/// Underscores inside words are no marks: a line in which every underscore stands behind a
/// character that is no blank, and which has no other marks, is drawn as it is.
pub proof fn law_underscores_in_words_stay(on: bool, s: Seq<char>)
    requires
        forall|i: int|
            0 <= i < s.len() ==> #[trigger] s[i] != '`' && s[i] != '*' && (s[i] == '_' ==> i > 0
                && !blank(s[i - 1])),
    ensures
        inline_text(on, s) == s,
{
    lemma_words_from(on, s, 0);
    assert(s.skip(0) =~= s);
}

proof fn lemma_words_from(on: bool, s: Seq<char>, i: int)
    requires
        0 <= i <= s.len(),
        forall|k: int|
            0 <= k < s.len() ==> #[trigger] s[k] != '`' && s[k] != '*' && (s[k] == '_' ==> k > 0
                && !blank(s[k - 1])),
    ensures
        inline_from(on, s, i) == s.skip(i),
    decreases s.len() - i,
{
    if i == s.len() {
        assert(s.skip(i) =~= seq![]);
    } else {
        assert(s[i] != '`' && s[i] != '*');
        lemma_words_from(on, s, i + 1);
        assert(s.subrange(i, i + 1) + s.skip(i + 1) =~= s.skip(i));
    }
}

/// Outside a code block, a line of one to three hashes and a blank is a heading, drawn whole in
/// one style and without the white space at its end; four hashes make none.
pub proof fn law_headings(on: bool, a: Seq<char>, k: nat, rest: Seq<char>)
    requires
        all_blank(a),
        k > 0,
    ensures
        ({
            let t = Seq::new(k, |i: int| '#') + seq![' '] + rest;
            let line = a + t;
            if k <= 3 {
                line_text(on, false, line).0 == painted(
                    on,
                    "\x1b[36m"@ + "\x1b[1m"@,
                    trimmed_end(line),
                )
            } else {
                line_text(on, false, line).0 == inline_text(on, line)
            }
        }),
{
    let t = Seq::new(k, |i: int| '#') + seq![' '] + rest;
    assert(t[0] == '#');
    lemma_trimmed_start_is(a, t);
    lemma_hashes(k, seq![' '] + rest);
    assert(t =~= Seq::new(k, |i: int| '#') + (seq![' '] + rest));
    assert(t[k as int] == ' ');
    lemma_first_char(t);
}

proof fn lemma_hashes(k: nat, rest: Seq<char>)
    requires
        rest.len() == 0 || rest[0] != '#',
    ensures
        hashes(Seq::new(k, |i: int| '#') + rest) == k,
    decreases k,
{
    let t = Seq::new(k, |i: int| '#') + rest;
    if k == 0 {
        assert(t =~= rest);
    } else {
        let less = (k - 1) as nat;
        assert(t[0] == '#');
        assert(t.skip(1) =~= Seq::new(less, |i: int| '#') + rest);
        lemma_hashes(less, rest);
    }
}

/// What kind of line it is shows in its first character.
proof fn lemma_first_char(t: Seq<char>)
    requires
        t.len() > 0,
    ensures
        "```"@.is_prefix_of(t) ==> t[0] == '`',
        heading(t) is Some ==> t[0] == '#',
        t == ">"@ || "> "@.is_prefix_of(t) ==> t[0] == '>',
        list_marker(t) is Some ==> t[0] == '-' || t[0] == '*' || t[0] == '+' || is_digit(t[0]),
{
    reveal_strlit("```");
    reveal_strlit(">");
    reveal_strlit("> ");
    reveal_strlit("- ");
    reveal_strlit("* ");
    reveal_strlit("+ ");
    if "```"@.is_prefix_of(t) {
        assert("```"@[0] == t.subrange(0, 3)[0]);
    }
    if "> "@.is_prefix_of(t) {
        assert("> "@[0] == t.subrange(0, 2)[0]);
    }
    if "- "@.is_prefix_of(t) {
        assert("- "@[0] == t.subrange(0, 2)[0]);
    }
    if "* "@.is_prefix_of(t) {
        assert("* "@[0] == t.subrange(0, 2)[0]);
    }
    if "+ "@.is_prefix_of(t) {
        assert("+ "@[0] == t.subrange(0, 2)[0]);
    }
}

/// Outside a code block, a line that begins with an angle bracket and a blank, or is that bracket
/// alone, is a quotation: drawn whole, and without the white space at its end.
pub proof fn law_quotations(on: bool, a: Seq<char>, rest: Seq<char>)
    requires
        all_blank(a),
    ensures
        ({
            let line = a + (seq!['>', ' '] + rest);
            line_text(on, false, line).0 == painted(
                on,
                "\x1b[3m"@,
                painted(on, "\x1b[2m"@, trimmed_end(line)),
            )
        }),
        line_text(on, false, a + seq!['>']).0 == painted(
            on,
            "\x1b[3m"@,
            painted(on, "\x1b[2m"@, a + seq!['>']),
        ),
{
    reveal_strlit("> ");
    reveal_strlit(">");
    let t = seq!['>', ' '] + rest;
    assert(!white_space('>'));
    lemma_trimmed_start_is(a, t);
    lemma_first_char(t);
    assert("> "@ =~= t.subrange(0, 2));
    let alone = seq!['>'];
    lemma_trimmed_start_is(a, alone);
    lemma_first_char(alone);
    assert(">"@ =~= alone);
    let line = a + alone;
    assert(line.last() == '>');
    assert(trimmed_end(line) == line);
}

/// Outside a code block, an item of a list keeps its indent, shows its marker dimmed (a dash, a
/// star, a plus sign, or a number and a full stop, and a blank) and has its text drawn as a line
/// of its own.
pub proof fn law_list_items(on: bool, a: Seq<char>, m: Seq<char>, rest: Seq<char>)
    requires
        all_blank(a),
        m == seq!['-'] || m == seq!['*'] || m == seq!['+'] || (m.len() > 1 && m.last() == '.'
            && forall|i: int| 0 <= i < m.len() - 1 ==> is_digit(#[trigger] m[i])),
    ensures
        line_text(on, false, a + (m + seq![' '] + rest)).0 == a + painted(
            on,
            "\x1b[2m"@,
            m + seq![' '],
        ) + inline_text(on, rest),
{
    reveal_strlit("- ");
    reveal_strlit("* ");
    reveal_strlit("+ ");
    let t = m + seq![' '] + rest;
    let n = m.len() + 1;
    let line = a + t;
    assert(t[0] == m[0]);
    if m.len() > 1 {
        assert(is_digit(m[0]));
    }
    lemma_first_char(t);
    lemma_trimmed_start_is(a, t);
    assert(line.take(line.len() - t.len()) =~= a);
    assert(t.take(n as int) =~= m + seq![' ']);
    assert(t.skip(n as int) =~= rest);
    if m == seq!['-'] {
        assert("- "@ =~= t.subrange(0, 2));
    } else if m == seq!['*'] {
        assert("* "@ =~= t.subrange(0, 2));
    } else if m == seq!['+'] {
        assert("+ "@ =~= t.subrange(0, 2));
    } else {
        let d = m.drop_last();
        let r = seq!['.', ' '] + rest;
        assert(t =~= d + r);
        lemma_leading_digits(d, r);
        assert(t[d.len() as int] == '.');
        assert(t[d.len() as int + 1] == ' ');
        if "- "@.is_prefix_of(t) || "* "@.is_prefix_of(t) || "+ "@.is_prefix_of(t) {
            assert(t.subrange(0, 2)[0] == t[0]);
        }
    }
}

proof fn lemma_leading_digits(d: Seq<char>, r: Seq<char>)
    requires
        forall|i: int| 0 <= i < d.len() ==> is_digit(#[trigger] d[i]),
        r.len() == 0 || !is_digit(r[0]),
    ensures
        leading_digits(d + r) == d.len(),
    decreases d.len(),
{
    let t = d + r;
    if d.len() == 0 {
        assert(t =~= r);
    } else {
        let less = d.skip(1);
        assert(t[0] == d[0]);
        assert(t.skip(1) =~= less + r);
        assert forall|i: int| 0 <= i < less.len() implies is_digit(#[trigger] less[i]) by {
            assert(less[i] == d[i + 1]);
        }
        lemma_leading_digits(less, r);
    }
}

/// Outside a code block, any other line is drawn as its text.
pub proof fn law_other_lines(on: bool, a: Seq<char>, t: Seq<char>)
    requires
        all_blank(a),
        t.len() > 0 ==> !white_space(t[0]) && t[0] != '`' && t[0] != '#' && t[0] != '>' && t[0]
            != '-' && t[0] != '*' && t[0] != '+' && !is_digit(t[0]),
    ensures
        line_text(on, false, a + t) == (inline_text(on, a + t), false),
{
    lemma_trimmed_start_is(a, t);
    reveal_strlit("```");
    reveal_strlit(">");
    reveal_strlit("> ");
    reveal_strlit("- ");
    reveal_strlit("* ");
    reveal_strlit("+ ");
    if t.len() > 0 {
        lemma_first_char(t);
    }
}

/// A line is drawn when its line feed comes, with or without a carriage return before that, and
/// what follows is drawn as it would be on its own in the state that the line left. Until a line
/// feed comes nothing is drawn and nothing is lost.
pub proof fn law_lines_are_drawn_one_by_one(in_code: bool, line: Seq<char>, rest: Seq<char>)
    requires
        !line.contains('\n'),
    ensures
        fed(in_code, line) == (
            Seq::<char>::empty(),
            MarkdownState { pending: line, in_code },
        ),
        line.len() == 0 || line.last() != '\r' ==> {
            let (drawn, next) = line_text(true, in_code, line);
            &&& fed(in_code, line + seq!['\n'] + rest) == (
                drawn + seq!['\n'] + fed(next, rest).0,
                fed(next, rest).1,
            )
            &&& fed(in_code, line + seq!['\r', '\n'] + rest) == fed(
                in_code,
                line + seq!['\n'] + rest,
            )
        },
{
    let n = line.len() as int;
    lemma_find_char_is(line, '\n', n);
    if line.len() == 0 || line.last() != '\r' {
        let s = line + seq!['\n'] + rest;
        assert forall|i: int| 0 <= i < n implies s[i] != '\n' by {
            assert(s[i] == line[i]);
        }
        assert(s[n] == '\n');
        lemma_find_char_is(s, '\n', n);
        assert(s.take(n) =~= line);
        assert(s.skip(n + 1) =~= rest);
        let (drawn, next) = line_text(true, in_code, line);
        assert(drawn.push('\n') + fed(next, rest).0 =~= drawn + seq!['\n'] + fed(next, rest).0);
        let u = line + seq!['\r', '\n'] + rest;
        assert forall|i: int| 0 <= i < n + 1 implies u[i] != '\n' by {
            if i < n {
                assert(u[i] == line[i]);
            }
        }
        assert(u[n + 1] == '\n');
        lemma_find_char_is(u, '\n', n + 1);
        assert(u.take(n + 1) =~= line.push('\r'));
        assert(line.push('\r').drop_last() =~= line);
        assert(u.skip(n + 2) =~= rest);
    }
}

/// At the end, what still waits is drawn as a line feed would have had it drawn, but for the line
/// feed itself; where nothing waits nothing is drawn. Nothing waits afterwards.
pub proof fn law_flush_draws_what_waits(state: MarkdownState)
    requires
        !state.pending.contains('\n'),
    ensures
        without_cr(state.pending).len() > 0 ==> pushed(true, state, seq!['\n']) == (
            flushed(true, state).0 + seq!['\n'],
            flushed(true, state).1,
        ),
        without_cr(state.pending).len() == 0 ==> flushed(true, state) == (
            Seq::<char>::empty(),
            MarkdownState { pending: seq![], in_code: state.in_code },
        ),
        flushed(true, state).1.pending.len() == 0,
{
    let none = Seq::<char>::empty();
    let s = state.pending + seq!['\n'];
    let n = state.pending.len() as int;
    assert forall|i: int| 0 <= i < n implies s[i] != '\n' by {
        assert(s[i] == state.pending[i]);
    }
    assert(s[n] == '\n');
    lemma_find_char_is(s, '\n', n);
    assert(s.take(n) =~= state.pending);
    assert(s.skip(n + 1) =~= none);
    let next = line_text(true, state.in_code, without_cr(state.pending)).1;
    assert(find_char(none, '\n') == 0);
    assert(fed(next, none) == (none, MarkdownState { pending: none, in_code: next }));
    if without_cr(state.pending).len() > 0 {
        let drawn = flushed(true, state).0;
        assert(drawn.push('\n') + none =~= drawn + seq!['\n']);
    }
}

/// Marks with nothing between them, and marks that nothing closes, stay: the first character is
/// drawn as it is, and what follows as it would be on its own.
pub proof fn law_empty_and_open_marks_stay(on: bool, b: Seq<char>)
    ensures
        inline_text(on, seq!['`', '`'] + b) == seq!['`'] + inline_text(on, seq!['`'] + b),
        inline_text(on, seq!['*', '*', '*', '*'] + b) == seq!['*'] + inline_text(
            on,
            seq!['*', '*', '*'] + b,
        ),
        (forall|i: int| !#[trigger] occurs_at(b, "**"@, i)) ==> inline_text(on, seq!['*', '*'] + b)
            == seq!['*'] + inline_text(on, seq!['*'] + b),
        !b.contains('_') ==> inline_text(on, seq!['_'] + b) == seq!['_'] + inline_text(on, b),
{
    reveal_strlit("**");
    let m = "**"@;
    // backticks
    let s = seq!['`', '`'] + b;
    let rest = seq!['`'] + b;
    assert(s =~= seq!['`'] + rest);
    assert(s.skip(1) =~= rest);
    assert(rest[0] == '`');
    lemma_find_char_is(rest, '`', 0);
    assert(s.subrange(0, 1) =~= seq!['`']);
    lemma_inline_after(on, seq!['`'], rest);
    // four stars
    let four = seq!['*', '*', '*', '*'] + b;
    let three = seq!['*', '*', '*'] + b;
    assert(four =~= seq!['*'] + three);
    assert(four.subrange(2, 4) =~= m);
    assert(occurs_at(four, m, 2));
    lemma_first_match(four, m, 2);
    assert(first_match(four, m, 2) == Some(2int));
    assert(four.subrange(0, 1) =~= seq!['*']);
    assert(three[0] == '*');
    lemma_inline_after(on, seq!['*'], three);
    // two stars
    if forall|i: int| !#[trigger] occurs_at(b, m, i) {
        let two = seq!['*', '*'] + b;
        let one = seq!['*'] + b;
        assert(two =~= seq!['*'] + one);
        lemma_first_match(two, m, 2);
        if first_match(two, m, 2) is Some {
            let i = first_match(two, m, 2)->0;
            assert(b.subrange(i - 2, i) =~= two.subrange(i, i + 2));
            assert(occurs_at(b, m, i - 2));
        }
        assert(two.subrange(0, 1) =~= seq!['*']);
        assert(one[0] == '*');
        lemma_inline_after(on, seq!['*'], one);
    }
    // an underscore
    if !b.contains('_') {
        let u = seq!['_'] + b;
        assert forall|i: int| 1 <= i < u.len() implies u[i] != '_' by {
            assert(u[i] == b[i - 1]);
        }
        lemma_underscore_close_is(u, 1, u.len() as int);
        assert(u.subrange(0, 1) =~= seq!['_']);
        if b.len() > 0 {
            assert(b.contains(b[0]));
        }
        lemma_inline_after(on, seq!['_'], b);
    }
}

/// What only looks like a heading, a quotation or an item of a list is a line like any other: the
/// blank behind the mark is missing, or the full stop behind the number.
pub proof fn law_marks_need_their_blank(on: bool, a: Seq<char>, m: Seq<char>, rest: Seq<char>)
    requires
        all_blank(a),
        m.len() > 0,
        ({
            ||| {
                &&& m == seq!['>'] || m == seq!['-'] || m == seq!['*'] || m == seq!['+']
                &&& rest.len() > 0 && rest[0] != ' '
            }
            ||| {
                &&& m == seq!['-'] || m == seq!['*'] || m == seq!['+']
                &&& rest.len() == 0
            }
            ||| {
                &&& forall|i: int| 0 <= i < m.len() ==> #[trigger] m[i] == '#'
                &&& rest.len() == 0 || (rest[0] != ' ' && rest[0] != '#')
            }
            ||| {
                &&& forall|i: int| 0 <= i < m.len() ==> is_digit(#[trigger] m[i])
                &&& rest.len() == 0 || !is_digit(rest[0])
                &&& rest.len() < 2 || rest[0] != '.' || rest[1] != ' '
            }
        }),
    ensures
        line_text(on, false, a + (m + rest)) == (inline_text(on, a + (m + rest)), false),
{
    let t = m + rest;
    assert(t[0] == m[0]);
    assert(m[0] == '>' || m[0] == '-' || m[0] == '*' || m[0] == '+' || m[0] == '#' || is_digit(
        m[0],
    ));
    lemma_first_char(t);
    lemma_trimmed_start_is(a, t);
    reveal_strlit(">");
    reveal_strlit("> ");
    reveal_strlit("- ");
    reveal_strlit("* ");
    reveal_strlit("+ ");
    if t == ">"@ {
        assert(t.len() == 1);
    }
    if "> "@.is_prefix_of(t) || "- "@.is_prefix_of(t) || "* "@.is_prefix_of(t)
        || "+ "@.is_prefix_of(t) {
        assert(t.subrange(0, 2)[1] == t[1]);
        assert(t.subrange(0, 2)[0] == t[0]);
        assert(t[1] == ' ');
        assert(m.len() == 1);
        assert(t[1] == rest[0]);
    }
    if m[0] == '#' {
        let k = m.len();
        assert(m =~= Seq::new(k, |i: int| '#'));
        lemma_hashes(k, rest);
        if k < t.len() {
            assert(t[k as int] == rest[0]);
        }
    }
    if is_digit(m[0]) {
        lemma_leading_digits(m, rest);
        if m.len() + 1 < t.len() {
            assert(t[m.len() as int] == rest[0]);
            assert(t[m.len() as int + 1] == rest[1]);
        }
    } else {
        assert(leading_digits(t) == 0);
    }
}

} // verus!
