//! Colours and styles for the terminal.
//!
//! With colours off every style hands its text back as it is, so that what is piped into a file
//! holds no escape codes.

use vstd::prelude::*;

use crate::text::{cat2, cat3, is_on, switched_on};

verus! {

/// The switch between styled and plain output.
#[derive(Debug, Clone, Copy)]
pub struct Ui {
    enabled: bool,
}

/// `text` between the escape code `sgr` and the reset code, or as it is with colours off.
pub open spec fn painted(on: bool, sgr: Seq<char>, text: Seq<char>) -> Seq<char> {
    if on {
        sgr + text + "\x1b[0m"@
    } else {
        text
    }
}

/// The line that announces a tool call.
pub open spec fn tool_allowed_text(on: bool, name: Seq<char>, args: Seq<char>) -> Seq<char> {
    if on {
        "\x1b[2m🔧 \x1b[36m"@ + name + "\x1b[39m "@ + args + "\x1b[0m"@
    } else {
        "🔧 "@ + name + " "@ + args
    }
}

/// The line that says that a tool call was refused.
pub open spec fn tool_denied_text(on: bool, name: Seq<char>) -> Seq<char> {
    if on {
        "\x1b[31m🚫 \x1b[1m"@ + name + "\x1b[22m (permission denied)\x1b[0m"@
    } else {
        "🚫 "@ + name + " (permission denied)"@
    }
}

/// Whether output is styled: it goes to a terminal, `NO_COLOR` is not set to anything, and
/// `KARAKURI_NO_COLOR` is not switched on.
pub open spec fn colours(
    terminal: bool,
    no_color: Option<&str>,
    karakuri_no_color: Option<&str>,
) -> bool {
    terminal && no_color is None && !(karakuri_no_color matches Some(v) && switched_on(v@))
}

impl Ui {
    /// Whether styles are drawn.
    pub closed spec fn on(&self) -> bool {
        self.enabled
    }

    /// A terminal with colours on or off.
    pub fn new(enabled: bool) -> (r: Ui)
        ensures
            r.on() == enabled,
    {
        Ui { enabled }
    }

    /// Whether styles are drawn.
    pub fn enabled(&self) -> (r: bool)
        ensures
            r == self.on(),
    {
        self.enabled
    }

    fn paint(&self, sgr: &str, text: &str) -> (r: String)
        ensures
            r@ == painted(self.on(), sgr@, text@),
    {
        if self.enabled {
            cat3(sgr, text, "\x1b[0m")
        } else {
            text.to_owned()
        }
    }

    fn paint2(&self, sgr_a: &str, sgr_b: &str, text: &str) -> (r: String)
        ensures
            r@ == painted(self.on(), sgr_a@ + sgr_b@, text@),
    {
        self.paint(cat2(sgr_a, sgr_b).as_str(), text)
    }

    /// Dim.
    pub fn dim(&self, text: &str) -> (r: String)
        ensures
            r@ == painted(self.on(), "\x1b[2m"@, text@),
    {
        self.paint("\x1b[2m", text)
    }

    /// Bold.
    pub fn bold(&self, text: &str) -> (r: String)
        ensures
            r@ == painted(self.on(), "\x1b[1m"@, text@),
    {
        self.paint("\x1b[1m", text)
    }

    /// Italic.
    pub fn italic(&self, text: &str) -> (r: String)
        ensures
            r@ == painted(self.on(), "\x1b[3m"@, text@),
    {
        self.paint("\x1b[3m", text)
    }

    /// Green.
    pub fn green(&self, text: &str) -> (r: String)
        ensures
            r@ == painted(self.on(), "\x1b[32m"@, text@),
    {
        self.paint("\x1b[32m", text)
    }

    /// Cyan.
    pub fn cyan(&self, text: &str) -> (r: String)
        ensures
            r@ == painted(self.on(), "\x1b[36m"@, text@),
    {
        self.paint("\x1b[36m", text)
    }

    /// Red.
    pub fn red(&self, text: &str) -> (r: String)
        ensures
            r@ == painted(self.on(), "\x1b[31m"@, text@),
    {
        self.paint("\x1b[31m", text)
    }

    /// Yellow.
    pub fn yellow(&self, text: &str) -> (r: String)
        ensures
            r@ == painted(self.on(), "\x1b[33m"@, text@),
    {
        self.paint("\x1b[33m", text)
    }

    /// Green and bold, for the prompt.
    pub fn green_bold(&self, text: &str) -> (r: String)
        ensures
            r@ == painted(self.on(), "\x1b[32m"@ + "\x1b[1m"@, text@),
    {
        self.paint2("\x1b[32m", "\x1b[1m", text)
    }

    /// Cyan and bold, for the name before an answer.
    pub fn cyan_bold(&self, text: &str) -> (r: String)
        ensures
            r@ == painted(self.on(), "\x1b[36m"@ + "\x1b[1m"@, text@),
    {
        self.paint2("\x1b[36m", "\x1b[1m", text)
    }

    /// Red and bold, for the word before an error.
    pub fn red_bold(&self, text: &str) -> (r: String)
        ensures
            r@ == painted(self.on(), "\x1b[31m"@ + "\x1b[1m"@, text@),
    {
        self.paint2("\x1b[31m", "\x1b[1m", text)
    }

    /// The line that announces a tool call: dim, with the tool's name in cyan.
    pub fn tool_allowed(&self, name: &str, args: &str) -> (r: String)
        ensures
            r@ == tool_allowed_text(self.on(), name@, args@),
    {
        if self.enabled {
            let mut r = cat3("\x1b[2m🔧 \x1b[36m", name, "\x1b[39m ");
            r.append(args);
            r.append("\x1b[0m");
            r
        } else {
            let mut r = cat3("🔧 ", name, " ");
            r.append(args);
            r
        }
    }

    /// The line that says that a tool call was refused: red, with the tool's name in bold.
    pub fn tool_denied(&self, name: &str) -> (r: String)
        ensures
            r@ == tool_denied_text(self.on(), name@),
    {
        if self.enabled {
            cat3("\x1b[31m🚫 \x1b[1m", name, "\x1b[22m (permission denied)\x1b[0m")
        } else {
            cat3("🚫 ", name, " (permission denied)")
        }
    }

    /// The code that opens a stretch of reasoning, dim and italic. What follows keeps the style
    /// until [`Ui::reset`].
    pub fn reasoning_open(&self) -> (r: &'static str)
        ensures
            r@ == if self.on() {
                "\x1b[2;3m"@
            } else {
                ""@
            },
    {
        if self.enabled {
            "\x1b[2;3m"
        } else {
            ""
        }
    }

    /// The code that ends every style.
    pub fn reset(&self) -> (r: &'static str)
        ensures
            r@ == if self.on() {
                "\x1b[0m"@
            } else {
                ""@
            },
    {
        if self.enabled {
            "\x1b[0m"
        } else {
            ""
        }
    }
}

/// Decides whether output is styled.
///
/// - `io_is_terminal`: whether the stream is a terminal.
/// - `no_color_env`: the value of `NO_COLOR`; any value at all turns colours off.
/// - `karakuri_no_color`: the value of `KARAKURI_NO_COLOR`; `1` or `true` turns them off.
pub fn color_enabled(
    io_is_terminal: bool,
    no_color_env: Option<&str>,
    karakuri_no_color: Option<&str>,
) -> (r: bool)
    ensures
        r == colours(io_is_terminal, no_color_env, karakuri_no_color),
{
    if !io_is_terminal {
        return false;
    }
    if no_color_env.is_some() {
        return false;
    }
    match karakuri_no_color {
        Some(value) => !is_on(value),
        None => true,
    }
}

// ---------------------------------------------------------------------------------------------
// Laws
// ---------------------------------------------------------------------------------------------

/// The character that starts every escape code.
pub open spec fn escape_char() -> char {
    '\x1b'
}

/// `s` without its escape codes: each runs from the escape character to the next `m`.
pub open spec fn without_escapes(s: Seq<char>) -> Seq<char>
    decreases s.len(),
    when s.len() >= 0
    via without_escapes_decreases
{
    if s.len() == 0 {
        seq![]
    } else if s[0] == escape_char() {
        let end = crate::text::find_char(s, 'm');
        if end == s.len() {
            seq![]
        } else {
            without_escapes(s.skip(end + 1))
        }
    } else {
        seq![s[0]] + without_escapes(s.skip(1))
    }
}

#[via_fn]
proof fn without_escapes_decreases(s: Seq<char>) {
    crate::text::lemma_find_char(s, 'm');
}

/// Whether a text holds no escape code.
pub open spec fn plain(s: Seq<char>) -> bool {
    forall|i: int| 0 <= i < s.len() ==> s[i] != escape_char()
}

/// A text without escape codes in front stays as it is.
pub proof fn lemma_plain_prefix(a: Seq<char>, b: Seq<char>)
    requires
        plain(a),
    ensures
        without_escapes(a + b) == a + without_escapes(b),
    decreases a.len(),
{
    if a.len() == 0 {
        assert(a + b =~= b);
        assert(a + without_escapes(b) =~= without_escapes(b));
    } else {
        let rest = a.skip(1);
        assert forall|i: int| 0 <= i < rest.len() implies rest[i] != escape_char() by {
            assert(rest[i] == a[i + 1]);
        }
        lemma_plain_prefix(rest, b);
        assert((a + b)[0] == a[0]);
        assert((a + b).skip(1) =~= rest + b);
        assert(seq![a[0]] + (rest + without_escapes(b)) =~= a + without_escapes(b));
    }
}

/// An escape code: the escape character, no `m`, and an `m` at its end.
pub open spec fn is_code(s: Seq<char>) -> bool {
    &&& s.len() >= 2
    &&& s[0] == escape_char()
    &&& s.last() == 'm'
    &&& forall|i: int| 0 <= i < s.len() - 1 ==> s[i] != 'm'
}

/// An escape code in front goes.
pub proof fn lemma_code_prefix(code: Seq<char>, b: Seq<char>)
    requires
        is_code(code),
    ensures
        without_escapes(code + b) == without_escapes(b),
{
    let s = code + b;
    assert(s[0] == code[0]);
    assert forall|i: int| 0 <= i < code.len() - 1 implies s[i] != 'm' by {
        assert(s[i] == code[i]);
    }
    assert(s[code.len() - 1] == code.last());
    crate::text::lemma_find_char_is(s, 'm', code.len() - 1);
    assert(s.skip(code.len() as int) =~= b);
}

/// The codes that are used are codes.
pub proof fn lemma_codes()
    ensures
        is_code("\x1b[0m"@),
        is_code("\x1b[1m"@),
        is_code("\x1b[2m"@),
        is_code("\x1b[3m"@),
        is_code("\x1b[36m"@),
{
    reveal_strlit("\x1b[0m");
    reveal_strlit("\x1b[1m");
    reveal_strlit("\x1b[2m");
    reveal_strlit("\x1b[3m");
    reveal_strlit("\x1b[36m");
}

/// A style changes nothing but how the text looks: without its codes it is the text, whether
/// colours are on or off.
pub proof fn law_style_keeps_text(on: bool, sgr: Seq<char>, text: Seq<char>)
    requires
        is_code(sgr),
        plain(text),
    ensures
        without_escapes(painted(on, sgr, text)) == text,
        !on ==> painted(on, sgr, text) == text,
{
    lemma_codes();
    let reset = "\x1b[0m"@;
    let none = Seq::<char>::empty();
    if on {
        assert(sgr + text + reset =~= sgr + (text + (reset + none)));
        lemma_code_prefix(sgr, text + (reset + none));
        lemma_plain_prefix(text, reset + none);
        lemma_code_prefix(reset, none);
        assert(text + none =~= text);
    } else {
        lemma_plain_prefix(text, none);
        assert(text + none =~= text);
    }
}

/// With colours off no line holds an escape code that its parts do not hold.
pub proof fn law_colours_off_is_plain(sgr: Seq<char>, name: Seq<char>, args: Seq<char>)
    requires
        plain(name),
        plain(args),
    ensures
        plain(painted(false, sgr, name)),
        plain(tool_allowed_text(false, name, args)),
        plain(tool_denied_text(false, name)),
{
    reveal_strlit("🔧 ");
    reveal_strlit(" ");
    reveal_strlit("🚫 ");
    reveal_strlit(" (permission denied)");
}

/// A styled text begins with its code and ends with the reset, with the whole text between them.
pub proof fn law_style_is_closed(sgr: Seq<char>, text: Seq<char>)
    ensures
        sgr.is_prefix_of(painted(true, sgr, text)),
        painted(true, sgr, text).skip(sgr.len() as int) == text + seq![
            escape_char(),
            '[',
            '0',
            'm',
        ],
{
    reveal_strlit("\x1b[0m");
    let r = painted(true, sgr, text);
    assert("\x1b[0m"@ =~= seq![escape_char(), '[', '0', 'm']);
    assert(r.subrange(0, sgr.len() as int) =~= sgr);
    assert(r.skip(sgr.len() as int) =~= text + "\x1b[0m"@);
}

/// The lines about a tool read the same with colours and without: the name, and the arguments of
/// one that runs, are there whole, and only the codes make the difference.
pub proof fn law_tool_lines_read_the_same(name: Seq<char>, args: Seq<char>)
    requires
        plain(name),
        plain(args),
    ensures
        without_escapes(tool_allowed_text(true, name, args)) == tool_allowed_text(
            false,
            name,
            args,
        ),
        tool_allowed_text(false, name, args) == seq!['🔧', ' '] + name + seq![' '] + args,
        without_escapes(tool_denied_text(true, name)) == tool_denied_text(false, name),
        tool_denied_text(false, name) == seq!['🚫', ' '] + name + " (permission denied)"@,
{
    lemma_codes();
    reveal_strlit("\x1b[0m");
    reveal_strlit("\x1b[2m");
    reveal_strlit("\x1b[36m");
    reveal_strlit("\x1b[1m");
    reveal_strlit("\x1b[2m🔧 \x1b[36m");
    reveal_strlit("\x1b[39m ");
    reveal_strlit("🔧 ");
    reveal_strlit(" ");
    reveal_strlit("\x1b[31m🚫 \x1b[1m");
    reveal_strlit("\x1b[22m (permission denied)\x1b[0m");
    reveal_strlit("🚫 ");
    reveal_strlit(" (permission denied)");
    let none = Seq::<char>::empty();
    let e = escape_char();
    let reset = "\x1b[0m"@ + none;
    // The line of a tool that runs.
    let c39 = seq![e, '[', '3', '9', 'm'];
    let tail = c39 + (" "@ + (args + reset));
    let mid = "🔧 "@ + ("\x1b[36m"@ + (name + tail));
    assert(tool_allowed_text(true, name, args) =~= "\x1b[2m"@ + mid);
    lemma_code_prefix("\x1b[2m"@, mid);
    lemma_plain_prefix("🔧 "@, "\x1b[36m"@ + (name + tail));
    lemma_code_prefix("\x1b[36m"@, name + tail);
    lemma_plain_prefix(name, tail);
    assert(is_code(c39));
    lemma_code_prefix(c39, " "@ + (args + reset));
    lemma_plain_prefix(" "@, args + reset);
    lemma_plain_prefix(args, reset);
    lemma_code_prefix("\x1b[0m"@, none);
    assert(without_escapes(tool_allowed_text(true, name, args)) =~= tool_allowed_text(
        false,
        name,
        args,
    ));
    assert(tool_allowed_text(false, name, args) =~= seq!['🔧', ' '] + name + seq![' '] + args);
    // The line of a tool that is refused.
    let c31 = seq![e, '[', '3', '1', 'm'];
    let c22 = seq![e, '[', '2', '2', 'm'];
    let end = c22 + (" (permission denied)"@ + reset);
    let rest = "🚫 "@ + ("\x1b[1m"@ + (name + end));
    assert(tool_denied_text(true, name) =~= c31 + rest);
    assert(is_code(c31) && is_code(c22));
    lemma_code_prefix(c31, rest);
    lemma_plain_prefix("🚫 "@, "\x1b[1m"@ + (name + end));
    lemma_code_prefix("\x1b[1m"@, name + end);
    lemma_plain_prefix(name, end);
    lemma_code_prefix(c22, " (permission denied)"@ + reset);
    lemma_plain_prefix(" (permission denied)"@, reset);
    assert(without_escapes(tool_denied_text(true, name)) =~= tool_denied_text(false, name));
    assert(tool_denied_text(false, name) =~= seq!['🚫', ' '] + name + " (permission denied)"@);
}

/// There are colours only on a terminal, and there exactly where neither variable turns them off:
/// the general one by being there at all, this program's own by being switched on.
pub proof fn law_when_there_are_colours(
    terminal: bool,
    no_color: Option<&str>,
    karakuri_no_color: Option<&str>,
)
    ensures
        !terminal ==> !colours(terminal, no_color, karakuri_no_color),
        no_color is Some ==> !colours(terminal, no_color, karakuri_no_color),
        karakuri_no_color is Some && switched_on(karakuri_no_color->0@) ==> !colours(
            terminal,
            no_color,
            karakuri_no_color,
        ),
        terminal && no_color is None && karakuri_no_color is None ==> colours(
            terminal,
            no_color,
            karakuri_no_color,
        ),
        terminal && no_color is None && karakuri_no_color is Some && !switched_on(
            karakuri_no_color->0@,
        ) ==> colours(terminal, no_color, karakuri_no_color),
{
}

} // verus!
