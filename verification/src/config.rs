//! Settings in a `.env` file.
//!
//! One `KEY=VALUE` to a line, with `export ` before it or not, the value in quotes or not; lines
//! that start with `#` are comments. What is set in the environment is never overridden.

use vstd::prelude::*;

use crate::error::{IoError, IoErrorKind};
use crate::number::{dec, dec_usize};
use crate::text::{
    all_blank, cat3, chars_of, find_char, find_char_from, law_trimming, lemma_find_char,
    lemma_find_char_is, lemma_texts_push, lines, same, split_lines, string_between, strip_prefix,
    texts, trim, trimmed, white_space,
};

verus! {

/// A value without the pair of quotes around it.
pub open spec fn unquoted(value: Seq<char>) -> Seq<char> {
    if value.len() >= 2 && value[0] == value.last() && (value[0] == '"' || value[0] == '\'') {
        value.subrange(1, value.len() - 1)
    } else {
        value
    }
}

/// Takes away a pair of double or single quotes around a value.
pub fn trim_quotes(value: &str) -> (r: String)
    ensures
        r@ == unquoted(value@),
{
    let cs = chars_of(value);
    let n: usize = cs.len();
    if n >= 2 && cs[0] == cs[n - 1] && (cs[0] == '"' || cs[0] == '\'') {
        string_between(cs.as_slice(), 1, n - 1)
    } else {
        value.to_owned()
    }
}

/// What a line of the file is.
pub enum DotenvLine {
    /// Blank, or a comment.
    Blank,
    /// There is no equals sign.
    Malformed,
    /// There is nothing before the equals sign.
    EmptyKey,
    /// A setting.
    Pair(String, String),
}

/// A [`DotenvLine`] as the contracts see it.
pub enum DotenvText {
    Blank,
    Malformed,
    EmptyKey,
    Pair(Seq<char>, Seq<char>),
}

impl View for DotenvLine {
    type V = DotenvText;

    open spec fn view(&self) -> DotenvText {
        match self {
            DotenvLine::Blank => DotenvText::Blank,
            DotenvLine::Malformed => DotenvText::Malformed,
            DotenvLine::EmptyKey => DotenvText::EmptyKey,
            DotenvLine::Pair(k, v) => DotenvText::Pair(k@, v@),
        }
    }
}

/// What a line means: the key stands before the first equals sign, the value behind it, both
/// without white space around them.
pub open spec fn dotenv_meaning(raw: Seq<char>) -> DotenvText {
    let line = trimmed(raw);
    if line.len() == 0 || line[0] == '#' {
        DotenvText::Blank
    } else {
        let text = if "export "@.is_prefix_of(line) {
            line.skip("export "@.len() as int)
        } else {
            line
        };
        let eq = find_char(text, '=');
        if eq == text.len() {
            DotenvText::Malformed
        } else if trimmed(text.take(eq)).len() == 0 {
            DotenvText::EmptyKey
        } else {
            DotenvText::Pair(trimmed(text.take(eq)), unquoted(trimmed(text.skip(eq + 1))))
        }
    }
}

/// Reads a line of the file.
pub fn read_dotenv_line(raw: &str) -> (r: DotenvLine)
    ensures
        r@ == dotenv_meaning(raw@),
{
    let line = trim(raw);
    let first = chars_of(line.as_str());
    if first.len() == 0 || first[0] == '#' {
        return DotenvLine::Blank;
    }
    let text = match strip_prefix(line.as_str(), "export ") {
        Some(rest) => rest,
        None => line,
    };
    let cs = chars_of(text.as_str());
    let eq = find_char_from(cs.as_slice(), '=', 0);
    proof {
        assert(cs@.skip(0) =~= text@);
    }
    if eq == cs.len() {
        return DotenvLine::Malformed;
    }
    let key = trim(string_between(cs.as_slice(), 0, eq).as_str());
    let value = trim(string_between(cs.as_slice(), eq + 1, cs.len()).as_str());
    proof {
        assert(text@.take(eq as int) =~= cs@.subrange(0, eq as int));
        assert(text@.skip(eq + 1) =~= cs@.subrange(eq + 1, cs@.len() as int));
    }
    if key.as_str().is_empty() {
        return DotenvLine::EmptyKey;
    }
    DotenvLine::Pair(key, trim_quotes(value.as_str()))
}

/// What a `.env` file leads to: what is to be set, and what is to be said about bad lines.
#[derive(Debug, Clone, PartialEq, Eq)]
pub struct DotenvPlan {
    pub keys: Vec<String>,
    /// The value of each key.
    pub values: Vec<String>,
    pub warnings: Vec<String>,
}

/// A [`DotenvPlan`] as the contracts see it.
pub struct PlanText {
    pub keys: Seq<Seq<char>>,
    pub values: Seq<Seq<char>>,
    pub warnings: Seq<Seq<char>>,
}

impl View for DotenvPlan {
    type V = PlanText;

    open spec fn view(&self) -> PlanText {
        PlanText {
            keys: texts(self.keys@),
            values: texts(self.values@),
            warnings: texts(self.warnings@),
        }
    }
}

/// A plan that does nothing.
pub open spec fn empty_plan() -> PlanText {
    PlanText { keys: seq![], values: seq![], warnings: seq![] }
}

/// A plan with one more line, the `n`th. What is set already, in the environment or by an
/// earlier line, stays.
pub open spec fn planned_line(
    plan: PlanText,
    n: nat,
    line: Seq<char>,
    present: Seq<Seq<char>>,
) -> PlanText {
    match dotenv_meaning(line) {
        DotenvText::Blank => plan,
        DotenvText::Malformed => PlanText {
            warnings: plan.warnings.push(
                ".env:"@ + dec(n) + ": ignoring malformed line (expected KEY=VALUE)"@,
            ),
            ..plan
        },
        DotenvText::EmptyKey => PlanText {
            warnings: plan.warnings.push(
                ".env:"@ + dec(n) + ": ignoring line with empty key"@,
            ),
            ..plan
        },
        DotenvText::Pair(k, v) => if present.contains(k) || plan.keys.contains(k) {
            plan
        } else {
            PlanText { keys: plan.keys.push(k), values: plan.values.push(v), ..plan }
        },
    }
}

/// What the lines of a file lead to.
pub open spec fn planned(all: Seq<Seq<char>>, present: Seq<Seq<char>>) -> PlanText
    decreases all.len(),
{
    if all.len() == 0 {
        empty_plan()
    } else {
        planned_line(planned(all.drop_last(), present), all.len(), all.last(), present)
    }
}

fn is_among(all: &Vec<String>, key: &str) -> (r: bool)
    ensures
        r == texts(all@).contains(key@),
{
    let mut i: usize = 0;
    while i < all.len()
        invariant
            i <= all@.len(),
            forall|j: int| 0 <= j < i ==> texts(all@)[j] != key@,
        decreases all@.len() - i,
    {
        proof {
            assert(texts(all@)[i as int] == all@[i as int]@);
        }
        if same(all[i].as_str(), key) {
            return true;
        }
        i = i + 1;
    }
    false
}

fn warning(n: usize, text: &str) -> (r: String)
    ensures
        r@ == ".env:"@ + dec(n as nat) + text@,
{
    cat3(".env:", dec_usize(n).as_str(), text)
}

/// Plans what a `.env` file leads to. `present` names what is set in the environment.
pub fn plan_dotenv(content: &str, present: &Vec<String>) -> (r: DotenvPlan)
    ensures
        r@ == planned(lines(content@), texts(present@)),
{
    let all = split_lines(content);
    let ghost want = texts(all@);
    let mut plan = DotenvPlan { keys: Vec::new(), values: Vec::new(), warnings: Vec::new() };
    let mut i: usize = 0;
    proof {
        assert(want.take(0) =~= seq![]);
        assert(plan@.keys =~= seq![]);
        assert(plan@.values =~= seq![]);
        assert(plan@.warnings =~= seq![]);
    }
    while i < all.len()
        invariant
            i <= all@.len(),
            want == texts(all@),
            plan@ == planned(want.take(i as int), texts(present@)),
        decreases all@.len() - i,
    {
        let ghost before = plan;
        proof {
            assert(want.take(i + 1).drop_last() =~= want.take(i as int));
            assert(want.take(i + 1).last() == all@[i as int]@);
        }
        match read_dotenv_line(all[i].as_str()) {
            DotenvLine::Blank => {},
            DotenvLine::Malformed => {
                plan.warnings.push(
                    warning(i + 1, ": ignoring malformed line (expected KEY=VALUE)"),
                );
                proof {
                    lemma_texts_push(before.warnings@, plan.warnings@.last());
                }
            },
            DotenvLine::EmptyKey => {
                plan.warnings.push(warning(i + 1, ": ignoring line with empty key"));
                proof {
                    lemma_texts_push(before.warnings@, plan.warnings@.last());
                }
            },
            DotenvLine::Pair(key, value) => {
                if !is_among(present, key.as_str()) && !is_among(&plan.keys, key.as_str()) {
                    plan.keys.push(key);
                    plan.values.push(value);
                    proof {
                        lemma_texts_push(before.keys@, plan.keys@.last());
                        lemma_texts_push(before.values@, plan.values@.last());
                    }
                }
            },
        }
        i = i + 1;
    }
    proof {
        assert(want.take(i as int) =~= want);
    }
    plan
}

/// Plans what reading the `.env` file leads to. A file that is not there leads to nothing; any
/// other failure is reported.
pub fn load_dotenv(content: Result<String, IoError>, present: &Vec<String>) -> (r: Result<
    DotenvPlan,
    IoError,
>)
    ensures
        match content {
            Ok(text) => r matches Ok(plan) && plan@ == planned(lines(text@), texts(present@)),
            Err(e) => if e@.kind == IoErrorKind::NotFound {
                r matches Ok(plan) && plan@ == empty_plan()
            } else {
                r matches Err(f) && f@ == e@
            },
        },
{
    match content {
        Ok(text) => Ok(plan_dotenv(text.as_str(), present)),
        Err(e) => match e.kind {
            IoErrorKind::NotFound => {
                let plan = DotenvPlan {
                    keys: Vec::new(),
                    values: Vec::new(),
                    warnings: Vec::new(),
                };
                proof {
                    assert(plan@.keys =~= seq![]);
                    assert(plan@.values =~= seq![]);
                    assert(plan@.warnings =~= seq![]);
                }
                Ok(plan)
            },
            _ => Err(e),
        },
    }
}

// ---------------------------------------------------------------------------------------------
// Laws
// ---------------------------------------------------------------------------------------------

/// What is set in the environment is never overridden, and no key is set twice.
pub proof fn law_environment_wins(all: Seq<Seq<char>>, present: Seq<Seq<char>>)
    ensures
        ({
            let plan = planned(all, present);
            &&& plan.keys.len() == plan.values.len()
            &&& forall|i: int|
                0 <= i < plan.keys.len() ==> !present.contains(#[trigger] plan.keys[i])
            &&& forall|i: int, j: int|
                0 <= i < j < plan.keys.len() ==> #[trigger] plan.keys[i] != #[trigger] plan.keys[j]
        }),
    decreases all.len(),
{
    if all.len() > 0 {
        law_environment_wins(all.drop_last(), present);
        let before = planned(all.drop_last(), present);
        let after = planned(all, present);
        assert forall|i: int, j: int| 0 <= i < j < after.keys.len() implies #[trigger] after.keys[i]
            != #[trigger] after.keys[j] by {
            if j == before.keys.len() {
                assert(before.keys.contains(before.keys[i]));
            }
        }
    }
}

/// Later lines change nothing that earlier ones set: of two lines with the same key the first
/// wins.
pub proof fn law_first_line_wins(all: Seq<Seq<char>>, n: int, present: Seq<Seq<char>>)
    requires
        0 <= n <= all.len(),
    ensures
        planned(all.take(n), present).keys.is_prefix_of(planned(all, present).keys),
        planned(all.take(n), present).values.is_prefix_of(planned(all, present).values),
    decreases all.len(),
{
    if n == all.len() {
        assert(all.take(n) =~= all);
    } else {
        law_first_line_wins(all.drop_last(), n, present);
        assert(all.drop_last().take(n) =~= all.take(n));
        let early = planned(all.take(n), present);
        let before = planned(all.drop_last(), present);
        let after = planned(all, present);
        assert(early.keys =~= after.keys.subrange(0, early.keys.len() as int));
        assert(early.values =~= after.values.subrange(0, early.values.len() as int));
    }
}

/// Quotes of one kind around a value go, both together and only once; every other value stays as
/// it is, a single quote character among them.
pub proof fn law_quotes_around_a_value(v: Seq<char>)
    ensures
        unquoted(seq!['"'] + v + seq!['"']) == v,
        unquoted(seq!['\''] + v + seq!['\'']) == v,
        unquoted(v) == v || v == seq!['"'] + unquoted(v) + seq!['"'] || v == seq!['\''] + unquoted(
            v,
        ) + seq!['\''],
{
    let d = seq!['"'] + v + seq!['"'];
    assert(d[0] == '"' && d.last() == '"');
    assert(d.subrange(1, d.len() - 1) =~= v);
    let s = seq!['\''] + v + seq!['\''];
    assert(s[0] == '\'' && s.last() == '\'');
    assert(s.subrange(1, s.len() - 1) =~= v);
    if v.len() >= 2 && v[0] == v.last() && (v[0] == '"' || v[0] == '\'') {
        let w = v.subrange(1, v.len() - 1);
        assert(v =~= seq![v[0]] + w + seq![v[0]]);
        assert(v == seq!['"'] + w + seq!['"'] || v == (seq!['\''] + w + seq!['\'']));
    }
}

/// A line of a `.env` file. White space around it and `export ` before it make no difference. A
/// line that begins with a hash, or with nothing on it, says nothing. What stands before the first
/// equals sign is the key and all that stands behind it the value, further equals signs and hashes
/// among it, each without white space around it and the value without its quotes. A line without
/// an equals sign is malformed.
pub proof fn law_dotenv_line(a: Seq<char>, t: Seq<char>, b: Seq<char>, k: Seq<char>, v: Seq<char>)
    requires
        all_blank(a),
        all_blank(b),
        t.len() > 0,
        !white_space(t[0]),
        !white_space(t.last()),
    ensures
        dotenv_meaning(a + t + b) == dotenv_meaning(t),
        dotenv_meaning(a) == DotenvText::Blank,
        dotenv_meaning(t) == DotenvText::Blank <==> t[0] == '#',
        t[0] != '#' && !"export "@.is_prefix_of(t) ==> dotenv_meaning("export "@ + t)
            == dotenv_meaning(t),
        t[0] != '#' && !"export "@.is_prefix_of(t) ==> (dotenv_meaning(t) == DotenvText::Malformed
            <==> !t.contains('=')),
        t[0] != '#' && !"export "@.is_prefix_of(t) && t == k + seq!['='] + v && !k.contains('=')
            ==> dotenv_meaning(t) == (if trimmed(k).len() == 0 {
            DotenvText::EmptyKey
        } else {
            DotenvText::Pair(trimmed(k), unquoted(trimmed(v)))
        }),
{
    reveal_strlit("export ");
    let none = Seq::<char>::empty();
    law_trimming(a, t, b);
    law_trimming(none, t, none);
    assert(none + t + none =~= t);
    law_trimming(a, none, none);
    assert(a + none + none =~= a);
    let x = "export "@ + t;
    assert(x[0] == 'e');
    assert(!white_space('e'));
    assert(x.last() == t.last());
    law_trimming(none, x, none);
    assert(none + x + none =~= x);
    assert("export "@.is_prefix_of(x));
    assert(x.skip(7) =~= t);
    lemma_find_char(t, '=');
    if t == k + seq!['='] + v && !k.contains('=') {
        let n = k.len() as int;
        assert forall|i: int| 0 <= i < n implies t[i] != '=' by {
            assert(t[i] == k[i]);
        }
        assert(t[n] == '=');
        lemma_find_char_is(t, '=', n);
        assert(t.take(n) =~= k);
        assert(t.skip(n + 1) =~= v);
    }
}

/// A plan sets a key exactly where a line gives it and the environment does not have it, and sets
/// it to the value of the first line that gives it.
pub proof fn law_plan_is_complete(
    all: Seq<Seq<char>>,
    present: Seq<Seq<char>>,
    i: int,
    k: Seq<char>,
    v: Seq<char>,
)
    ensures
        first_giver(all, i, k, v) && !present.contains(k) ==> is_set(planned(all, present), k, v),
        is_set(planned(all, present), k, v) ==> !present.contains(k) && given_first(
            all,
            k,
            v,
        ),
{
    let plan = planned(all, present);
    law_environment_wins(all, present);
    lemma_set_is_given(all, present);
    if first_giver(all, i, k, v) && !present.contains(k) {
        lemma_given_is_set(all, present, i, k, v);
        let n = choose|n: int| 0 <= n < plan.keys.len() && #[trigger] plan.keys[n] == k;
        assert(given_first(all, plan.keys[n], plan.values[n]));
        let m = choose|m: int| first_giver(all, m, plan.keys[n], plan.values[n]);
        if m < i {
            assert(gives(all[m], k));
        } else if i < m {
            assert(gives(all[i], k));
        }
    }
}

proof fn lemma_set_is_given(all: Seq<Seq<char>>, present: Seq<Seq<char>>)
    ensures
        forall|n: int|
            0 <= n < planned(all, present).keys.len() ==> given_first(
                all,
                #[trigger] planned(all, present).keys[n],
                planned(all, present).values[n],
            ),
    decreases all.len(),
{
    let plan = planned(all, present);
    law_environment_wins(all, present);
    if all.len() > 0 {
        let front = all.drop_last();
        let before = planned(front, present);
        let last = all.len() - 1;
        law_environment_wins(front, present);
        lemma_set_is_given(front, present);
        assert forall|n: int| 0 <= n < plan.keys.len() implies given_first(
            all,
            #[trigger] plan.keys[n],
            plan.values[n],
        ) by {
            let k = plan.keys[n];
            let v = plan.values[n];
            if n < before.keys.len() {
                assert(before.keys[n] == k && before.values[n] == v);
                assert(given_first(front, before.keys[n], before.values[n]));
                let i = choose|i: int| first_giver(front, i, before.keys[n], before.values[n]);
                assert(front[i] == all[i]);
                assert forall|j: int| 0 <= j < i implies !gives(#[trigger] all[j], k) by {
                    assert(front[j] == all[j]);
                }
                assert(first_giver(all, i, k, v));
            } else {
                assert(dotenv_meaning(all.last()) == DotenvText::Pair(k, v));
                assert(!before.keys.contains(k));
                assert(!present.contains(k));
                assert forall|j: int| 0 <= j < last implies !gives(#[trigger] all[j], k) by {
                    if gives(all[j], k) {
                        assert(front[j] == all[j]);
                        lemma_given_is_set(front, present, j, k, dotenv_meaning(all[j])->Pair_1);
                    }
                }
                assert(first_giver(all, last, k, v));
            }
        }
    }
}

/// The line gives `k` a value.
pub open spec fn gives(line: Seq<char>, k: Seq<char>) -> bool {
    dotenv_meaning(line) matches DotenvText::Pair(x, v) && x == k
}

/// The plan sets `k` to `v`.
pub open spec fn is_set(plan: PlanText, k: Seq<char>, v: Seq<char>) -> bool {
    exists|n: int|
        0 <= n < plan.keys.len() && #[trigger] plan.keys[n] == k && plan.values[n] == v
}

/// The line at `i` gives `k` the value `v`, and no line before it gives `k` any.
pub open spec fn first_giver(all: Seq<Seq<char>>, i: int, k: Seq<char>, v: Seq<char>) -> bool {
    &&& 0 <= i < all.len()
    &&& dotenv_meaning(all[i]) == DotenvText::Pair(k, v)
    &&& forall|j: int| 0 <= j < i ==> !gives(#[trigger] all[j], k)
}

/// The first line that gives `k` gives it the value `v`.
pub open spec fn given_first(all: Seq<Seq<char>>, k: Seq<char>, v: Seq<char>) -> bool {
    exists|i: int| first_giver(all, i, k, v)
}

proof fn lemma_given_is_set(
    all: Seq<Seq<char>>,
    present: Seq<Seq<char>>,
    i: int,
    k: Seq<char>,
    v: Seq<char>,
)
    requires
        0 <= i < all.len(),
        dotenv_meaning(all[i]) == DotenvText::Pair(k, v),
        !present.contains(k),
    ensures
        planned(all, present).keys.contains(k),
    decreases all.len(),
{
    let front = all.drop_last();
    let plan = planned(all, present);
    let before = planned(front, present);
    if i < all.len() - 1 {
        assert(front[i] == all[i]);
        lemma_given_is_set(front, present, i, k, v);
        let n = choose|n: int| 0 <= n < before.keys.len() && before.keys[n] == k;
        assert(plan.keys[n] == k);
    } else if !before.keys.contains(k) {
        assert(plan.keys[before.keys.len() as int] == k);
    }
}

/// What is warned of about the line with number `n`.
pub open spec fn line_warnings(n: nat, line: Seq<char>) -> Seq<Seq<char>> {
    match dotenv_meaning(line) {
        DotenvText::Malformed => seq![
            ".env:"@ + dec(n) + ": ignoring malformed line (expected KEY=VALUE)"@,
        ],
        DotenvText::EmptyKey => seq![".env:"@ + dec(n) + ": ignoring line with empty key"@],
        _ => seq![],
    }
}

/// The warnings follow the lines: one for each line that is malformed or lacks a key, with the
/// number of the line counted from one, and none for any other, whatever the environment holds.
pub proof fn law_warnings_follow_the_lines(
    all: Seq<Seq<char>>,
    line: Seq<char>,
    present: Seq<Seq<char>>,
)
    ensures
        planned(Seq::<Seq<char>>::empty(), present).warnings.len() == 0,
        planned(all.push(line), present).warnings == planned(all, present).warnings + line_warnings(
            all.len() + 1,
            line,
        ),
{
    let more = all.push(line);
    assert(more.drop_last() =~= all);
    assert(more.last() == line);
    let before = planned(all, present);
    assert(planned(more, present).warnings =~= before.warnings + line_warnings(
        all.len() + 1,
        line,
    ));
}

/// `export ` goes once only: what follows it is read as a key and a value whatever it begins with.
pub proof fn law_exported_line(t: Seq<char>, k: Seq<char>, v: Seq<char>)
    requires
        t.len() > 0,
        !white_space(t.last()),
    ensures
        !t.contains('=') ==> dotenv_meaning("export "@ + t) == DotenvText::Malformed,
        t == k + seq!['='] + v && !k.contains('=') ==> dotenv_meaning("export "@ + t) == (
        if trimmed(k).len() == 0 {
            DotenvText::EmptyKey
        } else {
            DotenvText::Pair(trimmed(k), unquoted(trimmed(v)))
        }),
{
    reveal_strlit("export ");
    let none = Seq::<char>::empty();
    let x = "export "@ + t;
    assert(x[0] == 'e');
    assert(x.last() == t.last());
    law_trimming(none, x, none);
    assert(none + x + none =~= x);
    assert("export "@ =~= x.subrange(0, 7));
    assert(x.skip(7) =~= t);
    lemma_find_char(t, '=');
    if t == k + seq!['='] + v && !k.contains('=') {
        let n = k.len() as int;
        assert forall|i: int| 0 <= i < n implies t[i] != '=' by {
            assert(t[i] == k[i]);
        }
        assert(t[n] == '=');
        lemma_find_char_is(t, '=', n);
        assert(t.take(n) =~= k);
        assert(t.skip(n + 1) =~= v);
    }
}

} // verus!
