//! Text as sequences of characters: the vocabulary that the rest of the library is stated in,
//! and the few string operations that it is built from.

use vstd::prelude::*;

verus! {

/// `String::push` puts one character behind what the string holds.
pub assume_specification[ String::push ](s: &mut String, c: char)
    ensures
        final(s)@ == old(s)@.push(c),
;

/// What each string of a list holds.
pub open spec fn texts(v: Seq<String>) -> Seq<Seq<char>> {
    v.map_values(|s: String| s@)
}

/// A string at the end of a list adds its text at the end of the texts.
pub proof fn lemma_texts_push(v: Seq<String>, s: String)
    ensures
        texts(v.push(s)) == texts(v).push(s@),
{
    assert(texts(v.push(s)) =~= texts(v).push(s@));
}

/// What an optional string holds.
pub open spec fn opt_text(o: Option<String>) -> Option<Seq<char>> {
    match o {
        Some(s) => Some(s@),
        None => None,
    }
}

// ---------------------------------------------------------------------------------------------
// Between strings and characters
// ---------------------------------------------------------------------------------------------

/// The characters of a string, in order.
pub fn chars_of(s: &str) -> (r: Vec<char>)
    ensures
        r@ == s@,
{
    let mut r: Vec<char> = Vec::new();
    for c in it: s.chars()
        invariant
            it.seq() == s@,
            r@ == s@.take(it.index() as int),
    {
        proof {
            assert(s@.take(it.index() + 1) =~= s@.take(it.index() as int).push(c));
        }
        r.push(c);
    }
    proof {
        assert(s@.take(s@.len() as int) =~= s@);
    }
    r
}

/// The string made of the given characters.
pub fn string_of(cs: &[char]) -> (r: String)
    ensures
        r@ == cs@,
{
    let mut r: String = String::new();
    for i in 0..cs.len()
        invariant
            r@ == cs@.take(i as int),
    {
        proof {
            assert(cs@.take(i + 1) =~= cs@.take(i as int).push(cs@[i as int]));
        }
        r.push(cs[i]);
    }
    proof {
        assert(cs@.take(cs@.len() as int) =~= cs@);
    }
    r
}

/// The string made of the characters from `from` up to, not including, `to`.
pub fn string_between(cs: &[char], from: usize, to: usize) -> (r: String)
    requires
        from <= to <= cs@.len(),
    ensures
        r@ == cs@.subrange(from as int, to as int),
{
    string_of(vstd::slice::slice_subrange(cs, from, to))
}

/// Whether two strings hold the same characters.
pub fn same(a: &str, b: &str) -> (r: bool)
    ensures
        r == (a@ == b@),
{
    a.to_owned() == b.to_owned()
}

/// A copy of an optional string.
pub fn opt_owned(o: &Option<String>) -> (r: Option<String>)
    ensures
        opt_text(r) == opt_text(*o),
{
    match o {
        Some(s) => Some(s.clone()),
        None => None,
    }
}

/// A copy of a list of strings.
pub fn owned_all(v: &[String]) -> (r: Vec<String>)
    ensures
        texts(r@) == texts(v@),
{
    let mut r: Vec<String> = Vec::new();
    for i in 0..v.len()
        invariant
            texts(r@) == texts(v@.take(i as int)),
    {
        let ghost before = r@;
        r.push(v[i].clone());
        proof {
            assert(v@.take(i + 1) =~= v@.take(i as int).push(v@[i as int]));
            lemma_texts_push(before, r@.last());
            lemma_texts_push(v@.take(i as int), v@[i as int]);
        }
    }
    proof {
        assert(v@.take(v@.len() as int) =~= v@);
    }
    r
}

/// `a` followed by `b`.
pub fn cat2(a: &str, b: &str) -> (r: String)
    ensures
        r@ == a@ + b@,
{
    let mut r: String = a.to_owned();
    r.append(b);
    r
}

/// `a`, `b` and `c` in a row.
pub fn cat3(a: &str, b: &str, c: &str) -> (r: String)
    ensures
        r@ == a@ + b@ + c@,
{
    let mut r: String = a.to_owned();
    r.append(b);
    r.append(c);
    r
}

/// The parts with `sep` between each two neighbours.
pub open spec fn joined(parts: Seq<Seq<char>>, sep: Seq<char>) -> Seq<char>
    decreases parts.len(),
{
    if parts.len() == 0 {
        seq![]
    } else if parts.len() == 1 {
        parts[0]
    } else {
        joined(parts.drop_last(), sep) + sep + parts.last()
    }
}

/// Joins the parts with `sep` between each two neighbours.
pub fn join(parts: &[String], sep: &str) -> (r: String)
    ensures
        r@ == joined(texts(parts@), sep@),
{
    let mut r: String = String::new();
    for i in 0..parts.len()
        invariant
            r@ == joined(texts(parts@.take(i as int)), sep@),
    {
        let ghost before = texts(parts@.take(i as int));
        if i > 0 {
            r.append(sep);
        }
        r.append(parts[i].as_str());
        proof {
            let after = texts(parts@.take(i + 1));
            assert(after.drop_last() =~= before);
            assert(after.last() == parts@[i as int]@);
            if i == 0 {
                assert(joined(before, sep@) =~= seq![]);
            }
            assert(r@ =~= joined(after, sep@));
        }
    }
    proof {
        assert(parts@.take(parts@.len() as int) =~= parts@);
    }
    r
}


/// What `{:?}` writes for a string: the string in double quotes, with escapes in it.
pub uninterp spec fn debug_text(s: Seq<char>) -> Seq<char>;

/// `format!("{s:?}")`, the standard library's `Debug` of `str`: the text depends on the
/// string's characters alone. Which characters are escaped, and how, is left unsaid.
#[verifier::external_body]
pub(crate) fn quoted(s: &str) -> (r: String)
    ensures
        r@ == debug_text(s@),
{
    format!("{s:?}")
}

/// What `{:?}` writes for a path: the path in double quotes, with escapes in it that need not be
/// those of a string.
pub uninterp spec fn debug_path_text(s: Seq<char>) -> Seq<char>;

/// `format!("{:?}", Path::new(s))`, the standard library's `Debug` of `Path`: the text depends on
/// the path's characters alone. Which characters are escaped, and how, is left unsaid.
#[verifier::external_body]
pub(crate) fn quoted_path(s: &str) -> (r: String)
    ensures
        r@ == debug_path_text(s@),
{
    format!("{:?}", std::path::Path::new(s))
}

/// `String::from_utf8`: the text that the bytes encode where they are valid UTF-8, nothing where
/// they are not.
#[verifier::external_body]
pub(crate) fn utf8_text(bytes: Vec<u8>) -> (r: Option<String>)
    ensures
        match r {
            Some(s) => vstd::utf8::valid_utf8(bytes@) && s@ == vstd::utf8::decode_utf8(bytes@),
            None => !vstd::utf8::valid_utf8(bytes@),
        },
{
    String::from_utf8(bytes).ok()
}

// ---------------------------------------------------------------------------------------------
// White space
// ---------------------------------------------------------------------------------------------

/// The characters with the Unicode property `White_Space`.
pub open spec fn white_space(c: char) -> bool {
    let n = c as u32;
    ||| 0x9 <= n <= 0xd
    ||| n == 0x20
    ||| n == 0x85
    ||| n == 0xa0
    ||| n == 0x1680
    ||| 0x2000 <= n <= 0x200a
    ||| n == 0x2028
    ||| n == 0x2029
    ||| n == 0x202f
    ||| n == 0x205f
    ||| n == 0x3000
}

/// Whether `c` is white space.
pub fn is_white_space(c: char) -> (r: bool)
    ensures
        r == white_space(c),
{
    let n: u32 = c as u32;
    (0x9 <= n && n <= 0xd) || n == 0x20 || n == 0x85 || n == 0xa0 || n == 0x1680 || (0x2000 <= n
        && n <= 0x200a) || n == 0x2028 || n == 0x2029 || n == 0x202f || n == 0x205f || n == 0x3000
}

/// `s` without the white space at its start.
pub open spec fn trimmed_start(s: Seq<char>) -> Seq<char>
    decreases s.len(),
{
    if s.len() > 0 && white_space(s[0]) {
        trimmed_start(s.skip(1))
    } else {
        s
    }
}

/// `s` without the white space at its end.
pub open spec fn trimmed_end(s: Seq<char>) -> Seq<char>
    decreases s.len(),
{
    if s.len() > 0 && white_space(s.last()) {
        trimmed_end(s.drop_last())
    } else {
        s
    }
}

/// `s` without the white space at either end.
pub open spec fn trimmed(s: Seq<char>) -> Seq<char> {
    trimmed_end(trimmed_start(s))
}

/// The index of the first character at or after `from` that is not white space.
pub fn skip_white_space(cs: &[char], from: usize) -> (r: usize)
    requires
        from <= cs@.len(),
    ensures
        from <= r <= cs@.len(),
        cs@.skip(r as int) == trimmed_start(cs@.skip(from as int)),
        r < cs@.len() ==> !white_space(cs@[r as int]),
{
    let mut r: usize = from;
    while r < cs.len() && is_white_space(cs[r])
        invariant
            from <= r <= cs@.len(),
            trimmed_start(cs@.skip(r as int)) == trimmed_start(cs@.skip(from as int)),
        decreases cs@.len() - r,
    {
        proof {
            assert(cs@.skip(r as int).skip(1) =~= cs@.skip(r + 1));
        }
        r = r + 1;
    }
    r
}

/// Trims white space from the start.
pub fn trim_start(s: &str) -> (r: String)
    ensures
        r@ == trimmed_start(s@),
{
    let cs = chars_of(s);
    let i = skip_white_space(cs.as_slice(), 0);
    proof {
        assert(s@.skip(0) =~= s@);
        assert(s@.skip(i as int) =~= s@.subrange(i as int, s@.len() as int));
    }
    string_between(cs.as_slice(), i, cs.len())
}

/// Trims white space from the end.
pub fn trim_end(s: &str) -> (r: String)
    ensures
        r@ == trimmed_end(s@),
{
    let cs = chars_of(s);
    let mut end: usize = cs.len();
    proof {
        assert(s@.take(end as int) =~= s@);
    }
    while end > 0 && is_white_space(cs[end - 1])
        invariant
            end <= cs@.len(),
            trimmed_end(cs@.take(end as int)) == trimmed_end(s@),
        decreases end,
    {
        proof {
            assert(cs@.take(end as int).drop_last() =~= cs@.take(end - 1));
        }
        end = end - 1;
    }
    proof {
        assert(cs@.take(end as int) =~= cs@.subrange(0, end as int));
    }
    string_between(cs.as_slice(), 0, end)
}

/// Trims white space from both ends.
pub fn trim(s: &str) -> (r: String)
    ensures
        r@ == trimmed(s@),
{
    trim_end(trim_start(s).as_str())
}

/// The number of characters before the first white space.
pub open spec fn word_len(s: Seq<char>) -> int
    decreases s.len(),
{
    if s.len() > 0 && !white_space(s[0]) {
        1 + word_len(s.skip(1))
    } else {
        0
    }
}

/// Trimming does not lengthen a text, and leaves no white space at its start.
pub proof fn lemma_trimmed_start_len(s: Seq<char>)
    ensures
        trimmed_start(s).len() <= s.len(),
        trimmed_start(s).len() > 0 ==> !white_space(trimmed_start(s)[0]),
    decreases s.len(),
{
    if s.len() > 0 && white_space(s[0]) {
        lemma_trimmed_start_len(s.skip(1));
    }
}

/// A word holds no white space, and white space or the end follows it.
pub proof fn lemma_word_len(s: Seq<char>)
    ensures
        0 <= word_len(s) <= s.len(),
        forall|i: int| 0 <= i < word_len(s) ==> !white_space(s[i]),
        word_len(s) < s.len() ==> white_space(s[word_len(s)]),
    decreases s.len(),
{
    if s.len() > 0 && !white_space(s[0]) {
        let t = s.skip(1);
        lemma_word_len(t);
        assert forall|i: int| 0 <= i < word_len(s) implies !white_space(s[i]) by {
            if i > 0 {
                assert(t[i - 1] == s[i]);
            }
        }
        if word_len(s) < s.len() {
            assert(t[word_len(t)] == s[word_len(s)]);
        }
    }
}

/// The words of `s`: its longest stretches without white space, in order.
pub open spec fn words(s: Seq<char>) -> Seq<Seq<char>>
    decreases s.len(),
    when s.len() >= 0
    via words_decreases
{
    let t = trimmed_start(s);
    if t.len() == 0 {
        seq![]
    } else {
        seq![t.take(word_len(t))] + words(t.skip(word_len(t)))
    }
}

#[via_fn]
proof fn words_decreases(s: Seq<char>) {
    let t = trimmed_start(s);
    lemma_trimmed_start_len(s);
    lemma_word_len(t);
    if t.len() > 0 {
        assert(word_len(t) >= 1) by {
            lemma_word_len(t.skip(1));
        }
    }
}

/// Splits `s` into its words.
pub fn split_words(s: &str) -> (r: Vec<String>)
    ensures
        texts(r@) == words(s@),
{
    let cs = chars_of(s);
    let mut r: Vec<String> = Vec::new();
    let mut at: usize = skip_white_space(cs.as_slice(), 0);
    proof {
        assert(cs@.skip(0) =~= s@);
        lemma_trimmed_start_fixed(s@);
        assert(texts(r@) + words(cs@.skip(at as int)) =~= words(s@));
    }
    while at < cs.len()
        invariant
            at <= cs@.len(),
            at < cs@.len() ==> !white_space(cs@[at as int]),
            texts(r@) + words(cs@.skip(at as int)) == words(s@),
        decreases cs@.len() - at,
    {
        let ghost rest = cs@.skip(at as int);
        let mut end: usize = at + 1;
        proof {
            assert(word_len(rest) == 1 + word_len(rest.skip(1)));
            assert(rest.skip(1) =~= cs@.skip(end as int));
            lemma_word_len(cs@.skip(end as int));
        }
        while end < cs.len() && !is_white_space(cs[end])
            invariant
                at < end <= cs@.len(),
                rest == cs@.skip(at as int),
                word_len(rest) == (end - at) + word_len(cs@.skip(end as int)),
            decreases cs@.len() - end,
        {
            proof {
                assert(cs@.skip(end as int).skip(1) =~= cs@.skip(end + 1));
            }
            end = end + 1;
        }
        let ghost before = r@;
        r.push(string_between(cs.as_slice(), at, end));
        let next = skip_white_space(cs.as_slice(), end);
        proof {
            assert(word_len(cs@.skip(end as int)) == 0);
            assert(trimmed_start(rest) == rest);
            assert(rest.take(end - at) =~= cs@.subrange(at as int, end as int));
            assert(rest.skip(end - at) =~= cs@.skip(end as int));
            lemma_trimmed_start_fixed(cs@.skip(end as int));
            lemma_texts_push(before, r@.last());
            assert(texts(r@) + words(cs@.skip(next as int)) =~= texts(before) + words(rest));
        }
        at = next;
    }
    proof {
        assert(cs@.skip(at as int) =~= seq![]);
        assert(texts(r@) + words(cs@.skip(at as int)) =~= texts(r@));
    }
    r
}

/// White space at the start changes no word.
pub proof fn lemma_trimmed_start_fixed(s: Seq<char>)
    ensures
        trimmed_start(trimmed_start(s)) == trimmed_start(s),
        words(trimmed_start(s)) == words(s),
{
    lemma_trimmed_start_len(s);
}

// ---------------------------------------------------------------------------------------------
// Searching
// ---------------------------------------------------------------------------------------------

/// Whether `p` stands in `s` at index `i`.
pub open spec fn occurs_at(s: Seq<char>, p: Seq<char>, i: int) -> bool {
    0 <= i && i + p.len() <= s.len() && s.subrange(i, i + p.len()) == p
}

/// The first index at or after `from` where `p` stands in `s`.
pub open spec fn first_match(s: Seq<char>, p: Seq<char>, from: int) -> Option<int>
    decreases s.len() - from + 1,
{
    if from < 0 || from + p.len() > s.len() {
        None
    } else if occurs_at(s, p, from) {
        Some(from)
    } else {
        first_match(s, p, from + 1)
    }
}

/// What a first match is: an occurrence with none before it.
pub proof fn lemma_first_match(s: Seq<char>, p: Seq<char>, from: int)
    requires
        from >= 0,
    ensures
        first_match(s, p, from) matches Some(i) ==> from <= i && occurs_at(s, p, i) && forall|j: int|
            from <= j < i ==> !occurs_at(s, p, j),
        first_match(s, p, from) is None ==> forall|j: int| from <= j ==> !occurs_at(s, p, j),
    decreases s.len() - from + 1,
{
    if from + p.len() <= s.len() && !occurs_at(s, p, from) {
        lemma_first_match(s, p, from + 1);
    }
}

/// Whether `p` stands anywhere in `s`.
pub open spec fn contains_text(s: Seq<char>, p: Seq<char>) -> bool {
    exists|i: int| occurs_at(s, p, i)
}

/// How often `p` stands in `s`, counted from the left without overlaps.
pub open spec fn match_count(s: Seq<char>, p: Seq<char>) -> nat
    decreases s.len(),
    when p.len() > 0
    via match_count_decreases
{
    match first_match(s, p, 0) {
        Some(i) => 1 + match_count(s.skip(i + p.len()), p),
        None => 0,
    }
}

#[via_fn]
proof fn match_count_decreases(s: Seq<char>, p: Seq<char>) {
    lemma_first_match(s, p, 0);
}

/// Whether `p` stands in `cs` at index `i`.
pub fn is_at(cs: &[char], p: &[char], i: usize) -> (r: bool)
    requires
        i <= cs@.len(),
    ensures
        r == occurs_at(cs@, p@, i as int),
{
    let n: usize = cs.len();
    if n - i < p.len() {
        return false;
    }
    let mut k: usize = 0;
    while k < p.len()
        invariant
            n == cs@.len(),
            i + p@.len() <= cs@.len(),
            k <= p@.len(),
            forall|j: int| 0 <= j < k ==> cs@[i + j] == p@[j],
        decreases p@.len() - k,
    {
        if cs[i + k] != p[k] {
            proof {
                assert(cs@.subrange(i as int, i + p@.len())[k as int] != p@[k as int]);
            }
            return false;
        }
        k = k + 1;
    }
    proof {
        assert(cs@.subrange(i as int, i + p@.len()) =~= p@);
    }
    true
}

/// Finds the first index at or after `from` where `p` stands in `cs`.
pub fn find_from(cs: &[char], p: &[char], from: usize) -> (r: Option<usize>)
    requires
        from <= cs@.len(),
    ensures
        r is Some == first_match(cs@, p@, from as int) is Some,
        r matches Some(i) ==> first_match(cs@, p@, from as int) == Some(i as int),
{
    let mut i: usize = from;
    while cs.len() - i >= p.len()
        invariant
            from <= i <= cs@.len(),
            first_match(cs@, p@, i as int) == first_match(cs@, p@, from as int),
        decreases cs@.len() - i,
    {
        if is_at(cs, p, i) {
            return Some(i);
        }
        if i == cs.len() {
            proof {
                assert(cs@.subrange(i as int, i as int) =~= p@);
            }
            return None;
        }
        i = i + 1;
    }
    None
}

/// Whether `p` stands anywhere in `s`.
pub fn contains(s: &str, p: &str) -> (r: bool)
    ensures
        r == contains_text(s@, p@),
{
    let cs = chars_of(s);
    let ps = chars_of(p);
    let found = find_from(cs.as_slice(), ps.as_slice(), 0);
    proof {
        lemma_first_match(s@, p@, 0);
    }
    found.is_some()
}

/// Counts how often `p` stands in `s`, from the left without overlaps.
pub fn count_matches(s: &str, p: &str) -> (r: usize)
    requires
        p@.len() > 0,
    ensures
        r == match_count(s@, p@),
{
    let cs = chars_of(s);
    let ps = chars_of(p);
    let end: usize = cs.len();
    let mut at: usize = 0;
    let mut n: usize = 0;
    proof {
        assert(cs@.skip(0) =~= s@);
    }
    loop
        invariant
            end == cs@.len(),
            ps@ == p@,
            p@.len() > 0,
            n <= at <= cs@.len(),
            n + match_count(cs@.skip(at as int), p@) == match_count(s@, p@),
        decreases cs@.len() - at,
    {
        proof {
            lemma_first_match_skip(cs@, p@, at as int);
        }
        match find_from(cs.as_slice(), ps.as_slice(), at) {
            Some(i) => {
                proof {
                    lemma_first_match(cs@, p@, at as int);
                    assert(cs@.skip(at as int).skip(i - at + p@.len()) =~= cs@.skip(i + p@.len()));
                    assert(i + p@.len() <= end);
                }
                at = i + ps.len();
                n = n + 1;
            },
            None => {
                return n;
            },
        }
    }
}

/// Searching from an index is searching what stands behind it.
pub proof fn lemma_first_match_skip(s: Seq<char>, p: Seq<char>, from: int)
    requires
        0 <= from <= s.len(),
    ensures
        first_match(s, p, from) is Some == first_match(s.skip(from), p, 0) is Some,
        first_match(s, p, from) matches Some(i) ==> first_match(s.skip(from), p, 0) == Some(
            i - from,
        ),
{
    lemma_first_match_shift(s, p, from, 0);
}

proof fn lemma_first_match_shift(s: Seq<char>, p: Seq<char>, from: int, k: int)
    requires
        0 <= from <= s.len(),
        0 <= k,
    ensures
        first_match(s, p, from + k) is Some == first_match(s.skip(from), p, k) is Some,
        first_match(s, p, from + k) matches Some(i) ==> first_match(s.skip(from), p, k) == Some(
            i - from,
        ),
    decreases s.len() - from - k + 1,
{
    if from + k + p.len() <= s.len() {
        assert(s.skip(from).subrange(k, k + p.len()) =~= s.subrange(from + k, from + k + p.len()));
        lemma_first_match_shift(s, p, from, k + 1);
    }
}

/// Whether `s` begins with `p`.
pub fn starts_with(s: &str, p: &str) -> (r: bool)
    ensures
        r == p@.is_prefix_of(s@),
{
    let cs = chars_of(s);
    let ps = chars_of(p);
    proof {
        assert(occurs_at(s@, p@, 0) == p@.is_prefix_of(s@));
    }
    is_at(cs.as_slice(), ps.as_slice(), 0)
}

/// What stands behind the prefix `p` of `s`.
pub fn strip_prefix(s: &str, p: &str) -> (r: Option<String>)
    ensures
        r is Some == p@.is_prefix_of(s@),
        r matches Some(t) ==> t@ == s@.skip(p@.len() as int) && s@ == p@ + t@,
{
    let cs = chars_of(s);
    let ps = chars_of(p);
    proof {
        assert(occurs_at(s@, p@, 0) == p@.is_prefix_of(s@));
    }
    if is_at(cs.as_slice(), ps.as_slice(), 0) {
        proof {
            assert(s@.skip(p@.len() as int) =~= s@.subrange(p@.len() as int, s@.len() as int));
            assert(s@ =~= p@ + s@.skip(p@.len() as int));
        }
        Some(string_between(cs.as_slice(), ps.len(), cs.len()))
    } else {
        None
    }
}

/// The index of the first `c` in `s`, or the length of `s` where there is none.
pub open spec fn find_char(s: Seq<char>, c: char) -> int
    decreases s.len(),
{
    if s.len() == 0 || s[0] == c {
        0
    } else {
        1 + find_char(s.skip(1), c)
    }
}

/// What the first `c` is: there is none before it.
pub proof fn lemma_find_char(s: Seq<char>, c: char)
    ensures
        0 <= find_char(s, c) <= s.len(),
        forall|i: int| 0 <= i < find_char(s, c) ==> s[i] != c,
        find_char(s, c) < s.len() ==> s[find_char(s, c)] == c,
    decreases s.len(),
{
    if s.len() > 0 && s[0] != c {
        let t = s.skip(1);
        lemma_find_char(t, c);
        assert forall|i: int| 0 <= i < find_char(s, c) implies s[i] != c by {
            if i > 0 {
                assert(t[i - 1] == s[i]);
            }
        }
    }
}

/// A text that begins with a stretch without `c`, ended by `c` or by the end, has its first `c`
/// there.
pub proof fn lemma_find_char_is(s: Seq<char>, c: char, n: int)
    requires
        0 <= n <= s.len(),
        forall|i: int| 0 <= i < n ==> s[i] != c,
        n < s.len() ==> s[n] == c,
    ensures
        find_char(s, c) == n,
{
    lemma_find_char(s, c);
    let m = find_char(s, c);
    if m < n {
        assert(s[m] != c);
    } else if n < m {
        assert(s[n] != c);
    }
}

/// Finds the first `c` at or after `from`; the length of `cs` where there is none.
pub fn find_char_from(cs: &[char], c: char, from: usize) -> (r: usize)
    requires
        from <= cs@.len(),
    ensures
        from <= r <= cs@.len(),
        r - from == find_char(cs@.skip(from as int), c),
        r < cs@.len() ==> cs@[r as int] == c,
        forall|i: int| from <= i < r ==> cs@[i] != c,
{
    let mut i: usize = from;
    while i < cs.len() && cs[i] != c
        invariant
            from <= i <= cs@.len(),
            forall|j: int| from <= j < i ==> cs@[j] != c,
        decreases cs@.len() - i,
    {
        i = i + 1;
    }
    proof {
        lemma_find_char_is(cs@.skip(from as int), c, i - from);
    }
    i
}

// ---------------------------------------------------------------------------------------------
// Splitting
// ---------------------------------------------------------------------------------------------

/// The stretches of `s` between the characters `c`: one more than there are such characters.
pub open spec fn split(s: Seq<char>, c: char) -> Seq<Seq<char>>
    decreases s.len(),
    when s.len() >= 0
    via split_decreases
{
    let i = find_char(s, c);
    if i == s.len() {
        seq![s]
    } else {
        seq![s.take(i)] + split(s.skip(i + 1), c)
    }
}

#[via_fn]
proof fn split_decreases(s: Seq<char>, c: char) {
    lemma_find_char(s, c);
}

/// Splits `s` at each `c`.
pub fn split_at_char(s: &str, c: char) -> (r: Vec<String>)
    ensures
        texts(r@) == split(s@, c),
{
    let cs = chars_of(s);
    let mut r: Vec<String> = Vec::new();
    let mut at: usize = 0;
    proof {
        assert(cs@.skip(0) =~= s@);
        assert(texts(r@) + split(cs@.skip(0), c) =~= split(s@, c));
    }
    loop
        invariant
            at <= cs@.len(),
            texts(r@) + split(cs@.skip(at as int), c) == split(s@, c),
        decreases cs@.len() - at,
    {
        let end = find_char_from(cs.as_slice(), c, at);
        let ghost rest = cs@.skip(at as int);
        let ghost before = r@;
        r.push(string_between(cs.as_slice(), at, end));
        proof {
            lemma_texts_push(before, r@.last());
            assert(rest.take(end - at) =~= cs@.subrange(at as int, end as int));
        }
        if end == cs.len() {
            proof {
                assert(rest.take(end - at) =~= rest);
                assert(texts(r@) =~= texts(before) + split(rest, c));
            }
            return r;
        }
        proof {
            assert(rest.skip(end - at + 1) =~= cs@.skip(end + 1));
            assert(texts(r@) + split(cs@.skip(end + 1), c) =~= texts(before) + split(rest, c));
        }
        at = end + 1;
    }
}

/// A line's text without the carriage return that belongs to its line ending.
pub open spec fn without_cr(s: Seq<char>) -> Seq<char> {
    if s.len() > 0 && s.last() == '\r' {
        s.drop_last()
    } else {
        s
    }
}

/// The lines of `s`. A line ends at a line feed, or at a carriage return and a line feed; the
/// last one may also end where the text ends.
pub open spec fn lines(s: Seq<char>) -> Seq<Seq<char>>
    decreases s.len(),
    when s.len() >= 0
    via lines_decreases
{
    let i = find_char(s, '\n');
    if s.len() == 0 {
        seq![]
    } else if i == s.len() {
        seq![s]
    } else {
        seq![without_cr(s.take(i))] + lines(s.skip(i + 1))
    }
}

#[via_fn]
proof fn lines_decreases(s: Seq<char>) {
    lemma_find_char(s, '\n');
}

/// Splits `s` into its lines.
pub fn split_lines(s: &str) -> (r: Vec<String>)
    ensures
        texts(r@) == lines(s@),
{
    let cs = chars_of(s);
    let mut r: Vec<String> = Vec::new();
    let mut at: usize = 0;
    proof {
        assert(cs@.skip(0) =~= s@);
        assert(texts(r@) + lines(cs@.skip(0)) =~= lines(s@));
    }
    while at < cs.len()
        invariant
            at <= cs@.len(),
            texts(r@) + lines(cs@.skip(at as int)) == lines(s@),
        decreases cs@.len() - at,
    {
        let end = find_char_from(cs.as_slice(), '\n', at);
        let ghost rest = cs@.skip(at as int);
        let ghost before = r@;
        proof {
            assert(rest.take(end - at) =~= cs@.subrange(at as int, end as int));
        }
        if end == cs.len() {
            r.push(string_between(cs.as_slice(), at, end));
            proof {
                lemma_texts_push(before, r@.last());
                assert(rest.take(end - at) =~= rest);
                assert(texts(r@) =~= texts(before) + lines(rest));
            }
            return r;
        }
        let stop: usize = if end > at && cs[end - 1] == '\r' {
            end - 1
        } else {
            end
        };
        r.push(string_between(cs.as_slice(), at, stop));
        proof {
            lemma_texts_push(before, r@.last());
            assert(without_cr(rest.take(end - at)) =~= cs@.subrange(at as int, stop as int));
            assert(rest.skip(end - at + 1) =~= cs@.skip(end + 1));
            assert(texts(r@) + lines(cs@.skip(end + 1)) =~= texts(before) + lines(rest));
        }
        at = end + 1;
    }
    proof {
        assert(texts(r@) + lines(cs@.skip(at as int)) =~= texts(r@));
    }
    r
}

// ---------------------------------------------------------------------------------------------
// Switches
// ---------------------------------------------------------------------------------------------

/// Whether the value of a switch turns it on: `1`, or `true` in any case, white space around it
/// aside.
pub open spec fn switched_on(value: Seq<char>) -> bool {
    let t = trimmed(value);
    ||| t == seq!['1']
    ||| {
        &&& t.len() == 4
        &&& t[0] == 't' || t[0] == 'T'
        &&& t[1] == 'r' || t[1] == 'R'
        &&& t[2] == 'u' || t[2] == 'U'
        &&& t[3] == 'e' || t[3] == 'E'
    }
}

/// Whether the value of a switch turns it on.
pub fn is_on(value: &str) -> (r: bool)
    ensures
        r == switched_on(value@),
{
    let t = chars_of(trim(value).as_str());
    proof {
        if t@.len() == 1 && t@[0] == '1' {
            assert(t@ =~= seq!['1']);
        }
    }
    (t.len() == 1 && t[0] == '1') || (t.len() == 4 && (t[0] == 't' || t[0] == 'T') && (t[1] == 'r'
        || t[1] == 'R') && (t[2] == 'u' || t[2] == 'U') && (t[3] == 'e' || t[3] == 'E'))
}

// ---------------------------------------------------------------------------------------------
// Laws
// ---------------------------------------------------------------------------------------------

/// Whether every character is white space.
pub open spec fn all_blank(s: Seq<char>) -> bool {
    forall|i: int| 0 <= i < s.len() ==> white_space(#[trigger] s[i])
}

/// Whether no character is white space.
pub open spec fn no_blank(s: Seq<char>) -> bool {
    forall|i: int| 0 <= i < s.len() ==> !white_space(#[trigger] s[i])
}

proof fn lemma_trimmed_start_concat(a: Seq<char>, c: Seq<char>)
    ensures
        trimmed_start(a).len() > 0 ==> trimmed_start(a + c) == trimmed_start(a) + c,
        trimmed_start(a).len() == 0 ==> trimmed_start(a + c) == trimmed_start(c),
    decreases a.len(),
{
    if a.len() == 0 {
        assert(a + c =~= c);
    } else {
        assert((a + c)[0] == a[0]);
        if white_space(a[0]) {
            assert((a + c).skip(1) =~= a.skip(1) + c);
            lemma_trimmed_start_concat(a.skip(1), c);
        }
    }
}

proof fn lemma_trimmed_start_blank(a: Seq<char>)
    requires
        all_blank(a),
    ensures
        trimmed_start(a).len() == 0,
    decreases a.len(),
{
    if a.len() > 0 {
        assert(white_space(a[0]));
        assert forall|i: int| 0 <= i < a.skip(1).len() implies white_space(
            #[trigger] a.skip(1)[i],
        ) by {
            assert(a.skip(1)[i] == a[i + 1]);
        }
        lemma_trimmed_start_blank(a.skip(1));
    }
}

proof fn lemma_trimmed_end_blank(t: Seq<char>, b: Seq<char>)
    requires
        all_blank(b),
    ensures
        trimmed_end(t + b) == trimmed_end(t),
    decreases b.len(),
{
    if b.len() == 0 {
        assert(t + b =~= t);
    } else {
        assert(white_space(b[b.len() - 1]));
        assert((t + b).last() == b.last());
        assert((t + b).drop_last() =~= t + b.drop_last());
        assert forall|i: int| 0 <= i < b.drop_last().len() implies white_space(
            #[trigger] b.drop_last()[i],
        ) by {
            assert(b.drop_last()[i] == b[i]);
        }
        lemma_trimmed_end_blank(t, b.drop_last());
    }
}

/// Trimming takes away the white space around a text, and nothing of the text: neither inside it
/// nor where the text itself begins and ends.
pub proof fn law_trimming(a: Seq<char>, t: Seq<char>, b: Seq<char>)
    requires
        all_blank(a),
        all_blank(b),
        t.len() > 0 ==> !white_space(t[0]) && !white_space(t.last()),
    ensures
        trimmed(a + t + b) == t,
        trimmed_start(a + t) == t,
        trimmed_end(t + b) == t,
{
    lemma_trimmed_start_blank(a);
    lemma_trimmed_start_concat(a, t);
    lemma_trimmed_start_concat(a, t + b);
    lemma_trimmed_end_blank(t, b);
    assert(a + t + b =~= a + (t + b));
    if t.len() > 0 {
        assert((t + b)[0] == t[0]);
    } else {
        assert(t + b =~= b);
        lemma_trimmed_start_blank(b);
    }
}

/// The words before white space and behind it are the words of the whole, in order; a text
/// without white space is one word; no text is no word.
pub proof fn law_words(a: Seq<char>, w: char, b: Seq<char>)
    ensures
        white_space(w) ==> words(a + seq![w] + b) == words(a) + words(b),
        a.len() > 0 && no_blank(a) ==> words(a) == seq![a],
        words(Seq::<char>::empty()) == Seq::<Seq<char>>::empty(),
{
    assert(words(Seq::<char>::empty()) =~= seq![]);
    if white_space(w) {
        lemma_words_concat(a, w, b);
    }
    if a.len() > 0 && no_blank(a) {
        assert(!white_space(a[0]));
        lemma_word_len(a);
        assert(word_len(a) == a.len()) by {
            if word_len(a) < a.len() {
                assert(white_space(a[word_len(a)]));
            }
        }
        assert(a.take(a.len() as int) =~= a);
        assert(a.skip(a.len() as int) =~= Seq::<char>::empty());
        assert(words(a) =~= seq![a]);
    }
}

proof fn lemma_words_concat(a: Seq<char>, w: char, b: Seq<char>)
    requires
        white_space(w),
    ensures
        words(a + seq![w] + b) == words(a) + words(b),
    decreases a.len(),
{
    let c = seq![w] + b;
    let s = a + seq![w] + b;
    let t = trimmed_start(a);
    assert(s =~= a + c);
    lemma_trimmed_start_concat(a, c);
    lemma_trimmed_start_len(a);
    assert(c[0] == w);
    assert(c.skip(1) =~= b);
    if t.len() == 0 {
        assert(trimmed_start(s) == trimmed_start(b));
        lemma_trimmed_start_fixed(s);
        lemma_trimmed_start_fixed(b);
        assert(words(a) =~= seq![]);
        assert(words(a) + words(b) =~= words(b));
    } else {
        let u = t + c;
        let n = word_len(t);
        lemma_word_len(t);
        lemma_word_len(u);
        assert(u[0] == t[0]);
        assert(n > 0) by {
            lemma_word_len(t.skip(1));
        }
        assert(word_len(u) == n) by {
            let m = word_len(u);
            if m < n {
                assert(u[m] == t[m]);
                assert(!white_space(t[m]));
            } else if n < m {
                assert(!white_space(u[n]));
                if n < t.len() {
                    assert(u[n] == t[n]);
                } else {
                    assert(u[n] == w);
                }
            }
        }
        assert(u.take(n) =~= t.take(n));
        assert(u.skip(n) =~= t.skip(n) + seq![w] + b);
        lemma_words_concat(t.skip(n), w, b);
        assert(words(s) =~= words(a) + words(b));
    }
}

proof fn lemma_joined_first(x: Seq<char>, rest: Seq<Seq<char>>, sep: Seq<char>)
    requires
        rest.len() > 0,
    ensures
        joined(seq![x] + rest, sep) == x + sep + joined(rest, sep),
    decreases rest.len(),
{
    let all = seq![x] + rest;
    assert(all.drop_last() =~= seq![x] + rest.drop_last());
    assert(all.last() == rest.last());
    if rest.len() == 1 {
        assert(all.drop_last() =~= seq![x]);
        assert(joined(seq![x], sep) == x);
    } else {
        lemma_joined_first(x, rest.drop_last(), sep);
        assert(joined(all, sep) =~= x + sep + joined(rest, sep));
    }
}

/// Splitting loses nothing: put together again with the separator between them the parts are the
/// text; and no part holds the separator.
pub proof fn law_split(s: Seq<char>, c: char)
    ensures
        split(s, c).len() > 0,
        joined(split(s, c), seq![c]) == s,
        forall|k: int| 0 <= k < split(s, c).len() ==> !(#[trigger] split(s, c)[k]).contains(c),
    decreases s.len(),
{
    let i = find_char(s, c);
    lemma_find_char(s, c);
    let all = split(s, c);
    if i == s.len() {
        assert(joined(seq![s], seq![c]) == s);
    } else {
        let first = s.take(i);
        let rest = split(s.skip(i + 1), c);
        law_split(s.skip(i + 1), c);
        lemma_joined_first(first, rest, seq![c]);
        assert(first + seq![c] + s.skip(i + 1) =~= s);
        assert forall|k: int| 0 <= k < all.len() implies !(#[trigger] all[k]).contains(c) by {
            if k == 0 {
                assert(all[0] == first);
            } else {
                assert(all[k] == rest[k - 1]);
            }
        }
    }
}

/// Parts that do not hold the separator come apart again as they were put together.
pub proof fn law_joined_parts_come_apart(parts: Seq<Seq<char>>, c: char)
    requires
        parts.len() > 0,
        forall|k: int| 0 <= k < parts.len() ==> !(#[trigger] parts[k]).contains(c),
    ensures
        split(joined(parts, seq![c]), c) == parts,
    decreases parts.len(),
{
    let first = parts[0];
    let rest = parts.skip(1);
    let s = joined(parts, seq![c]);
    assert(!parts[0].contains(c));
    if rest.len() == 0 {
        assert(parts =~= seq![first]);
        lemma_find_char_is(s, c, s.len() as int);
        assert(split(s, c) =~= parts);
    } else {
        assert(parts =~= seq![first] + rest);
        lemma_joined_first(first, rest, seq![c]);
        assert forall|k: int| 0 <= k < rest.len() implies !(#[trigger] rest[k]).contains(c) by {
            assert(rest[k] == parts[k + 1]);
        }
        law_joined_parts_come_apart(rest, c);
        let n = first.len() as int;
        assert forall|i: int| 0 <= i < n implies s[i] != c by {
            assert(s[i] == first[i]);
        }
        assert(s[n] == c);
        lemma_find_char_is(s, c, n);
        assert(s.take(n) =~= first);
        assert(s.skip(n + 1) =~= joined(rest, seq![c]));
        assert(split(s, c) =~= parts);
    }
}

/// The lines up to a line feed and those behind it are the lines of the whole. A text without a
/// line feed is one line; a line feed at its end, with or without a carriage return before it,
/// ends the line and is no part of it. No text is no line.
pub proof fn law_lines(a: Seq<char>, b: Seq<char>)
    ensures
        lines(a + seq!['\n'] + b) == lines(a + seq!['\n']) + lines(b),
        a.len() > 0 && !a.contains('\n') ==> lines(a) == seq![a],
        !a.contains('\n') ==> lines(a + seq!['\r', '\n']) == seq![a],
        !a.contains('\n') && (a.len() > 0 ==> a.last() != '\r') ==> lines(a + seq!['\n']) == seq![
            a,
        ],
        lines(Seq::<char>::empty()) == Seq::<Seq<char>>::empty(),
{
    lemma_lines_concat(a, b);
    assert(lines(Seq::<char>::empty()) =~= seq![]);
    if !a.contains('\n') {
        let n = a.len() as int;
        lemma_find_char_is(a, '\n', n);
        let s = a + seq!['\n'];
        lemma_find_char_is(s, '\n', n);
        assert(s.take(n) =~= a);
        assert(s.skip(n + 1) =~= Seq::<char>::empty());
        let t = a + seq!['\r', '\n'];
        assert forall|i: int| 0 <= i < n + 1 implies t[i] != '\n' by {
            if i < n {
                assert(t[i] == a[i]);
            }
        }
        lemma_find_char_is(t, '\n', n + 1);
        assert(t.take(n + 1) =~= a.push('\r'));
        assert(a.push('\r').drop_last() =~= a);
        assert(t.skip(n + 2) =~= Seq::<char>::empty());
        assert(lines(t) =~= seq![a]);
        if a.len() > 0 ==> a.last() != '\r' {
            assert(lines(s) =~= seq![a]);
        }
        if a.len() > 0 {
            assert(lines(a) =~= seq![a]);
        }
    }
}

proof fn lemma_lines_concat(a: Seq<char>, b: Seq<char>)
    ensures
        lines(a + seq!['\n'] + b) == lines(a + seq!['\n']) + lines(b),
    decreases a.len(),
{
    let s = a + seq!['\n'] + b;
    let u = a + seq!['\n'];
    let i = find_char(a, '\n');
    lemma_find_char(a, '\n');
    assert forall|k: int| 0 <= k < i implies s[k] != '\n' && u[k] != '\n' by {
        assert(s[k] == a[k] && u[k] == a[k]);
    }
    assert(s[i] == '\n' && u[i] == '\n');
    lemma_find_char_is(s, '\n', i);
    lemma_find_char_is(u, '\n', i);
    assert(s.take(i) =~= u.take(i));
    if i == a.len() {
        assert(s.skip(i + 1) =~= b);
        assert(u.skip(i + 1) =~= Seq::<char>::empty());
        assert(lines(u.skip(i + 1)) =~= seq![]);
        assert(lines(s) =~= lines(u) + lines(b));
    } else {
        let rest = a.skip(i + 1);
        assert(s.skip(i + 1) =~= rest + seq!['\n'] + b);
        assert(u.skip(i + 1) =~= rest + seq!['\n']);
        lemma_lines_concat(rest, b);
        assert(lines(s) =~= lines(u) + lines(b));
    }
}

/// A text holds another exactly where it can be cut into what is before it, it, and what is
/// behind it.
pub proof fn law_contains(s: Seq<char>, p: Seq<char>)
    ensures
        contains_text(s, p) <==> exists|a: Seq<char>, b: Seq<char>| s == #[trigger] (a + p + b),
{
    if contains_text(s, p) {
        let i = choose|i: int| occurs_at(s, p, i);
        assert(s =~= s.take(i) + p + s.skip(i + p.len()));
    }
    if exists|a: Seq<char>, b: Seq<char>| s == #[trigger] (a + p + b) {
        let (a, b): (Seq<char>, Seq<char>) = choose|a: Seq<char>, b: Seq<char>|
            s == #[trigger] (a + p + b);
        assert(s.subrange(a.len() as int, a.len() as int + p.len()) =~= p);
        assert(occurs_at(s, p, a.len() as int));
    }
}

/// A text counts as holding another once or more where it occurs at all, and more than once
/// where it occurs at two places that do not overlap.
pub proof fn law_match_count(s: Seq<char>, p: Seq<char>)
    requires
        p.len() > 0,
    ensures
        match_count(s, p) > 0 <==> exists|i: int| occurs_at(s, p, i),
        match_count(s, p) > 1 <==> exists|i: int, j: int| #[trigger]
            occurs_at(s, p, i) && #[trigger] occurs_at(s, p, j) && i + p.len() <= j,
{
    lemma_first_match(s, p, 0);
    match first_match(s, p, 0) {
        None => {
            assert forall|i: int| !occurs_at(s, p, i) by {
                if occurs_at(s, p, i) {
                    assert(0 <= i);
                }
            }
        },
        Some(i) => {
            assert(occurs_at(s, p, i));
            let n = i + p.len();
            let rest = s.skip(n);
            lemma_first_match(rest, p, 0);
            assert(match_count(s, p) == 1 + match_count(rest, p));
            assert(match_count(rest, p) > 0 <==> first_match(rest, p, 0) is Some);
            match first_match(rest, p, 0) {
                Some(k) => {
                    assert(s.subrange(n + k, n + k + p.len()) =~= rest.subrange(k, k + p.len()));
                    assert(occurs_at(s, p, n + k));
                },
                None => {
                    assert forall|x: int, y: int| #[trigger]
                        occurs_at(s, p, x) && #[trigger] occurs_at(s, p, y) implies !(x + p.len()
                        <= y) by {
                        if x + p.len() <= y {
                            assert(i <= x);
                            assert(rest.subrange(y - n, y - n + p.len()) =~= s.subrange(
                                y,
                                y + p.len(),
                            ));
                            assert(occurs_at(rest, p, y - n));
                        }
                    }
                },
            }
        },
    }
}

/// A letter of ASCII in its small form.
pub open spec fn small(c: char) -> char {
    if 'A' as u32 <= c as u32 <= 'Z' as u32 {
        ((c as u32 + 32) as u32) as char
    } else {
        c
    }
}

/// A switch is on where its value, in small letters and without white space around it, is `1` or
/// `true`.
pub proof fn law_switch(value: Seq<char>)
    ensures
        switched_on(value) <==> {
            let low = trimmed(value).map_values(|c: char| small(c));
            low == "1"@ || low == "true"@
        },
{
    reveal_strlit("1");
    reveal_strlit("true");
    let t = trimmed(value);
    let low = t.map_values(|c: char| small(c));
    assert("1"@ =~= seq!['1']);
    assert("true"@ =~= seq!['t', 'r', 'u', 'e']);
    assert forall|c: char| #[trigger] small(c) == 't' <==> (c == 't' || c == 'T') by {
        vstd::utf8::char_u32_cast(c, c as u32);
    }
    assert forall|c: char| #[trigger] small(c) == 'r' <==> (c == 'r' || c == 'R') by {
        vstd::utf8::char_u32_cast(c, c as u32);
    }
    assert forall|c: char| #[trigger] small(c) == 'u' <==> (c == 'u' || c == 'U') by {
        vstd::utf8::char_u32_cast(c, c as u32);
    }
    assert forall|c: char| #[trigger] small(c) == 'e' <==> (c == 'e' || c == 'E') by {
        vstd::utf8::char_u32_cast(c, c as u32);
    }
    assert forall|c: char| #[trigger] small(c) == '1' <==> c == '1' by {
        vstd::utf8::char_u32_cast(c, c as u32);
    }
    if t == seq!['1'] {
        assert(low =~= "1"@);
    }
    if low == "1"@ {
        assert(low[0] == '1');
        assert(t =~= seq!['1']);
    }
    if t.len() == 4 {
        assert(low[0] == small(t[0]) && low[1] == small(t[1]) && low[2] == small(t[2]) && low[3]
            == small(t[3]));
        if low == "true"@ {
            assert(low[0] == 't' && low[1] == 'r' && low[2] == 'u' && low[3] == 'e');
        }
        if small(t[0]) == 't' && small(t[1]) == 'r' && small(t[2]) == 'u' && small(t[3]) == 'e' {
            assert(low =~= "true"@);
        }
    }
}

/// A text is white space, and what is left of it without that.
pub proof fn lemma_trimmed_start_split(s: Seq<char>)
    ensures
        trimmed_start(s).len() <= s.len(),
        all_blank(s.take(s.len() - trimmed_start(s).len())),
        s.skip(s.len() - trimmed_start(s).len()) == trimmed_start(s),
        trimmed_start(s).len() > 0 ==> !white_space(trimmed_start(s)[0]),
    decreases s.len(),
{
    if s.len() > 0 && white_space(s[0]) {
        let rest = s.skip(1);
        lemma_trimmed_start_split(rest);
        let n = s.len() - trimmed_start(s).len();
        assert forall|i: int| 0 <= i < n implies white_space(#[trigger] s.take(n)[i]) by {
            if i > 0 {
                assert(s.take(n)[i] == rest.take(n - 1)[i - 1]);
            }
        }
        assert(s.skip(n) =~= rest.skip(n - 1));
    } else {
        assert(s.skip(0) =~= s);
    }
}

/// White space in front of a text that begins with none goes, and nothing else.
pub proof fn lemma_trimmed_start_is(a: Seq<char>, t: Seq<char>)
    requires
        all_blank(a),
        t.len() > 0 ==> !white_space(t[0]),
    ensures
        trimmed_start(a + t) == t,
{
    lemma_trimmed_start_blank(a);
    lemma_trimmed_start_concat(a, t);
}

/// White space before a text and behind it adds no word, and white space between two texts keeps
/// their words apart.
pub proof fn law_words_apart(a: Seq<char>, x: Seq<char>, w: Seq<char>, y: Seq<char>, b: Seq<char>)
    requires
        all_blank(a),
        all_blank(b),
        all_blank(w),
        w.len() > 0,
    ensures
        words(a) == Seq::<Seq<char>>::empty(),
        words(a + x + b) == words(x),
        words(x + w + y) == words(x) + words(y),
{
    lemma_words_blank_front(a, Seq::<char>::empty());
    assert(a + Seq::<char>::empty() =~= a);
    assert(words(Seq::<char>::empty()) =~= seq![]);
    lemma_words_blank_front(a, x + b);
    assert(a + x + b =~= a + (x + b));
    if b.len() == 0 {
        assert(x + b =~= x);
    } else {
        let rest = b.skip(1);
        assert(white_space(b[0]));
        assert forall|i: int| 0 <= i < rest.len() implies white_space(#[trigger] rest[i]) by {
            assert(rest[i] == b[i + 1]);
        }
        assert(x + b =~= x + seq![b[0]] + rest);
        lemma_words_concat(x, b[0], rest);
        lemma_words_blank_front(rest, Seq::<char>::empty());
        assert(rest + Seq::<char>::empty() =~= rest);
        assert(words(x) + words(rest) =~= words(x));
    }
    let rest = w.skip(1);
    assert(white_space(w[0]));
    assert forall|i: int| 0 <= i < rest.len() implies white_space(#[trigger] rest[i]) by {
        assert(rest[i] == w[i + 1]);
    }
    assert(x + w + y =~= x + seq![w[0]] + (rest + y));
    lemma_words_concat(x, w[0], rest + y);
    lemma_words_blank_front(rest, y);
}

proof fn lemma_words_blank_front(a: Seq<char>, x: Seq<char>)
    requires
        all_blank(a),
    ensures
        words(a + x) == words(x),
{
    lemma_trimmed_start_blank(a);
    lemma_trimmed_start_concat(a, x);
    lemma_trimmed_start_fixed(a + x);
    lemma_trimmed_start_fixed(x);
}

/// A text is what trimming leaves of it, and white space around that.
pub proof fn lemma_trimmed_split(s: Seq<char>)
    ensures
        exists|a: Seq<char>, b: Seq<char>|
            all_blank(a) && all_blank(b) && s == #[trigger] (a + trimmed(s) + b),
        trimmed(s).len() > 0 ==> !white_space(trimmed(s)[0]) && !white_space(trimmed(s).last()),
{
    lemma_trimmed_start_split(s);
    let t = trimmed_start(s);
    let a = s.take(s.len() - t.len());
    lemma_trimmed_end_split(t);
    let b = t.skip(trimmed_end(t).len() as int);
    assert(s =~= a + trimmed(s) + b);
}

proof fn lemma_trimmed_end_split(s: Seq<char>)
    ensures
        trimmed_end(s).len() <= s.len(),
        s.take(trimmed_end(s).len() as int) == trimmed_end(s),
        all_blank(s.skip(trimmed_end(s).len() as int)),
        trimmed_end(s).len() > 0 ==> !white_space(trimmed_end(s).last()),
    decreases s.len(),
{
    let n = trimmed_end(s).len() as int;
    if s.len() > 0 && white_space(s.last()) {
        let front = s.drop_last();
        lemma_trimmed_end_split(front);
        assert(s.take(n) =~= front.take(n));
        assert forall|i: int| 0 <= i < s.skip(n).len() implies white_space(
            #[trigger] s.skip(n)[i],
        ) by {
            if i < s.skip(n).len() - 1 {
                assert(s.skip(n)[i] == front.skip(n)[i]);
            }
        }
    } else {
        assert(s.take(s.len() as int) =~= s);
    }
}

/// What stands before a separator and what stands behind it are split each on their own.
pub proof fn law_split_concat(a: Seq<char>, c: char, b: Seq<char>)
    ensures
        split(a + seq![c] + b, c) == split(a, c) + split(b, c),
    decreases a.len(),
{
    let s = a + seq![c] + b;
    let i = find_char(a, c);
    lemma_find_char(a, c);
    assert forall|k: int| 0 <= k < i implies s[k] != c by {
        assert(s[k] == a[k]);
    }
    assert(s[i] == c);
    lemma_find_char_is(s, c, i);
    assert(s.take(i) =~= a.take(i));
    if i == a.len() {
        assert(a.take(i) =~= a);
        assert(s.skip(i + 1) =~= b);
        assert(split(s, c) =~= split(a, c) + split(b, c));
    } else {
        assert(s.skip(i + 1) =~= a.skip(i + 1) + seq![c] + b);
        law_split_concat(a.skip(i + 1), c, b);
        assert(split(s, c) =~= split(a, c) + split(b, c));
    }
}

/// Texts that are joined follow each other with the separator between them, and with none before
/// the first or behind the last.
pub proof fn law_joined(a: Seq<Seq<char>>, b: Seq<Seq<char>>, x: Seq<char>, sep: Seq<char>)
    requires
        a.len() > 0,
        b.len() > 0,
    ensures
        joined(seq![x], sep) == x,
        joined(a + b, sep) == joined(a, sep) + sep + joined(b, sep),
        joined(Seq::<Seq<char>>::empty(), sep).len() == 0,
    decreases b.len(),
{
    let all = a + b;
    assert(all.last() == b.last());
    if b.len() == 1 {
        assert(all.drop_last() =~= a);
    } else {
        assert(all.drop_last() =~= a + b.drop_last());
        law_joined(a, b.drop_last(), x, sep);
        assert(joined(all, sep) =~= joined(a, sep) + sep + joined(b, sep));
    }
}

/// The characters that are white space, one by one.
pub open spec fn blanks() -> Seq<char> {
    "\t\n\u{b}\u{c}\r \u{85}\u{a0}\u{1680}\u{2000}\u{2001}\u{2002}\u{2003}\u{2004}\u{2005}\u{2006}\u{2007}\u{2008}\u{2009}\u{200a}\u{2028}\u{2029}\u{202f}\u{205f}\u{3000}"@
}

/// White space is the characters that Unicode has for it, and no other.
pub proof fn law_white_space(c: char)
    ensures
        white_space(c) <==> blanks().contains(c),
{
    reveal_strlit(
        "\t\n\u{b}\u{c}\r \u{85}\u{a0}\u{1680}\u{2000}\u{2001}\u{2002}\u{2003}\u{2004}\u{2005}\u{2006}\u{2007}\u{2008}\u{2009}\u{200a}\u{2028}\u{2029}\u{202f}\u{205f}\u{3000}",
    );
    let all = blanks();
    let n = c as u32;
    assert(all.len() == 25);
    let k: int = if n <= 0xd {
        n - 9
    } else if n == 0x20 {
        5
    } else if n == 0x85 {
        6
    } else if n == 0xa0 {
        7
    } else if n == 0x1680 {
        8
    } else if n <= 0x200a {
        n - 0x2000 + 9
    } else if n == 0x2028 {
        20
    } else if n == 0x2029 {
        21
    } else if n == 0x202f {
        22
    } else if n == 0x205f {
        23
    } else {
        24
    };
    if white_space(c) {
        vstd::utf8::char_u32_cast(all[k], all[k] as u32);
        vstd::utf8::char_u32_cast(c, n);
        assert(all[k] as u32 == n);
        assert(all[k] == c);
    }
}

} // verus!
