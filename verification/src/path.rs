//! Unix paths as text: their components, and how they are joined and taken apart.

use vstd::prelude::*;

use crate::text::{
    chars_of, find_char, find_char_from, lemma_find_char, lemma_find_char_is, split, string_between,
};

verus! {

// ---------------------------------------------------------------------------------------------
// Components
// ---------------------------------------------------------------------------------------------

/// Where the names of a path stand from index `i` on: the stretches between slashes. Empty ones
/// are no names, nor is a single dot anywhere but at the start.
pub open spec fn name_spans(s: Seq<char>, i: int) -> Seq<(int, int)>
    decreases s.len() - i,
    when 0 <= i
    via name_spans_decreases
{
    if i >= s.len() {
        seq![]
    } else if s[i] == '/' {
        name_spans(s, i + 1)
    } else {
        let j = i + find_char(s.skip(i), '/');
        if i > 0 && s.subrange(i, j) == seq!['.'] {
            name_spans(s, j)
        } else {
            seq![(i, j)] + name_spans(s, j)
        }
    }
}

#[via_fn]
proof fn name_spans_decreases(s: Seq<char>, i: int) {
    if i < s.len() {
        lemma_find_char(s.skip(i), '/');
    }
}

/// Whether a path starts at the root.
pub open spec fn absolute(s: Seq<char>) -> bool {
    s.len() > 0 && s[0] == '/'
}

/// Where the components of a path stand: the root, where it starts there, and its names.
pub open spec fn component_spans(s: Seq<char>) -> Seq<(int, int)> {
    if absolute(s) {
        seq![(0int, 1int)] + name_spans(s, 0)
    } else {
        name_spans(s, 0)
    }
}

/// The components of a path: `/` for the root, then its names.
pub open spec fn components(s: Seq<char>) -> Seq<Seq<char>> {
    component_spans(s).map_values(|p: (int, int)| s.subrange(p.0, p.1))
}

/// Whether a component is a plain name, not the root, `.` or `..`.
pub open spec fn normal_name(c: Seq<char>) -> bool {
    c != seq!['/'] && c != seq!['.'] && c != seq!['.', '.']
}

/// Whether one of the components is `..`.
pub open spec fn climbs(s: Seq<char>) -> bool {
    components(s).contains(seq!['.', '.'])
}

/// Whether `base` is `path` or one of the directories above it, component by component.
pub open spec fn inside(path: Seq<char>, base: Seq<char>) -> bool {
    components(base).is_prefix_of(components(path))
}

/// What of `path` stands behind the components of `base`.
pub open spec fn relative_to(path: Seq<char>, base: Seq<char>) -> Option<Seq<char>> {
    let spans = component_spans(path);
    let k = components(base).len();
    if !inside(path, base) {
        None
    } else if k == spans.len() {
        Some(seq![])
    } else {
        Some(path.subrange(spans[k as int].0, spans.last().1))
    }
}

/// `path` appended to `base`; a path that starts at the root stands for itself.
pub open spec fn path_join(base: Seq<char>, path: Seq<char>) -> Seq<char> {
    if absolute(path) {
        path
    } else if base.len() > 0 && base.last() != '/' {
        base.push('/') + path
    } else {
        base + path
    }
}

/// The last component, where it is a plain name.
pub open spec fn path_name(s: Seq<char>) -> Option<Seq<char>> {
    let c = components(s);
    if c.len() > 0 && normal_name(c.last()) {
        Some(c.last())
    } else {
        None
    }
}

/// The path without its last component; nothing where that is the root or there is none.
pub open spec fn path_parent(s: Seq<char>) -> Option<Seq<char>> {
    let spans = component_spans(s);
    if spans.len() == 0 || components(s).last() == seq!['/'] {
        None
    } else if spans.len() == 1 {
        Some(seq![])
    } else {
        Some(s.take(spans[spans.len() - 2].1))
    }
}

// ---------------------------------------------------------------------------------------------
// Facts about components
// ---------------------------------------------------------------------------------------------

/// Whether the spans are not empty, in order, and between `lo` and `hi`.
pub open spec fn in_order(spans: Seq<(int, int)>, lo: int, hi: int) -> bool {
    &&& forall|k: int|
        0 <= k < spans.len() ==> lo <= (#[trigger] spans[k]).0 < spans[k].1 <= hi
    &&& forall|a: int, b: int|
        0 <= a < b < spans.len() ==> (#[trigger] spans[a]).1 <= (#[trigger] spans[b]).0
}

proof fn lemma_in_order_prepend(p: (int, int), rest: Seq<(int, int)>, hi: int)
    requires
        p.0 < p.1 <= hi,
        in_order(rest, p.1, hi),
    ensures
        in_order(seq![p] + rest, p.0, hi),
{
    let all = seq![p] + rest;
    assert forall|k: int| 0 <= k < all.len() implies p.0 <= (#[trigger] all[k]).0 < all[k].1
        <= hi by {
        if k > 0 {
            assert(all[k] == rest[k - 1]);
        }
    }
    assert forall|a: int, b: int| 0 <= a < b < all.len() implies (#[trigger] all[a]).1 <= (
    #[trigger] all[b]).0 by {
        assert(all[b] == rest[b - 1]);
        if a > 0 {
            assert(all[a] == rest[a - 1]);
        }
    }
}

/// Names are not empty, and lie inside the path in order.
pub proof fn lemma_name_spans(s: Seq<char>, i: int)
    requires
        0 <= i,
    ensures
        in_order(name_spans(s, i), i, s.len() as int),
    decreases s.len() - i,
{
    if i >= s.len() {
    } else if s[i] == '/' {
        lemma_name_spans(s, i + 1);
    } else {
        lemma_find_char(s.skip(i), '/');
        assert(s.skip(i)[0] == s[i]);
        let j = i + find_char(s.skip(i), '/');
        lemma_name_spans(s, j);
        lemma_in_order_prepend((i, j), name_spans(s, j), s.len() as int);
    }
}

/// Components are not empty, and lie inside the path in order.
pub proof fn lemma_component_spans(s: Seq<char>)
    ensures
        in_order(component_spans(s), 0, s.len() as int),
{
    lemma_name_spans(s, 0);
    if absolute(s) {
        lemma_name_spans(s, 1);
        lemma_in_order_prepend((0, 1), name_spans(s, 1), s.len() as int);
    }
}

// ---------------------------------------------------------------------------------------------
// Functions
// ---------------------------------------------------------------------------------------------

/// Spans as the contracts see them.
pub open spec fn spans_of(v: Seq<(usize, usize)>) -> Seq<(int, int)> {
    v.map_values(|p: (usize, usize)| (p.0 as int, p.1 as int))
}

proof fn lemma_single_dot(s: Seq<char>, i: int, j: int)
    requires
        0 <= i < j <= s.len(),
    ensures
        s.subrange(i, j) == seq!['.'] <==> (j - i == 1 && s[i] == '.'),
{
    let t = s.subrange(i, j);
    assert(t[0] == s[i]);
    if j - i == 1 && s[i] == '.' {
        assert(t =~= seq!['.']);
    }
    if t == seq!['.'] {
        assert(t.len() == 1);
        assert(t[0] == '.');
    }
}

fn find_components(cs: &[char]) -> (r: Vec<(usize, usize)>)
    ensures
        spans_of(r@) == component_spans(cs@),
{
    let n: usize = cs.len();
    let mut r: Vec<(usize, usize)> = Vec::new();
    if n > 0 && cs[0] == '/' {
        r.push((0, 1));
    }
    let mut i: usize = 0;
    proof {
        assert(spans_of(r@) + name_spans(cs@, 0) =~= component_spans(cs@));
    }
    while i < n
        invariant
            n == cs@.len(),
            i <= n,
            spans_of(r@) + name_spans(cs@, i as int) == component_spans(cs@),
        decreases n - i,
    {
        if cs[i] == '/' {
            i = i + 1;
        } else {
            let j = find_char_from(cs, '/', i);
            proof {
                lemma_find_char(cs@.skip(i as int), '/');
                assert(cs@.skip(i as int)[0] == cs@[i as int]);
                lemma_single_dot(cs@, i as int, j as int);
            }
            if !(i > 0 && j - i == 1 && cs[i] == '.') {
                let ghost before = r@;
                r.push((i, j));
                proof {
                    assert(spans_of(r@) =~= spans_of(before).push((i as int, j as int)));
                    assert(spans_of(before) + (seq![(i as int, j as int)] + name_spans(
                        cs@,
                        j as int,
                    )) =~= spans_of(r@) + name_spans(cs@, j as int));
                }
            }
            i = j;
        }
    }
    proof {
        assert(spans_of(r@) + name_spans(cs@, i as int) =~= spans_of(r@));
    }
    r
}

fn same_stretch(a: &[char], p: (usize, usize), b: &[char], q: (usize, usize)) -> (r: bool)
    requires
        p.0 <= p.1 <= a@.len(),
        q.0 <= q.1 <= b@.len(),
    ensures
        r == (a@.subrange(p.0 as int, p.1 as int) == b@.subrange(q.0 as int, q.1 as int)),
{
    let sa = string_between(a, p.0, p.1);
    let sb = string_between(b, q.0, q.1);
    crate::text::same(sa.as_str(), sb.as_str())
}

/// Whether a path starts at the root.
pub fn is_absolute(path: &str) -> (r: bool)
    ensures
        r == absolute(path@),
{
    let cs = chars_of(path);
    cs.len() > 0 && cs[0] == '/'
}

/// Whether one of the components is `..`.
pub fn has_parent_dir(path: &str) -> (r: bool)
    ensures
        r == climbs(path@),
{
    let cs = chars_of(path);
    let spans = find_components(cs.as_slice());
    let dots: Vec<char> = vec!['.', '.'];
    let ghost all = component_spans(path@);
    proof {
        lemma_component_spans(path@);
        assert(dots@.subrange(0, 2) =~= seq!['.', '.']);
    }
    let mut k: usize = 0;
    while k < spans.len()
        invariant
            k <= spans@.len(),
            cs@ == path@,
            all == component_spans(path@),
            all == spans_of(spans@),
            dots@.len() == 2,
            dots@.subrange(0, 2) == seq!['.', '.'],
            in_order(all, 0, path@.len() as int),
            forall|i: int| 0 <= i < k ==> #[trigger] components(path@)[i] != seq!['.', '.'],
        decreases spans@.len() - k,
    {
        proof {
            assert(all[k as int] == (spans@[k as int].0 as int, spans@[k as int].1 as int));
            assert(components(path@)[k as int] == path@.subrange(all[k as int].0, all[k as int].1));
        }
        if same_stretch(cs.as_slice(), spans[k], dots.as_slice(), (0, 2)) {
            return true;
        }
        k = k + 1;
    }
    false
}

/// What of `path` stands behind the components of `base`; nothing where `base` is not above it.
pub fn strip_base(path: &str, base: &str) -> (r: Option<String>)
    ensures
        crate::text::opt_text(r) == relative_to(path@, base@),
{
    let cs = chars_of(path);
    let bs = chars_of(base);
    let spans = find_components(cs.as_slice());
    let base_spans = find_components(bs.as_slice());
    let ghost all = component_spans(path@);
    let ghost all_base = component_spans(base@);
    proof {
        lemma_component_spans(path@);
        lemma_component_spans(base@);
        assert(components(path@).len() == all.len());
        assert(components(base@).len() == all_base.len());
    }
    if base_spans.len() > spans.len() {
        return None;
    }
    let mut k: usize = 0;
    while k < base_spans.len()
        invariant
            k <= base_spans@.len() <= spans@.len(),
            cs@ == path@,
            bs@ == base@,
            all == component_spans(path@),
            all_base == component_spans(base@),
            all == spans_of(spans@),
            all_base == spans_of(base_spans@),
            in_order(all, 0, path@.len() as int),
            in_order(all_base, 0, base@.len() as int),
            forall|i: int|
                0 <= i < k ==> #[trigger] components(path@)[i] == components(base@)[i],
        decreases base_spans@.len() - k,
    {
        proof {
            assert(all[k as int] == (spans@[k as int].0 as int, spans@[k as int].1 as int));
            assert(all_base[k as int] == (
                base_spans@[k as int].0 as int,
                base_spans@[k as int].1 as int,
            ));
            assert(components(path@)[k as int] == path@.subrange(all[k as int].0, all[k as int].1));
            assert(components(base@)[k as int] == base@.subrange(
                all_base[k as int].0,
                all_base[k as int].1,
            ));
        }
        if !same_stretch(cs.as_slice(), spans[k], bs.as_slice(), base_spans[k]) {
            proof {
                assert(!inside(path@, base@)) by {
                    if inside(path@, base@) {
                        assert(components(base@)[k as int] == components(path@).subrange(
                            0,
                            components(base@).len() as int,
                        )[k as int]);
                    }
                }
            }
            return None;
        }
        k = k + 1;
    }
    proof {
        assert(components(base@) =~= components(path@).subrange(
            0,
            components(base@).len() as int,
        ));
        assert(inside(path@, base@));
    }
    let n: usize = spans.len();
    if k == n {
        let none = String::new();
        proof {
            assert(none@ =~= seq![]);
        }
        return Some(none);
    }
    proof {
        assert(all[k as int] == (spans@[k as int].0 as int, spans@[k as int].1 as int));
        assert(all[n - 1] == (spans@[n - 1].0 as int, spans@[n - 1].1 as int));
    }
    Some(string_between(cs.as_slice(), spans[k].0, spans[n - 1].1))
}

/// Whether `base` is `path` or one of the directories above it.
pub fn is_inside(path: &str, base: &str) -> (r: bool)
    ensures
        r == inside(path@, base@),
{
    strip_base(path, base).is_some()
}

/// Appends `path` to `base`.
pub fn join_path(base: &str, path: &str) -> (r: String)
    ensures
        r@ == path_join(base@, path@),
{
    if is_absolute(path) {
        return path.to_owned();
    }
    let bs = chars_of(base);
    let mut r = base.to_owned();
    if bs.len() > 0 && bs[bs.len() - 1] != '/' {
        r.push('/');
    }
    r.append(path);
    r
}

/// The last component of a path.
pub fn last_component(path: &str) -> (r: Option<String>)
    ensures
        crate::text::opt_text(r) == if components(path@).len() > 0 {
            Some(components(path@).last())
        } else {
            None
        },
{
    let cs = chars_of(path);
    let spans = find_components(cs.as_slice());
    let n: usize = spans.len();
    let ghost all = component_spans(path@);
    proof {
        lemma_component_spans(path@);
        assert(components(path@).len() == all.len());
    }
    if n == 0 {
        return None;
    }
    proof {
        assert(all[n - 1] == (spans@[n - 1].0 as int, spans@[n - 1].1 as int));
        assert(components(path@).last() == path@.subrange(all[n - 1].0, all[n - 1].1));
    }
    Some(string_between(cs.as_slice(), spans[n - 1].0, spans[n - 1].1))
}

/// The last component of a path, where it is a plain name.
pub fn file_name(path: &str) -> (r: Option<String>)
    ensures
        crate::text::opt_text(r) == path_name(path@),
{
    match last_component(path) {
        Some(name) => if is_normal_name(name.as_str()) {
            Some(name)
        } else {
            None
        },
        None => None,
    }
}

fn is_normal_name(c: &str) -> (r: bool)
    ensures
        r == normal_name(c@),
{
    let cs = chars_of(c);
    proof {
        if cs@.len() == 1 {
            assert(c@ =~= seq![c@[0]]);
            assert(c@ == seq!['/'] <==> c@[0] == '/');
            assert(c@ == seq!['.'] <==> c@[0] == '.');
        }
        if cs@.len() == 2 {
            assert(c@ =~= seq![c@[0], c@[1]]);
            assert(c@ == seq!['.', '.'] <==> (c@[0] == '.' && c@[1] == '.')) by {
                if c@ == seq!['.', '.'] {
                    assert(seq!['.', '.'][0] == '.' && seq!['.', '.'][1] == '.');
                }
            }
        }
    }
    !(cs.len() == 1 && (cs[0] == '/' || cs[0] == '.')) && !(cs.len() == 2 && cs[0] == '.' && cs[1]
        == '.')
}

/// The path without its last component.
pub fn parent(path: &str) -> (r: Option<String>)
    ensures
        crate::text::opt_text(r) == path_parent(path@),
{
    let cs = chars_of(path);
    let spans = find_components(cs.as_slice());
    let n: usize = spans.len();
    let ghost all = component_spans(path@);
    proof {
        lemma_component_spans(path@);
        assert(components(path@).len() == all.len());
    }
    if n == 0 {
        return None;
    }
    proof {
        assert(all[n - 1] == (spans@[n - 1].0 as int, spans@[n - 1].1 as int));
        assert(components(path@).last() == path@.subrange(all[n - 1].0, all[n - 1].1));
    }
    let last = string_between(cs.as_slice(), spans[n - 1].0, spans[n - 1].1);
    proof {
        reveal_strlit("/");
        assert("/"@ =~= seq!['/']);
    }
    if crate::text::same(last.as_str(), "/") {
        return None;
    }
    if n == 1 {
        let none = String::new();
        proof {
            assert(none@ =~= seq![]);
        }
        return Some(none);
    }
    proof {
        assert(all[n - 2] == (spans@[n - 2].0 as int, spans@[n - 2].1 as int));
        assert(path@.take(all[n - 2].1) =~= path@.subrange(0, all[n - 2].1));
    }
    Some(string_between(cs.as_slice(), 0, spans[n - 2].1))
}

// ---------------------------------------------------------------------------------------------
// Laws
// ---------------------------------------------------------------------------------------------

spec fn shifted(spans: Seq<(int, int)>, by: int) -> Seq<(int, int)> {
    spans.map_values(|p: (int, int)| (p.0 + by, p.1 + by))
}

proof fn lemma_shifted_prepend(p: (int, int), rest: Seq<(int, int)>, by: int)
    ensures
        shifted(seq![p] + rest, by) == seq![(p.0 + by, p.1 + by)] + shifted(rest, by),
{
    assert(shifted(seq![p] + rest, by) =~= seq![(p.0 + by, p.1 + by)] + shifted(rest, by));
}

/// The run of characters without a slash from index `i` ends at the same place in a text and in
/// a stretch of it that ends at a slash or with the text.
proof fn lemma_same_run(s: Seq<char>, x: int, y: int, i: int)
    requires
        0 <= x <= y <= s.len(),
        y == s.len() || s[y] == '/',
        0 <= i <= y - x,
    ensures
        find_char(s.skip(x + i), '/') == find_char(s.subrange(x, y).skip(i), '/'),
{
    let r = s.subrange(x, y).skip(i);
    let t = s.skip(x + i);
    lemma_find_char(r, '/');
    let n = find_char(r, '/');
    assert forall|k: int| 0 <= k < n implies t[k] != '/' by {
        assert(t[k] == r[k]);
    }
    if n < r.len() {
        assert(t[n] == r[n]);
    } else if y < s.len() {
        assert(t[n] == s[y]);
    }
    lemma_find_char_is(t, '/', n);
}

/// The names of a stretch of a path that begins at its start or right behind a slash, not with
/// a lone dot, and behind which no name follows.
proof fn lemma_stretch_names(s: Seq<char>, x: int, y: int, i: int)
    requires
        0 <= x <= y <= s.len(),
        y == s.len() || s[y] == '/',
        name_spans(s, y) == Seq::<(int, int)>::empty(),
        0 <= i <= y - x,
        i == 0 && x > 0 && x < y ==> s.subrange(x, x + find_char(s.skip(x), '/')) != seq!['.'],
    ensures
        name_spans(s, x + i) == shifted(name_spans(s.subrange(x, y), i), x),
    decreases y - x - i,
{
    let r = s.subrange(x, y);
    if i == y - x {
        assert(shifted(name_spans(r, i), x) =~= seq![]);
    } else if r[i] == '/' {
        assert(s[x + i] == '/');
        lemma_stretch_names(s, x, y, i + 1);
    } else {
        assert(s[x + i] == r[i]);
        lemma_same_run(s, x, y, i);
        lemma_find_char(r.skip(i), '/');
        assert(r.skip(i)[0] == r[i]);
        let n = find_char(r.skip(i), '/');
        assert(r.subrange(i, i + n) =~= s.subrange(x + i, x + i + n));
        lemma_stretch_names(s, x, y, i + n);
        if i > 0 && r.subrange(i, i + n) == seq!['.'] {
        } else {
            lemma_shifted_prepend((i, i + n), name_spans(r, i + n), x);
        }
    }
}

/// The names of a path before a slash at index `m - 1`, and those behind it.
proof fn lemma_names_split(s: Seq<char>, m: int, i: int)
    requires
        0 <= i <= m <= s.len(),
        m == 0 || s[m - 1] == '/',
    ensures
        name_spans(s, i) == name_spans(s.take(m), i) + name_spans(s, m),
    decreases m - i,
{
    let a = s.take(m);
    if i == m {
        assert(name_spans(a, i) + name_spans(s, m) =~= name_spans(s, m));
    } else if s[i] == '/' {
        assert(a[i] == '/');
        lemma_names_split(s, m, i + 1);
    } else {
        let t = s.skip(i);
        lemma_find_char(t, '/');
        let n = find_char(t, '/');
        assert(i + n < m) by {
            if i + n >= m {
                assert(t[m - 1 - i] == s[m - 1]);
            }
        }
        assert forall|k: int| 0 <= k < n implies a.skip(i)[k] != '/' by {
            assert(a.skip(i)[k] == t[k]);
        }
        assert(a.skip(i)[n] == t[n]);
        lemma_find_char_is(a.skip(i), '/', n);
        assert(a.subrange(i, i + n) =~= s.subrange(i, i + n));
        assert(t[0] == s[i]);
        lemma_names_split(s, m, i + n);
        let here = seq![(i, i + n)];
        assert((here + name_spans(a, i + n)) + name_spans(s, m) =~= here + (name_spans(a, i + n)
            + name_spans(s, m)));
    }
}

/// A slash at the end adds no name.
proof fn lemma_names_before_slash(a: Seq<char>, i: int)
    requires
        0 <= i <= a.len(),
    ensures
        name_spans(a.push('/'), i) == name_spans(a, i),
    decreases a.len() - i,
{
    let s = a.push('/');
    if i == a.len() {
        assert(s[i] == '/');
        assert(name_spans(s, i + 1) =~= seq![]);
    } else if a[i] == '/' {
        assert(s[i] == '/');
        lemma_names_before_slash(a, i + 1);
    } else {
        assert(s[i] == a[i]);
        assert(s.subrange(0, a.len() as int) =~= a);
        lemma_same_run(s, 0, a.len() as int, i);
        lemma_find_char(a.skip(i), '/');
        assert(a.skip(i)[0] == a[i]);
        let n = find_char(a.skip(i), '/');
        assert(a.subrange(i, i + n) =~= s.subrange(i, i + n));
        lemma_names_before_slash(a, i + n);
    }
}

/// What is joined to a path comes behind its components, and adds its own. (A path whose first
/// component is a lone dot adds the others.)
pub proof fn law_join_adds_components(base: Seq<char>, path: Seq<char>)
    requires
        !absolute(path),
        components(path).len() > 0 ==> components(path)[0] != seq!['.'],
    ensures
        components(path_join(base, path)) == components(base) + components(path),
        inside(path_join(base, path), base),
{
    let a = if base.len() > 0 && base.last() != '/' {
        base.push('/')
    } else {
        base
    };
    let s = path_join(base, path);
    let m = a.len() as int;
    assert(s =~= a + path);
    assert(s.take(m) =~= a);
    lemma_names_split(s, m, 0);
    lemma_names_before_slash(base, 0);
    assert(name_spans(a, 0) == name_spans(base, 0));
    // behind the base stand the names of the path
    assert(s.subrange(m, s.len() as int) =~= path);
    if m > 0 && path.len() > 0 {
        assert(path.subrange(0, find_char(path.skip(0), '/')) == components(path)[0]) by {
            lemma_find_char(path.skip(0), '/');
            assert(component_spans(path)[0] == (0int, find_char(path.skip(0), '/')));
        }
        assert(path.skip(0) =~= path);
        assert(s.skip(m) =~= path);
        lemma_find_char(path, '/');
        assert(s.subrange(m, m + find_char(path, '/')) =~= path.subrange(0, find_char(path, '/')));
    }
    lemma_stretch_names(s, m, s.len() as int, 0);
    assert(s.subrange(m, s.len() as int) == path);
    assert(absolute(s) == absolute(base)) by {
        if base.len() > 0 {
            assert(s[0] == base[0]);
        } else if path.len() > 0 {
            assert(s[0] == path[0]);
        }
    }
    let front = component_spans(base);
    let back = shifted(component_spans(path), m);
    assert(component_spans(s) =~= front + back);
    lemma_component_spans(base);
    lemma_component_spans(path);
    assert forall|k: int| 0 <= k < components(s).len() implies components(s)[k] == (components(base)
        + components(path))[k] by {
        if k < front.len() {
            assert(component_spans(s)[k] == front[k]);
            assert(s.subrange(front[k].0, front[k].1) =~= base.subrange(front[k].0, front[k].1));
        } else {
            let p = component_spans(path)[k - front.len()];
            assert(component_spans(s)[k] == (p.0 + m, p.1 + m));
            assert(s.subrange(p.0 + m, p.1 + m) =~= path.subrange(p.0, p.1));
        }
    }
    assert(components(s) =~= components(base) + components(path));
    assert(components(base) =~= components(s).subrange(0, components(base).len() as int));
}

/// A plain name without slashes has itself as its only component.
pub proof fn lemma_single_name(name: Seq<char>)
    requires
        name.len() > 0,
        forall|i: int| 0 <= i < name.len() ==> name[i] != '/',
    ensures
        !absolute(name),
        components(name) == seq![name],
{
    assert(name.skip(0) =~= name);
    lemma_find_char_is(name, '/', name.len() as int);
    let n = name.len() as int;
    assert(name_spans(name, n) =~= seq![]);
    assert(name_spans(name, 0) =~= seq![(0int, n)]);
    assert(name.subrange(0, name.len() as int) =~= name);
    assert(components(name) =~= seq![name]);
}

/// What stands at one of the names of a path.
proof fn lemma_name_at(s: Seq<char>, i: int, j: int)
    requires
        0 <= i,
        0 <= j < name_spans(s, i).len(),
    ensures
        ({
            let names = name_spans(s, i);
            let p = names[j];
            &&& i <= p.0 < p.1 <= s.len()
            &&& s[p.0] != '/'
            &&& name_spans(s, p.0) == names.skip(j)
            &&& p.1 == p.0 + find_char(s.skip(p.0), '/')
            &&& p.1 == s.len() || s[p.1] == '/'
            &&& p.0 > 0 ==> s.subrange(p.0, p.1) != seq!['.']
            &&& j == names.len() - 1 ==> name_spans(s, p.1) == Seq::<(int, int)>::empty()
        }),
    decreases s.len() - i,
{
    let names = name_spans(s, i);
    if s[i] == '/' {
        lemma_name_at(s, i + 1, j);
    } else {
        let t = s.skip(i);
        lemma_find_char(t, '/');
        assert(t[0] == s[i]);
        let n = find_char(t, '/');
        if i + n < s.len() {
            assert(t[n] == s[i + n]);
        }
        if i > 0 && s.subrange(i, i + n) == seq!['.'] {
            lemma_name_at(s, i + n, j);
        } else if j == 0 {
            assert(names.skip(0) =~= names);
            if names.len() == 1 {
                assert(name_spans(s, i + n) =~= names.skip(1));
            }
        } else {
            lemma_name_at(s, i + n, j - 1);
            assert(names[j] == name_spans(s, i + n)[j - 1]);
            assert(name_spans(s, i + n).skip(j - 1) =~= names.skip(j));
        }
    }
}

/// A component that is a plain name holds no slash.
pub proof fn lemma_component_name(s: Seq<char>, k: int)
    requires
        0 <= k < components(s).len(),
        normal_name(components(s)[k]),
    ensures
        components(s)[k].len() > 0,
        forall|i: int| 0 <= i < components(s)[k].len() ==> components(s)[k][i] != '/',
{
    let spans = component_spans(s);
    let p = spans[k];
    let root: int = if absolute(s) {
        1
    } else {
        0
    };
    if k < root {
        assert(s.subrange(0, 1) =~= seq!['/']);
        assert(p == (0int, 1int));
    } else {
        assert(p == name_spans(s, 0)[k - root]);
        lemma_name_at(s, 0, k - root);
        lemma_find_char(s.skip(p.0), '/');
        assert forall|i: int| 0 <= i < p.1 - p.0 implies s.subrange(p.0, p.1)[i] != '/' by {
            assert(s.skip(p.0)[i] == s[p.0 + i]);
        }
    }
}

/// Taking a base away leaves the components behind it.
pub proof fn law_relative_keeps_components(path: Seq<char>, base: Seq<char>)
    requires
        inside(path, base),
    ensures
        ({
            let rest = relative_to(path, base)->0;
            &&& relative_to(path, base) is Some
            &&& components(rest) == components(path).skip(components(base).len() as int)
            &&& components(base).len() > 0 ==> !absolute(rest)
            &&& components(base).len() > 0 && components(rest).len() > 0 ==> components(rest)[0]
                != seq!['.']
        }),
{
    let spans = component_spans(path);
    let k = components(base).len() as int;
    let n = spans.len() as int;
    let rest = relative_to(path, base)->0;
    let root: int = if absolute(path) {
        1
    } else {
        0
    };
    let names = name_spans(path, 0);
    assert(components(path).len() == n);
    lemma_component_spans(path);
    if k == n {
        assert(components(rest) =~= components(path).skip(k));
    } else {
        let x = spans[k].0;
        let y = spans.last().1;
        if n - root > 0 {
            assert(spans.last() == names.last());
            lemma_name_at(path, 0, names.len() - 1);
        } else {
            // only the root
            assert(root == 1 && n == 1 && k == 0);
            assert(names =~= seq![]);
            assert(name_spans(path, 1) == names);
            assert(rest =~= seq!['/']);
            assert(name_spans(rest, 1) =~= seq![]);
            assert(name_spans(rest, 0) =~= seq![]);
            assert(component_spans(rest) =~= seq![(0int, 1int)]);
        }
        if n - root > 0 {
            if k >= root {
                assert(spans[k] == names[k - root]);
                lemma_name_at(path, 0, k - root);
                lemma_stretch_names(path, x, y, 0);
                assert(rest == path.subrange(x, y));
                assert(rest[0] == path[x]);
                assert(component_spans(rest) == name_spans(rest, 0));
                let part = names.skip(k - root);
                assert(spans.skip(k) =~= part);
                assert(shifted(component_spans(rest), x) == part);
                assert(component_spans(rest).len() == part.len());
                assert(spans.skip(k).len() == n - k);
                assert(components(rest).len() == n - k);
                assert forall|j: int| 0 <= j < components(rest).len() implies components(rest)[j]
                    == components(path).skip(k)[j] by {
                    let p = component_spans(rest)[j];
                    assert(part[j] == shifted(component_spans(rest), x)[j]);
                    assert(part[j] == (p.0 + x, p.1 + x));
                    assert(spans.skip(k)[j] == part[j]);
                    assert(spans[k + j] == spans.skip(k)[j]);
                    lemma_component_spans(rest);
                    assert(rest.subrange(p.0, p.1) =~= path.subrange(p.0 + x, p.1 + x));
                }
                assert(components(rest) =~= components(path).skip(k));
                if k > 0 {
                    // behind a component, so not at the start
                    assert(spans[k - 1].1 <= spans[k].0);
                    assert(components(rest)[0] == components(path)[k]);
                }
            } else {
                // from the root on
                assert(x == 0);
                lemma_stretch_names(path, 0, y, 0);
                assert(rest == path.subrange(0, y));
                assert(rest[0] == path[0]);
                assert(shifted(name_spans(rest, 0), 0) =~= name_spans(rest, 0));
                assert(component_spans(rest) =~= spans);
                assert forall|j: int| 0 <= j < components(rest).len() implies components(rest)[j]
                    == components(path).skip(k)[j] by {
                    lemma_component_spans(rest);
                    assert(rest.subrange(spans[j].0, spans[j].1) =~= path.subrange(
                        spans[j].0,
                        spans[j].1,
                    ));
                }
                assert(components(rest) =~= components(path).skip(k));
            }
        } else {
            assert(components(path) =~= seq![seq!['/']]) by {
                assert(path.subrange(0, 1) =~= seq!['/']);
            }
            assert(rest.subrange(0, 1) =~= seq!['/']);
            assert(components(rest) =~= components(path).skip(k));
        }
    }
}

/// The pieces of a path that count: those that are not empty, and not a single dot unless the path
/// begins with it.
pub open spec fn kept(parts: Seq<Seq<char>>, first: bool) -> Seq<Seq<char>>
    decreases parts.len(),
{
    if parts.len() == 0 {
        seq![]
    } else if parts[0].len() > 0 && (first || parts[0] != seq!['.']) {
        seq![parts[0]] + kept(parts.skip(1), false)
    } else {
        kept(parts.skip(1), false)
    }
}

spec fn texts_at(s: Seq<char>, spans: Seq<(int, int)>) -> Seq<Seq<char>> {
    spans.map_values(|p: (int, int)| s.subrange(p.0, p.1))
}

proof fn lemma_names_are_pieces(s: Seq<char>, i: int)
    requires
        0 <= i <= s.len(),
        i == 0 || s[i - 1] == '/',
    ensures
        texts_at(s, name_spans(s, i)) == kept(split(s.skip(i), '/'), i == 0),
    decreases s.len() - i,
{
    let t = s.skip(i);
    let n = find_char(t, '/');
    let j = i + n;
    lemma_find_char(t, '/');
    let parts = split(t, '/');
    if i == s.len() {
        assert(parts =~= seq![t]);
        assert(parts.skip(1) =~= seq![]);
        assert(kept(parts.skip(1), false) =~= seq![]);
        assert(parts[0].len() == 0);
        assert(name_spans(s, i) =~= seq![]);
        assert(texts_at(s, name_spans(s, i)) =~= kept(parts, i == 0));
    } else {
        assert(t[0] == s[i]);
        let rest = if n == t.len() {
            Seq::<Seq<char>>::empty()
        } else {
            split(t.skip(n + 1), '/')
        };
        assert(parts[0] =~= s.subrange(i, j));
        assert(parts.skip(1) =~= rest);
        let later = if n == t.len() {
            Seq::<(int, int)>::empty()
        } else {
            name_spans(s, j + 1)
        };
        if n < t.len() {
            assert(s[j] == '/');
            assert(t.skip(n + 1) =~= s.skip(j + 1));
            lemma_names_are_pieces(s, j + 1);
        }
        assert(texts_at(s, later) =~= kept(rest, false));
        if n > 0 {
            assert(s[i] != '/');
            assert(name_spans(s, j) =~= later);
            if i > 0 && s.subrange(i, j) == seq!['.'] {
                assert(name_spans(s, i) =~= later);
            } else {
                assert(name_spans(s, i) =~= seq![(i, j)] + later);
                assert(texts_at(s, name_spans(s, i)) =~= seq![s.subrange(i, j)] + texts_at(
                    s,
                    later,
                ));
            }
        } else {
            assert(name_spans(s, i) =~= later);
        }
    }
}

/// The components of a path are its pieces between slashes: the root where it begins with one, and
/// then every piece that is neither empty nor a single dot, but for a dot at the very beginning.
pub proof fn law_components_are_the_pieces(s: Seq<char>)
    ensures
        components(s) == (if s.len() > 0 && s[0] == '/' {
            seq![seq!['/']]
        } else {
            Seq::<Seq<char>>::empty()
        }) + kept(split(s, '/'), true),
{
    assert(s.skip(0) =~= s);
    lemma_names_are_pieces(s, 0);
    let names = texts_at(s, name_spans(s, 0));
    if absolute(s) {
        assert(s.subrange(0, 1) =~= seq!['/']);
        assert(components(s) =~= seq![seq!['/']] + names);
    } else {
        assert(components(s) =~= Seq::<Seq<char>>::empty() + names);
    }
}

/// A path climbs exactly where one of its pieces between slashes is two dots, wherever it stands.
pub proof fn law_two_dots_climb(s: Seq<char>)
    ensures
        climbs(s) <==> split(s, '/').contains(seq!['.', '.']),
{
    law_components_are_the_pieces(s);
    let up = seq!['.', '.'];
    let parts = split(s, '/');
    lemma_kept_holds(parts, true, up);
    let root = if s.len() > 0 && s[0] == '/' {
        seq![seq!['/']]
    } else {
        Seq::<Seq<char>>::empty()
    };
    let names = kept(parts, true);
    assert(seq!['/'].len() != up.len());
    if names.contains(up) {
        let k = choose|k: int| 0 <= k < names.len() && names[k] == up;
        assert(components(s)[root.len() + k] == up);
    }
    if components(s).contains(up) {
        let k = choose|k: int| 0 <= k < components(s).len() && components(s)[k] == up;
        assert(k >= root.len());
        assert(names[k - root.len()] == up);
    }
}

proof fn lemma_kept_holds(parts: Seq<Seq<char>>, first: bool, c: Seq<char>)
    requires
        c.len() > 0,
        c != seq!['.'],
    ensures
        kept(parts, first).contains(c) <==> parts.contains(c),
    decreases parts.len(),
{
    if parts.len() > 0 {
        let rest = parts.skip(1);
        let more = kept(rest, false);
        let all = kept(parts, first);
        lemma_kept_holds(rest, false, c);
        if more.contains(c) {
            let k = choose|k: int| 0 <= k < more.len() && more[k] == c;
            assert(all[k] == c || all[k + 1] == c);
        }
        if all.contains(c) {
            let k = choose|k: int| 0 <= k < all.len() && all[k] == c;
            if all.len() > more.len() {
                assert(k == 0 || more[k - 1] == c);
            }
        }
        if parts.contains(c) {
            let k = choose|k: int| 0 <= k < parts.len() && parts[k] == c;
            if k == 0 {
                assert(all[0] == c);
            } else {
                assert(rest[k - 1] == c);
            }
        }
        if rest.contains(c) {
            let k = choose|k: int| 0 <= k < rest.len() && rest[k] == c;
            assert(parts[k + 1] == c);
        }
        if all.len() > more.len() && all[0] == c {
            assert(parts[0] == c);
        }
    }
}

/// A path is inside another exactly where it has all its components in front, whole and in the
/// same order. So every path is inside itself, and what is inside a path is inside all that the
/// path is inside of.
pub proof fn law_inside(path: Seq<char>, base: Seq<char>, above: Seq<char>)
    ensures
        inside(path, base) <==> exists|rest: Seq<Seq<char>>|
            components(path) == #[trigger] (components(base) + rest),
        inside(path, path),
        inside(path, base) && inside(base, above) ==> inside(path, above),
        inside(path, base) && inside(base, path) ==> components(path) == components(base),
{
    let p = components(path);
    let b = components(base);
    let a = components(above);
    if inside(path, base) {
        assert(p =~= b + p.skip(b.len() as int));
    }
    if exists|rest: Seq<Seq<char>>| p == #[trigger] (b + rest) {
        let rest = choose|rest: Seq<Seq<char>>| p == #[trigger] (b + rest);
        assert(b =~= p.subrange(0, b.len() as int));
    }
    assert(p =~= p.subrange(0, p.len() as int));
    if inside(path, base) && inside(base, above) {
        assert forall|k: int| 0 <= k < a.len() implies a[k] == p[k] by {
            assert(a[k] == b.subrange(0, a.len() as int)[k]);
            assert(b[k] == p.subrange(0, b.len() as int)[k]);
        }
        assert(a =~= p.subrange(0, a.len() as int));
    }
    if inside(path, base) && inside(base, path) {
        assert(p =~= b);
    }
}

/// Joining puts the second path behind the first, with one slash between them where the first does
/// not end with one and is not empty; a path from the root stands for itself.
pub proof fn law_join_keeps_both(base: Seq<char>, path: Seq<char>)
    ensures
        path.len() > 0 && path[0] == '/' ==> path_join(base, path) == path,
        path.len() == 0 || path[0] != '/' ==> path_join(base, path) == base + (if base.len() > 0
            && base.last() != '/' {
            seq!['/']
        } else {
            Seq::<char>::empty()
        }) + path,
{
}

/// The name of a path with a plain name joined to it is that name, and what is above it has the
/// components of the path.
pub proof fn law_joined_name(base: Seq<char>, name: Seq<char>)
    requires
        name.len() > 0,
        !name.contains('/'),
        name != seq!['.'],
        name != seq!['.', '.'],
    ensures
        components(path_join(base, name)) == components(base).push(name),
        path_name(path_join(base, name)) == Some(name),
        path_parent(path_join(base, name)) is Some,
        components(path_parent(path_join(base, name))->0) == components(base),
{
    assert forall|i: int| 0 <= i < name.len() implies name[i] != '/' by {
        assert(name.contains(name[i]));
    }
    lemma_single_name(name);
    law_join_adds_components(base, name);
    let s = path_join(base, name);
    assert(components(s) =~= components(base).push(name));
    assert(name != seq!['/']) by {
        assert(name[0] != '/');
    }
    law_parent_has_the_rest(s);
    assert(components(s).drop_last() =~= components(base));
}

/// What is above a path has all its components but the last; the root and the empty path have
/// nothing above them.
pub proof fn law_parent_has_the_rest(s: Seq<char>)
    ensures
        path_parent(s) is None <==> components(s).len() == 0 || components(s).last() == seq!['/'],
        path_parent(s) matches Some(p) ==> components(p) == components(s).drop_last(),
{
    let spans = component_spans(s);
    let n = spans.len() as int;
    lemma_component_spans(s);
    if path_parent(s) is Some {
        let p = path_parent(s)->0;
        if n == 1 {
            assert(name_spans(p, 0) =~= seq![]);
            assert(components(p) =~= components(s).drop_last());
        } else {
            let names = name_spans(s, 0);
            let y = spans[n - 2].1;
            let off: int = if absolute(s) {
                1
            } else {
                0
            };
            assert(names.len() == n - off);
            assert(forall|k: int| 0 <= k < names.len() ==> #[trigger] names[k] == spans[k + off]);
            if n - 2 - off < 0 {
                // only the root stands above
                assert(y == 1);
                assert(p =~= seq!['/']);
                assert(name_spans(p, 1) =~= seq![]);
                assert(name_spans(p, 0) =~= seq![]);
                assert(p.subrange(0, 1) =~= s.subrange(0, 1));
                assert(components(p) =~= components(s).drop_last());
            } else {
                lemma_names_above(s, n - 2 - off);
                assert(p[0] == s[0]);
                assert(component_spans(p) =~= spans.drop_last());
                assert forall|k: int| 0 <= k < n - 1 implies components(p)[k] == components(
                    s,
                )[k] by {
                    let q = spans[k];
                    assert(component_spans(p)[k] == q);
                    assert(q.1 <= y) by {
                        if k < n - 2 {
                            assert(spans[k].1 <= spans[n - 2].0);
                        }
                    }
                    assert(p.subrange(q.0, q.1) =~= s.subrange(q.0, q.1));
                }
                assert(components(p) =~= components(s).drop_last());
            }
        }
    }
}

proof fn lemma_names_above(s: Seq<char>, j: int)
    requires
        0 <= j,
        j + 2 == name_spans(s, 0).len(),
    ensures
        ({
            let names = name_spans(s, 0);
            let y = names[j].1;
            &&& 0 < y < s.len()
            &&& name_spans(s.take(y), 0) == names.drop_last()
        }),
{
    let names = name_spans(s, 0);
    let x = names[j].0;
    let y = names[j].1;
    let p = s.take(y);
    lemma_name_spans(s, 0);
    lemma_name_at(s, 0, j);
    let more = name_spans(s, y);
    assert(names[j] == (x, y));
    assert(name_spans(s, x) =~= seq![(x, y)] + more);
    assert(names.skip(j).len() == 2);
    assert(more.len() == 1);
    assert(more[0] == names.skip(j)[1]);
    assert(y < s.len());
    assert(s[y] == '/');
    assert(s.take(y + 1) =~= p.push('/'));
    lemma_names_split(s, y + 1, 0);
    lemma_names_before_slash(p, 0);
    assert(more == name_spans(s, y + 1));
    assert(names =~= name_spans(p, 0) + more);
    assert(names.drop_last() =~= name_spans(p, 0));
}

/// What stands behind a base is a part of the path as it is written, and neither begins nor ends
/// with a slash where anything of the base goes.
pub proof fn law_relative_is_a_part(path: Seq<char>, base: Seq<char>)
    requires
        inside(path, base),
    ensures
        ({
            let rest = relative_to(path, base)->0;
            &&& exists|a: Seq<char>, b: Seq<char>| path == #[trigger] (a + rest + b)
            &&& components(base).len() > 0 && rest.len() > 0 ==> rest[0] != '/' && rest.last()
                != '/'
        }),
        relative_to(path, base) is Some,
{
    let rest = relative_to(path, base)->0;
    let spans = component_spans(path);
    let k = components(base).len() as int;
    lemma_component_spans(path);
    let none = Seq::<char>::empty();
    if k == spans.len() {
        assert(path =~= none + rest + path);
    } else {
        let x = spans[k].0;
        let y = spans.last().1;
        assert(spans[k].0 < y) by {
            if k < spans.len() - 1 {
                assert(spans[k].1 <= spans[spans.len() - 1].0);
            }
        }
        assert(path =~= path.take(x) + rest + path.skip(y));
        if k > 0 {
            let names = name_spans(path, 0);
            let off: int = if absolute(path) {
                1
            } else {
                0
            };
            assert(names[k - off] == spans[k]);
            lemma_name_at(path, 0, k - off);
            assert(rest[0] == path[x]);
            let last = names.len() - 1;
            assert(names[last] == spans.last());
            lemma_name_at(path, 0, last);
            let z = names[last].0;
            lemma_find_char(path.skip(z), '/');
            assert(path.skip(z)[y - 1 - z] == path[y - 1]);
            assert(rest.last() == path[y - 1]);
        }
    }
}

/// A path has a name exactly where its last component is one: not the root, not a dot, not two
/// dots; the name is that component, whole.
pub proof fn law_names_of_paths(s: Seq<char>)
    ensures
        path_name(s) is Some <==> components(s).len() > 0 && components(s).last() != seq!['/']
            && components(s).last() != seq!['.'] && components(s).last() != seq!['.', '.'],
        path_name(s) matches Some(name) ==> name == components(s).last(),
{
}

} // verus!
