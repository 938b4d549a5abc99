//! What the `list_dir` and `search` tools show: directories in order, and lines that match.

use vstd::prelude::*;

use crate::number::{dec, dec_usize};
use crate::path::{
    components, file_name, inside, law_relative_is_a_part, law_relative_keeps_components, path_name,
    relative_to, strip_base,
};
use crate::runtime::{entries, EntryKind, EntryText, RuntimeEntry};
use crate::text::{
    cat2, cat3, chars_of, contains, contains_text, join, joined, law_contains,
    law_joined_parts_come_apart, lemma_texts_push, lines, opt_text, split, split_lines, texts,
};

verus! {

// ---------------------------------------------------------------------------------------------
// Order
// ---------------------------------------------------------------------------------------------

/// Whether `a` comes before `b`, character by character.
pub open spec fn text_before(a: Seq<char>, b: Seq<char>) -> bool
    decreases a.len(),
{
    if b.len() == 0 {
        false
    } else if a.len() == 0 {
        true
    } else if a[0] != b[0] {
        (a[0] as u32) < (b[0] as u32)
    } else {
        text_before(a.skip(1), b.skip(1))
    }
}

/// Whether one entry comes before another: by name, those without a name first.
pub open spec fn entry_before(a: EntryText, b: EntryText) -> bool {
    match (path_name(a.path), path_name(b.path)) {
        (None, Some(_)) => true,
        (Some(x), Some(y)) => text_before(x, y),
        _ => false,
    }
}

/// A sorted list with one more entry in its place, behind those of the same name.
pub open spec fn inserted(list: Seq<EntryText>, e: EntryText) -> Seq<EntryText>
    decreases list.len(),
{
    if list.len() > 0 && entry_before(e, list.last()) {
        inserted(list.drop_last(), e).push(list.last())
    } else {
        list.push(e)
    }
}

/// The entries in order of their names; those of the same name keep their order.
pub open spec fn by_name(list: Seq<EntryText>) -> Seq<EntryText>
    decreases list.len(),
{
    if list.len() == 0 {
        seq![]
    } else {
        inserted(by_name(list.drop_last()), list.last())
    }
}

fn is_text_before(a: &str, b: &str) -> (r: bool)
    ensures
        r == text_before(a@, b@),
{
    let x = chars_of(a);
    let y = chars_of(b);
    let mut i: usize = 0;
    proof {
        assert(x@.skip(0) =~= a@);
        assert(y@.skip(0) =~= b@);
    }
    while i < x.len() && i < y.len() && x[i] == y[i]
        invariant
            i <= x@.len(),
            i <= y@.len(),
            text_before(x@.skip(i as int), y@.skip(i as int)) == text_before(a@, b@),
        decreases x@.len() - i,
    {
        proof {
            assert(x@.skip(i as int).skip(1) =~= x@.skip(i + 1));
            assert(y@.skip(i as int).skip(1) =~= y@.skip(i + 1));
        }
        i = i + 1;
    }
    if i == y.len() {
        false
    } else if i == x.len() {
        true
    } else {
        proof {
            assert(x@.skip(i as int)[0] == x@[i as int]);
            assert(y@.skip(i as int)[0] == y@[i as int]);
        }
        (x[i] as u32) < (y[i] as u32)
    }
}

fn is_entry_before(a: &RuntimeEntry, b: &RuntimeEntry) -> (r: bool)
    ensures
        r == entry_before(a@, b@),
{
    match (file_name(a.path.as_str()), file_name(b.path.as_str())) {
        (None, Some(_)) => true,
        (Some(x), Some(y)) => is_text_before(x.as_str(), y.as_str()),
        _ => false,
    }
}

fn insert_entry(list: &mut Vec<RuntimeEntry>, e: RuntimeEntry)
    ensures
        entries(final(list)@) == inserted(entries(old(list)@), e@),
{
    let ghost all = entries(list@);
    let mut k: usize = list.len();
    proof {
        assert(all.take(k as int) =~= all);
        assert(all.skip(k as int) =~= seq![]);
        assert(inserted(all.take(k as int), e@) + all.skip(k as int) =~= inserted(all, e@));
    }
    while k > 0 && is_entry_before(&e, &list[k - 1])
        invariant
            k <= list@.len(),
            *list == *old(list),
            all == entries(list@),
            inserted(all.take(k as int), e@) + all.skip(k as int) == inserted(all, e@),
        decreases k,
    {
        proof {
            let front = all.take(k as int);
            assert(front.last() == list@[k - 1]@);
            assert(front.drop_last() =~= all.take(k - 1));
            assert(inserted(all.take(k - 1), e@).push(front.last()) + all.skip(k as int)
                =~= inserted(all.take(k - 1), e@) + all.skip(k - 1));
        }
        k = k - 1;
    }
    proof {
        let front = all.take(k as int);
        if k > 0 {
            assert(front.last() == list@[k - 1]@);
        }
        assert(inserted(front, e@) == front.push(e@));
    }
    list.insert(k, e);
    proof {
        assert(entries(list@) =~= all.take(k as int).push(e@) + all.skip(k as int));
    }
}

/// Puts the entries of a directory in order of their names.
pub fn sort_by_name(list: Vec<RuntimeEntry>) -> (r: Vec<RuntimeEntry>)
    ensures
        entries(r@) == by_name(entries(list@)),
{
    let ghost all = entries(list@);
    let mut left = list;
    let mut r: Vec<RuntimeEntry> = Vec::new();
    let n: usize = left.len();
    let mut i: usize = 0;
    proof {
        assert(all.take(0) =~= seq![]);
        assert(entries(r@) =~= seq![]);
        assert(all.skip(0) =~= all);
    }
    while i < n
        invariant
            i <= n,
            n == all.len(),
            entries(left@) == all.skip(i as int),
            entries(r@) == by_name(all.take(i as int)),
        decreases n - i,
    {
        let ghost rest = left@;
        proof {
            assert(entries(rest).len() == rest.len());
        }
        let e = left.remove(0);
        proof {
            assert(entries(rest)[0] == e@);
            assert(entries(left@) =~= entries(rest).skip(1));
            assert(entries(left@) =~= all.skip(i + 1));
            assert(all.take(i + 1).drop_last() =~= all.take(i as int));
            assert(all.take(i + 1).last() == e@);
        }
        insert_entry(&mut r, e);
        i = i + 1;
    }
    proof {
        assert(all.take(i as int) =~= all);
    }
    r
}

// ---------------------------------------------------------------------------------------------
// Directories
// ---------------------------------------------------------------------------------------------

/// The line that shows an entry; entries without a name, and those that are neither file nor
/// directory nor symbolic link, are not shown.
pub open spec fn entry_line(e: EntryText) -> Option<Seq<char>> {
    match path_name(e.path) {
        None => None,
        Some(name) => match e.kind {
            EntryKind::Dir => Some(name + "/ (directory)"@),
            EntryKind::File => Some(name + " (file)"@),
            EntryKind::Symlink => Some(name + " (symlink)"@),
            EntryKind::Other => None,
        },
    }
}

/// The lines that show entries.
pub open spec fn entry_lines(list: Seq<EntryText>) -> Seq<Seq<char>>
    decreases list.len(),
{
    if list.len() == 0 {
        seq![]
    } else {
        match entry_line(list.last()) {
            Some(line) => entry_lines(list.drop_last()).push(line),
            None => entry_lines(list.drop_last()),
        }
    }
}

/// What is shown of a directory.
pub open spec fn directory_text(list: Seq<EntryText>) -> Seq<char> {
    let shown = entry_lines(by_name(list));
    if shown.len() == 0 {
        "Directory is empty."@
    } else {
        joined(shown, "\n"@)
    }
}

fn show_entry(e: &RuntimeEntry) -> (r: Option<String>)
    ensures
        opt_text(r) == entry_line(e@),
{
    match file_name(e.path.as_str()) {
        None => None,
        Some(name) => match e.kind {
            EntryKind::Dir => Some(cat2(name.as_str(), "/ (directory)")),
            EntryKind::File => Some(cat2(name.as_str(), " (file)")),
            EntryKind::Symlink => Some(cat2(name.as_str(), " (symlink)")),
            EntryKind::Other => None,
        },
    }
}

/// Shows a directory, one entry to a line, in order of their names.
pub fn show_directory(list: Vec<RuntimeEntry>) -> (r: String)
    ensures
        r@ == directory_text(entries(list@)),
{
    let sorted = sort_by_name(list);
    let ghost all = entries(sorted@);
    let mut shown: Vec<String> = Vec::new();
    let mut i: usize = 0;
    proof {
        assert(all.take(0) =~= seq![]);
        assert(texts(shown@) =~= seq![]);
    }
    while i < sorted.len()
        invariant
            i <= sorted@.len(),
            all == entries(sorted@),
            texts(shown@) == entry_lines(all.take(i as int)),
        decreases sorted@.len() - i,
    {
        proof {
            assert(all.take(i + 1).drop_last() =~= all.take(i as int));
            assert(all.take(i + 1).last() == sorted@[i as int]@);
        }
        match show_entry(&sorted[i]) {
            Some(line) => {
                let ghost before = shown@;
                shown.push(line);
                proof {
                    lemma_texts_push(before, line);
                }
            },
            None => {},
        }
        i = i + 1;
    }
    proof {
        assert(all.take(i as int) =~= all);
        assert(texts(shown@).len() == shown@.len());
    }
    if shown.len() == 0 {
        "Directory is empty.".to_owned()
    } else {
        join(shown.as_slice(), "\n")
    }
}

// ---------------------------------------------------------------------------------------------
// Matches
// ---------------------------------------------------------------------------------------------

/// The lines that hold the query, each with the file and its number before it.
pub open spec fn matching_lines(
    file: Seq<char>,
    all: Seq<Seq<char>>,
    query: Seq<char>,
) -> Seq<Seq<char>>
    decreases all.len(),
{
    if all.len() == 0 {
        seq![]
    } else if contains_text(all.last(), query) {
        matching_lines(file, all.drop_last(), query).push(
            file + ":"@ + dec(all.len()) + ":"@ + all.last(),
        )
    } else {
        matching_lines(file, all.drop_last(), query)
    }
}

/// How a file is called in the result of a search: relative to the project.
pub open spec fn shown_path(root: Seq<char>, file: Seq<char>) -> Seq<char> {
    match relative_to(file, root) {
        Some(rel) => rel,
        None => file,
    }
}

/// What searching the text of a file finds.
pub open spec fn file_matches(
    root: Seq<char>,
    file: Seq<char>,
    text: Seq<char>,
    query: Seq<char>,
) -> Seq<Seq<char>> {
    matching_lines(shown_path(root, file), lines(text), query)
}

/// The result of a search.
pub open spec fn search_text(query: Seq<char>, found: Seq<Seq<char>>) -> Seq<char> {
    if found.len() == 0 {
        "no matches for \""@ + query + "\""@
    } else {
        joined(found, "\n"@)
    }
}

/// Adds what searching the text of a file finds.
pub fn search_file(root: &str, file: &str, text: &str, query: &str, found: &mut Vec<String>)
    ensures
        texts(final(found)@) == texts(old(found)@) + file_matches(root@, file@, text@, query@),
        final(found)@.len() == old(found)@.len() + hits(
            lines(text@),
            query@,
            lines(text@).len() as int,
        ),
{
    proof {
        law_search_finds_every_line(root@, file@, text@, query@);
        assert(texts(found@).len() == found@.len());
    }
    let shown = match strip_base(file, root) {
        Some(rel) => rel,
        None => file.to_owned(),
    };
    let all = split_lines(text);
    let ghost want = texts(all@);
    let ghost start = texts(found@);
    let mut i: usize = 0;
    proof {
        assert(want.take(0) =~= seq![]);
        assert(start + matching_lines(shown@, want.take(0), query@) =~= start);
    }
    while i < all.len()
        invariant
            i <= all@.len(),
            want == texts(all@),
            texts(found@) == start + matching_lines(shown@, want.take(i as int), query@),
        decreases all@.len() - i,
    {
        let line = all[i].as_str();
        proof {
            assert(want.take(i + 1).drop_last() =~= want.take(i as int));
            assert(want.take(i + 1).last() == line@);
        }
        if contains(line, query) {
            let mut hit = cat3(shown.as_str(), ":", dec_usize(i + 1).as_str());
            hit.append(":");
            hit.append(line);
            let ghost before = found@;
            found.push(hit);
            proof {
                lemma_texts_push(before, hit);
                assert(texts(found@) =~= start + matching_lines(
                    shown@,
                    want.take(i + 1),
                    query@,
                ));
            }
        }
        i = i + 1;
    }
    proof {
        assert(want.take(i as int) =~= want);
    }
}

/// Puts the result of a search into words.
pub fn show_matches(query: &str, found: &Vec<String>) -> (r: String)
    ensures
        r@ == search_text(query@, texts(found@)),
{
    proof {
        assert(texts(found@).len() == found@.len());
    }
    if found.len() == 0 {
        cat3("no matches for \"", query, "\"")
    } else {
        join(found.as_slice(), "\n")
    }
}

// ---------------------------------------------------------------------------------------------
// Laws
// ---------------------------------------------------------------------------------------------

proof fn lemma_text_before_total(a: Seq<char>, b: Seq<char>)
    ensures
        !(text_before(a, b) && text_before(b, a)),
        !text_before(a, b) && !text_before(b, a) ==> a == b,
    decreases a.len(),
{
    if a.len() > 0 && b.len() > 0 {
        if a[0] == b[0] {
            lemma_text_before_total(a.skip(1), b.skip(1));
            if !text_before(a, b) && !text_before(b, a) {
                assert(a =~= seq![a[0]] + a.skip(1));
                assert(b =~= seq![b[0]] + b.skip(1));
            }
        } else {
            vstd::utf8::char_u32_cast(a[0], a[0] as u32);
            vstd::utf8::char_u32_cast(b[0], b[0] as u32);
        }
    } else if a.len() == 0 && b.len() == 0 {
        assert(a =~= b);
    }
}

proof fn lemma_text_before_chain(a: Seq<char>, b: Seq<char>, c: Seq<char>)
    requires
        text_before(a, b),
        text_before(b, c),
    ensures
        text_before(a, c),
    decreases a.len(),
{
    if a.len() > 0 && a[0] == b[0] && b[0] == c[0] {
        lemma_text_before_chain(a.skip(1), b.skip(1), c.skip(1));
    }
}

proof fn lemma_entry_not_before_chain(a: EntryText, b: EntryText, c: EntryText)
    requires
        !entry_before(b, a),
        !entry_before(c, b),
    ensures
        !entry_before(c, a),
{
    match (path_name(a.path), path_name(b.path), path_name(c.path)) {
        (Some(x), Some(y), Some(z)) => {
            lemma_text_before_total(x, y);
            lemma_text_before_total(y, z);
            lemma_text_before_total(x, z);
            if text_before(z, x) {
                if text_before(x, y) {
                    lemma_text_before_chain(z, x, y);
                }
            }
        },
        _ => {},
    }
}

/// Whether no entry comes before one that stands in front of it.
pub open spec fn ordered(list: Seq<EntryText>) -> bool {
    forall|i: int, j: int|
        0 <= i < j < list.len() ==> !entry_before(#[trigger] list[j], #[trigger] list[i])
}

proof fn lemma_inserted(list: Seq<EntryText>, e: EntryText)
    requires
        ordered(list),
    ensures
        ordered(inserted(list, e)),
        inserted(list, e).len() == list.len() + 1,
        inserted(list, e).to_multiset() == list.to_multiset().insert(e),
        forall|k: int|
            0 <= k < inserted(list, e).len() ==> #[trigger] inserted(list, e)[k] == e
                || list.contains(inserted(list, e)[k]),
    decreases list.len(),
{
    broadcast use vstd::seq_lib::group_to_multiset_ensures;

    if list.len() > 0 && entry_before(e, list.last()) {
        let front = list.drop_last();
        let last = list.last();
        assert(ordered(front)) by {
            assert forall|i: int, j: int| 0 <= i < j < front.len() implies !entry_before(
                #[trigger] front[j],
                #[trigger] front[i],
            ) by {
                assert(front[i] == list[i] && front[j] == list[j]);
            }
        }
        lemma_inserted(front, e);
        let rest = inserted(front, e);
        let all = inserted(list, e);
        assert(list =~= front.push(last));
        assert(all.to_multiset() =~= list.to_multiset().insert(e));
        assert forall|i: int, j: int| 0 <= i < j < all.len() implies !entry_before(
            #[trigger] all[j],
            #[trigger] all[i],
        ) by {
            if j < rest.len() {
                assert(all[i] == rest[i] && all[j] == rest[j]);
            } else {
                assert(all[i] == rest[i]);
                if rest[i] == e {
                    lemma_entry_asymmetric(e, last);
                } else {
                    let k = choose|k: int| 0 <= k < front.len() && front[k] == rest[i];
                    assert(list[k] == rest[i]);
                    assert(list[list.len() - 1] == last);
                }
            }
        }
        assert forall|k: int| 0 <= k < all.len() implies #[trigger] all[k] == e || list.contains(
            all[k],
        ) by {
            if k < rest.len() {
                assert(all[k] == rest[k]);
                if rest[k] != e {
                    let m = choose|m: int| 0 <= m < front.len() && front[m] == rest[k];
                    assert(list[m] == rest[k]);
                }
            } else {
                assert(list[list.len() - 1] == last);
            }
        }
    } else {
        let all = list.push(e);
        assert forall|i: int, j: int| 0 <= i < j < all.len() implies !entry_before(
            #[trigger] all[j],
            #[trigger] all[i],
        ) by {
            if j == list.len() && i < list.len() - 1 {
                assert(!entry_before(list[list.len() - 1], list[i]));
                lemma_entry_not_before_chain(list[i], list.last(), e);
            }
        }
        assert forall|k: int| 0 <= k < all.len() implies #[trigger] all[k] == e || list.contains(
            all[k],
        ) by {
            if k < list.len() {
                assert(list[k] == all[k]);
            }
        }
    }
}

proof fn lemma_entry_asymmetric(a: EntryText, b: EntryText)
    requires
        entry_before(a, b),
    ensures
        !entry_before(b, a),
{
    match (path_name(a.path), path_name(b.path)) {
        (Some(x), Some(y)) => {
            lemma_text_before_total(x, y);
        },
        _ => {},
    }
}

/// Sorting puts the entries in order, and neither loses nor adds one.
pub proof fn law_sorting_orders_the_entries(list: Seq<EntryText>)
    ensures
        ordered(by_name(list)),
        by_name(list).to_multiset() == list.to_multiset(),
    decreases list.len(),
{
    broadcast use vstd::seq_lib::group_to_multiset_ensures;

    if list.len() == 0 {
        assert(list =~= seq![]);
    } else {
        law_sorting_orders_the_entries(list.drop_last());
        lemma_inserted(by_name(list.drop_last()), list.last());
        assert(list =~= list.drop_last().push(list.last()));
    }
}

/// How many of the first `k` lines hold the query.
pub open spec fn hits(all: Seq<Seq<char>>, query: Seq<char>, k: int) -> nat
    decreases k,
{
    if k <= 0 {
        0
    } else {
        hits(all, query, k - 1) + if exists|a: Seq<char>, b: Seq<char>|
            all[k - 1] == #[trigger] (a + query + b) {
            1nat
        } else {
            0nat
        }
    }
}

proof fn lemma_hits_prefix(all: Seq<Seq<char>>, query: Seq<char>, n: int, k: int)
    requires
        0 <= k <= n <= all.len(),
    ensures
        hits(all.take(n), query, k) == hits(all, query, k),
    decreases k,
{
    if k > 0 {
        assert(all.take(n)[k - 1] == all[k - 1]);
        lemma_hits_prefix(all, query, n, k - 1);
    }
}

proof fn lemma_matching_lines(
    file: Seq<char>,
    all: Seq<Seq<char>>,
    query: Seq<char>,
)
    ensures
        matching_lines(file, all, query).len() == hits(all, query, all.len() as int),
        forall|k: int|
            0 <= k < all.len() && contains_text(#[trigger] all[k], query) ==> {
                &&& hits(all, query, k) < matching_lines(file, all, query).len()
                &&& matching_lines(file, all, query)[hits(all, query, k) as int] == file + ":"@
                    + dec((k + 1) as nat) + ":"@ + all[k]
            },
    decreases all.len(),
{
    if all.len() > 0 {
        let n = all.len() as int;
        let front = all.drop_last();
        let found = matching_lines(file, all, query);
        let before = matching_lines(file, front, query);
        lemma_matching_lines(file, front, query);
        assert(front =~= all.take(n - 1));
        lemma_hits_prefix(all, query, n - 1, n - 1);
        law_contains(all.last(), query);
        assert(hits(front, query, n - 1) == hits(all, query, n - 1));
        assert forall|k: int| 0 <= k < n && contains_text(#[trigger] all[k], query) implies {
            &&& hits(all, query, k) < found.len()
            &&& found[hits(all, query, k) as int] == file + ":"@ + dec((k + 1) as nat) + ":"@
                + all[k]
        } by {
            if k < n - 1 {
                lemma_hits_prefix(all, query, n - 1, k);
                assert(front[k] == all[k]);
                assert(contains_text(front[k], query));
                assert(found[hits(all, query, k) as int] == before[hits(all, query, k) as int]);
            }
        }
    }
}

/// A search finds every line that holds the query and no other, in the order of the file: the
/// matches are as many as those lines, and a line that holds the query, whatever stands before the
/// query in it and behind it, comes after as many matches as there are such lines before it, with
/// the file, its number counted from one, and its whole text.
pub proof fn law_search_finds_every_line(
    root: Seq<char>,
    file: Seq<char>,
    text: Seq<char>,
    query: Seq<char>,
)
    ensures
        file_matches(root, file, text, query).len() == hits(
            lines(text),
            query,
            lines(text).len() as int,
        ),
        forall|k: int, a: Seq<char>, b: Seq<char>|
            0 <= k < lines(text).len() && #[trigger] lines(text)[k] == #[trigger] (a + query + b)
                ==> {
                let found = file_matches(root, file, text, query);
                let at = hits(lines(text), query, k) as int;
                &&& at < found.len()
                &&& found[at] == shown_path(root, file) + ":"@ + dec((k + 1) as nat) + ":"@
                    + lines(text)[k]
            },
{
    let all = lines(text);
    lemma_matching_lines(shown_path(root, file), all, query);
    assert forall|k: int, a: Seq<char>, b: Seq<char>|
        0 <= k < all.len() && #[trigger] all[k] == #[trigger] (a + query + b) implies contains_text(
        all[k],
        query,
    ) by {
        law_contains(all[k], query);
    }
}

/// One name comes before another where it is the beginning of it, or where at the first place at
/// which they differ its character has the smaller number.
pub proof fn law_names_go_by_their_characters(a: Seq<char>, b: Seq<char>)
    ensures
        text_before(a, b) <==> exists|i: int|
            {
                &&& 0 <= i <= a.len()
                &&& i < b.len()
                &&& #[trigger] a.take(i) == b.take(i)
                &&& i == a.len() || (a[i] as u32) < (b[i] as u32)
            },
    decreases a.len(),
{
    if b.len() > 0 {
        if a.len() == 0 {
            assert(a.take(0) =~= b.take(0));
        } else if a[0] != b[0] {
            assert(a.take(0) =~= b.take(0));
            assert forall|i: int| 0 < i <= a.len() && i < b.len() implies #[trigger] a.take(i)
                != b.take(i) by {
                assert(a.take(i)[0] != b.take(i)[0]);
            }
        } else {
            let x = a.skip(1);
            let y = b.skip(1);
            law_names_go_by_their_characters(x, y);
            if text_before(x, y) {
                let i = choose|i: int|
                    {
                        &&& 0 <= i <= x.len()
                        &&& i < y.len()
                        &&& #[trigger] x.take(i) == y.take(i)
                        &&& i == x.len() || (x[i] as u32) < (y[i] as u32)
                    };
                assert(a.take(i + 1) =~= seq![a[0]] + x.take(i));
                assert(b.take(i + 1) =~= seq![a[0]] + y.take(i));
                assert(a.take(i + 1) == b.take(i + 1));
            }
            if exists|i: int|
                {
                    &&& 0 <= i <= a.len()
                    &&& i < b.len()
                    &&& #[trigger] a.take(i) == b.take(i)
                    &&& i == a.len() || (a[i] as u32) < (b[i] as u32)
                } {
                let i = choose|i: int|
                    {
                        &&& 0 <= i <= a.len()
                        &&& i < b.len()
                        &&& #[trigger] a.take(i) == b.take(i)
                        &&& i == a.len() || (a[i] as u32) < (b[i] as u32)
                    };
                assert(i > 0);
                assert(x.take(i - 1) =~= a.take(i).skip(1));
                assert(y.take(i - 1) =~= b.take(i).skip(1));
                assert(x.take(i - 1) == y.take(i - 1));
            }
        }
    }
}

/// Sorting goes by the names alone, whatever the kinds: of two entries with names, the one whose
/// name comes before the other's stands before it.
pub proof fn law_sorting_goes_by_name(list: Seq<EntryText>, i: int, j: int)
    requires
        0 <= i < j < by_name(list).len(),
        path_name(by_name(list)[i].path) is Some,
        path_name(by_name(list)[j].path) is Some,
    ensures
        !text_before(path_name(by_name(list)[j].path)->0, path_name(by_name(list)[i].path)->0),
{
    law_sorting_orders_the_entries(list);
    assert(!entry_before(by_name(list)[j], by_name(list)[i]));
}

/// The entries of a list that have the given name, in order.
pub open spec fn named(list: Seq<EntryText>, name: Seq<char>) -> Seq<EntryText>
    decreases list.len(),
{
    if list.len() == 0 {
        seq![]
    } else if path_name(list.last().path) == Some(name) {
        named(list.drop_last(), name).push(list.last())
    } else {
        named(list.drop_last(), name)
    }
}

/// Entries of the same name keep the order in which they came.
pub proof fn law_sorting_is_stable(list: Seq<EntryText>, name: Seq<char>)
    ensures
        named(by_name(list), name) == named(list, name),
    decreases list.len(),
{
    if list.len() > 0 {
        law_sorting_is_stable(list.drop_last(), name);
        lemma_inserted_named(by_name(list.drop_last()), list.last(), name);
    }
}

proof fn lemma_inserted_named(list: Seq<EntryText>, e: EntryText, name: Seq<char>)
    ensures
        named(inserted(list, e), name) == (if path_name(e.path) == Some(name) {
            named(list, name).push(e)
        } else {
            named(list, name)
        }),
    decreases list.len(),
{
    let all = inserted(list, e);
    if list.len() > 0 && entry_before(e, list.last()) {
        let front = list.drop_last();
        lemma_inserted_named(front, e, name);
        assert(all.drop_last() =~= inserted(front, e));
        assert(all.last() == list.last());
        if path_name(e.path) == Some(name) && path_name(list.last().path) == Some(name) {
            lemma_text_before_total(name, name);
        }
    } else {
        assert(all.drop_last() =~= list);
        assert(all.last() == e);
    }
}

/// Whether an entry is shown: it has a name and is a file, a directory or a link.
pub open spec fn is_shown(e: EntryText) -> bool {
    path_name(e.path) is Some && (e.kind == EntryKind::File || e.kind == EntryKind::Dir || e.kind
        == EntryKind::Symlink)
}

/// How many of the first `k` entries are shown.
pub open spec fn shown_before(list: Seq<EntryText>, k: int) -> nat
    decreases k,
{
    if k <= 0 {
        0
    } else {
        shown_before(list, k - 1) + if is_shown(list[k - 1]) {
            1nat
        } else {
            0nat
        }
    }
}

proof fn lemma_shown_prefix(list: Seq<EntryText>, n: int, k: int)
    requires
        0 <= k <= n <= list.len(),
    ensures
        shown_before(list.take(n), k) == shown_before(list, k),
    decreases k,
{
    if k > 0 {
        lemma_shown_prefix(list, n, k - 1);
    }
}

/// A listing has a line for each entry that is shown and for no other, in the order of the
/// entries: the name, and behind it what it is.
pub proof fn law_every_entry_has_its_line(list: Seq<EntryText>)
    ensures
        entry_lines(list).len() == shown_before(list, list.len() as int),
        forall|k: int|
            0 <= k < list.len() && is_shown(#[trigger] list[k]) ==> {
                &&& shown_before(list, k) < entry_lines(list).len()
                &&& entry_lines(list)[shown_before(list, k) as int] == path_name(list[k].path)->0 + (
                match list[k].kind {
                    EntryKind::Dir => "/ (directory)"@,
                    EntryKind::File => " (file)"@,
                    _ => " (symlink)"@,
                })
            },
    decreases list.len(),
{
    if list.len() > 0 {
        let n = list.len() as int;
        let front = list.drop_last();
        law_every_entry_has_its_line(front);
        assert(front =~= list.take(n - 1));
        lemma_shown_prefix(list, n - 1, n - 1);
        assert forall|k: int| 0 <= k < n && is_shown(#[trigger] list[k]) implies {
            &&& shown_before(list, k) < entry_lines(list).len()
            &&& entry_lines(list)[shown_before(list, k) as int] == path_name(list[k].path)->0 + (
            match list[k].kind {
                EntryKind::Dir => "/ (directory)"@,
                EntryKind::File => " (file)"@,
                _ => " (symlink)"@,
            })
        } by {
            if k < n - 1 {
                lemma_shown_prefix(list, n - 1, k);
                assert(front[k] == list[k]);
                assert(is_shown(front[k]));
                assert(entry_lines(list)[shown_before(list, k) as int] == entry_lines(
                    front,
                )[shown_before(list, k) as int]);
            }
        }
    }
}

/// A listing puts each line on a line of its own, and says that the directory is empty exactly
/// where there is none to show.
pub proof fn law_listing_is_line_by_line(list: Seq<EntryText>)
    requires
        forall|k: int|
            0 <= k < entry_lines(by_name(list)).len() ==> !(#[trigger] entry_lines(
                by_name(list),
            )[k]).contains('\n'),
    ensures
        entry_lines(by_name(list)).len() > 0 ==> split(directory_text(list), '\n') == entry_lines(
            by_name(list),
        ),
        entry_lines(by_name(list)).len() == 0 ==> directory_text(list) == "Directory is empty."@,
{
    reveal_strlit("\n");
    assert("\n"@ =~= seq!['\n']);
    if entry_lines(by_name(list)).len() > 0 {
        law_joined_parts_come_apart(entry_lines(by_name(list)), '\n');
    }
}

/// The result of a search puts each match on a line of its own, and where there is none names the
/// query that was not found.
pub proof fn law_search_result_is_line_by_line(query: Seq<char>, found: Seq<Seq<char>>)
    requires
        forall|k: int| 0 <= k < found.len() ==> !(#[trigger] found[k]).contains('\n'),
    ensures
        found.len() > 0 ==> split(search_text(query, found), '\n') == found,
        found.len() == 0 ==> search_text(query, found) == "no matches for "@ + seq!['"'] + query
            + seq!['"'],
{
    reveal_strlit("\n");
    assert("\n"@ =~= seq!['\n']);
    reveal_strlit("no matches for \"");
    reveal_strlit("no matches for ");
    reveal_strlit("\"");
    if found.len() > 0 {
        law_joined_parts_come_apart(found, '\n');
    } else {
        assert(search_text(query, found) =~= "no matches for "@ + seq!['"'] + query + seq!['"']);
    }
}

/// A file of the project is shown by what stands behind the project in its path, as it is written
/// there; any other by its whole path.
pub proof fn law_shown_paths(root: Seq<char>, file: Seq<char>)
    ensures
        !inside(file, root) ==> shown_path(root, file) == file,
        inside(file, root) ==> {
            let shown = shown_path(root, file);
            &&& components(shown) == components(file).skip(components(root).len() as int)
            &&& exists|a: Seq<char>, b: Seq<char>| file == #[trigger] (a + shown + b)
            &&& components(root).len() > 0 && shown.len() > 0 ==> shown[0] != '/' && shown.last()
                != '/'
        },
{
    if inside(file, root) {
        law_relative_keeps_components(file, root);
        law_relative_is_a_part(file, root);
    }
}

} // verus!
