//! What holds of the store and of its persistence format, whatever the
//! bookmarks are.

use vstd::prelude::*;
use crate::entries::{Entries, delete, distinct_keys, has_key, key_index, lemma_key_index,
    lemma_put, lookup, put, to_map};
use crate::persist::{block, entries_of_pairs, first_newline, lemma_first_newline,
    lemma_lines_of_first, lines_of, newline_free, parse, put_pair, serialize, strip_cr};
use crate::popup::{Mode, Overlay, SENTINEL, after_key, after_write};
use crate::widget::{ActionView, Key};

verus! {

/// After a path was added under a key, the key is bound to that path.
pub proof fn lemma_add_then_get(entries: Entries, key: char, path: Seq<char>)
    requires
        distinct_keys(entries),
    ensures
        lookup(put(entries, key, path), key) == Some(path),
        to_map(put(entries, key, path)).contains_key(key),
        to_map(put(entries, key, path))[key] == path,
{
    lemma_put(entries, key, path);
}

/// Adding twice under one key overwrites: the key is bound to the second
/// path, and the store is the one that adding the second path alone would
/// have given, with as many bookmarks as after the first addition.
pub proof fn lemma_add_overwrites(entries: Entries, key: char, first: Seq<char>, second: Seq<char>)
    requires
        distinct_keys(entries),
    ensures
        lookup(put(put(entries, key, first), key, second), key) == Some(second),
        put(put(entries, key, first), key, second) == put(entries, key, second),
        put(put(entries, key, first), key, second).len() == put(entries, key, first).len(),
{
    let once = put(entries, key, first);
    lemma_put(entries, key, first);
    lemma_put(once, key, second);
    let at = if has_key(entries, key) {
        key_index(entries, key)
    } else {
        entries.len() as int
    };
    assert(once[at] == (key, first));
    lemma_key_index(once, at);
    assert(put(once, key, second) =~= put(entries, key, second));
}

/// Whatever a persistence file holds, it binds no key twice.
pub proof fn lemma_parse_distinct(text: Seq<char>)
    ensures
        distinct_keys(parse(text)),
{
    lemma_entries_of_pairs_distinct(lines_of(text), lines_of(text).len() / 2);
}

/// Reading pairs of lines binds no key twice.
pub proof fn lemma_entries_of_pairs_distinct(lines: Seq<Seq<char>>, n: nat)
    ensures
        distinct_keys(entries_of_pairs(lines, n)),
    decreases n,
{
    if n > 0 {
        let read = entries_of_pairs(lines, (n - 1) as nat);
        lemma_entries_of_pairs_distinct(lines, (n - 1) as nat);
        let key_line = lines[2 * (n - 1)];
        if key_line.len() > 0 {
            lemma_put(read, key_line[0], lines[2 * (n - 1) + 1]);
        }
    }
}

/// A key that the persistence format can hold: any character but the two
/// that end a line.
pub open spec fn storable_key(key: char) -> bool {
    key != '\n' && key != '\r'
}

/// A path that the persistence format can hold: it fits on one line and
/// does not end with a carriage return, which the line's end would absorb.
pub open spec fn storable_path(path: Seq<char>) -> bool {
    newline_free(path) && (path.len() > 0 ==> path.last() != '\r')
}

/// Every bookmark can be held by the persistence format.
pub open spec fn storable(entries: Entries) -> bool {
    forall|i: int|
        0 <= i < entries.len() ==> storable_key((#[trigger] entries[i]).0) && storable_path(
            entries[i].1,
        )
}

/// The lines that persist `entries`: for each bookmark its key and its
/// path.
pub open spec fn lines_of_entries(entries: Entries) -> Seq<Seq<char>>
    decreases entries.len(),
{
    if entries.len() == 0 {
        Seq::empty()
    } else {
        lines_of_entries(entries.drop_last()) + seq![seq![entries.last().0], entries.last().1]
    }
}

/// Whole lines: the text is empty or ends with a line feed.
pub open spec fn whole_lines(text: Seq<char>) -> bool {
    text.len() == 0 || text.last() == '\n'
}

/// The lines of two texts in a row are the lines of the first, where it
/// consists of whole lines, and then those of the second.
pub proof fn lemma_lines_of_concat(head: Seq<char>, tail: Seq<char>)
    requires
        whole_lines(head),
    ensures
        lines_of(head + tail) == lines_of(head) + lines_of(tail),
    decreases head.len(),
{
    if head.len() == 0 {
        assert(head + tail =~= tail);
        assert(lines_of(head) + lines_of(tail) =~= lines_of(tail));
    } else {
        lemma_first_newline(head);
        let n = first_newline(head);
        if n == head.len() {
            assert(head.take(n) =~= head);
            assert(head[head.len() - 1] != '\n');
        }
        let line = head.take(n);
        let rest = head.skip(n + 1);
        assert(head =~= line + seq!['\n'] + rest);
        assert(head + tail =~= line + seq!['\n'] + (rest + tail));
        if rest.len() > 0 {
            assert(rest.last() == head.last());
        }
        lemma_lines_of_first(line, rest);
        lemma_lines_of_first(line, rest + tail);
        lemma_lines_of_concat(rest, tail);
        assert(seq![strip_cr(line)] + (lines_of(rest) + lines_of(tail)) =~= seq![strip_cr(line)]
            + lines_of(rest) + lines_of(tail));
    }
}

/// A bookmark that the format can hold is persisted as two lines: its key
/// and its path.
pub proof fn lemma_lines_of_block(key: char, path: Seq<char>)
    requires
        storable_key(key),
        storable_path(path),
    ensures
        lines_of(block((key, path))) == seq![seq![key], path],
        whole_lines(block((key, path))),
{
    let tail = path + seq!['\n'];
    assert(block((key, path)) =~= seq![key] + seq!['\n'] + tail);
    lemma_lines_of_first(seq![key], tail);
    assert(tail =~= path + seq!['\n'] + Seq::<char>::empty());
    lemma_lines_of_first(path, Seq::empty());
    assert(lines_of(Seq::<char>::empty()) =~= Seq::<Seq<char>>::empty());
    assert(seq![strip_cr(seq![key])] + (seq![strip_cr(path)] + Seq::<Seq<char>>::empty())
        =~= seq![seq![key], path]);
}

/// The persisted content of storable bookmarks consists of whole lines:
/// for each bookmark its key and its path.
pub proof fn lemma_lines_of_serialize(entries: Entries)
    requires
        storable(entries),
    ensures
        lines_of(serialize(entries)) == lines_of_entries(entries),
        whole_lines(serialize(entries)),
        lines_of_entries(entries).len() == 2 * entries.len(),
    decreases entries.len(),
{
    if entries.len() == 0 {
    } else {
        let init = entries.drop_last();
        let last = entries.last();
        lemma_lines_of_serialize(init);
        lemma_lines_of_block(last.0, last.1);
        lemma_lines_of_concat(serialize(init), block(last));
    }
}

/// What the first `n` pairs of lines hold depends on those pairs alone.
pub proof fn lemma_entries_of_pairs_prefix(a: Seq<Seq<char>>, b: Seq<Seq<char>>, n: nat)
    requires
        forall|i: int| 0 <= i < 2 * n ==> a[i] == b[i],
    ensures
        entries_of_pairs(a, n) == entries_of_pairs(b, n),
    decreases n,
{
    if n > 0 {
        lemma_entries_of_pairs_prefix(a, b, (n - 1) as nat);
        assert(a[2 * (n - 1)] == b[2 * (n - 1)]);
        assert(a[2 * (n - 1) + 1] == b[2 * (n - 1) + 1]);
    }
}

/// Reading the lines that persist a store gives the store back.
pub proof fn lemma_entries_of_own_lines(entries: Entries)
    requires
        distinct_keys(entries),
    ensures
        lines_of_entries(entries).len() == 2 * entries.len(),
        entries_of_pairs(lines_of_entries(entries), entries.len()) == entries,
    decreases entries.len(),
{
    if entries.len() > 0 {
        let init = entries.drop_last();
        let last = entries.last();
        let n = entries.len();
        lemma_entries_of_own_lines(init);
        lemma_entries_of_pairs_prefix(
            lines_of_entries(entries),
            lines_of_entries(init),
            (n - 1) as nat,
        );
        assert(lines_of_entries(entries)[2 * (n - 1)] == seq![last.0]);
        assert(lines_of_entries(entries)[2 * (n - 1) + 1] == last.1);
        assert(!has_key(init, last.0)) by {
            if has_key(init, last.0) {
                let i = key_index(init, last.0);
                assert(entries[i].0 != entries[n - 1].0);
            }
        }
        assert(put(init, last.0, last.1) =~= entries);
    }
}

/// Saving a store and loading what was saved gives the same bookmarks in
/// the same order, provided that the format can hold each of them.
pub proof fn lemma_save_then_load(entries: Entries)
    requires
        distinct_keys(entries),
        storable(entries),
    ensures
        parse(serialize(entries)) == entries,
        to_map(parse(serialize(entries))) == to_map(entries),
{
    lemma_lines_of_serialize(entries);
    lemma_entries_of_own_lines(entries);
}

/// A pair of lines whose key line is blank is skipped, and only that pair:
/// a file with such a pair between whole pairs holds what it would hold
/// without it.
pub proof fn lemma_blank_key_skipped(before: Seq<char>, path_line: Seq<char>, after: Seq<char>)
    requires
        whole_lines(before),
        lines_of(before).len() % 2 == 0,
        newline_free(path_line),
    ensures
        parse(before + seq!['\n'] + path_line + seq!['\n'] + after) == parse(before + after),
{
    let blank = seq!['\n'] + path_line + seq!['\n'];
    let a = lines_of(before);
    let b = lines_of(after);
    let skipped = seq![Seq::<char>::empty(), strip_cr(path_line)];
    assert(before + seq!['\n'] + path_line + seq!['\n'] + after =~= before + (blank + after));
    lemma_lines_of_concat(before, blank + after);
    lemma_lines_of_concat(before, after);
    assert(blank + after =~= Seq::<char>::empty() + seq!['\n'] + (path_line + seq!['\n'] + after));
    lemma_lines_of_first(Seq::empty(), path_line + seq!['\n'] + after);
    lemma_lines_of_first(path_line, after);
    assert(lines_of(blank + after) =~= skipped + b);
    assert(a + (skipped + b) =~= a + skipped + b);
    lemma_pairs_without_blank(a, strip_cr(path_line), b, b.len() / 2);
}

/// Among lines, a pair with an empty key line between whole pairs changes
/// nothing of what the pairs hold.
pub proof fn lemma_pairs_without_blank(
    a: Seq<Seq<char>>,
    path_line: Seq<char>,
    b: Seq<Seq<char>>,
    m: nat,
)
    requires
        a.len() % 2 == 0,
        2 * m <= b.len(),
    ensures
        entries_of_pairs(a + seq![Seq::<char>::empty(), path_line] + b, a.len() / 2 + 1 + m)
            == entries_of_pairs(a + b, a.len() / 2 + m),
    decreases m,
{
    let with = a + seq![Seq::<char>::empty(), path_line] + b;
    let without = a + b;
    let half = (a.len() / 2) as int;
    if m == 0 {
        lemma_entries_of_pairs_prefix(with, without, half as nat);
        assert(with[2 * half] == Seq::<char>::empty());
        assert(put_pair(
            entries_of_pairs(with, half as nat),
            with[2 * half],
            with[2 * half + 1],
        ) == entries_of_pairs(with, half as nat));
    } else {
        lemma_pairs_without_blank(a, path_line, b, (m - 1) as nat);
        assert(with[2 * (half + 1 + m - 1)] == b[2 * (m - 1)]);
        assert(without[2 * (half + m - 1)] == b[2 * (m - 1)]);
        assert(with[2 * (half + 1 + m - 1) + 1] == b[2 * (m - 1) + 1]);
        assert(without[2 * (half + m - 1) + 1] == b[2 * (m - 1) + 1]);
    }
}

/// A registration as a whole: while a bookmark is registered and its path
/// is on offer, a character other than the sentinel is bound to that path
/// and the file is asked to be written with the new bookmarks; when the
/// host reports that it was, the overlay has finished, is back in pick mode
/// and offers no path.
pub proof fn lemma_registration(state: Overlay, path: Seq<char>, c: char)
    requires
        state.mode == Mode::Add,
        state.pending == Some(path),
        c != SENTINEL,
    ensures
        ({
            let bookmarks = put(state.bookmarks, c, path);
            let (asked, action) = after_key(state, Key::Char(c));
            &&& action == Ok::<ActionView, crate::fail::HError>(
                ActionView::Write(serialize(bookmarks)),
            )
            &&& after_write(asked, Ok(())) == (
                Overlay { bookmarks, pending: None, mode: Mode::Pick, core: state.core },
                Ok::<ActionView, crate::fail::HError>(ActionView::Finished),
            )
        }),
{
}

/// The persistence file is written for a registration and for nothing
/// else. In particular the removal of a bookmark stays in memory: it
/// changes the bookmarks and asks for no write.
pub proof fn lemma_write_only_when_registering(state: Overlay, key: Key)
    ensures
        after_key(state, key).1 matches Ok(ActionView::Write(content)) ==> {
            &&& state.mode == Mode::Add
            &&& state.pending is Some
            &&& key matches Key::Char(c) && c != SENTINEL
            &&& content == serialize(after_key(state, key).0.bookmarks)
        },
        key matches Key::Alt(c) ==> after_key(state, key) == (
            Overlay { bookmarks: delete(state.bookmarks, c), ..state },
            Ok::<ActionView, crate::fail::HError>(ActionView::Continue),
        ),
{
}

} // verus!
