//! The text format of the persistence file: one bookmark per pair of
//! lines, the key on the first and the path on the second.

use vstd::prelude::*;
use vstd::std_specs::iter::IteratorSpec;
use vstd::string::StringExecFns;
use crate::entries::{Entries, entries_view, put};

verus! {

/// The place of the first line feed in `text`, or the length of `text`
/// where it holds none.
pub open spec fn first_newline(text: Seq<char>) -> int
    decreases text.len(),
{
    if text.len() == 0 || text[0] == '\n' {
        0
    } else {
        1 + first_newline(text.drop_first())
    }
}

/// A line without the carriage return that may end it.
pub open spec fn strip_cr(line: Seq<char>) -> Seq<char> {
    if line.len() > 0 && line.last() == '\r' {
        line.drop_last()
    } else {
        line
    }
}

/// The lines of `text`. A line ends with a line feed or with a carriage
/// return and a line feed, neither of which belongs to it; the last line
/// may end with the text instead, and then keeps a carriage return.
pub open spec fn lines_of(text: Seq<char>) -> Seq<Seq<char>>
    decreases text.len(),
{
    let n = first_newline(text);
    if text.len() == 0 {
        Seq::empty()
    } else if 0 <= n < text.len() {
        seq![strip_cr(text.take(n))] + lines_of(text.skip(n + 1))
    } else {
        seq![text]
    }
}

/// No line feed occurs in `text`.
pub open spec fn newline_free(text: Seq<char>) -> bool {
    forall|i: int| 0 <= i < text.len() ==> text[i] != '\n'
}

/// The store after the pair of a key line and a path line was read: the
/// first character of the key line is bound to the whole path line, and a
/// pair with an empty key line changes nothing.
pub open spec fn put_pair(entries: Entries, key_line: Seq<char>, path_line: Seq<char>) -> Entries {
    if key_line.len() > 0 {
        put(entries, key_line[0], path_line)
    } else {
        entries
    }
}

/// The store after the first `n` pairs of `lines` were read in order, a
/// later pair overwriting an earlier one with the same key.
pub open spec fn entries_of_pairs(lines: Seq<Seq<char>>, n: nat) -> Entries
    decreases n,
{
    if n == 0 {
        Seq::empty()
    } else {
        put_pair(
            entries_of_pairs(lines, (n - 1) as nat),
            lines[2 * (n - 1)],
            lines[2 * (n - 1) + 1],
        )
    }
}

/// The store that a persistence file with the content `text` holds. A
/// last line without a partner is ignored.
pub open spec fn parse(text: Seq<char>) -> Entries {
    entries_of_pairs(lines_of(text), lines_of(text).len() / 2)
}

/// The two lines that persist one bookmark.
pub open spec fn block(entry: (char, Seq<char>)) -> Seq<char> {
    seq![entry.0, '\n'] + entry.1 + seq!['\n']
}

/// The content of the persistence file for `entries`: their blocks in
/// order.
pub open spec fn serialize(entries: Entries) -> Seq<char>
    decreases entries.len(),
{
    if entries.len() == 0 {
        Seq::empty()
    } else {
        serialize(entries.drop_last()) + block(entries.last())
    }
}

/// What the strings of a vector hold.
pub open spec fn line_views(lines: Seq<String>) -> Seq<Seq<char>> {
    lines.map_values(|line: String| line@)
}

/// The first line feed lies within the text or at its end, and no line
/// feed comes before it.
pub proof fn lemma_first_newline(text: Seq<char>)
    ensures
        0 <= first_newline(text) <= text.len(),
        newline_free(text.take(first_newline(text))),
        first_newline(text) < text.len() ==> text[first_newline(text)] == '\n',
    decreases text.len(),
{
    if text.len() == 0 || text[0] == '\n' {
    } else {
        let rest = text.drop_first();
        lemma_first_newline(rest);
        let n = first_newline(rest);
        let head = text.take(n + 1);
        assert forall|i: int| 0 <= i < head.len() implies head[i] != '\n' by {
            if i > 0 {
                assert(rest.take(n)[i - 1] == text[i]);
            }
        }
    }
}

/// A line feed that follows a prefix without one is the first.
pub proof fn lemma_first_newline_after(prefix: Seq<char>, rest: Seq<char>)
    requires
        newline_free(prefix),
    ensures
        first_newline(prefix + seq!['\n'] + rest) == prefix.len(),
        first_newline(prefix) == prefix.len(),
    decreases prefix.len(),
{
    let text = prefix + seq!['\n'] + rest;
    if prefix.len() == 0 {
        assert(text[0] == '\n');
    } else {
        assert(text[0] == prefix[0]);
        assert(text.drop_first() =~= prefix.drop_first() + seq!['\n'] + rest);
        lemma_first_newline_after(prefix.drop_first(), rest);
    }
}

/// The lines of a text that starts with a whole line.
pub proof fn lemma_lines_of_first(line: Seq<char>, rest: Seq<char>)
    requires
        newline_free(line),
    ensures
        lines_of(line + seq!['\n'] + rest) == seq![strip_cr(line)] + lines_of(rest),
{
    let text = line + seq!['\n'] + rest;
    lemma_first_newline_after(line, rest);
    assert(text.take(line.len() as int) =~= line);
    assert(text.skip(line.len() as int + 1) =~= rest);
}

/// A text without a line feed is one line, or none where it is empty.
pub proof fn lemma_lines_of_last(line: Seq<char>)
    requires
        newline_free(line),
    ensures
        lines_of(line) == if line.len() == 0 {
            Seq::<Seq<char>>::empty()
        } else {
            seq![line]
        },
{
    lemma_first_newline_after(line, Seq::empty());
}

/// The carriage return that `split_lines` holds back, as text.
spec fn held(held_cr: bool) -> Seq<char> {
    if held_cr {
        seq!['\r']
    } else {
        Seq::empty()
    }
}

/// Splits `text` into its lines.
pub(crate) fn split_lines(text: &str) -> (lines: Vec<String>)
    ensures
        line_views(lines@) == lines_of(text@),
{
    let mut lines: Vec<String> = Vec::new();
    let mut line = String::new();
    // A carriage return that was read but not yet written to `line`: it
    // is dropped if a line feed follows it.
    let mut held_cr = false;
    let mut begun = false;
    let mut chars = text.chars();
    proof {
        broadcast use vstd::string::group_string_axioms;
        assert(line_views(lines@) =~= Seq::<Seq<char>>::empty());
        assert(line@ + Seq::<char>::empty() + chars.remaining() =~= text@);
    }
    loop
        invariant
            chars.obeys_prophetic_iter_laws(),
            chars.decrease() is Some,
            newline_free(line@ + held(held_cr)),
            begun == ((line@ + held(held_cr)).len() > 0),
            !held_cr && line@.len() > 0 ==> line@.last() != '\r',
            lines_of(text@) == line_views(lines@) + lines_of(
                line@ + held(held_cr) + chars.remaining(),
            ),
        ensures
            chars.remaining().len() == 0,
        decreases chars.decrease()->0,
    {
        let ghost before = line@ + held(held_cr);
        let ghost rest = chars.remaining();
        let ghost done = line_views(lines@);
        let next = chars.next();
        proof {
            broadcast use vstd::string::group_string_axioms;
        }
        match next {
            None => {
                break ;
            },
            Some(c) => {
                if c == '\n' {
                    proof {
                        lemma_lines_of_first(before, rest.drop_first());
                        assert(before + rest =~= before + seq!['\n'] + rest.drop_first());
                        assert(strip_cr(before) =~= line@);
                    }
                    lines.push(line);
                    line = String::new();
                    held_cr = false;
                    begun = false;
                    proof {
                        assert(line_views(lines@) =~= done + seq![strip_cr(before)]);
                        assert(line@ + held(held_cr) + chars.remaining() =~= rest.drop_first());
                    }
                } else {
                    if held_cr {
                        line.push('\r');
                    }
                    if c == '\r' {
                        held_cr = true;
                    } else {
                        held_cr = false;
                        line.push(c);
                    }
                    begun = true;
                    proof {
                        assert(line@ + held(held_cr) =~= before.push(c));
                        assert(line@ + held(held_cr) + chars.remaining() =~= before + rest);
                    }
                }
            },
        }
    }
    let ghost last = line@ + held(held_cr);
    if held_cr {
        line.push('\r');
    }
    proof {
        assert(line@ =~= last);
        assert(last + chars.remaining() =~= last);
        lemma_lines_of_last(last);
    }
    if begun {
        let ghost done = line_views(lines@);
        lines.push(line);
        proof {
            assert(line_views(lines@) =~= done + seq![line@]);
        }
    }
    lines
}

/// Writes the bookmarks out as the content of the persistence file.
pub(crate) fn write_entries(mapping: &Vec<(char, String)>) -> (text: String)
    ensures
        text@ == serialize(entries_view(mapping@)),
{
    let mut text = String::new();
    let mut i: usize = 0;
    while i < mapping.len()
        invariant
            i <= mapping.len(),
            text@ == serialize(entries_view(mapping@).take(i as int)),
        decreases mapping.len() - i,
    {
        let ghost before = text@;
        text.push(mapping[i].0);
        text.push('\n');
        text.append(mapping[i].1.as_str());
        text.push('\n');
        proof {
            let written = entries_view(mapping@).take(i + 1);
            assert(written.drop_last() =~= entries_view(mapping@).take(i as int));
            assert(text@ =~= before + block(written.last()));
        }
        i += 1;
    }
    proof {
        assert(entries_view(mapping@).take(i as int) =~= entries_view(mapping@));
    }
    text
}

} // verus!
