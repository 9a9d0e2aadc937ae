//! The backing file as text: how it falls into lines, and how lines are put
//! together again.
//!
//! A line ends at a line feed; a carriage return right before that line feed
//! belongs to the line ending. The last line needs no line ending, and an
//! empty file holds no line.

use vstd::prelude::*;
use crate::text::{
    chars_of, find_char, first_of, is_first, lemma_absent, lemma_first_is_unique, occurs,
    string_of,
};

verus! {

/// A line without the carriage return at its end, if it has one.
pub open spec fn strip_return(line: Seq<char>) -> Seq<char> {
    if line.len() > 0 && line.last() == '\r' {
        line.drop_last()
    } else {
        line
    }
}

/// The lines of `text`.
pub open spec fn split_lines(text: Seq<char>) -> Seq<Seq<char>>
    decreases text.len(),
{
    if text.len() == 0 {
        Seq::empty()
    } else if !occurs(text, '\n') {
        seq![text]
    } else {
        seq![strip_return(text.take(first_of(text, '\n')))] + split_lines(
            text.skip(first_of(text, '\n') + 1),
        )
    }
}

/// The text that holds `lines`, a line feed between each two.
pub open spec fn join_lines(lines: Seq<Seq<char>>) -> Seq<char>
    decreases lines.len(),
{
    if lines.len() == 0 {
        Seq::empty()
    } else if lines.len() == 1 {
        lines[0]
    } else {
        lines[0] + seq!['\n'] + join_lines(lines.drop_first())
    }
}

/// What each string of `lines` holds.
pub open spec fn texts_of(lines: Seq<String>) -> Seq<Seq<char>> {
    Seq::new(lines.len(), |k: int| lines[k]@)
}

/// A line that can stand in the file and come back from it: it is not empty,
/// holds no line feed and does not end in a carriage return.
pub open spec fn is_storable(line: Seq<char>) -> bool {
    &&& line.len() > 0
    &&& forall|i: int| 0 <= i < line.len() ==> line[i] != '\n'
    &&& line.last() != '\r'
}

/// Joining one more line puts a line feed and the line at the end.
pub proof fn lemma_join_push(lines: Seq<Seq<char>>, line: Seq<char>)
    ensures
        join_lines(lines.push(line)) == if lines.len() == 0 {
            line
        } else {
            join_lines(lines) + seq!['\n'] + line
        },
    decreases lines.len(),
{
    let all = lines.push(line);
    if lines.len() == 0 {
        assert(all[0] == line);
    } else {
        let rest = lines.drop_first();
        assert(all.drop_first() =~= rest.push(line));
        lemma_join_push(rest, line);
        if rest.len() == 0 {
            assert(join_lines(all) =~= join_lines(lines) + seq!['\n'] + line);
        } else {
            assert(join_lines(all) =~= join_lines(lines) + seq!['\n'] + line);
        }
    }
}

/// Text with its first line feed at `at` falls into the line before it and
/// the lines of what follows.
pub proof fn lemma_split_at_feed(text: Seq<char>, at: int)
    requires
        is_first(text, '\n', at),
    ensures
        split_lines(text) == seq![strip_return(text.take(at))] + split_lines(text.skip(at + 1)),
{
    assert(occurs(text, '\n'));
    lemma_first_is_unique(text, '\n', at, first_of(text, '\n'));
}

/// Splitting undoes joining: storable lines come back from their text as
/// they went in.
pub proof fn lemma_split_join(lines: Seq<Seq<char>>)
    requires
        forall|k: int| 0 <= k < lines.len() ==> is_storable(#[trigger] lines[k]),
    ensures
        split_lines(join_lines(lines)) == lines,
    decreases lines.len(),
{
    let text = join_lines(lines);
    if lines.len() == 0 {
        assert(split_lines(text) =~= lines);
    } else if lines.len() == 1 {
        assert(is_storable(lines[0]));
        lemma_absent(text, '\n');
        assert(split_lines(text) =~= lines);
    } else {
        let head = lines[0];
        let rest = lines.drop_first();
        assert(is_storable(head));
        assert forall|k: int| 0 <= k < rest.len() implies is_storable(#[trigger] rest[k]) by {
            assert(rest[k] == lines[k + 1]);
        }
        lemma_split_join(rest);
        let at = head.len() as int;
        assert(is_first(text, '\n', at)) by {
            assert(text[at] == '\n');
            assert forall|j: int| 0 <= j < at implies text[j] != '\n' by {
                assert(text[j] == head[j]);
            }
        }
        lemma_split_at_feed(text, at);
        assert(text.take(at) =~= head);
        assert(text.skip(at + 1) =~= join_lines(rest));
        assert(split_lines(text) =~= lines);
    }
}

/// The lines of the backing file's text.
pub fn get_lines_from_file(text: &str) -> (lines: Vec<String>)
    ensures
        texts_of(lines@) == split_lines(text@),
{
    let chars = chars_of(text);
    let mut lines: Vec<String> = Vec::new();
    let mut start: usize = 0;
    assert(chars@.skip(0) =~= chars@);
    assert(texts_of(lines@) + split_lines(chars@) =~= split_lines(chars@));
    while start < chars.len()
        invariant
            start <= chars.len(),
            split_lines(chars@) == texts_of(lines@) + split_lines(chars@.skip(start as int)),
        decreases chars.len() - start,
    {
        let ghost rest = chars@.skip(start as int);
        let ghost before = texts_of(lines@);
        match find_char(&chars, start, '\n') {
            Some(at) => {
                let end = start + at;
                let stop = if end > start && chars[end - 1] == '\r' {
                    end - 1
                } else {
                    end
                };
                let line = string_of(&chars, start, stop);
                proof {
                    lemma_split_at_feed(rest, at as int);
                    assert(rest.take(at as int) =~= chars@.subrange(start as int, end as int));
                    assert(rest.skip(at + 1) =~= chars@.skip(end + 1));
                    assert(line@ =~= strip_return(rest.take(at as int)));
                }
                lines.push(line);
                assert(texts_of(lines@) =~= before.push(line@));
                assert(split_lines(chars@) =~= texts_of(lines@) + split_lines(
                    chars@.skip(end + 1),
                ));
                start = end + 1;
            },
            None => {
                let line = string_of(&chars, start, chars.len());
                assert(line@ =~= rest);
                lines.push(line);
                assert(texts_of(lines@) =~= before.push(rest));
                assert(split_lines(chars@.skip(chars.len() as int)) =~= Seq::<
                    Seq<char>,
                >::empty());
                assert(split_lines(chars@) =~= texts_of(lines@) + split_lines(
                    chars@.skip(chars.len() as int),
                ));
                start = chars.len();
            },
        }
    }
    assert(split_lines(chars@.skip(start as int)) =~= Seq::<Seq<char>>::empty());
    assert(texts_of(lines@) + Seq::<Seq<char>>::empty() =~= texts_of(lines@));
    lines
}

} // verus!
