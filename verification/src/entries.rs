//! The ordered sequence of records, oldest first, numbered by position.
//!
//! The index of a record is no identity of its own: it is the record's
//! position in the sequence, and every operation that moves records assigns
//! the indices anew.

use vstd::prelude::*;
use vstd::string::StringExecFns;
use crate::entry::{encode_line, Entry, Record};
use crate::lines::{join_lines, lemma_join_push};

verus! {

/// The most records that a store can hold: one for each index.
pub const CAPACITY: usize = 65536;

/// The records in memory.
#[derive(Clone, Debug, PartialEq, Eq)]
pub struct Entries(pub Vec<Entry>);

/// What each entry of `entries` holds.
pub open spec fn records_of(entries: Seq<Entry>) -> Seq<Record> {
    Seq::new(entries.len(), |k: int| entries[k]@)
}

/// Whether every record carries its position as its index.
pub open spec fn is_numbered(records: Seq<Record>) -> bool {
    forall|k: int| 0 <= k < records.len() ==> (#[trigger] records[k]).index == k
}

/// The same records, each with its position as its index.
pub open spec fn renumbered(records: Seq<Record>) -> Seq<Record> {
    Seq::new(records.len(), |k: int| Record { index: k as nat, ..records[k] })
}

/// The text of a comment, where there is one.
pub open spec fn comment_text(comment: Option<&str>) -> Option<Seq<char>> {
    match comment {
        Some(c) => Some(c@),
        None => None,
    }
}

/// The lines of the records.
pub open spec fn lines_of(records: Seq<Record>) -> Seq<Seq<char>> {
    Seq::new(records.len(), |k: int| encode_line(records[k]))
}

/// The text of the backing file that holds `records`.
pub open spec fn render(records: Seq<Record>) -> Seq<char> {
    join_lines(lines_of(records))
}

impl View for Entries {
    type V = Seq<Record>;

    open spec fn view(&self) -> Seq<Record> {
        records_of(self.0@)
    }
}

/// Renumbering leaves no gap and no duplicate, and changes nothing but the
/// indices.
pub proof fn lemma_renumbered(records: Seq<Record>)
    ensures
        is_numbered(renumbered(records)),
        renumbered(records).len() == records.len(),
        forall|k: int|
            0 <= k < records.len() ==> (#[trigger] renumbered(records)[k]).content
                == records[k].content && renumbered(records)[k].comment == records[k].comment,
{
}

/// Numbered records are their own renumbering.
pub proof fn lemma_numbered_is_fixed(records: Seq<Record>)
    requires
        is_numbered(records),
    ensures
        renumbered(records) == records,
{
    assert(renumbered(records) =~= records);
}

/// Assigns every entry its position as its index.
fn renumber(entries: &mut Vec<Entry>)
    requires
        old(entries).len() <= CAPACITY,
    ensures
        records_of(final(entries)@) == renumbered(records_of(old(entries)@)),
{
    let mut i: usize = 0;
    while i < entries.len()
        invariant
            i <= entries.len(),
            entries.len() == old(entries).len(),
            entries.len() <= CAPACITY,
            forall|k: int|
                0 <= k < i ==> (#[trigger] entries@[k])@ == (Record {
                    index: k as nat,
                    ..old(entries)@[k]@
                }),
            forall|k: int| i <= k < entries.len() ==> #[trigger] entries@[k] == old(entries)@[k],
        decreases entries.len() - i,
    {
        entries[i].index = i as u16;
        i += 1;
    }
    assert(records_of(entries@) =~= renumbered(records_of(old(entries)@)));
}

impl Entries {
    /// Whether the records are numbered by position, which every operation
    /// keeps.
    pub open spec fn wf(&self) -> bool {
        is_numbered(self@)
    }

    /// A numbered sequence has no more records than there are indices.
    pub proof fn lemma_bounded(&self)
        requires
            self.wf(),
        ensures
            self@.len() <= CAPACITY,
            self.0.len() == self@.len(),
    {
        if self.0.len() > 0 {
            let last = self.0.len() - 1;
            assert(self@[last].index == last);
            assert(self@[last] == self.0@[last]@);
        }
    }

    /// The store that holds `entries` in this order, numbered anew.
    pub fn from_entries(entries: Vec<Entry>) -> (store: Entries)
        requires
            entries.len() <= CAPACITY,
        ensures
            store.wf(),
            store@ == renumbered(records_of(entries@)),
    {
        let mut entries = entries;
        renumber(&mut entries);
        Entries(entries)
    }

    /// The store without records.
    pub fn empty() -> (store: Entries)
        ensures
            store.wf(),
            store@ == Seq::<Record>::empty(),
    {
        let store = Entries(Vec::new());
        assert(store@ =~= Seq::<Record>::empty());
        store
    }

    /// The number of records.
    pub fn len(&self) -> (n: usize)
        ensures
            n == self@.len(),
    {
        self.0.len()
    }

    /// Whether the store could take one more record.
    pub fn has_room(&self) -> (room: bool)
        ensures
            room == (self@.len() < CAPACITY),
    {
        self.0.len() < CAPACITY
    }

    /// Puts a new record at the end. Its index is the number of records
    /// before, and that index is returned.
    pub fn add_entry_from_str(&mut self, entry_text: &str, comment: Option<&str>) -> (index: u16)
        requires
            old(self).wf(),
            old(self)@.len() < CAPACITY,
        ensures
            final(self).wf(),
            index == old(self)@.len(),
            final(self)@ == old(self)@.push(
                Record {
                    index: old(self)@.len(),
                    content: entry_text@,
                    comment: comment_text(comment),
                },
            ),
    {
        let index = self.0.len() as u16;
        let entry = Entry {
            index,
            content: entry_text.to_owned(),
            comment: match comment {
                Some(c) => Some(c.to_owned()),
                None => None,
            },
        };
        self.0.push(entry);
        assert(self@ =~= old(self)@.push(
            Record {
                index: old(self)@.len(),
                content: entry_text@,
                comment: comment_text(comment),
            },
        ));
        index
    }

    /// Takes the record at `index` out and numbers those behind it anew: each
    /// moves down by one position, and so does its index.
    pub fn remove_entry_at_index(&mut self, index: &u16) -> (removed: Entry)
        requires
            old(self).wf(),
            *index < old(self)@.len(),
        ensures
            final(self).wf(),
            removed@ == old(self)@[*index as int],
            final(self)@ == renumbered(old(self)@.remove(*index as int)),
    {
        proof {
            old(self).lemma_bounded();
        }
        let removed = self.0.remove(*index as usize);
        let ghost rest = self.0@;
        assert(records_of(rest) =~= old(self)@.remove(*index as int));
        renumber(&mut self.0);
        removed
    }

    /// Takes the `count` oldest records out, or all where there are fewer,
    /// and numbers the others anew. Returns how many it took.
    pub fn remove_oldest(&mut self, count: usize) -> (taken: usize)
        requires
            old(self).wf(),
        ensures
            final(self).wf(),
            taken == least(count as int, old(self)@.len() as int),
            final(self)@ == renumbered(old(self)@.skip(taken as int)),
    {
        proof {
            old(self).lemma_bounded();
        }
        let taken = if count < self.0.len() {
            count
        } else {
            self.0.len()
        };
        let mut rest = self.0.split_off(taken);
        assert(records_of(rest@) =~= old(self)@.skip(taken as int));
        renumber(&mut rest);
        self.0 = rest;
        taken
    }

    /// Takes the `count` newest records out, or all where there are fewer.
    /// The others keep their positions. Returns how many it took.
    pub fn remove_newest(&mut self, count: usize) -> (taken: usize)
        requires
            old(self).wf(),
        ensures
            final(self).wf(),
            taken == least(count as int, old(self)@.len() as int),
            final(self)@ == old(self)@.take(old(self)@.len() - taken),
            final(self)@ == renumbered(old(self)@.take(old(self)@.len() - taken)),
    {
        let taken = if count < self.0.len() {
            count
        } else {
            self.0.len()
        };
        let keep = self.0.len() - taken;
        self.0.truncate(keep);
        assert(self@ =~= old(self)@.take(old(self)@.len() - taken));
        assert forall|k: int| 0 <= k < self@.len() implies (#[trigger] self@[k]).index == k by {
            assert(self@[k] == old(self)@[k]);
        }
        proof {
            lemma_numbered_is_fixed(self@);
        }
        taken
    }

    /// The text of the backing file that holds these records: their lines,
    /// a line feed between each two.
    pub fn into_output_string(self) -> (text: String)
        ensures
            text@ == render(self@),
    {
        let mut text = String::new();
        let ghost lines = lines_of(self@);
        let mut i: usize = 0;
        assert(lines.take(0) =~= Seq::<Seq<char>>::empty());
        while i < self.0.len()
            invariant
                i <= self.0.len(),
                lines == lines_of(self@),
                lines.len() == self.0.len(),
                text@ == join_lines(lines.take(i as int)),
            decreases self.0.len() - i,
        {
            if i > 0 {
                text.push('\n');
            }
            let line = self.0[i].output_string();
            text.append(line.as_str());
            proof {
                assert(line@ == lines[i as int]);
                lemma_join_push(lines.take(i as int), lines[i as int]);
                assert(lines.take(i + 1) =~= lines.take(i as int).push(lines[i as int]));
            }
            i += 1;
        }
        assert(lines.take(i as int) =~= lines);
        text
    }
}

/// The smaller of two numbers.
pub open spec fn least(a: int, b: int) -> int {
    if a < b {
        a
    } else {
        b
    }
}

} // verus!
