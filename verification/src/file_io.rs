//! The operations of the note stack, each from the text of the backing file
//! to what is to be shown, copied or written.
//!
//! Every operation but `clear_all_entries` reads the whole file first and
//! fails on the first line that is no record. Whoever calls reads the file
//! before and writes the new text after.
//!
//! Of a range, `Top(n)` names the `n` records added last, newest first, and
//! `Tail(n)` the `n` records added first, oldest first. A count above the
//! number of records names them all.

use vstd::prelude::*;
use crate::entries::{
    comment_text, is_numbered, lines_of, records_of, render, renumbered, least, Entries,
    CAPACITY,
};
use crate::entry::{
    decode_line, encode_line, is_faithful, lemma_decode_encode, lemma_decoded_is_faithful,
    DecodeFault, Entry, Record,
};
use crate::errors::{
    bounds_refusal, check_index_bounds, clipboard_refusal, decode_refusal, full_refusal,
    ClapIoError, Failure, Refusal,
};
use crate::lines::{get_lines_from_file, is_storable, lemma_split_join, split_lines, texts_of};
use crate::text::{decimal, is_digit, lemma_decimal_denotes};

verus! {

/// The records at one end of the store.
#[derive(Clone, Copy, Debug)]
pub enum Range<'a> {
    /// So many of the oldest records, oldest first.
    Tail(&'a u16),
    /// So many of the newest records, newest first.
    Top(&'a u16),
}

/// What an append did.
#[derive(Clone, Debug, PartialEq, Eq)]
pub struct Added {
    /// The index of the new record.
    pub index: u16,
    /// The text to write to the backing file.
    pub text: String,
}

/// What a delete did.
#[derive(Clone, Debug, PartialEq, Eq)]
pub struct Deleted {
    /// The record that was taken out.
    pub entry: Entry,
    /// The text to write to the backing file.
    pub text: String,
}

/// What a clear did.
#[derive(Clone, Debug, PartialEq, Eq)]
pub struct Cleared {
    /// How many records were taken out.
    pub removed: usize,
    /// The text to write to the backing file; none where the file was empty
    /// already and stays as it is.
    pub text: Option<String>,
}

/// Whether line `k` is the first of `lines` that is no record.
pub open spec fn is_first_bad(lines: Seq<Seq<char>>, k: int) -> bool {
    &&& 0 <= k < lines.len()
    &&& decode_line(lines[k]) is Err
    &&& forall|j: int| 0 <= j < k ==> decode_line(#[trigger] lines[j]) is Ok
}

/// Whether one of `lines` is no record.
pub open spec fn has_bad(lines: Seq<Seq<char>>) -> bool {
    exists|k: int| is_first_bad(lines, k)
}

/// The first of `lines` that is no record, where there is one.
pub open spec fn first_bad(lines: Seq<Seq<char>>) -> int {
    choose|k: int| is_first_bad(lines, k)
}

/// The records of `lines`, numbered by position whatever index each line
/// gives.
pub open spec fn decoded(lines: Seq<Seq<char>>) -> Seq<Record> {
    Seq::new(lines.len(), |k: int| Record { index: k as nat, ..decode_line(lines[k])->Ok_0 })
}

/// The store that the backing file's text holds: the failure of its first
/// malformed line; else that of a file with more lines than there are
/// indices; else its records.
pub open spec fn load(file: Seq<char>) -> Result<Seq<Record>, Refusal> {
    let lines = split_lines(file);
    if has_bad(lines) {
        Err(decode_refusal(decode_line(lines[first_bad(lines)])->Err_0))
    } else if lines.len() > CAPACITY {
        Err(full_refusal())
    } else {
        Ok(decoded(lines))
    }
}

/// The record at `index`, or the failure that names the index and the number
/// of records.
pub open spec fn found(records: Seq<Record>, index: nat) -> Result<Record, Refusal> {
    if index < records.len() {
        Ok(records[index as int])
    } else {
        Err(bounds_refusal(index, records.len()))
    }
}

/// How many records a count names in a store of `len`: the count, or all
/// where there are fewer.
pub open spec fn reach(count: nat, len: nat) -> nat {
    least(count as int, len as int) as nat
}

/// The `count` oldest records, oldest first.
pub open spec fn oldest(records: Seq<Record>, count: nat) -> Seq<Record> {
    records.take(reach(count, records.len()) as int)
}

/// The `count` newest records, newest first.
pub open spec fn newest(records: Seq<Record>, count: nat) -> Seq<Record> {
    Seq::new(reach(count, records.len()), |j: int| records[records.len() - 1 - j])
}

/// The store without its `count` oldest records, numbered anew.
pub open spec fn without_oldest(records: Seq<Record>, count: nat) -> Seq<Record> {
    renumbered(records.skip(reach(count, records.len()) as int))
}

/// The store without its `count` newest records.
pub open spec fn without_newest(records: Seq<Record>, count: nat) -> Seq<Record> {
    renumbered(records.take(records.len() - reach(count, records.len())))
}

/// How many records a range asks for.
pub open spec fn count_of(range: Range) -> nat {
    match range {
        Range::Tail(n) => *n as nat,
        Range::Top(n) => *n as nat,
    }
}

/// The records that a range names, in the order in which it names them.
pub open spec fn selected(records: Seq<Record>, range: Range) -> Seq<Record> {
    match range {
        Range::Tail(n) => oldest(records, *n as nat),
        Range::Top(n) => newest(records, *n as nat),
    }
}

/// The records that a range does not name, in stored order and numbered anew.
pub open spec fn remaining(records: Seq<Record>, range: Range) -> Seq<Record> {
    match range {
        Range::Tail(n) => without_oldest(records, *n as nat),
        Range::Top(n) => without_newest(records, *n as nat),
    }
}

/// The first malformed line is the only first one.
proof fn lemma_first_bad_is_unique(lines: Seq<Seq<char>>, i: int, j: int)
    requires
        is_first_bad(lines, i),
        is_first_bad(lines, j),
    ensures
        i == j,
{
    if i < j {
        assert(decode_line(lines[i]) is Ok);
    } else if j < i {
        assert(decode_line(lines[j]) is Ok);
    }
}

/// The empty file holds the empty store.
pub proof fn lemma_load_empty()
    ensures
        load(Seq::<char>::empty()) == Ok::<Seq<Record>, Refusal>(Seq::<Record>::empty()),
{
    let lines = split_lines(Seq::<char>::empty());
    assert(lines =~= Seq::<Seq<char>>::empty());
    assert(!has_bad(lines)) by {
        if has_bad(lines) {
            let k = first_bad(lines);
            assert(is_first_bad(lines, k));
        }
    }
    assert(decoded(lines) =~= Seq::<Record>::empty());
}

/// What a load gives is numbered by position.
pub proof fn lemma_load_is_numbered(file: Seq<char>)
    requires
        load(file) is Ok,
    ensures
        is_numbered(load(file)->Ok_0),
        load(file)->Ok_0.len() <= CAPACITY,
{
}

/// Reads the store from the text of the backing file.
pub fn get_entries_from_file(file: &str) -> (loaded: Result<Entries, ClapIoError>)
    ensures
        match load(file@) {
            Ok(records) => loaded is Ok && loaded->Ok_0.wf() && loaded->Ok_0@ == records,
            Err(refusal) => loaded is Err && loaded->Err_0@ == refusal,
        },
{
    let lines = get_lines_from_file(file);
    let ghost texts = split_lines(file@);
    let mut entries: Vec<Entry> = Vec::new();
    let mut i: usize = 0;
    while i < lines.len()
        invariant
            i <= lines.len(),
            texts_of(lines@) == texts,
            texts == split_lines(file@),
            entries.len() == i,
            forall|k: int|
                0 <= k < i ==> decode_line(#[trigger] texts[k]) == Ok::<Record, DecodeFault>(
                    entries@[k]@,
                ),
        decreases lines.len() - i,
    {
        assert(texts[i as int] == lines@[i as int]@);
        match Entry::from_str(lines[i].as_str()) {
            Ok(entry) => {
                entries.push(entry);
            },
            Err(fault) => {
                proof {
                    assert(is_first_bad(texts, i as int));
                    lemma_first_bad_is_unique(texts, i as int, first_bad(texts));
                }
                return Err(ClapIoError::malformed(fault));
            },
        }
        i += 1;
    }
    assert(!has_bad(texts)) by {
        if has_bad(texts) {
            let k = first_bad(texts);
            assert(is_first_bad(texts, k));
            assert(decode_line(texts[k]) is Ok);
        }
    }
    if entries.len() > CAPACITY {
        return Err(ClapIoError::full());
    }
    let ghost before = records_of(entries@);
    let store = Entries::from_entries(entries);
    assert(store@ =~= decoded(texts)) by {
        assert forall|k: int| 0 <= k < texts.len() implies store@[k] == decoded(texts)[k] by {
            assert(decode_line(texts[k]) == Ok::<Record, DecodeFault>(before[k]));
        }
    }
    Ok(store)
}

/// The text of the backing file that holds `entries`.
pub fn overwrite_entries_to_file(entries: Entries) -> (text: String)
    ensures
        text@ == render(entries@),
{
    entries.into_output_string()
}

/// Appends a record. Its index is the number of records before, and the new
/// file holds the old records and then the new one. A store that holds a
/// record for every index takes no more.
pub fn add_entry(file: &str, content: &str, comment: Option<&str>) -> (done: Result<
    Added,
    ClapIoError,
>)
    ensures
        match load(file@) {
            Err(refusal) => done is Err && done->Err_0@ == refusal,
            Ok(records) => if records.len() < CAPACITY {
                &&& done is Ok
                &&& done->Ok_0.index == records.len()
                &&& done->Ok_0.text@ == render(
                    records.push(
                        Record {
                            index: records.len(),
                            content: content@,
                            comment: comment_text(comment),
                        },
                    ),
                )
            } else {
                done is Err && done->Err_0@ == full_refusal()
            },
        },
{
    let mut entries = match get_entries_from_file(file) {
        Ok(entries) => entries,
        Err(error) => {
            return Err(error);
        },
    };
    if !entries.has_room() {
        proof {
            entries.lemma_bounded();
        }
        return Err(ClapIoError::full());
    }
    let index = entries.add_entry_from_str(content, comment);
    let text = overwrite_entries_to_file(entries);
    Ok(Added { index, text })
}

/// The records that `range` names, in the order in which it names them.
pub fn view_entries_from_end(file: &str, range: Range) -> (shown: Result<
    Vec<Entry>,
    ClapIoError,
>)
    ensures
        match load(file@) {
            Err(refusal) => shown is Err && shown->Err_0@ == refusal,
            Ok(records) => shown is Ok && records_of(shown->Ok_0@) == selected(records, range),
        },
{
    let entries = match get_entries_from_file(file) {
        Ok(entries) => entries,
        Err(error) => {
            return Err(error);
        },
    };
    let len = entries.0.len();
    let mut shown: Vec<Entry> = Vec::new();
    match range {
        Range::Tail(num) => {
            let count = if (*num as usize) < len {
                *num as usize
            } else {
                len
            };
            let mut j: usize = 0;
            while j < count
                invariant
                    j <= count <= len,
                    len == entries.0.len(),
                    shown.len() == j,
                    forall|k: int| 0 <= k < j ==> (#[trigger] shown@[k])@ == entries@[k],
                decreases count - j,
            {
                shown.push(entries.0[j].duplicate());
                j += 1;
            }
            assert(records_of(shown@) =~= selected(entries@, range));
        },
        Range::Top(num) => {
            let count = if (*num as usize) < len {
                *num as usize
            } else {
                len
            };
            let mut j: usize = 0;
            while j < count
                invariant
                    j <= count <= len,
                    len == entries.0.len(),
                    shown.len() == j,
                    forall|k: int|
                        0 <= k < j ==> (#[trigger] shown@[k])@ == entries@[len - 1 - k],
                decreases count - j,
            {
                shown.push(entries.0[len - 1 - j].duplicate());
                j += 1;
            }
            assert(records_of(shown@) =~= selected(entries@, range));
        },
    }
    Ok(shown)
}

/// All records, in stored order.
pub fn view_all_entries(file: &str) -> (shown: Result<Vec<Entry>, ClapIoError>)
    ensures
        match load(file@) {
            Err(refusal) => shown is Err && shown->Err_0@ == refusal,
            Ok(records) => shown is Ok && records_of(shown->Ok_0@) == records,
        },
{
    match get_entries_from_file(file) {
        Ok(entries) => Ok(entries.0),
        Err(error) => Err(error),
    }
}

/// The record at `index`; the index is refused if and only if it is not
/// below the number of records.
pub fn find_entry_by_index(file: &str, index: &u16) -> (looked: Result<Entry, ClapIoError>)
    ensures
        match load(file@) {
            Err(refusal) => looked is Err && looked->Err_0@ == refusal,
            Ok(records) => match found(records, *index as nat) {
                Ok(record) => looked is Ok && looked->Ok_0@ == record,
                Err(refusal) => looked is Err && looked->Err_0@ == refusal,
            },
        },
{
    let entries = match get_entries_from_file(file) {
        Ok(entries) => entries,
        Err(error) => {
            return Err(error);
        },
    };
    match check_index_bounds(index, entries.0.len()) {
        Ok(_) => {},
        Err(desc) => {
            return Err(ClapIoError::out_of_range(desc));
        },
    }
    Ok(entries.0[*index as usize].duplicate())
}

/// The record to show for `index`.
pub fn view_entry_by_index(file: &str, index: &u16) -> (shown: Result<Entry, ClapIoError>)
    ensures
        match load(file@) {
            Err(refusal) => shown is Err && shown->Err_0@ == refusal,
            Ok(records) => match found(records, *index as nat) {
                Ok(record) => shown is Ok && shown->Ok_0@ == record && record.index == *index,
                Err(refusal) => shown is Err && shown->Err_0@ == refusal,
            },
        },
{
    find_entry_by_index(file, index)
}

/// The record whose content goes to the clipboard. The store stays as it is.
pub fn yank_note(file: &str, index: &u16) -> (copied: Result<Entry, ClapIoError>)
    ensures
        match load(file@) {
            Err(refusal) => copied is Err && copied->Err_0@ == refusal,
            Ok(records) => match found(records, *index as nat) {
                Ok(record) => copied is Ok && copied->Ok_0@ == record,
                Err(refusal) => copied is Err && copied->Err_0@ == refusal,
            },
        },
{
    find_entry_by_index(file, index)
}

/// Takes the record at `index` out. The records behind it move down by one
/// position, and the new file holds the records numbered anew.
pub fn delete_entry_from_file_by_index(file: &str, index: &u16) -> (done: Result<
    Deleted,
    ClapIoError,
>)
    ensures
        match load(file@) {
            Err(refusal) => done is Err && done->Err_0@ == refusal,
            Ok(records) => match found(records, *index as nat) {
                Ok(record) => {
                    &&& done is Ok
                    &&& done->Ok_0.entry@ == record
                    &&& done->Ok_0.text@ == render(renumbered(records.remove(*index as int)))
                },
                Err(refusal) => done is Err && done->Err_0@ == refusal,
            },
        },
{
    let mut entries = match get_entries_from_file(file) {
        Ok(entries) => entries,
        Err(error) => {
            return Err(error);
        },
    };
    match check_index_bounds(index, entries.0.len()) {
        Ok(_) => {},
        Err(desc) => {
            return Err(ClapIoError::out_of_range(desc));
        },
    }
    let entry = entries.remove_entry_at_index(index);
    let text = overwrite_entries_to_file(entries);
    Ok(Deleted { entry, text })
}

/// What the file holds after a pop: nothing new before the record is found
/// and the clipboard has taken its content; then what a delete leaves.
pub open spec fn popped(records: Seq<Record>, index: nat, sink: Result<(), Seq<char>>) -> Result<
    (Record, Seq<Record>),
    Refusal,
> {
    match found(records, index) {
        Err(refusal) => Err(refusal),
        Ok(record) => match sink {
            Err(reason) => Err(clipboard_refusal(reason)),
            Ok(_) => Ok((record, renumbered(records.remove(index as int)))),
        },
    }
}

/// What the clipboard answered, as text.
pub open spec fn sink_text(sink: &Result<(), String>) -> Result<(), Seq<char>> {
    match sink {
        Ok(_) => Ok(()),
        Err(reason) => Err(reason@),
    }
}

/// The second half of a pop. `sink` is what the clipboard answered when it
/// was handed the content that `yank_note` gave for this file and index. If
/// the clipboard failed, nothing is deleted and there is no text to write.
pub fn handle_pop_entry(file: &str, index: &u16, sink: &Result<(), String>) -> (done: Result<
    Deleted,
    ClapIoError,
>)
    ensures
        match load(file@) {
            Err(refusal) => done is Err && done->Err_0@ == refusal,
            Ok(records) => match popped(records, *index as nat, sink_text(sink)) {
                Ok((record, rest)) => {
                    &&& done is Ok
                    &&& done->Ok_0.entry@ == record
                    &&& done->Ok_0.text@ == render(rest)
                },
                Err(refusal) => done is Err && done->Err_0@ == refusal,
            },
        },
{
    match yank_note(file, index) {
        Ok(_) => {},
        Err(error) => {
            return Err(error);
        },
    }
    match sink {
        Ok(_) => delete_entry_from_file_by_index(file, index),
        Err(reason) => Err(ClapIoError::clipboard(reason.as_str())),
    }
}

/// Empties the store, whatever the file holds: a file with a malformed line
/// is emptied like any other. Reports how many lines the file had; where it
/// had none it is left as it is. The file afterwards holds the empty store.
pub fn clear_all_entries(file: &str) -> (done: Cleared)
    ensures
        done.removed == split_lines(file@).len(),
        load(file@) is Ok ==> done.removed == load(file@)->Ok_0.len(),
        match done.text {
            None => file@.len() == 0,
            Some(text) => file@.len() > 0 && text@ == Seq::<char>::empty(),
        },
        load(file_after(file@, done)) == Ok::<Seq<Record>, Refusal>(Seq::<Record>::empty()),
{
    let lines = get_lines_from_file(file);
    let removed = lines.len();
    proof {
        lemma_load_empty();
        assert(texts_of(lines@).len() == lines@.len());
    }
    if removed == 0 {
        proof {
            if file@.len() > 0 {
                assert(split_lines(file@).len() > 0);
            }
            assert(file@ =~= Seq::<char>::empty());
        }
        Cleared { removed, text: None }
    } else {
        let text = String::new();
        assert(text@ =~= Seq::<char>::empty());
        Cleared { removed, text: Some(text) }
    }
}

/// What the file holds once `done` has been carried out.
pub open spec fn file_after(file: Seq<char>, done: Cleared) -> Seq<char> {
    match done.text {
        Some(text) => text@,
        None => file,
    }
}

/// Takes the records that `range` names out, numbers the others anew and
/// reports how many it took. An empty store is left as it is.
pub fn clear_from_end(file: &str, range: Range) -> (done: Result<Cleared, ClapIoError>)
    ensures
        match load(file@) {
            Err(refusal) => done is Err && done->Err_0@ == refusal,
            Ok(records) => {
                &&& done is Ok
                &&& done->Ok_0.removed == reach(count_of(range), records.len())
                &&& match done->Ok_0.text {
                    None => records.len() == 0,
                    Some(text) => records.len() > 0 && text@ == render(remaining(records, range)),
                }
            },
        },
{
    let mut entries = match get_entries_from_file(file) {
        Ok(entries) => entries,
        Err(error) => {
            return Err(error);
        },
    };
    if entries.0.len() == 0 {
        return Ok(Cleared { removed: 0, text: None });
    }
    let removed = match range {
        Range::Tail(num) => entries.remove_oldest(*num as usize),
        Range::Top(num) => entries.remove_newest(*num as usize),
    };
    let text = overwrite_entries_to_file(entries);
    Ok(Cleared { removed, text: Some(text) })
}

/// Whether `s` holds neither a line feed nor a carriage return.
pub open spec fn is_one_line(s: Seq<char>) -> bool {
    forall|i: int| 0 <= i < s.len() ==> s[i] != '\n' && s[i] != '\r'
}

/// Whether a record can stand in the file and come back from it: it is
/// faithful to its line, and neither its content nor its comment breaks the
/// line.
pub open spec fn is_keepable(record: Record) -> bool {
    &&& is_faithful(record)
    &&& is_one_line(record.content)
    &&& match record.comment {
        Some(c) => is_one_line(c),
        None => true,
    }
}

/// The line of a keepable record is storable.
pub proof fn lemma_line_is_storable(record: Record)
    requires
        is_keepable(record),
    ensures
        is_storable(encode_line(record)),
{
    let token = decimal(record.index);
    let line = encode_line(record);
    lemma_decimal_denotes(record.index);
    let a = token.len() as int;
    let b = a + 1 + record.content.len();
    assert(line.len() > 0);
    assert forall|i: int| 0 <= i < line.len() implies line[i] != '\n' && line[i] != '\r' by {
        if i < a {
            assert(line[i] == token[i]);
            assert(is_digit(token[i]));
        } else if i == a {
            assert(line[i] == '|');
        } else if i < b {
            assert(line[i] == record.content[i - a - 1]);
        } else {
            match record.comment {
                Some(c) => {
                    if i == b {
                        assert(line[i] == '?');
                    } else if i == b + 1 {
                        assert(line[i] == '?');
                    } else {
                        assert(line[i] == c[i - b - 2]);
                    }
                },
                None => {},
            }
        }
    }
}

/// Reading undoes writing: the text written for numbered, keepable records
/// holds exactly those records.
pub proof fn lemma_load_render(records: Seq<Record>)
    requires
        is_numbered(records),
        forall|k: int| 0 <= k < records.len() ==> is_keepable(#[trigger] records[k]),
    ensures
        load(render(records)) == Ok::<Seq<Record>, Refusal>(records),
{
    let lines = lines_of(records);
    assert forall|k: int| 0 <= k < lines.len() implies is_storable(#[trigger] lines[k]) by {
        assert(is_keepable(records[k]));
        lemma_line_is_storable(records[k]);
    }
    lemma_split_join(lines);
    assert forall|k: int| 0 <= k < lines.len() implies decode_line(#[trigger] lines[k]) == Ok::<
        Record,
        DecodeFault,
    >(records[k]) by {
        assert(is_keepable(records[k]));
        lemma_decode_encode(records[k]);
    }
    assert(!has_bad(lines)) by {
        if has_bad(lines) {
            let k = first_bad(lines);
            assert(is_first_bad(lines, k));
            assert(decode_line(lines[k]) is Ok);
        }
    }
    if records.len() > 0 {
        let last = records.len() - 1;
        assert(is_keepable(records[last]));
        assert(records[last].index == last);
    }
    assert(decoded(lines) =~= records) by {
        assert forall|k: int| 0 <= k < records.len() implies decoded(lines)[k] == records[k] by {
            assert(decode_line(lines[k]) == Ok::<Record, DecodeFault>(records[k]));
            assert(records[k].index == k);
        }
    }
}

/// A lookup fails if and only if the index is not below the number of
/// records, and a lookup that succeeds gives the record whose index is the
/// one asked for.
pub proof fn lemma_found(records: Seq<Record>, index: nat)
    requires
        is_numbered(records),
    ensures
        found(records, index) is Err <==> index >= records.len(),
        found(records, index) is Err ==> found(records, index)->Err_0.kind
            == Failure::IndexOutOfRange,
        found(records, index) is Ok ==> found(records, index)->Ok_0.index == index,
{
}

/// After a delete the records are numbered without gap or duplicate: those
/// before the deleted one are as they were, and each one behind it has moved
/// down by one position and so has its index.
pub proof fn lemma_delete_renumbers(records: Seq<Record>, index: int)
    requires
        is_numbered(records),
        0 <= index < records.len(),
    ensures
        is_numbered(renumbered(records.remove(index))),
        renumbered(records.remove(index)).len() == records.len() - 1,
        forall|k: int| 0 <= k < index ==> #[trigger] renumbered(records.remove(index))[k] == records[k],
        forall|k: int|
            index <= k < records.len() - 1 ==> {
                &&& (#[trigger] renumbered(records.remove(index))[k]).index == records[k + 1].index - 1
                &&& renumbered(records.remove(index))[k].content == records[k + 1].content
                &&& renumbered(records.remove(index))[k].comment == records[k + 1].comment
            },
{
}

/// After a clear the records are numbered without gap or duplicate, and they
/// are the records that the range did not name, in the order they had: with
/// the oldest gone each has moved down by as many positions as were taken,
/// with the newest gone each is where it was.
pub proof fn lemma_clear_renumbers(records: Seq<Record>, count: nat)
    requires
        is_numbered(records),
    ensures
        is_numbered(without_oldest(records, count)),
        is_numbered(without_newest(records, count)),
        without_oldest(records, count).len() == records.len() - reach(count, records.len()),
        without_newest(records, count).len() == records.len() - reach(count, records.len()),
        forall|k: int|
            0 <= k < records.len() - reach(count, records.len()) ==> {
                &&& (#[trigger] without_oldest(records, count)[k]).content == records[k + reach(
                    count,
                    records.len(),
                )].content
                &&& without_oldest(records, count)[k].comment == records[k + reach(
                    count,
                    records.len(),
                )].comment
            },
        forall|k: int|
            0 <= k < records.len() - reach(count, records.len()) ==> #[trigger] without_newest(
                records,
                count,
            )[k] == records[k],
{
}

/// A pop succeeds only where the clipboard took the content of the record at
/// the index: it then removes exactly that record and leaves the others
/// numbered anew. Where the record is missing or the clipboard failed, the
/// pop fails and names no new store.
pub proof fn lemma_pop(records: Seq<Record>, index: nat, sink: Result<(), Seq<char>>)
    requires
        is_numbered(records),
    ensures
        popped(records, index, sink) is Ok <==> index < records.len() && sink is Ok,
        popped(records, index, sink) is Ok ==> {
            &&& found(records, index) == Ok::<Record, Refusal>(popped(records, index, sink)->Ok_0.0)
            &&& popped(records, index, sink)->Ok_0.1 == renumbered(records.remove(index as int))
            &&& popped(records, index, sink)->Ok_0.1.len() == records.len() - 1
            &&& is_numbered(popped(records, index, sink)->Ok_0.1)
        },
        index < records.len() && sink is Err ==> popped(records, index, sink) == Err::<
            (Record, Seq<Record>),
            Refusal,
        >(clipboard_refusal(sink->Err_0)),
{
}

/// What a load gives is faithful: written again and read again, it is the
/// same.
pub proof fn lemma_loaded_is_faithful(file: Seq<char>)
    requires
        load(file) is Ok,
    ensures
        forall|k: int|
            0 <= k < load(file)->Ok_0.len() ==> is_faithful(#[trigger] load(file)->Ok_0[k]),
{
    let lines = split_lines(file);
    let records = load(file)->Ok_0;
    assert forall|k: int| 0 <= k < records.len() implies is_faithful(#[trigger] records[k]) by {
        if decode_line(lines[k]) is Err {
            lemma_bad_has_first(lines, k);
        }
        lemma_decoded_is_faithful(lines[k]);
    }
}

/// Where a line is no record, some line is the first that is none.
pub proof fn lemma_bad_has_first(lines: Seq<Seq<char>>, k: int)
    requires
        0 <= k < lines.len(),
        decode_line(lines[k]) is Err,
    ensures
        has_bad(lines),
    decreases k,
{
    if forall|j: int| 0 <= j < k ==> decode_line(#[trigger] lines[j]) is Ok {
        assert(is_first_bad(lines, k));
    } else {
        let j = choose|j: int| 0 <= j < k && !(decode_line(#[trigger] lines[j]) is Ok);
        lemma_bad_has_first(lines, j);
    }
}

} // verus!
