//! The commands of the note stack: what each one shows, and what it leaves
//! to write.
//!
//! A command takes the text of the backing file and its arguments, and gives
//! a report: the lines to show and, where the store changed, the new text of
//! the file. The commands that copy to the clipboard also take what the
//! clipboard answered.

use vstd::prelude::*;
use vstd::string::StringExecFns;
use crate::entries::{comment_text, records_of, render, renumbered, CAPACITY};
use crate::entry::{display_line, Entry, Record};
use crate::errors::{clipboard_refusal, full_refusal, ClapIoError, Refusal};
use crate::file_io::{
    add_entry, clear_all_entries, clear_from_end, delete_entry_from_file_by_index, found,
    handle_pop_entry, load, newest, oldest, popped, reach, sink_text, view_all_entries,
    view_entries_from_end, view_entry_by_index, without_newest, without_oldest, yank_note, Range,
};
use crate::lines::{split_lines, texts_of};
use crate::text::{decimal, push_decimal};

verus! {

/// An optional count or index, as the command line gives it.
pub type OptionNum<'a> = &'a Option<u16>;

/// What a command did.
#[derive(Clone, Debug, PartialEq, Eq)]
pub struct Report {
    /// The lines to show, in order.
    pub lines: Vec<String>,
    /// The text to write to the backing file, where the store changed.
    pub rewrite: Option<String>,
}

/// What a command gives: its report, or why it failed.
pub type HandleResult = Result<Report, ClapIoError>;

/// What a report holds.
pub struct Outcome {
    pub lines: Seq<Seq<char>>,
    pub rewrite: Option<Seq<char>>,
}

impl View for Report {
    type V = Outcome;

    open spec fn view(&self) -> Outcome {
        Outcome {
            lines: texts_of(self.lines@),
            rewrite: match self.rewrite {
                Some(text) => Some(text@),
                None => None,
            },
        }
    }
}

/// Whether a command's result is the one that `model` names.
pub open spec fn agrees(done: HandleResult, model: Result<Outcome, Refusal>) -> bool {
    match model {
        Ok(outcome) => done is Ok && done->Ok_0@ == outcome,
        Err(refusal) => done is Err && done->Err_0@ == refusal,
    }
}

/// The number of notes that a view without a range shows.
pub const DEFAULT_VIEW: u16 = 10;

/// The line that tells of an empty store.
pub open spec fn no_notes_text() -> Seq<char> {
    "(no notes to view! add one first with \"post\")"@
}

/// The line that confirms an append; it counts the records after it.
pub open spec fn added_text(count: nat) -> Seq<char> {
    "added note to position \""@ + decimal(count) + "\""@
}

/// The line that confirms a delete.
pub open spec fn deleted_text(index: nat) -> Seq<char> {
    "deleted entry at index "@ + decimal(index)
}

/// The line that confirms a copy to the clipboard.
pub open spec fn yanked_text(index: nat) -> Seq<char> {
    "yanked entry at index "@ + decimal(index)
}

/// The line that confirms a clear.
pub open spec fn cleared_text(count: nat) -> Seq<char> {
    "cleared "@ + decimal(count) + " notes"@
}

/// The records as lines to show: the content alone where `plain` is set.
pub open spec fn shown(records: Seq<Record>, plain: bool) -> Seq<Seq<char>> {
    Seq::new(
        records.len(),
        |k: int|
            if plain {
                records[k].content
            } else {
                display_line(records[k])
            },
    )
}

/// The records that a view names. `all` goes before `top`, `top` before
/// `tail`, `tail` before `index`; without any of them the view is of the
/// newest ten.
pub open spec fn chosen(
    records: Seq<Record>,
    top: Option<u16>,
    tail: Option<u16>,
    index: Option<u16>,
    all: bool,
) -> Result<Seq<Record>, Refusal> {
    if all {
        Ok(records)
    } else if top is Some {
        Ok(newest(records, top->0 as nat))
    } else if tail is Some {
        Ok(oldest(records, tail->0 as nat))
    } else if index is Some {
        match found(records, index->0 as nat) {
            Ok(record) => Ok(seq![record]),
            Err(refusal) => Err(refusal),
        }
    } else {
        Ok(newest(records, DEFAULT_VIEW as nat))
    }
}

/// What an append reports.
pub open spec fn post_outcome(file: Seq<char>, content: Seq<char>, comment: Option<Seq<char>>)
    -> Result<Outcome, Refusal> {
    match load(file) {
        Err(refusal) => Err(refusal),
        Ok(records) => if records.len() < CAPACITY {
            Ok(
                Outcome {
                    lines: seq![added_text(records.len() + 1)],
                    rewrite: Some(
                        render(records.push(Record { index: records.len(), content, comment })),
                    ),
                },
            )
        } else {
            Err(full_refusal())
        },
    }
}

/// What a view reports: the chosen records as lines, or the one line that
/// tells of an empty store. A single index is looked up strictly, in an empty
/// store too.
pub open spec fn view_outcome(
    file: Seq<char>,
    top: Option<u16>,
    tail: Option<u16>,
    index: Option<u16>,
    all: bool,
    plain: bool,
) -> Result<Outcome, Refusal> {
    match load(file) {
        Err(refusal) => Err(refusal),
        Ok(records) => match chosen(records, top, tail, index, all) {
            Err(refusal) => Err(refusal),
            Ok(picked) => Ok(
                Outcome {
                    lines: if records.len() == 0 {
                        seq![no_notes_text()]
                    } else {
                        shown(picked, plain)
                    },
                    rewrite: None,
                },
            ),
        },
    }
}

/// What a clear reports. `all` goes before `top`, and `top` before `tail`.
/// A clear of all never fails.
pub open spec fn clear_outcome(file: Seq<char>, all: bool, top: Option<u16>, tail: Option<u16>)
    -> Result<Outcome, Refusal> {
    if all {
        if file.len() == 0 {
            Ok(Outcome { lines: seq![no_notes_text()], rewrite: None })
        } else {
            Ok(
                Outcome {
                    lines: seq![cleared_text(split_lines(file).len())],
                    rewrite: Some(Seq::empty()),
                },
            )
        }
    } else {
        match load(file) {
            Err(refusal) => Err(refusal),
            Ok(records) => if records.len() == 0 {
                Ok(Outcome { lines: seq![no_notes_text()], rewrite: None })
            } else if top is Some {
                Ok(
                    Outcome {
                        lines: seq![cleared_text(reach(top->0 as nat, records.len()))],
                        rewrite: Some(render(without_newest(records, top->0 as nat))),
                    },
                )
            } else {
                Ok(
                    Outcome {
                        lines: seq![cleared_text(reach(tail->0 as nat, records.len()))],
                        rewrite: Some(render(without_oldest(records, tail->0 as nat))),
                    },
                )
            },
        }
    }
}

/// What a delete reports.
pub open spec fn delete_outcome(file: Seq<char>, index: nat) -> Result<Outcome, Refusal> {
    match load(file) {
        Err(refusal) => Err(refusal),
        Ok(records) => match found(records, index) {
            Err(refusal) => Err(refusal),
            Ok(_) => Ok(
                Outcome {
                    lines: seq![deleted_text(index)],
                    rewrite: Some(render(renumbered(records.remove(index as int)))),
                },
            ),
        },
    }
}

/// What a copy to the clipboard reports, once the clipboard has answered.
/// The store is never written.
pub open spec fn yank_outcome(file: Seq<char>, index: nat, sink: Result<(), Seq<char>>) -> Result<
    Outcome,
    Refusal,
> {
    match load(file) {
        Err(refusal) => Err(refusal),
        Ok(records) => match found(records, index) {
            Err(refusal) => Err(refusal),
            Ok(_) => match sink {
                Err(reason) => Err(clipboard_refusal(reason)),
                Ok(_) => Ok(Outcome { lines: seq![yanked_text(index)], rewrite: None }),
            },
        },
    }
}

/// What a pop reports, once the clipboard has answered: the delete happens
/// only where the copy did.
pub open spec fn pop_outcome(file: Seq<char>, index: nat, sink: Result<(), Seq<char>>) -> Result<
    Outcome,
    Refusal,
> {
    match load(file) {
        Err(refusal) => Err(refusal),
        Ok(records) => match popped(records, index, sink) {
            Err(refusal) => Err(refusal),
            Ok((_, rest)) => Ok(
                Outcome {
                    lines: seq![yanked_text(index), deleted_text(index)],
                    rewrite: Some(render(rest)),
                },
            ),
        },
    }
}

/// A line made of `before` and the decimal writing of `n`.
fn numbered_line(before: &str, n: u64) -> (line: String)
    ensures
        line@ == before@ + decimal(n as nat),
{
    let mut line = String::new();
    line.append(before);
    push_decimal(&mut line, n);
    assert(line@ =~= before@ + decimal(n as nat));
    line
}

/// The one line that tells of an empty store.
fn no_notes_lines() -> (lines: Vec<String>)
    ensures
        texts_of(lines@) == seq![no_notes_text()],
{
    let mut lines: Vec<String> = Vec::new();
    lines.push("(no notes to view! add one first with \"post\")".to_owned());
    assert(texts_of(lines@) =~= seq![no_notes_text()]);
    lines
}

/// The one line `line`.
fn one_line(line: String) -> (lines: Vec<String>)
    ensures
        texts_of(lines@) == seq![line@],
{
    let mut lines: Vec<String> = Vec::new();
    lines.push(line);
    assert(texts_of(lines@) =~= seq![line@]);
    lines
}

/// The entries as lines to show.
fn show_entries(entries: &Vec<Entry>, plain: bool) -> (lines: Vec<String>)
    ensures
        texts_of(lines@) == shown(records_of(entries@), plain),
{
    let mut lines: Vec<String> = Vec::new();
    let mut i: usize = 0;
    while i < entries.len()
        invariant
            i <= entries.len(),
            lines.len() == i,
            forall|k: int|
                0 <= k < i ==> (#[trigger] lines@[k])@ == shown(records_of(entries@), plain)[k],
        decreases entries.len() - i,
    {
        lines.push(entries[i].display_string(plain));
        i += 1;
    }
    assert(texts_of(lines@) =~= shown(records_of(entries@), plain));
    lines
}

/// A store is empty exactly where its file is.
pub proof fn lemma_empty_store(file: Seq<char>)
    requires
        load(file) is Ok,
    ensures
        load(file)->Ok_0.len() == 0 <==> file.len() == 0,
        load(file)->Ok_0.len() == split_lines(file).len(),
{
}

/// Adds a note at the end of the stack.
pub fn handle_post(file: &str, text: &str, comment: Option<&str>) -> (done: HandleResult)
    ensures
        agrees(done, post_outcome(file@, text@, comment_text(comment))),
{
    match add_entry(file, text, comment) {
        Ok(added) => {
            let mut line = numbered_line("added note to position \"", added.index as u64 + 1);
            line.append("\"");
            Ok(Report { lines: one_line(line), rewrite: Some(added.text) })
        },
        Err(error) => Err(error),
    }
}

/// Shows notes: all of them, the newest or the oldest so many, the one at an
/// index, or the newest ten.
pub fn handle_view(
    file: &str,
    top: OptionNum,
    tail: OptionNum,
    index: OptionNum,
    all: &bool,
    no_fmt: &bool,
) -> (done: HandleResult)
    ensures
        agrees(done, view_outcome(file@, *top, *tail, *index, *all, *no_fmt)),
{
    let resp = if *all {
        view_all_entries(file)
    } else if let Some(num) = top {
        view_entries_from_end(file, Range::Top(num))
    } else if let Some(num) = tail {
        view_entries_from_end(file, Range::Tail(num))
    } else if let Some(num) = index {
        match view_entry_by_index(file, num) {
            Ok(entry) => {
                let mut one: Vec<Entry> = Vec::new();
                one.push(entry);
                assert(records_of(one@) =~= seq![entry@]);
                Ok(one)
            },
            Err(error) => Err(error),
        }
    } else {
        let default_amount_of_notes_to_view = Range::Top(&DEFAULT_VIEW);
        view_entries_from_end(file, default_amount_of_notes_to_view)
    };
    match resp {
        Ok(entries) => {
            proof {
                lemma_empty_store(file@);
            }
            let lines = if file.is_empty() {
                no_notes_lines()
            } else {
                show_entries(&entries, *no_fmt)
            };
            Ok(Report { lines, rewrite: None })
        },
        Err(error) => Err(error),
    }
}

/// Clears notes: all of them, or the newest or the oldest so many.
pub fn handle_clear(file: &str, all: &bool, top: OptionNum, tail: OptionNum) -> (done:
    HandleResult)
    requires
        *all || top is Some || tail is Some,
    ensures
        agrees(done, clear_outcome(file@, *all, *top, *tail)),
{
    let resp = if *all {
        Ok(clear_all_entries(file))
    } else if let Some(num) = top {
        clear_from_end(file, Range::Top(num))
    } else if let Some(num) = tail {
        clear_from_end(file, Range::Tail(num))
    } else {
        unreached()
    };
    match resp {
        Ok(cleared) => {
            let lines = match &cleared.text {
                Some(_) => {
                    let mut line = numbered_line("cleared ", cleared.removed as u64);
                    line.append(" notes");
                    one_line(line)
                },
                None => no_notes_lines(),
            };
            Ok(Report { lines, rewrite: cleared.text })
        },
        Err(error) => Err(error),
    }
}

/// Copies a note to the clipboard and then deletes it. `sink` is what the
/// clipboard answered to the content that `yank_note` gave.
pub fn handle_pop(file: &str, index: &u16, sink: &Result<(), String>) -> (done: HandleResult)
    ensures
        agrees(done, pop_outcome(file@, *index as nat, sink_text(sink))),
{
    match handle_pop_entry(file, index, sink) {
        Ok(deleted) => {
            let mut lines: Vec<String> = Vec::new();
            lines.push(numbered_line("yanked entry at index ", *index as u64));
            lines.push(numbered_line("deleted entry at index ", *index as u64));
            assert(texts_of(lines@) =~= seq![
                yanked_text(*index as nat),
                deleted_text(*index as nat),
            ]);
            Ok(Report { lines, rewrite: Some(deleted.text) })
        },
        Err(error) => Err(error),
    }
}

/// Deletes a note.
pub fn handle_delete(file: &str, index: &u16) -> (done: HandleResult)
    ensures
        agrees(done, delete_outcome(file@, *index as nat)),
{
    match delete_entry_from_file_by_index(file, index) {
        Ok(deleted) => {
            let line = numbered_line("deleted entry at index ", *index as u64);
            Ok(Report { lines: one_line(line), rewrite: Some(deleted.text) })
        },
        Err(error) => Err(error),
    }
}

/// Confirms that a note went to the clipboard. `sink` is what the clipboard
/// answered to the content that `yank_note` gave.
pub fn handle_yank(file: &str, index: &u16, sink: &Result<(), String>) -> (done: HandleResult)
    ensures
        agrees(done, yank_outcome(file@, *index as nat, sink_text(sink))),
{
    match yank_note(file, index) {
        Ok(_) => {},
        Err(error) => {
            return Err(error);
        },
    }
    match sink {
        Ok(_) => {
            let line = numbered_line("yanked entry at index ", *index as u64);
            Ok(Report { lines: one_line(line), rewrite: None })
        },
        Err(reason) => Err(ClapIoError::clipboard(reason.as_str())),
    }
}

} // verus!
