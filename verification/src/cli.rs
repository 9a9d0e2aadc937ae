//! The commands as the command line gives them, and what each one leads to.
//!
//! Running a command takes two steps around the clipboard. `clipboard_text`
//! says what the command wants copied, if anything; whoever calls hands that
//! to the clipboard and passes its answer to `handle_matches`, which gives
//! the report.

use vstd::prelude::*;
use crate::errors::{ClapIoError, Refusal};
use crate::file_io::{found, load, sink_text, yank_note};
use crate::handlers::{
    agrees, clear_outcome, delete_outcome, handle_clear, handle_delete, handle_pop, handle_post,
    handle_view, handle_yank, pop_outcome, post_outcome, view_outcome, yank_outcome,
    HandleResult, Outcome,
};

verus! {

/// One command with its arguments.
#[allow(inconsistent_fields)]
#[derive(Clone, Debug, PartialEq, Eq)]
pub enum Commands {
    /// Adds a note to the stack.
    Add { text: String, comment: Option<String> },
    /// Views notes: all, the one at `index`, the newest `top`, the oldest
    /// `tail`, or the newest ten; the content alone where `no_fmt` is set.
    View { all: bool, index: Option<u16>, top: Option<u16>, tail: Option<u16>, no_fmt: bool },
    /// Copies the content of a note to the clipboard.
    Yank { index: u16 },
    /// Copies the content of a note to the clipboard and then deletes it.
    Pop { index: u16 },
    /// Deletes a note.
    Delete { index: u16 },
    /// Deletes many notes at once: all, the newest `top` or the oldest
    /// `tail`.
    Clear { all: bool, top: Option<u16>, tail: Option<u16> },
}

/// What the command line holds.
#[derive(Clone, Debug, PartialEq, Eq)]
pub struct Cli {
    pub command: Commands,
}

/// The text of an optional string.
pub open spec fn text_of(s: Option<String>) -> Option<Seq<char>> {
    match s {
        Some(t) => Some(t@),
        None => None,
    }
}

/// Whether a command names what it is to act on. A clear has to say which
/// notes go.
pub open spec fn is_complete(command: Commands) -> bool {
    match command {
        Commands::Clear { all, top, tail } => all || top is Some || tail is Some,
        _ => true,
    }
}

/// What a command wants copied to the clipboard: for a yank and a pop the
/// content of the note at the index, for every other command nothing.
pub open spec fn clipboard_need(file: Seq<char>, command: Commands) -> Result<
    Option<Seq<char>>,
    Refusal,
> {
    match command {
        Commands::Yank { index } | Commands::Pop { index } => match load(file) {
            Err(refusal) => Err(refusal),
            Ok(records) => match found(records, index as nat) {
                Err(refusal) => Err(refusal),
                Ok(record) => Ok(Some(record.content)),
            },
        },
        _ => Ok(None),
    }
}

/// What a command reports, once the clipboard has answered `sink` to what
/// the command wanted copied. Only a yank and a pop look at `sink`.
pub open spec fn matches_outcome(file: Seq<char>, command: Commands, sink: Result<(), Seq<char>>)
    -> Result<Outcome, Refusal> {
    match command {
        Commands::Add { text, comment } => post_outcome(file, text@, text_of(comment)),
        Commands::View { all, index, top, tail, no_fmt } => view_outcome(
            file,
            top,
            tail,
            index,
            all,
            no_fmt,
        ),
        Commands::Clear { all, top, tail } => clear_outcome(file, all, top, tail),
        Commands::Pop { index } => pop_outcome(file, index as nat, sink),
        Commands::Yank { index } => yank_outcome(file, index as nat, sink),
        Commands::Delete { index } => delete_outcome(file, index as nat),
    }
}

/// What the command wants copied to the clipboard before it is run.
pub fn clipboard_text(file: &str, cli: &Cli) -> (wanted: Result<Option<String>, ClapIoError>)
    ensures
        match clipboard_need(file@, cli.command) {
            Ok(need) => wanted is Ok && text_of(wanted->Ok_0) == need,
            Err(refusal) => wanted is Err && wanted->Err_0@ == refusal,
        },
{
    match &cli.command {
        Commands::Yank { index } => match yank_note(file, index) {
            Ok(entry) => Ok(Some(entry.content)),
            Err(error) => Err(error),
        },
        Commands::Pop { index } => match yank_note(file, index) {
            Ok(entry) => Ok(Some(entry.content)),
            Err(error) => Err(error),
        },
        _ => Ok(None),
    }
}

/// Runs the command on the text of the backing file.
pub fn handle_matches(file: &str, cli: &Cli, sink: &Result<(), String>) -> (done: HandleResult)
    requires
        is_complete(cli.command),
    ensures
        agrees(done, matches_outcome(file@, cli.command, sink_text(sink))),
{
    match &cli.command {
        Commands::Add { text, comment } => {
            let comment = match comment {
                Some(c) => Some(c.as_str()),
                None => None,
            };
            handle_post(file, text.as_str(), comment)
        },
        Commands::View { top, tail, index, all, no_fmt } => handle_view(
            file,
            top,
            tail,
            index,
            all,
            no_fmt,
        ),
        Commands::Clear { all, top, tail } => handle_clear(file, all, top, tail),
        Commands::Pop { index } => handle_pop(file, index, sink),
        Commands::Yank { index } => handle_yank(file, index, sink),
        Commands::Delete { index } => handle_delete(file, index),
    }
}

} // verus!
