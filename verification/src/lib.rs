//! A personal note stack: short text records kept in one flat file, one record
//! per line, addressed by their position in the file.
//!
//! The library holds the record store itself: the line format of a record, the
//! numbering of the records across every mutation, and the selection of the
//! records that a view or a clear acts on. It never touches the file system or
//! the clipboard: every operation takes the text of the backing file and gives
//! back what is to be shown, copied or written.
//!
//! An operation reads the whole file and, where it changes the store, leaves
//! the whole file to be written again. Nothing is locked in between: of two
//! runs at the same time on one file the later write wins, and what the other
//! one changed is lost.

pub mod text;
pub mod lines;
pub mod errors;
pub mod entry;
pub mod entries;
pub mod file_io;
pub mod handlers;
pub mod location;
pub mod cli;
