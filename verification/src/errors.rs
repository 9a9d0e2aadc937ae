//! The failures that an operation on the note stack can report.

use vstd::prelude::*;
use vstd::string::StringExecFns;
use crate::entry::DecodeFault;
use crate::text::{decimal, push_decimal};

verus! {

/// Why an operation failed.
#[derive(Clone, Copy, Debug, PartialEq, Eq, Structural)]
pub enum Failure {
    /// The backing file could not be read or written.
    Io,
    /// A stored line is malformed.
    Decode,
    /// The requested position is not below the number of records.
    IndexOutOfRange,
    /// The clipboard could not be acquired or written.
    ClipboardUnavailable,
    /// The backup target is not an existing directory.
    DestinationInvalid,
    /// The backing file holds, or would hold, more records than there are
    /// indices.
    StoreFull,
}

/// What a failure is: its kind and the text that tells the user of it.
pub struct Refusal {
    pub kind: Failure,
    pub desc: Seq<char>,
}

/// A failure as the operations return it.
#[derive(Clone, Debug, PartialEq, Eq)]
pub struct ClapIoError {
    pub kind: Failure,
    pub desc: String,
}

impl View for ClapIoError {
    type V = Refusal;

    open spec fn view(&self) -> Refusal {
        Refusal { kind: self.kind, desc: self.desc@ }
    }
}

/// The text that tells of an index that is not below `len`.
pub open spec fn bounds_text(index: nat, len: nat) -> Seq<char> {
    "index "@ + decimal(index) + " is outside of bounds of notes available ("@ + decimal(len)
        + ")."@
}

/// The text that tells of a line that is no record.
pub open spec fn fault_text(fault: DecodeFault) -> Seq<char> {
    match fault {
        DecodeFault::MissingSeparator => {
            "line is not in valid format, ensure config file is correct"@
        },
        DecodeFault::BadIndex => "bad index number parse"@,
    }
}

/// The failure for a line that is no record.
pub open spec fn decode_refusal(fault: DecodeFault) -> Refusal {
    Refusal { kind: Failure::Decode, desc: fault_text(fault) }
}

/// The failure for an index that is not below `len`.
pub open spec fn bounds_refusal(index: nat, len: nat) -> Refusal {
    Refusal { kind: Failure::IndexOutOfRange, desc: bounds_text(index, len) }
}

/// The failure for a store without a free index.
pub open spec fn full_refusal() -> Refusal {
    Refusal { kind: Failure::StoreFull, desc: "the note stack is full"@ }
}

/// The failure for a clipboard that gave `reason`.
pub open spec fn clipboard_refusal(reason: Seq<char>) -> Refusal {
    Refusal {
        kind: Failure::ClipboardUnavailable,
        desc: "Copying note text to clipboard failed: "@ + reason,
    }
}

/// The failure for a backup target that is no directory.
pub open spec fn destination_refusal(destination: Seq<char>) -> Refusal {
    Refusal {
        kind: Failure::DestinationInvalid,
        desc: "backup destination is not an existing directory: "@ + destination,
    }
}

/// Accepts an index below the number of records, and refuses every other
/// with the text that names both.
pub fn check_index_bounds(index_wanted: &u16, len_of_stack: usize) -> (checked: Result<
    (),
    String,
>)
    ensures
        checked is Ok <==> *index_wanted < len_of_stack,
        checked is Err ==> checked->Err_0@ == bounds_text(
            *index_wanted as nat,
            len_of_stack as nat,
        ),
{
    if (*index_wanted as usize) < len_of_stack {
        return Ok(());
    }
    let mut desc = String::new();
    desc.append("index ");
    push_decimal(&mut desc, *index_wanted as u64);
    desc.append(" is outside of bounds of notes available (");
    push_decimal(&mut desc, len_of_stack as u64);
    desc.append(").");
    assert(desc@ =~= bounds_text(*index_wanted as nat, len_of_stack as nat));
    Err(desc)
}

impl From<String> for ClapIoError {
    /// A failure to read or write, with the text that tells of it.
    fn from(err: String) -> (error: ClapIoError) {
        ClapIoError { kind: Failure::Io, desc: err }
    }
}

impl vstd::std_specs::convert::FromSpecImpl<String> for ClapIoError {
    open spec fn obeys_from_spec() -> bool {
        true
    }

    open spec fn from_spec(err: String) -> ClapIoError {
        ClapIoError { kind: Failure::Io, desc: err }
    }
}

impl ClapIoError {
    /// A failure of the given kind with the given text.
    pub fn new(kind: Failure, desc: String) -> (error: ClapIoError)
        ensures
            error@ == (Refusal { kind, desc: desc@ }),
    {
        ClapIoError { kind, desc }
    }

    /// The failure for a line that is no record.
    pub fn malformed(fault: DecodeFault) -> (error: ClapIoError)
        ensures
            error@ == decode_refusal(fault),
    {
        let desc = match fault {
            DecodeFault::MissingSeparator => {
                "line is not in valid format, ensure config file is correct".to_owned()
            },
            DecodeFault::BadIndex => "bad index number parse".to_owned(),
        };
        ClapIoError { kind: Failure::Decode, desc }
    }

    /// The failure for an index that is not below the number of records,
    /// with the text that `check_index_bounds` gave for it.
    pub fn out_of_range(desc: String) -> (error: ClapIoError)
        ensures
            error@ == (Refusal { kind: Failure::IndexOutOfRange, desc: desc@ }),
    {
        ClapIoError { kind: Failure::IndexOutOfRange, desc }
    }

    /// The failure for a store without a free index.
    pub fn full() -> (error: ClapIoError)
        ensures
            error@ == full_refusal(),
    {
        ClapIoError { kind: Failure::StoreFull, desc: "the note stack is full".to_owned() }
    }

    /// The failure for a clipboard that gave `reason`.
    pub fn clipboard(reason: &str) -> (error: ClapIoError)
        ensures
            error@ == clipboard_refusal(reason@),
    {
        let mut desc = String::new();
        desc.append("Copying note text to clipboard failed: ");
        desc.append(reason);
        assert(desc@ =~= "Copying note text to clipboard failed: "@ + reason@);
        ClapIoError { kind: Failure::ClipboardUnavailable, desc }
    }

    /// The failure for a backup target that is no directory.
    pub fn destination(destination: &str) -> (error: ClapIoError)
        ensures
            error@ == destination_refusal(destination@),
    {
        let mut desc = String::new();
        desc.append("backup destination is not an existing directory: ");
        desc.append(destination);
        assert(desc@ =~= "backup destination is not an existing directory: "@ + destination@);
        ClapIoError { kind: Failure::DestinationInvalid, desc }
    }
}

} // verus!
