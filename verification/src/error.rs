//! What the library can refuse.

use vstd::prelude::*;

verus! {

#[derive(Clone, Copy, Debug, PartialEq, Eq, Structural, Hash)]
pub enum Error {
    /// The file does not begin with the magic sentinel.
    NotATowlFile,
    /// A log file for this identity is already there.
    AlreadyExists,
    /// The bytes of a header, an index, an entry or a counter record are
    /// not a well-formed record.
    Decode,
    /// A record that is kept beside the log files is missing. The library
    /// starts such a record anew and does not fail with this; it is for
    /// whoever keeps the records on disk.
    NotFound,
    /// The header would not fit in front of the index.
    HeaderTooLarge,
    /// The logger has no working file: it is rotating or shut down.
    NotActive,
    /// The sequence counter has reached the largest number.
    CounterExhausted,
    /// The calendar does not reach the day of the rotation.
    DateOutOfRange,
}

impl Error {
    /// A line of text for the person reading the log of the process.
    pub fn message(&self) -> (text: &'static str)
        ensures
            text@ == match *self {
                Error::NotATowlFile => "Not a towl log file. Magic error."@,
                Error::AlreadyExists => "Log file have already exist."@,
                Error::Decode => "Malformed record."@,
                Error::NotFound => "Counter record not found."@,
                Error::HeaderTooLarge => "Header does not fit its region."@,
                Error::NotActive => "Logger is not active."@,
                Error::CounterExhausted => "Sequence counter is exhausted."@,
                Error::DateOutOfRange => "Date is out of range."@,
            },
    {
        match self {
            Error::NotATowlFile => "Not a towl log file. Magic error.",
            Error::AlreadyExists => "Log file have already exist.",
            Error::Decode => "Malformed record.",
            Error::NotFound => "Counter record not found.",
            Error::HeaderTooLarge => "Header does not fit its region.",
            Error::NotActive => "Logger is not active.",
            Error::CounterExhausted => "Sequence counter is exhausted.",
            Error::DateOutOfRange => "Date is out of range.",
        }
    }
}

} // verus!
