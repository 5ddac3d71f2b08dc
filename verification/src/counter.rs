//! The sequence counter: the number that the next log file gets as its
//! identity. It is kept as a record of its own beside the log files, counts
//! from 1 and only ever grows.

use crate::codec::{lemma_usize_round_trip, parse_usize, put_usize, take_usize, usize_layout};
use crate::error::Error;
use vstd::prelude::*;

verus! {

/// The value that a counter starts with.
pub const FIRST_ID: usize = 1;

#[derive(Clone, Copy, Debug, PartialEq, Eq)]
pub struct InternalData {
    pub counter: usize,
}

/// What the counter record `record` says. Where there is no record yet the
/// counter starts at 1; where the bytes are no counter they are refused
/// with `Decode`.
pub open spec fn counter_of(record: Option<Seq<u8>>) -> Result<usize, Error> {
    match record {
        None => Ok(FIRST_ID),
        Some(bytes) => match parse_usize(bytes) {
            Some((counter, _)) => Ok(counter),
            None => Err(Error::Decode),
        },
    }
}

/// The bytes of a slice that may be missing.
pub open spec fn record_bytes(record: Option<&[u8]>) -> Option<Seq<u8>> {
    match record {
        Some(bytes) => Some(bytes@),
        None => None,
    }
}

impl InternalData {
    /// Loads the counter from its record. A missing record is no failure:
    /// the counter then starts at 1, and `init` gives the record to store.
    pub fn read(record: Option<&[u8]>) -> (r: Result<InternalData, Error>)
        ensures
            match counter_of(record_bytes(record)) {
                Ok(counter) => r == Ok::<InternalData, Error>(InternalData { counter }),
                Err(e) => r == Err::<InternalData, Error>(e),
            },
    {
        match record {
            None => Ok(InternalData { counter: FIRST_ID }),
            Some(bytes) => {
                assert(bytes@.skip(0) =~= bytes@);
                match take_usize(bytes, 0) {
                    Some((counter, _)) => Ok(InternalData { counter }),
                    None => Err(Error::Decode),
                }
            },
        }
    }

    /// The record to keep: the one that is there, or a new one that counts
    /// from 1 where there is none.
    pub fn init(record: Option<Vec<u8>>) -> (kept: Vec<u8>)
        ensures
            match record {
                Some(bytes) => kept@ == bytes@,
                None => kept@ == usize_layout(FIRST_ID),
            },
    {
        match record {
            Some(bytes) => bytes,
            None => InternalData { counter: FIRST_ID }.save(),
        }
    }

    /// The bytes of the record.
    pub fn save(&self) -> (out: Vec<u8>)
        ensures
            out@ == usize_layout(self.counter),
            counter_of(Some(out@)) == Ok::<usize, Error>(self.counter),
    {
        let mut out: Vec<u8> = Vec::new();
        put_usize(&mut out, self.counter);
        proof {
            lemma_usize_round_trip(self.counter, Seq::empty());
            assert(out@ =~= usize_layout(self.counter));
            assert(out@ + Seq::<u8>::empty() =~= out@);
        }
        out
    }

    /// Loads the counter from its record, adds one and gives the record to
    /// put in its place. A missing record counts as one that holds 1. A
    /// counter that has reached the largest number is not moved: no
    /// identity is given out twice.
    pub fn increment_counter(record: Option<&[u8]>) -> (r: Result<Vec<u8>, Error>)
        ensures
            match counter_of(record_bytes(record)) {
                Ok(counter) => if counter < usize::MAX {
                    r matches Ok(out) && out@ == usize_layout((counter + 1) as usize)
                        && counter_of(Some(out@)) == Ok::<usize, Error>((counter + 1) as usize)
                } else {
                    r matches Err(Error::CounterExhausted)
                },
                Err(e) => r matches Err(x) && x == e,
            },
    {
        let data = match InternalData::read(record) {
            Ok(d) => d,
            Err(e) => { return Err(e); },
        };
        match data.counter.checked_add(1) {
            Some(next) => Ok(InternalData { counter: next }.save()),
            None => Err(Error::CounterExhausted),
        }
    }
}

/// The counter that the record holds, 1 where there is no record yet.
pub fn counter_value(record: Option<&[u8]>) -> (r: Result<usize, Error>)
    ensures
        r == counter_of(record_bytes(record)),
{
    match InternalData::read(record) {
        Ok(data) => Ok(data.counter),
        Err(e) => Err(e),
    }
}

} // verus!
