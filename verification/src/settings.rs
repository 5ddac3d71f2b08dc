//! The settings record: how many files the logger is to keep, and the
//! identity of the one it works on.

use crate::codec::{
    i32_layout, lemma_i32_round_trip, parse_i32, put_i32, take_i32,
};
use crate::error::Error;
use vstd::prelude::*;

verus! {

#[derive(Clone, Copy, Debug, PartialEq, Eq)]
pub struct Settings {
    pub file_max_count: i32,
    pub working_id: i32,
}

/// The two numbers, one behind the other.
pub open spec fn settings_layout(s: Settings) -> Seq<u8> {
    i32_layout(s.file_max_count) + i32_layout(s.working_id)
}

pub open spec fn parse_settings(s: Seq<u8>) -> Option<(Settings, int)> {
    match parse_i32(s) {
        Some((file_max_count, _)) => match parse_i32(s.skip(4)) {
            Some((working_id, _)) => Some((Settings { file_max_count, working_id }, 8)),
            None => None,
        },
        None => None,
    }
}

/// Decoding what was encoded gives the settings back, whatever follows.
pub proof fn lemma_settings_round_trip(s: Settings, rest: Seq<u8>)
    ensures
        settings_layout(s).len() == 8,
        parse_settings(settings_layout(s) + rest) == Some((s, 8int)),
{
    let bytes = settings_layout(s) + rest;
    lemma_i32_round_trip(s.file_max_count, i32_layout(s.working_id) + rest);
    lemma_i32_round_trip(s.working_id, rest);
    assert(bytes =~= i32_layout(s.file_max_count) + (i32_layout(s.working_id) + rest));
    assert(bytes.skip(4) =~= i32_layout(s.working_id) + rest);
}

/// The settings to go by: those of the record where there is one, and
/// where there is none, new ones with the given limit that work on the
/// file 0.
pub open spec fn loaded(record: Option<Seq<u8>>, file_max_count: i32) -> Result<Settings, Error> {
    match record {
        None => Ok(Settings { file_max_count, working_id: 0 }),
        Some(bytes) => match parse_settings(bytes) {
            Some((s, _)) => Ok(s),
            None => Err(Error::Decode),
        },
    }
}

impl Settings {
    /// Loads the settings from their record, or makes new ones where the
    /// record is missing.
    pub fn load(record: Option<&[u8]>, file_max_count: i32) -> (r: Result<Settings, Error>)
        ensures
            r == loaded(
                match record {
                    Some(bytes) => Some(bytes@),
                    None => None,
                },
                file_max_count,
            ),
    {
        match record {
            None => Ok(Settings { file_max_count, working_id: 0 }),
            Some(bytes) => {
                assert(bytes@.skip(0) =~= bytes@);
                let (file_max_count, mid) = match take_i32(bytes, 0) {
                    Some(p) => p,
                    None => { return Err(Error::Decode); },
                };
                match take_i32(bytes, mid) {
                    Some((working_id, _)) => Ok(Settings { file_max_count, working_id }),
                    None => Err(Error::Decode),
                }
            },
        }
    }

    /// The bytes of the record.
    pub fn save(&self) -> (out: Vec<u8>)
        ensures
            out@ == settings_layout(*self),
            parse_settings(out@) == Some((*self, 8int)),
    {
        let mut out: Vec<u8> = Vec::new();
        put_i32(&mut out, self.file_max_count);
        put_i32(&mut out, self.working_id);
        proof {
            lemma_settings_round_trip(*self, Seq::empty());
            assert(out@ =~= settings_layout(*self));
            assert(out@ + Seq::<u8>::empty() =~= out@);
        }
        out
    }
}

} // verus!
