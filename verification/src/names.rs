//! Names of the files: a working file is named by its identity, an archived
//! one by what it holds, the day it was rotated out and its identity.

use crate::header::{Header, HeaderView};
use crate::time::Date;
use vstd::prelude::*;
use vstd::string::*;

verus! {

/// The character of a decimal digit.
pub open spec fn digit_char(d: nat) -> char {
    if d == 0 {
        '0'
    } else if d == 1 {
        '1'
    } else if d == 2 {
        '2'
    } else if d == 3 {
        '3'
    } else if d == 4 {
        '4'
    } else if d == 5 {
        '5'
    } else if d == 6 {
        '6'
    } else if d == 7 {
        '7'
    } else if d == 8 {
        '8'
    } else {
        '9'
    }
}

/// A number in decimal digits, without sign or leading zeros.
pub open spec fn decimal(n: nat) -> Seq<char>
    decreases n,
{
    if n < 10 {
        seq![digit_char(n)]
    } else {
        decimal(n / 10).push(digit_char(n % 10))
    }
}

/// `{id}.towl`
pub open spec fn log_file_name(id: usize) -> Seq<char> {
    decimal(id as nat) + seq!['.', 't', 'o', 'w', 'l']
}

/// `{org}_{title}_{year}_{month}_{day}_{id}.twl`
pub open spec fn archive_file_name(h: HeaderView, date: Date) -> Seq<char> {
    h.org + seq!['_'] + h.title + seq!['_'] + decimal(date.year as nat) + seq!['_'] + decimal(
        date.month as nat,
    ) + seq!['_'] + decimal(date.day as nat) + seq!['_'] + decimal(h.id as nat) + seq![
        '.',
        't',
        'w',
        'l',
    ]
}

fn digit_text(d: u64) -> (text: &'static str)
    requires
        d < 10,
    ensures
        text@ == seq![digit_char(d as nat)],
{
    proof {
        reveal_strlit("0");
        reveal_strlit("1");
        reveal_strlit("2");
        reveal_strlit("3");
        reveal_strlit("4");
        reveal_strlit("5");
        reveal_strlit("6");
        reveal_strlit("7");
        reveal_strlit("8");
        reveal_strlit("9");
    }
    let text = if d == 0 {
        "0"
    } else if d == 1 {
        "1"
    } else if d == 2 {
        "2"
    } else if d == 3 {
        "3"
    } else if d == 4 {
        "4"
    } else if d == 5 {
        "5"
    } else if d == 6 {
        "6"
    } else if d == 7 {
        "7"
    } else if d == 8 {
        "8"
    } else {
        "9"
    };
    assert(text@ =~= seq![digit_char(d as nat)]);
    text
}

/// Appends the decimal digits of `n`.
pub fn push_decimal(out: &mut String, n: u64)
    ensures
        final(out)@ == old(out)@ + decimal(n as nat),
    decreases n,
{
    if n >= 10 {
        push_decimal(out, n / 10);
    }
    out.append(digit_text(n % 10));
    assert(out@ =~= old(out)@ + decimal(n as nat));
}

/// The name of the working file with the identity `id`.
pub fn log_name(id: usize) -> (name: String)
    ensures
        name@ == log_file_name(id),
{
    let mut name = String::new();
    push_decimal(&mut name, id as u64);
    proof {
        reveal_strlit(".towl");
    }
    name.append(".towl");
    assert(name@ =~= log_file_name(id));
    name
}

/// The name under which a file with the header `header` is archived on the
/// day `date`.
pub fn archive_name(header: &Header, date: Date) -> (name: String)
    ensures
        name@ == archive_file_name(header@, date),
{
    proof {
        reveal_strlit("_");
        reveal_strlit(".twl");
    }
    let mut name = String::new();
    name.append(header.org().as_str());
    name.append("_");
    name.append(header.title().as_str());
    name.append("_");
    push_decimal(&mut name, date.year as u64);
    name.append("_");
    push_decimal(&mut name, date.month as u64);
    name.append("_");
    push_decimal(&mut name, date.day as u64);
    name.append("_");
    push_decimal(&mut name, header.id() as u64);
    name.append(".twl");
    assert(name@ =~= archive_file_name(header@, date));
    name
}

} // verus!
