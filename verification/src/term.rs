//! Terminal control sequences, and what std leaves unspecified of the
//! strings that hold them.

use vstd::prelude::*;

verus! {

/// The character that stands for the decimal digit `d`.
pub open spec fn digit(d: nat) -> char
    recommends
        d < 10,
{
    ('0' as int + d) as char
}

/// The decimal notation of `n`, without leading zeros.
pub open spec fn decimal(n: nat) -> Seq<char>
    decreases n,
{
    if n < 10 {
        seq![digit(n)]
    } else {
        decimal(n / 10).push(digit(n % 10))
    }
}

/// The escape sequence that moves the cursor to column `x` of row `y`.
pub open spec fn goto_sequence(x: u16, y: u16) -> Seq<char> {
    seq!['\x1b', '['] + decimal(y as nat) + seq![';'] + decimal(x as nat) + seq!['H']
}

/// The escape sequence that resets all text styling.
pub open spec fn reset_sequence() -> Seq<char> {
    seq!['\x1b', '[', 'm']
}

/// `String::push` of std appends one character to the string. Not proved:
/// the contract restates std's documentation.
pub assume_specification[ String::push ](s: &mut String, ch: char)
    ensures
        final(s)@ == old(s)@.push(ch),
;

/// Formats `termion::cursor::Goto(x, y)`, which writes the row before the
/// column, both in decimal. Not proved: the contract restates what
/// termion's `Display` impl writes. The position is one-based and termion
/// objects to `(0, 0)`.
#[verifier::external_body]
pub(crate) fn goto_xy(x: u16, y: u16) -> (seq: String)
    requires
        x != 0 || y != 0,
    ensures
        seq@ == goto_sequence(x, y),
{
    termion::cursor::Goto(x, y).to_string()
}

/// Formats `termion::style::Reset`. Not proved: the contract restates the
/// constant sequence that termion writes for it.
#[verifier::external_body]
pub(crate) fn reset() -> (seq: String)
    ensures
        seq@ == reset_sequence(),
{
    termion::style::Reset.to_string()
}

} // verus!
