//! Terminal control sequences, as termion writes them.

use vstd::prelude::*;

verus! {

pub open spec fn digit_char(d: nat) -> char {
    seq!['0', '1', '2', '3', '4', '5', '6', '7', '8', '9'][d as int]
}

/// `n` written in decimal, without leading zeros.
pub open spec fn decimal(n: nat) -> Seq<char>
    decreases n,
{
    if n < 10 {
        seq![digit_char(n)]
    } else {
        decimal(n / 10).push(digit_char(n % 10))
    }
}

/// The sequence that sets the foreground to the 256-colour palette entry `n`.
pub open spec fn fg_seq(n: nat) -> Seq<char> {
    "\x1b[38;5;"@ + decimal(n) + "m"@
}

/// The sequence that sets the background to the 256-colour palette entry `n`.
pub open spec fn bg_seq(n: nat) -> Seq<char> {
    "\x1b[48;5;"@ + decimal(n) + "m"@
}

/// The sequence that moves the cursor to column `x`, row `y` (both one-based).
pub open spec fn goto_seq(x: nat, y: nat) -> Seq<char> {
    "\x1b["@ + decimal(y) + ";"@ + decimal(x) + "H"@
}

pub open spec fn reset_seq() -> Seq<char> {
    "\x1b[m"@
}

pub open spec fn bold_seq() -> Seq<char> {
    "\x1b[1m"@
}

pub open spec fn clear_seq() -> Seq<char> {
    "\x1b[2J"@
}

/// Relies on termion::color::AnsiValue::fg_string: CSI "38;5;", the value in
/// decimal, then "m".
#[verifier::external_body]
pub(crate) fn fg(n: u8) -> (r: String)
    ensures
        r@ == fg_seq(n as nat),
{
    termion::color::AnsiValue(n).fg_string()
}

/// Relies on termion::color::AnsiValue::bg_string: CSI "48;5;", the value in
/// decimal, then "m".
#[verifier::external_body]
pub(crate) fn bg(n: u8) -> (r: String)
    ensures
        r@ == bg_seq(n as nat),
{
    termion::color::AnsiValue(n).bg_string()
}

/// Relies on `From<termion::cursor::Goto> for String`: CSI, the row in decimal,
/// ";", the column in decimal, then "H".
#[verifier::external_body]
pub(crate) fn goto(x: u16, y: u16) -> (r: String)
    ensures
        r@ == goto_seq(x as nat, y as nat),
{
    String::from(termion::cursor::Goto(x, y))
}

/// Relies on `AsRef<str>` of termion::style::Reset: CSI "m".
#[verifier::external_body]
pub(crate) fn reset() -> (r: String)
    ensures
        r@ == reset_seq(),
{
    let s: &str = termion::style::Reset.as_ref();
    s.to_string()
}

/// Relies on `AsRef<str>` of termion::style::Bold: CSI "1m".
#[verifier::external_body]
pub(crate) fn bold() -> (r: String)
    ensures
        r@ == bold_seq(),
{
    let s: &str = termion::style::Bold.as_ref();
    s.to_string()
}

/// Relies on `AsRef<str>` of termion::clear::All: CSI "2J".
#[verifier::external_body]
pub(crate) fn clear_all() -> (r: String)
    ensures
        r@ == clear_seq(),
{
    let s: &str = termion::clear::All.as_ref();
    s.to_string()
}

} // verus!
