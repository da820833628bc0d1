//! The escape sequences that colour text on a terminal.

use vstd::prelude::*;

verus! {

/// The sequence that sets the foreground to light yellow.
pub open spec fn light_yellow_code() -> Seq<char> {
    "\u{1b}[38;5;11m"@
}

/// The sequence that sets the foreground to magenta.
pub open spec fn magenta_code() -> Seq<char> {
    "\u{1b}[38;5;5m"@
}

/// The sequence that sets the foreground to light white.
pub open spec fn light_white_code() -> Seq<char> {
    "\u{1b}[38;5;15m"@
}

/// The sequence that sets the foreground to white.
pub open spec fn white_code() -> Seq<char> {
    "\u{1b}[38;5;7m"@
}

/// The sequence that sets the foreground to red.
pub open spec fn red_code() -> Seq<char> {
    "\u{1b}[38;5;1m"@
}

/// The sequence that sets the foreground back to the terminal's default.
pub open spec fn reset_code() -> Seq<char> {
    "\u{1b}[39m"@
}

/// `termion::color::LightYellow::fg_str` returns the fixed sequence
/// `ESC [ 38;5;11 m`.
#[verifier::external_body]
pub(crate) fn light_yellow() -> (code: &'static str)
    ensures
        code@ == light_yellow_code(),
{
    termion::color::LightYellow.fg_str()
}

/// `termion::color::Magenta::fg_str` returns the fixed sequence
/// `ESC [ 38;5;5 m`.
#[verifier::external_body]
pub(crate) fn magenta() -> (code: &'static str)
    ensures
        code@ == magenta_code(),
{
    termion::color::Magenta.fg_str()
}

/// `termion::color::LightWhite::fg_str` returns the fixed sequence
/// `ESC [ 38;5;15 m`.
#[verifier::external_body]
pub(crate) fn light_white() -> (code: &'static str)
    ensures
        code@ == light_white_code(),
{
    termion::color::LightWhite.fg_str()
}

/// `termion::color::White::fg_str` returns the fixed sequence
/// `ESC [ 38;5;7 m`.
#[verifier::external_body]
pub(crate) fn white() -> (code: &'static str)
    ensures
        code@ == white_code(),
{
    termion::color::White.fg_str()
}

/// `termion::color::Reset::fg_str` returns the fixed sequence `ESC [ 39 m`.
#[verifier::external_body]
pub(crate) fn reset() -> (code: &'static str)
    ensures
        code@ == reset_code(),
{
    termion::color::Reset.fg_str()
}

/// Formatting `termion::color::Fg(termion::color::Red)` writes the fixed
/// sequence `ESC [ 38;5;1 m`, or nothing at all where the environment asks
/// for no colours. Which of the two, nothing here can tell.
#[verifier::external_body]
pub(crate) fn red_highlight() -> (code: String)
    ensures
        code@ == red_code() || code@ == Seq::<char>::empty(),
{
    format!("{}", termion::color::Fg(termion::color::Red))
}

} // verus!
