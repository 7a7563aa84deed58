use termion::color;
use vstd::prelude::*;

verus! {

/// The escape sequence that sets the foreground colour to red.
pub open spec fn red_fg_seq() -> Seq<char> {
    seq!['\u{1b}', '[', '3', '8', ';', '5', ';', '1', 'm']
}

/// The escape sequence that resets the foreground colour.
pub open spec fn reset_fg_seq() -> Seq<char> {
    seq!['\u{1b}', '[', '3', '9', 'm']
}

/// Relies on termion's `color::Red::fg_str`: the sequence `ESC [ 38;5;1 m`.
#[verifier::external_body]
pub(crate) fn red_fg() -> (r: &'static str)
    ensures
        r@ == red_fg_seq(),
{
    color::Red.fg_str()
}

/// Relies on termion's `color::Reset::fg_str`: the sequence `ESC [ 39 m`.
#[verifier::external_body]
pub(crate) fn reset_fg() -> (r: &'static str)
    ensures
        r@ == reset_fg_seq(),
{
    color::Reset.fg_str()
}

/// Relies on `String::push`: the character is added at the end.
#[verifier::external_body]
pub(crate) fn push_char(s: &mut String, c: char)
    ensures
        final(s)@ == old(s)@.push(c),
{
    s.push(c)
}

/// Relies on `String::pop`: the last character is removed and returned.
#[verifier::external_body]
pub(crate) fn pop_char(s: &mut String) -> (r: Option<char>)
    ensures
        old(s)@.len() == 0 ==> r is None && final(s)@ == old(s)@,
        old(s)@.len() > 0 ==> r == Some(old(s)@.last()) && final(s)@ == old(s)@.drop_last(),
{
    s.pop()
}

} // verus!
