//! Coloured text for a dump of the board on a terminal.

use vstd::prelude::*;
use colored::Colorize;

verus! {

/// `text` between the terminal's escape sequence that selects the colour
/// with the given code and the sequence that resets it.
pub open spec fn painted(code: Seq<char>, text: Seq<char>) -> Seq<char> {
    seq!['\x1b', '['] + code + seq!['m'] + text + seq!['\x1b', '[', '0', 'm']
}

/// What a coloured text reads as: the text alone where colours are switched
/// off, which the terminal and the settings of the process decide, and the
/// painted text where they are on.
pub open spec fn shows(out: Seq<char>, code: Seq<char>, text: Seq<char>) -> bool {
    out == text || out == painted(code, text)
}

/// Formats what `Colorize::bright_red` makes of `text`. The result is the
/// text, alone or painted with colour code 91.
#[verifier::external_body]
pub(crate) fn bright_red(text: &str) -> (out: String)
    requires
        !text@.contains('\x1b'),
    ensures
        shows(out@, seq!['9', '1'], text@),
{
    format!("{}", text.bright_red())
}

/// Formats what `Colorize::cyan` makes of `text`. The result is the text,
/// alone or painted with colour code 36.
#[verifier::external_body]
pub(crate) fn cyan(text: &str) -> (out: String)
    requires
        !text@.contains('\x1b'),
    ensures
        shows(out@, seq!['3', '6'], text@),
{
    format!("{}", text.cyan())
}

/// Formats what `Colorize::green` makes of `text`. The result is the text,
/// alone or painted with colour code 32.
#[verifier::external_body]
pub(crate) fn green(text: &str) -> (out: String)
    requires
        !text@.contains('\x1b'),
    ensures
        shows(out@, seq!['3', '2'], text@),
{
    format!("{}", text.green())
}

/// Formats what `Colorize::yellow` makes of `text`. The result is the text,
/// alone or painted with colour code 33.
#[verifier::external_body]
pub(crate) fn yellow(text: &str) -> (out: String)
    requires
        !text@.contains('\x1b'),
    ensures
        shows(out@, seq!['3', '3'], text@),
{
    format!("{}", text.yellow())
}

/// Formats what `Colorize::red` makes of `text`. The result is the text,
/// alone or painted with colour code 31.
#[verifier::external_body]
pub(crate) fn red(text: &str) -> (out: String)
    requires
        !text@.contains('\x1b'),
    ensures
        shows(out@, seq!['3', '1'], text@),
{
    format!("{}", text.red())
}

/// Formats what `Colorize::normal` makes of `text`: a text without colour
/// or style, which reads as the text itself.
#[verifier::external_body]
pub(crate) fn normal(text: &str) -> (out: String)
    ensures
        out@ == text@,
{
    format!("{}", text.normal())
}

} // verus!
