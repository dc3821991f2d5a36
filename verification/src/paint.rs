//! Colouring of display text for a terminal.

use vstd::prelude::*;

verus! {

/// `out` is `text` as a terminal shows it in some colour: either `text`
/// itself, or `text` between an escape sequence that selects the colour and
/// the one that resets it.
pub open spec fn is_painted(out: Seq<char>, text: Seq<char>) -> bool {
    ||| out == text
    ||| exists|code: Seq<char>|
        out == seq!['\x1b', '['] + code + seq!['m'] + text + seq!['\x1b', '[', '0', 'm']
}

/// Paints `text` in the colour `(r, g, b)` with `colored::Colorize::truecolor`
/// and renders the result through its `Display` impl.
///
/// Trusted: `colored` decides from the process's variables (`NO_COLOR`,
/// `CLICOLOR`, `CLICOLOR_FORCE`, `COLORTERM`), from whether standard output
/// is a terminal and from its manual override whether it writes escape
/// sequences and which colour code it selects. So the contract claims only what holds of every
/// outcome: the result is `text` unchanged, or `text` between `ESC [ code m`
/// and the reset sequence `ESC [ 0 m`. A text that holds an escape character
/// is left out, because `colored` rewrites reset sequences inside the text.
#[verifier::external_body]
pub(crate) fn paint_truecolor(text: &str, r: u8, g: u8, b: u8) -> (out: String)
    requires
        !text@.contains('\x1b'),
    ensures
        is_painted(out@, text@),
{
    format!("{}", colored::Colorize::truecolor(text, r, g, b))
}

} // verus!
