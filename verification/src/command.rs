//! Reading a command from a line of text.

use vstd::prelude::*;
use crate::entity::Direction;
use crate::model::Command;

verus! {

/// What `str::to_lowercase` makes of a text.
pub uninterp spec fn lowercased(text: Seq<char>) -> Seq<char>;

/// What `str::trim` leaves of a text.
pub uninterp spec fn trimmed(text: Seq<char>) -> Seq<char>;

/// The command that a token stands for: one of the five words, in lower case
/// and without anything around it.
pub open spec fn command_of(token: Seq<char>) -> Option<Command> {
    if token == seq!['u', 'p'] {
        Some(Command::Move(Direction::Up))
    } else if token == seq!['d', 'o', 'w', 'n'] {
        Some(Command::Move(Direction::Down))
    } else if token == seq!['l', 'e', 'f', 't'] {
        Some(Command::Move(Direction::Left))
    } else if token == seq!['r', 'i', 'g', 'h', 't'] {
        Some(Command::Move(Direction::Right))
    } else if token == seq!['s', 't', 'e', 'a', 'l'] {
        Some(Command::Steal)
    } else {
        None
    }
}

/// Lower-cases a text with `str::to_lowercase`.
///
/// Trusted: the result follows Unicode's case mapping, which is long to
/// state; the contract only gives it the name `lowercased`.
#[verifier::external_body]
pub(crate) fn lowercase(text: &str) -> (lower: String)
    ensures
        lower@ == lowercased(text@),
{
    text.to_lowercase()
}

/// Strips leading and trailing white space with `str::trim`.
///
/// Trusted: what counts as white space is Unicode's `White_Space` property;
/// the contract only gives the result the name `trimmed`.
#[verifier::external_body]
pub(crate) fn trim(text: &str) -> (inner: &str)
    ensures
        inner@ == trimmed(text@),
{
    text.trim()
}

/// Tells whether two texts hold the same characters.
fn same_text(a: &str, b: &str) -> (same: bool)
    ensures
        same == (a@ == b@),
{
    let left = a.to_owned();
    let right = b.to_owned();
    left == right
}

impl Command {
    /// The command that `token` stands for, if it is one of the five words
    /// `up`, `down`, `left`, `right` and `steal` exactly.
    pub fn from_token(token: &str) -> (command: Option<Command>)
        ensures
            command == command_of(token@),
    {
        proof {
            reveal_strlit("up");
            reveal_strlit("down");
            reveal_strlit("left");
            reveal_strlit("right");
            reveal_strlit("steal");
            assert("up"@ =~= seq!['u', 'p']);
            assert("down"@ =~= seq!['d', 'o', 'w', 'n']);
            assert("left"@ =~= seq!['l', 'e', 'f', 't']);
            assert("right"@ =~= seq!['r', 'i', 'g', 'h', 't']);
            assert("steal"@ =~= seq!['s', 't', 'e', 'a', 'l']);
        }
        if same_text(token, "up") {
            Some(Command::Move(Direction::Up))
        } else if same_text(token, "down") {
            Some(Command::Move(Direction::Down))
        } else if same_text(token, "left") {
            Some(Command::Move(Direction::Left))
        } else if same_text(token, "right") {
            Some(Command::Move(Direction::Right))
        } else if same_text(token, "steal") {
            Some(Command::Steal)
        } else {
            None
        }
    }

    /// Reads a command from a line of input, whatever its case and the white
    /// space around it. Any other line gives `None`.
    pub fn parse(line: &str) -> (command: Option<Command>)
        ensures
            command == command_of(trimmed(lowercased(line@))),
    {
        let lower = lowercase(line);
        Command::from_token(trim(lower.as_str()))
    }
}

} // verus!
