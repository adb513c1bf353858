//! A letter of the game: a character together with its verdict for the
//! current comparison, and the verdict ordering used by the hint map.

use vstd::prelude::*;

verus! {

/// The verdict on one letter: in its place, elsewhere in the word, or not
/// available; a fresh letter starts at `Incorrect`.
#[derive(Clone, Copy, Debug, PartialEq, Eq, Structural)]
pub enum CharStatus {
    Correct,
    Misplaced,
    Incorrect,
}

/// How much a verdict reveals: `Correct` beats `Misplaced` beats
/// `Incorrect`. The hint map only ever moves a letter up this order.
pub open spec fn spec_rank(s: CharStatus) -> int {
    match s {
        CharStatus::Correct => 2,
        CharStatus::Misplaced => 1,
        CharStatus::Incorrect => 0,
    }
}

/// A letter with the given verdict.
pub open spec fn spec_letter(c: char, status: CharStatus) -> Char {
    Char { character: c, status }
}

/// A character annotated with its verdict.
#[derive(Clone, Copy, Debug, PartialEq, Eq, Structural)]
pub struct Char {
    pub character: char,
    pub status: CharStatus,
}

impl Char {
    /// A fresh letter starts with the unset verdict.
    pub fn new(c: char) -> (r: Char)
        ensures
            r == (Char { character: c, status: CharStatus::Incorrect }),
    {
        Char { character: c, status: CharStatus::Incorrect }
    }

    /// True while the letter has not been claimed as correct or misplaced.
    pub fn is_incorrect(&self) -> (r: bool)
        ensures
            r == (self.status == CharStatus::Incorrect),
    {
        match self.status {
            CharStatus::Incorrect => true,
            _ => false,
        }
    }

    /// Replaces the verdict, keeping the character.
    pub fn set_status(&mut self, status: CharStatus)
        ensures
            *final(self) == (Char { character: old(self).character, status }),
    {
        self.status = status;
    }
}

/// The rank of a verdict, computed.
pub fn rank(s: CharStatus) -> (r: u8)
    ensures
        r as int == spec_rank(s),
{
    match s {
        CharStatus::Correct => 2,
        CharStatus::Misplaced => 1,
        CharStatus::Incorrect => 0,
    }
}

} // verus!
