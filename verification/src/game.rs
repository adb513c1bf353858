//! The round's rules that are pure computation: what makes a guess
//! acceptable, and how many tries are left. The interactive loop that asks
//! for guesses and prints feedback lives outside the crate.

use vstd::prelude::*;
use vstd::string::StrSliceExecFns;
use crate::dictionary::has_word;

verus! {

/// Every word of a round has exactly this many characters.
pub const WORD_LENGTH: usize = 5;

/// Why a guess was turned away.
#[derive(Clone, Copy, Debug, PartialEq, Eq, Structural)]
pub enum GuessError {
    /// Some character is not in the abecedary.
    InvalidChars,
    /// The guess does not have exactly the word length in characters.
    InvalidLen,
    /// The guess is not a word of the dictionary.
    UnknownWord,
}

/// Whether some word of the list has the given characters.
pub fn contains_word(ws: &Vec<String>, w: &str) -> (r: bool)
    ensures
        r == has_word(ws@, w@),
{
    let mut i: usize = 0;
    while i < ws.len()
        invariant
            i <= ws@.len(),
            forall|k: int| 0 <= k < i ==> ws@[k]@ != w@,
        decreases ws@.len() - i,
    {
        if crate::text::str_eq(ws[i].as_str(), w) {
            proof {
                assert(ws@[i as int]@ == w@);
            }
            return true;
        }
        i += 1;
    }
    proof {
        if has_word(ws@, w@) {
            let k = choose|k: int| 0 <= k < ws@.len() && ws@[k]@ == w@;
            assert(false);
        }
    }
    false
}

/// Whether the character is one of the list.
pub fn contains_char(cs: &Vec<char>, c: char) -> (r: bool)
    ensures
        r == cs@.contains(c),
{
    let mut i: usize = 0;
    while i < cs.len()
        invariant
            i <= cs@.len(),
            forall|k: int| 0 <= k < i ==> cs@[k] != c,
        decreases cs@.len() - i,
    {
        if cs[i] == c {
            proof {
                assert(cs@.contains(c));
            }
            return true;
        }
        i += 1;
    }
    proof {
        if cs@.contains(c) {
            let k = choose|k: int| 0 <= k < cs@.len() && cs@[k] == c;
            assert(false);
        }
    }
    false
}

/// Checks a submitted guess, in the order the player is told about
/// problems: every character must be a legal letter, the length must be the
/// word length (counted in characters, so accented words measure
/// correctly), and the word must be in the dictionary.
pub fn validate(guess: &str, words: &Vec<String>, abecedary: &Vec<char>) -> (r: Result<
    (),
    GuessError,
>)
    ensures
        r == (if exists|i: int| 0 <= i < guess@.len() && !abecedary@.contains(guess@[i]) {
            Err::<(), GuessError>(GuessError::InvalidChars)
        } else if guess@.len() != WORD_LENGTH {
            Err::<(), GuessError>(GuessError::InvalidLen)
        } else if !has_word(words@, guess@) {
            Err::<(), GuessError>(GuessError::UnknownWord)
        } else {
            Ok::<(), GuessError>(())
        }),
{
    let n = guess.unicode_len();
    let mut i: usize = 0;
    while i < n
        invariant
            n == guess@.len(),
            i <= n,
            forall|k: int| 0 <= k < i ==> abecedary@.contains(guess@[k]),
        decreases n - i,
    {
        if !contains_char(abecedary, guess.get_char(i)) {
            return Err(GuessError::InvalidChars);
        }
        i += 1;
    }
    if n != WORD_LENGTH {
        return Err(GuessError::InvalidLen);
    }
    if !contains_word(words, guess) {
        return Err(GuessError::UnknownWord);
    }
    Ok(())
}

/// How many tries remain out of the budget.
pub fn tries_left(tries: u8, max_tries: u8) -> (r: u8)
    requires
        tries <= max_tries,
    ensures
        r == max_tries - tries,
{
    max_tries - tries
}

} // verus!
