//! Character equivalence: two characters are the same letter when they are
//! identical, or when folding the diacritic off either one yields the other.

use vstd::prelude::*;
use vstd::string::StrSliceExecFns;

verus! {

/// Diacritic folding: each accented vowel goes to its base vowel; every
/// other character stays itself.
pub open spec fn spec_asciify(c: char) -> char {
    if c == 'á' {
        'a'
    } else if c == 'é' {
        'e'
    } else if c == 'í' {
        'i'
    } else if c == 'ó' {
        'o'
    } else if c == 'ú' {
        'u'
    } else if c == 'ü' {
        'u'
    } else {
        c
    }
}

/// A character is accented exactly when folding changes it.
pub open spec fn spec_is_accented(c: char) -> bool {
    spec_asciify(c) != c
}

/// Equivalence of two characters as letters of the game: identical, or one
/// is the folded form of the other.
pub open spec fn spec_compare_chars(a: char, b: char) -> bool {
    a == b || spec_asciify(a) == b || a == spec_asciify(b)
}

/// Equivalence is symmetric: folding from either side is allowed, so the
/// order of the two characters never matters.
pub proof fn lemma_compare_chars_symmetric(a: char, b: char)
    ensures
        spec_compare_chars(a, b) == spec_compare_chars(b, a),
{
}

/// Folds the diacritic off an accented vowel; identity on everything else.
pub fn asciify(c: char) -> (r: char)
    ensures
        r == spec_asciify(c),
{
    match c {
        'á' => 'a',
        'é' => 'e',
        'í' => 'i',
        'ó' => 'o',
        'ú' | 'ü' => 'u',
        other => other,
    }
}

/// True when the string holds at least one accented character.
pub fn has_non_ascii(s: &str) -> (r: bool)
    ensures
        r == exists|i: int| 0 <= i < s@.len() && spec_is_accented(s@[i]),
{
    let n = s.unicode_len();
    let mut i: usize = 0;
    while i < n
        invariant
            n == s@.len(),
            i <= n,
            forall|k: int| 0 <= k < i ==> !spec_is_accented(s@[k]),
        decreases n - i,
    {
        let c = s.get_char(i);
        if asciify(c) != c {
            return true;
        }
        i += 1;
    }
    false
}

/// The string with every character folded.
pub fn asciify_str(s: &str) -> (r: String)
    ensures
        r@ == s@.map_values(|c: char| spec_asciify(c)),
{
    let n = s.unicode_len();
    let mut r = String::new();
    let mut i: usize = 0;
    while i < n
        invariant
            n == s@.len(),
            i <= n,
            r@ == s@.subrange(0, i as int).map_values(|c: char| spec_asciify(c)),
        decreases n - i,
    {
        crate::text::push_char(&mut r, asciify(s.get_char(i)));
        i += 1;
        proof {
            assert(r@ =~= s@.subrange(0, i as int).map_values(|c: char| spec_asciify(c)));
        }
    }
    proof {
        assert(s@.subrange(0, n as int) =~= s@);
        assert(r@ =~= s@.map_values(|c: char| spec_asciify(c)));
    }
    r
}

/// Checks whether two characters are the same letter up to diacritics.
pub fn compare_chars(a: char, b: char) -> (r: bool)
    ensures
        r == spec_compare_chars(a, b),
{
    a == b || asciify(a) == b || a == asciify(b)
}

} // verus!
