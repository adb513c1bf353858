//! The alphabet hint map: every legal letter of the round, each carrying the
//! best verdict seen for it so far. Entries are kept sorted by character
//! code, and a letter's verdict only ever moves up the `Correct` >
//! `Misplaced` > `Incorrect` order — later guesses can never erase earlier
//! good news about a letter.

use vstd::prelude::*;
use vstd::pervasive::VecAdditionalExecFns;
use crate::letter::{Char, CharStatus, rank, spec_rank};

verus! {

/// Entries are strictly ascending by character code, so every character
/// appears at most once.
pub open spec fn sorted_unique(s: Seq<Char>) -> bool {
    forall|i: int, j: int| 0 <= i < j < s.len() ==> (s[i].character as u32) < (s[j].character as u32)
}

/// Whether some entry carries the character.
pub open spec fn has_letter(s: Seq<Char>, c: char) -> bool {
    exists|i: int| 0 <= i < s.len() && s[i].character == c
}

/// The verdict recorded for the character (meaningful when the character
/// appears exactly once).
pub open spec fn status_of(s: Seq<Char>, c: char) -> CharStatus {
    s[choose|i: int| 0 <= i < s.len() && s[i].character == c].status
}

/// The entries as a map from character to its recorded verdict.
pub open spec fn hint_map(s: Seq<Char>) -> Map<char, CharStatus> {
    Map::new(|c: char| has_letter(s, c), |c: char| status_of(s, c))
}

/// The upgrade-only merge: a credit replaces the recorded verdict only when
/// it reveals strictly more, and a credit for an unknown character changes
/// nothing.
pub open spec fn spec_upgrade(h: Map<char, CharStatus>, c: char, status: CharStatus) -> Map<
    char,
    CharStatus,
> {
    if h.dom().contains(c) && spec_rank(status) > spec_rank(h[c]) {
        h.insert(c, status)
    } else {
        h
    }
}

/// In a sorted-unique sequence, the map agrees with the entry at each index.
pub proof fn lemma_hint_map_index(s: Seq<Char>, i: int)
    requires
        sorted_unique(s),
        0 <= i < s.len(),
    ensures
        hint_map(s).dom().contains(s[i].character),
        hint_map(s)[s[i].character] == s[i].status,
{
    let c = s[i].character;
    assert(has_letter(s, c));
    let j = choose|k: int| 0 <= k < s.len() && s[k].character == c;
    if j < i {
        assert((s[j].character as u32) < (s[i].character as u32));
    } else if i < j {
        assert((s[i].character as u32) < (s[j].character as u32));
    }
}

/// Updating one entry's verdict updates exactly that character in the map.
proof fn lemma_hint_map_update(s: Seq<Char>, i: int, status: CharStatus)
    requires
        sorted_unique(s),
        0 <= i < s.len(),
    ensures
        sorted_unique(s.update(i, Char { character: s[i].character, status })),
        hint_map(s.update(i, Char { character: s[i].character, status })) =~= hint_map(s).insert(
            s[i].character,
            status,
        ),
{
    let c = s[i].character;
    let t = s.update(i, Char { character: c, status });
    assert(forall|k: int| 0 <= k < s.len() ==> t[k].character == s[k].character);
    assert forall|d: char| has_letter(t, d) <==> has_letter(s, d) by {
        if has_letter(t, d) {
            let k = choose|k: int| 0 <= k < t.len() && t[k].character == d;
            assert(s[k].character == d);
        }
        if has_letter(s, d) {
            let k = choose|k: int| 0 <= k < s.len() && s[k].character == d;
            assert(t[k].character == d);
        }
    }
    assert forall|d: char| has_letter(s, d) implies #[trigger] hint_map(t)[d] == hint_map(
        s,
    ).insert(c, status)[d] by {
        let k = choose|k: int| 0 <= k < t.len() && t[k].character == d;
        lemma_hint_map_index(t, k);
        if d == c {
            if k != i {
                lemma_hint_map_index(t, i);
            }
            assert(hint_map(t)[d] == status);
        } else {
            assert(k != i);
            lemma_hint_map_index(s, k);
        }
    }
}

/// Inserts a character at its sorted position, or leaves the sequence alone
/// when the character is already present. New entries start unset.
fn insert_letter(letters: &mut Vec<Char>, c: char)
    requires
        sorted_unique(old(letters)@),
    ensures
        sorted_unique(final(letters)@),
        forall|d: char| has_letter(final(letters)@, d) <==> (has_letter(old(letters)@, d) || d
            == c),
        (forall|m: int| 0 <= m < old(letters)@.len() ==> old(letters)@[m].status
            == CharStatus::Incorrect) ==> (forall|k: int|
            0 <= k < final(letters)@.len() ==> final(letters)@[k].status == CharStatus::Incorrect),
{
    let ghost s0 = letters@;
    let n = letters.len();
    let mut i: usize = 0;
    while i < n && (letters[i].character as u32) < (c as u32)
        invariant
            letters@ == s0,
            sorted_unique(s0),
            n == s0.len(),
            i <= n,
            forall|k: int| 0 <= k < i ==> (s0[k].character as u32) < (c as u32),
        decreases n - i,
    {
        i += 1;
    }
    if i < n && letters[i].character == c {
        proof {
            assert(forall|d: char|
                has_letter(letters@, d) <==> (has_letter(s0, d) || d == c));
        }
        return ;
    }
    proof {
        assert(forall|k: int| i <= k < s0.len() ==> (c as u32) <= (s0[k].character as u32)) by {
            assert(forall|k: int| i < k < s0.len() ==> (s0[i as int].character as u32) < (
            s0[k].character as u32));
        }
        assert(forall|k: int| 0 <= k < s0.len() ==> s0[k].character != c);
    }
    letters.insert(i, Char { character: c, status: CharStatus::Incorrect });
    proof {
        let t = letters@;
        assert forall|p: int, q: int| 0 <= p < q < t.len() implies (t[p].character as u32) < (
        t[q].character as u32) by {
            if q < i {
            } else if p >= i + 1 {
            } else if p < i && q == i {
            } else if p == i && q > i {
            } else if p < i && q > i {
                assert((t[p].character as u32) < (c as u32));
                assert((c as u32) < (t[q].character as u32));
            }
        }
        assert forall|d: char| has_letter(t, d) <==> (has_letter(s0, d) || d == c) by {
            if has_letter(t, d) {
                let k = choose|k: int| 0 <= k < t.len() && t[k].character == d;
                if k < i {
                    assert(s0[k].character == d);
                } else if k > i {
                    assert(s0[k - 1].character == d);
                }
            }
            if has_letter(s0, d) {
                let k = choose|k: int| 0 <= k < s0.len() && s0[k].character == d;
                if k < i {
                    assert(t[k].character == d);
                } else {
                    assert(t[k + 1].character == d);
                }
            }
            if d == c {
                assert(t[i as int].character == c);
            }
        }
    }
}

/// The alphabet hint map of one round.
pub struct Abecedary {
    letters: Vec<Char>,
}

impl View for Abecedary {
    type V = Map<char, CharStatus>;

    closed spec fn view(&self) -> Map<char, CharStatus> {
        hint_map(self.letters@)
    }
}

impl Abecedary {
    /// Well-formed: entries strictly sorted by character code.
    pub closed spec fn wf(&self) -> bool {
        sorted_unique(self.letters@)
    }

    /// The sorted entry sequence behind the map.
    pub closed spec fn spec_letters(&self) -> Seq<Char> {
        self.letters@
    }

    /// The map is exactly the hint map of the sorted entry sequence.
    pub proof fn lemma_letters_view(&self)
        requires
            self.wf(),
        ensures
            sorted_unique(self.spec_letters()),
            self@ == hint_map(self.spec_letters()),
    {
    }

    /// Builds the map over the given legal characters, all starting at the
    /// unset verdict.
    pub fn new(alphabet: &[char]) -> (r: Abecedary)
        ensures
            r.wf(),
            forall|c: char| r@.dom().contains(c) <==> alphabet@.contains(c),
            forall|c: char| r@.dom().contains(c) ==> r@[c] == CharStatus::Incorrect,
    {
        let mut letters: Vec<Char> = Vec::new();
        let mut i: usize = 0;
        while i < alphabet.len()
            invariant
                i <= alphabet@.len(),
                sorted_unique(letters@),
                forall|c: char| has_letter(letters@, c) <==> (exists|k: int|
                    0 <= k < i && alphabet@[k] == c),
                forall|k: int| 0 <= k < letters@.len() ==> letters@[k].status
                    == CharStatus::Incorrect,
            decreases alphabet@.len() - i,
        {
            let ghost before = letters@;
            insert_letter(&mut letters, alphabet[i]);
            i += 1;
            proof {
                assert forall|c: char| has_letter(letters@, c) <==> (exists|k: int|
                    0 <= k < i && alphabet@[k] == c) by {
                    if has_letter(letters@, c) {
                        if has_letter(before, c) {
                            let k = choose|k: int| 0 <= k < i - 1 && alphabet@[k] == c;
                            assert(0 <= k < i && alphabet@[k] == c);
                        } else {
                            assert(alphabet@[i - 1] == c);
                        }
                    }
                    if exists|k: int| 0 <= k < i && alphabet@[k] == c {
                        let k = choose|k: int| 0 <= k < i && alphabet@[k] == c;
                        if k < i - 1 {
                            assert(has_letter(before, c));
                        }
                    }
                }
            }
        }
        let r = Abecedary { letters };
        proof {
            assert forall|c: char| r@.dom().contains(c) <==> alphabet@.contains(c) by {
                assert(r@.dom().contains(c) <==> has_letter(r.letters@, c));
                if alphabet@.contains(c) {
                    let k = choose|k: int| 0 <= k < alphabet@.len() && alphabet@[k] == c;
                    assert(exists|k: int| 0 <= k < alphabet@.len() && alphabet@[k] == c);
                }
            }
            assert forall|c: char| r@.dom().contains(c) implies r@[c]
                == CharStatus::Incorrect by {
                let k = choose|k: int|
                    0 <= k < r.letters@.len() && r.letters@[k].character == c;
                lemma_hint_map_index(r.letters@, k);
            }
        }
        r
    }

    /// Records a credit for the character: the entry moves to the new
    /// verdict only when that verdict reveals strictly more.
    pub fn upgrade(&mut self, c: char, status: CharStatus)
        requires
            old(self).wf(),
            old(self)@.dom().contains(c),
        ensures
            final(self).wf(),
            final(self)@ == spec_upgrade(old(self)@, c, status),
            final(self).spec_letters().len() == old(self).spec_letters().len(),
            forall|k: int| 0 <= k < old(self).spec_letters().len() ==> final(self).spec_letters()[k].character
                == old(self).spec_letters()[k].character,
    {
        let ghost s0 = self.letters@;
        let i = self.index_of(c);
        let entry = self.letters[i];
        proof {
            lemma_hint_map_index(s0, i as int);
        }
        if rank(status) > rank(entry.status) {
            self.letters.set(i, Char { character: entry.character, status });
            proof {
                lemma_hint_map_update(s0, i as int, status);
                assert(self@ =~= spec_upgrade(hint_map(s0), c, status));
            }
        } else {
            proof {
                assert(self@ =~= spec_upgrade(hint_map(s0), c, status));
            }
        }
    }

    /// The entries, sorted by character code.
    pub fn entries(&self) -> (r: Vec<Char>)
        ensures
            r@ == self.spec_letters(),
    {
        let mut r: Vec<Char> = Vec::new();
        let mut i: usize = 0;
        while i < self.letters.len()
            invariant
                i <= self.letters@.len(),
                r@ == self.letters@.subrange(0, i as int),
            decreases self.letters@.len() - i,
        {
            r.push(self.letters[i]);
            i += 1;
            proof {
                assert(r@ =~= self.letters@.subrange(0, i as int));
            }
        }
        proof {
            assert(r@ =~= self.letters@);
        }
        r
    }

    /// Index of the entry holding the character.
    fn index_of(&self, c: char) -> (r: usize)
        requires
            self.wf(),
            self@.dom().contains(c),
        ensures
            r < self.spec_letters().len(),
            self.spec_letters()[r as int].character == c,
    {
        let mut i: usize = 0;
        while i < self.letters.len()
            invariant
                has_letter(self.letters@, c),
                i <= self.letters@.len(),
                forall|k: int| 0 <= k < i ==> self.letters@[k].character != c,
            decreases self.letters@.len() - i,
        {
            if self.letters[i].character == c {
                return i;
            }
            i += 1;
        }
        proof {
            let k = choose|k: int|
                0 <= k < self.letters@.len() && self.letters@[k].character == c;
            assert(false);
        }
        0
    }
}

} // verus!
