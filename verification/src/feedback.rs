//! The feedback engine. It owns the secret word and the running alphabet
//! hint state; each submitted guess is compared in three passes (correct,
//! misplaced, incorrect) and the annotated result is appended to the round's
//! history.
//!
//! The passes run in a fixed order because positions get claimed: the
//! correct pass claims every position where guess and secret agree; the
//! misplaced pass then lets each remaining guess letter claim the leftmost
//! unclaimed equivalent secret letter, at most one guess letter per secret
//! occurrence; whatever is left is incorrect.

use vstd::prelude::*;
use vstd::pervasive::VecAdditionalExecFns;
use crate::ascii::{spec_compare_chars, compare_chars};
use crate::letter::{Char, CharStatus, spec_letter};
use crate::abecedary::{Abecedary, has_letter, sorted_unique, spec_upgrade, lemma_hint_map_index};
use crate::text::push_char;

verus! {

/// The characters of a letter sequence.
pub open spec fn chars_of(s: Seq<Char>) -> Seq<char> {
    s.map_values(|l: Char| l.character)
}

/// The verdicts of a letter sequence.
pub open spec fn statuses_of(s: Seq<Char>) -> Seq<CharStatus> {
    s.map_values(|l: Char| l.status)
}

/// Outcome of the marking passes on one guess: the per-position guess
/// verdicts, which secret positions are claimed, and which secret position
/// each credited guess position claimed.
pub struct Marking {
    pub verdicts: Seq<CharStatus>,
    pub claimed: Seq<bool>,
    pub assign: Map<int, int>,
}

/// After the correct pass: a position is `Correct` exactly when the guess
/// and secret letters there are equivalent, and such a position claims
/// itself.
pub open spec fn initial_marking(secret: Seq<char>, guess: Seq<char>) -> Marking {
    Marking {
        verdicts: Seq::new(
            guess.len(),
            |i: int|
                if spec_compare_chars(guess[i], secret[i]) {
                    CharStatus::Correct
                } else {
                    CharStatus::Incorrect
                },
        ),
        claimed: Seq::new(
            secret.len(),
            |j: int| j < guess.len() && spec_compare_chars(guess[j], secret[j]),
        ),
        assign: Map::new(
            |i: int| 0 <= i < guess.len() && spec_compare_chars(guess[i], secret[i]),
            |i: int| i,
        ),
    }
}

/// The leftmost secret position at or after `j` that is unclaimed and holds
/// a letter equivalent to `c`.
pub open spec fn first_unclaimed(c: char, secret: Seq<char>, claimed: Seq<bool>, j: int) -> Option<
    int,
>
    decreases secret.len() - j,
{
    if j < 0 || j >= secret.len() {
        None
    } else if !claimed[j] && spec_compare_chars(c, secret[j]) {
        Some(j)
    } else {
        first_unclaimed(c, secret, claimed, j + 1)
    }
}

/// One step of the misplaced pass, for guess position `idx`: a guess letter
/// not already correct claims the leftmost unclaimed equivalent secret
/// letter, if any.
pub open spec fn misplaced_step(secret: Seq<char>, guess: Seq<char>, m: Marking, idx: int) -> Marking {
    if m.verdicts[idx] == CharStatus::Correct {
        m
    } else {
        match first_unclaimed(guess[idx], secret, m.claimed, 0) {
            Some(j) => Marking {
                verdicts: m.verdicts.update(idx, CharStatus::Misplaced),
                claimed: m.claimed.update(j, true),
                assign: m.assign.insert(idx, j),
            },
            None => m,
        }
    }
}

/// The marking after the correct pass and the misplaced pass over guess
/// positions `0..i`.
pub open spec fn marking_upto(secret: Seq<char>, guess: Seq<char>, i: int) -> Marking
    decreases i,
{
    if i <= 0 {
        initial_marking(secret, guess)
    } else {
        misplaced_step(secret, guess, marking_upto(secret, guess, i - 1), i - 1)
    }
}

/// The marking of a guess against a secret after all passes.
pub open spec fn marking(secret: Seq<char>, guess: Seq<char>) -> Marking {
    marking_upto(secret, guess, guess.len() as int)
}

/// The verdict left on a secret position: `Correct` where the guess matched
/// in place, `Misplaced` where a misplaced guess letter claimed it,
/// `Incorrect` otherwise.
pub open spec fn secret_status(secret: Seq<char>, guess: Seq<char>, j: int) -> CharStatus {
    if 0 <= j < guess.len() && spec_compare_chars(guess[j], secret[j]) {
        CharStatus::Correct
    } else if marking(secret, guess).claimed[j] {
        CharStatus::Misplaced
    } else {
        CharStatus::Incorrect
    }
}

/// The guess wins when every position matches its secret letter.
pub open spec fn spec_win(secret: Seq<char>, guess: Seq<char>) -> bool {
    forall|i: int| 0 <= i < guess.len() ==> spec_compare_chars(guess[i], secret[i])
}

/// Hint credits of the correct pass over guess positions `0..i`: each
/// matched position credits the secret's character (the secret's accented
/// form is the true letter when the two differ only by a diacritic).
pub open spec fn hints_correct_upto(
    secret: Seq<char>,
    guess: Seq<char>,
    h: Map<char, CharStatus>,
    i: int,
) -> Map<char, CharStatus>
    decreases i,
{
    if i <= 0 {
        h
    } else {
        let prev = hints_correct_upto(secret, guess, h, i - 1);
        if spec_compare_chars(guess[i - 1], secret[i - 1]) {
            spec_upgrade(prev, secret[i - 1], CharStatus::Correct)
        } else {
            prev
        }
    }
}

/// Hint credits of the misplaced pass over guess positions `0..i`: a guess
/// letter that claims secret position `j` credits the secret's character at
/// `j`.
pub open spec fn hints_misplaced_upto(
    secret: Seq<char>,
    guess: Seq<char>,
    h: Map<char, CharStatus>,
    i: int,
) -> Map<char, CharStatus>
    decreases i,
{
    if i <= 0 {
        h
    } else {
        let prev = hints_misplaced_upto(secret, guess, h, i - 1);
        let m = marking_upto(secret, guess, i - 1);
        if m.verdicts[i - 1] != CharStatus::Correct && first_unclaimed(
            guess[i - 1],
            secret,
            m.claimed,
            0,
        ) is Some {
            spec_upgrade(
                prev,
                secret[first_unclaimed(guess[i - 1], secret, m.claimed, 0)->0],
                CharStatus::Misplaced,
            )
        } else {
            prev
        }
    }
}

/// Hint credits of the incorrect pass over guess positions `0..i`: a guess
/// letter left unclaimed credits its own character as incorrect (which, by
/// the upgrade-only merge, never erases better news).
pub open spec fn hints_incorrect_upto(
    secret: Seq<char>,
    guess: Seq<char>,
    h: Map<char, CharStatus>,
    i: int,
) -> Map<char, CharStatus>
    decreases i,
{
    if i <= 0 {
        h
    } else {
        let prev = hints_incorrect_upto(secret, guess, h, i - 1);
        if marking(secret, guess).verdicts[i - 1] == CharStatus::Incorrect {
            spec_upgrade(prev, guess[i - 1], CharStatus::Incorrect)
        } else {
            prev
        }
    }
}

/// The whole hint update of one comparison: the three passes' credits, in
/// pass order.
pub open spec fn compare_hints(secret: Seq<char>, guess: Seq<char>, h: Map<char, CharStatus>) -> Map<
    char,
    CharStatus,
> {
    let n = guess.len() as int;
    hints_incorrect_upto(
        secret,
        guess,
        hints_misplaced_upto(secret, guess, hints_correct_upto(secret, guess, h, n), n),
        n,
    )
}

/// Everything the engine holds, as mathematical values.
pub struct FeedbackModel {
    pub secret: Seq<Char>,
    pub guess: Seq<Char>,
    pub history: Seq<Seq<Char>>,
    pub hints: Map<char, CharStatus>,
    pub win: bool,
}

/// The engine's transition for one comparison: verdicts from the marking
/// passes, hint credits merged upgrade-only, the annotated guess appended
/// to the history, and the win flag set exactly when every position
/// matched.
pub open spec fn spec_compare(m: FeedbackModel, g: Seq<char>) -> FeedbackModel {
    let s = chars_of(m.secret);
    let mk = marking(s, g);
    let new_guess = Seq::new(g.len(), |i: int| spec_letter(g[i], mk.verdicts[i]));
    FeedbackModel {
        secret: Seq::new(m.secret.len(), |j: int| spec_letter(s[j], secret_status(s, g, j))),
        guess: new_guess,
        history: m.history.push(new_guess),
        hints: compare_hints(s, g, m.hints),
        win: spec_win(s, g),
    }
}

} // verus!

use vstd::prelude::*;

verus! {

/// What `first_unclaimed` finds: a position in range, unclaimed and
/// equivalent, with every earlier candidate failing; or a proof that every
/// candidate fails.
pub proof fn lemma_first_unclaimed_props(c: char, secret: Seq<char>, claimed: Seq<bool>, j0: int)
    requires
        0 <= j0,
    ensures
        match first_unclaimed(c, secret, claimed, j0) {
            Some(j) => j0 <= j < secret.len() && !claimed[j] && spec_compare_chars(c, secret[j])
                && (forall|k: int| j0 <= k < j ==> (claimed[k] || !spec_compare_chars(c, secret[k]))),
            None => forall|k: int| j0 <= k < secret.len() ==> (claimed[k] || !spec_compare_chars(
                c,
                secret[k],
            )),
        },
    decreases secret.len() - j0,
{
    if j0 < secret.len() {
        if !claimed[j0] && spec_compare_chars(c, secret[j0]) {
        } else {
            lemma_first_unclaimed_props(c, secret, claimed, j0 + 1);
        }
    }
}

/// Skipping a failing prefix does not change what is found.
pub proof fn lemma_first_unclaimed_skip(c: char, secret: Seq<char>, claimed: Seq<bool>, j: int)
    requires
        0 <= j <= secret.len(),
        forall|k: int| 0 <= k < j ==> (claimed[k] || !spec_compare_chars(c, secret[k])),
    ensures
        first_unclaimed(c, secret, claimed, 0) == first_unclaimed(c, secret, claimed, j),
    decreases j,
{
    if j > 0 {
        lemma_first_unclaimed_skip(c, secret, claimed, j - 1);
    }
}

/// The invariants of the misplaced pass, after processing guess positions
/// `0..i`: verdict lengths are fixed; unprocessed positions still carry
/// their correct-pass verdict; a position is `Correct` exactly when it
/// matches in place; the claim map covers exactly the credited positions,
/// respects equivalence, maps correct positions to themselves, is
/// injective, and its range is exactly the claimed secret positions.
pub proof fn lemma_marking_upto_props(secret: Seq<char>, guess: Seq<char>, i: int)
    requires
        guess.len() == secret.len(),
        0 <= i <= guess.len(),
    ensures
        ({
            let m = marking_upto(secret, guess, i);
            &&& m.verdicts.len() == guess.len()
            &&& m.claimed.len() == secret.len()
            &&& forall|k: int| i <= k < guess.len() ==> m.verdicts[k] == initial_marking(
                secret,
                guess,
            ).verdicts[k]
            &&& forall|k: int| 0 <= k < guess.len() ==> (m.verdicts[k] == CharStatus::Correct
                <==> spec_compare_chars(guess[k], secret[k]))
            &&& forall|k: int| m.assign.dom().contains(k) <==> (0 <= k < guess.len()
                && m.verdicts[k] != CharStatus::Incorrect)
            &&& forall|k: int| #[trigger] m.assign.dom().contains(k) ==> (0 <= m.assign[k]
                < secret.len() && spec_compare_chars(guess[k], secret[m.assign[k]])
                && m.claimed[m.assign[k]])
            &&& forall|k: int| 0 <= k < guess.len() && m.verdicts[k] == CharStatus::Correct
                ==> m.assign[k] == k
            &&& forall|k1: int, k2: int| m.assign.dom().contains(k1) && m.assign.dom().contains(k2)
                && k1 != k2 ==> m.assign[k1] != m.assign[k2]
            &&& forall|j: int| 0 <= j < secret.len() ==> (m.claimed[j] <==> exists|k: int|
                #[trigger] m.assign.dom().contains(k) && m.assign[k] == j)
        }),
    decreases i,
{
    if i == 0 {
        let m = initial_marking(secret, guess);
        assert forall|j: int| 0 <= j < secret.len() implies (m.claimed[j] <==> exists|k: int|
            #[trigger] m.assign.dom().contains(k) && m.assign[k] == j) by {
            if m.claimed[j] {
                assert(m.assign.dom().contains(j) && m.assign[j] == j);
            }
            if exists|k: int| #[trigger] m.assign.dom().contains(k) && m.assign[k] == j {
                let k = choose|k: int| #[trigger] m.assign.dom().contains(k) && m.assign[k] == j;
                assert(m.assign[k] == k);
            }
        }
    } else {
        lemma_marking_upto_props(secret, guess, i - 1);
        let mp = marking_upto(secret, guess, i - 1);
        let m = marking_upto(secret, guess, i);
        let idx = i - 1;
        if mp.verdicts[idx] == CharStatus::Correct {
        } else {
            lemma_first_unclaimed_props(guess[idx], secret, mp.claimed, 0);
            match first_unclaimed(guess[idx], secret, mp.claimed, 0) {
                None => {},
                Some(j) => {
                    assert(!mp.claimed[j]);
                    assert(!mp.assign.dom().contains(idx));
                    assert forall|jj: int| 0 <= jj < secret.len() implies (m.claimed[jj]
                        <==> exists|k: int| #[trigger] m.assign.dom().contains(k) && m.assign[k]
                        == jj) by {
                        if jj == j {
                            assert(m.assign.dom().contains(idx) && m.assign[idx] == j);
                        } else {
                            if mp.claimed[jj] {
                                let k = choose|k: int|
                                    #[trigger] mp.assign.dom().contains(k) && mp.assign[k] == jj;
                                assert(m.assign.dom().contains(k) && m.assign[k] == jj);
                            }
                            if exists|k: int| #[trigger] m.assign.dom().contains(k) && m.assign[k]
                                == jj {
                                let k = choose|k: int|
                                    #[trigger] m.assign.dom().contains(k) && m.assign[k] == jj;
                                assert(k != idx);
                                assert(mp.assign.dom().contains(k) && mp.assign[k] == jj);
                            }
                        }
                    }
                    assert forall|k1: int, k2: int|
                        m.assign.dom().contains(k1) && m.assign.dom().contains(k2) && k1
                        != k2 implies m.assign[k1] != m.assign[k2] by {
                        if k1 != idx && k2 != idx {
                        } else if k1 == idx {
                            if mp.assign[k2] == j {
                                assert(mp.claimed[j]);
                            }
                        } else {
                            if mp.assign[k1] == j {
                                assert(mp.claimed[j]);
                            }
                        }
                    }
                },
            }
        }
    }
}

/// Count-limited credit per letter: every guess position marked `Correct`
/// or `Misplaced` claims a secret position holding an equivalent letter, a
/// correct position claims its own, and no two guess positions ever claim
/// the same secret occurrence.
pub proof fn lemma_count_limited_credit(secret: Seq<char>, guess: Seq<char>)
    requires
        guess.len() == secret.len(),
    ensures
        ({
            let mk = marking(secret, guess);
            &&& forall|i: int| mk.assign.dom().contains(i) <==> (0 <= i < guess.len()
                && mk.verdicts[i] != CharStatus::Incorrect)
            &&& forall|i: int| #[trigger] mk.assign.dom().contains(i) ==> (0 <= mk.assign[i]
                < secret.len() && spec_compare_chars(guess[i], secret[mk.assign[i]]))
            &&& forall|i: int| 0 <= i < guess.len() && mk.verdicts[i] == CharStatus::Correct
                ==> mk.assign[i] == i
            &&& forall|i1: int, i2: int|
                mk.assign.dom().contains(i1) && mk.assign.dom().contains(i2) && i1 != i2
                    ==> mk.assign[i1] != mk.assign[i2]
        }),
{
    lemma_marking_upto_props(secret, guess, guess.len() as int);
}

/// The win flag is set exactly when every guess letter's verdict is
/// `Correct`.
pub proof fn lemma_win_iff_all_correct(secret: Seq<char>, guess: Seq<char>)
    requires
        guess.len() == secret.len(),
    ensures
        spec_win(secret, guess) <==> (forall|i: int|
            0 <= i < guess.len() ==> marking(secret, guess).verdicts[i] == CharStatus::Correct),
{
    lemma_marking_upto_props(secret, guess, guess.len() as int);
    let mk = marking(secret, guess);
    if spec_win(secret, guess) {
        assert forall|i: int| 0 <= i < guess.len() implies mk.verdicts[i]
            == CharStatus::Correct by {
            assert(spec_compare_chars(guess[i], secret[i]));
        }
    }
    if forall|i: int| 0 <= i < guess.len() ==> mk.verdicts[i] == CharStatus::Correct {
        assert forall|i: int| 0 <= i < guess.len() implies spec_compare_chars(
            guess[i],
            secret[i],
        ) by {
            assert(mk.verdicts[i] == CharStatus::Correct);
        }
    }
}

/// A guess identical to the secret, character for character, is marked
/// `Correct` at every position and wins.
pub proof fn lemma_exact_guess_wins(secret: Seq<char>, guess: Seq<char>)
    requires
        guess == secret,
    ensures
        spec_win(secret, guess),
        forall|i: int| 0 <= i < guess.len() ==> marking(secret, guess).verdicts[i]
            == CharStatus::Correct,
{
    lemma_marking_all_correct(secret, guess, guess.len() as int);
    lemma_marking_upto_props(secret, guess, guess.len() as int);
}

/// When every position matches, the misplaced pass changes nothing.
proof fn lemma_marking_all_correct(secret: Seq<char>, guess: Seq<char>, i: int)
    requires
        guess.len() == secret.len(),
        0 <= i <= guess.len(),
        forall|k: int| 0 <= k < guess.len() ==> spec_compare_chars(guess[k], secret[k]),
    ensures
        marking_upto(secret, guess, i) == initial_marking(secret, guess),
    decreases i,
{
    if i > 0 {
        lemma_marking_all_correct(secret, guess, i - 1);
    }
}

/// A guess sharing no letters with the secret is marked `Incorrect` at
/// every position and does not win.
pub proof fn lemma_disjoint_guess_loses(secret: Seq<char>, guess: Seq<char>)
    requires
        guess.len() == secret.len(),
        guess.len() > 0,
        forall|i: int, j: int| 0 <= i < guess.len() && 0 <= j < secret.len()
            ==> !spec_compare_chars(guess[i], secret[j]),
    ensures
        !spec_win(secret, guess),
        forall|i: int| 0 <= i < guess.len() ==> marking(secret, guess).verdicts[i]
            == CharStatus::Incorrect,
{
    lemma_marking_all_disjoint(secret, guess, guess.len() as int);
    assert(!spec_compare_chars(guess[0], secret[0]));
}

/// When no guess letter is equivalent to any secret letter, the misplaced
/// pass finds nothing to claim.
proof fn lemma_marking_all_disjoint(secret: Seq<char>, guess: Seq<char>, i: int)
    requires
        guess.len() == secret.len(),
        0 <= i <= guess.len(),
        forall|k: int, j: int| 0 <= k < guess.len() && 0 <= j < secret.len()
            ==> !spec_compare_chars(guess[k], secret[j]),
    ensures
        marking_upto(secret, guess, i) == initial_marking(secret, guess),
        forall|k: int| 0 <= k < guess.len() ==> marking_upto(secret, guess, i).verdicts[k]
            == CharStatus::Incorrect,
    decreases i,
{
    if i > 0 {
        lemma_marking_all_disjoint(secret, guess, i - 1);
        let mp = marking_upto(secret, guess, i - 1);
        lemma_first_unclaimed_props(guess[i - 1], secret, mp.claimed, 0);
        match first_unclaimed(guess[i - 1], secret, mp.claimed, 0) {
            Some(j) => {
                assert(spec_compare_chars(guess[i - 1], secret[j]));
            },
            None => {},
        }
    }
}

/// One upgrade never shrinks the map or lowers any letter's rank.
proof fn lemma_upgrade_monotonic(h: Map<char, CharStatus>, c: char, st: CharStatus)
    ensures
        spec_upgrade(h, c, st).dom() == h.dom(),
        forall|d: char| h.dom().contains(d) ==> crate::letter::spec_rank(
            #[trigger] spec_upgrade(h, c, st)[d],
        ) >= crate::letter::spec_rank(h[d]),
{
    if h.dom().contains(c) && crate::letter::spec_rank(st) > crate::letter::spec_rank(h[c]) {
        assert(spec_upgrade(h, c, st).dom() =~= h.dom());
    }
}

/// The correct pass's credits are monotonic.
proof fn lemma_hints_correct_monotonic(
    secret: Seq<char>,
    guess: Seq<char>,
    h: Map<char, CharStatus>,
    i: int,
)
    ensures
        hints_correct_upto(secret, guess, h, i).dom() == h.dom(),
        forall|d: char| h.dom().contains(d) ==> crate::letter::spec_rank(
            #[trigger] hints_correct_upto(secret, guess, h, i)[d],
        ) >= crate::letter::spec_rank(h[d]),
    decreases i,
{
    if i > 0 {
        lemma_hints_correct_monotonic(secret, guess, h, i - 1);
        let prev = hints_correct_upto(secret, guess, h, i - 1);
        if spec_compare_chars(guess[i - 1], secret[i - 1]) {
            lemma_upgrade_monotonic(prev, secret[i - 1], CharStatus::Correct);
        }
    }
}

/// The misplaced pass's credits are monotonic.
proof fn lemma_hints_misplaced_monotonic(
    secret: Seq<char>,
    guess: Seq<char>,
    h: Map<char, CharStatus>,
    i: int,
)
    ensures
        hints_misplaced_upto(secret, guess, h, i).dom() == h.dom(),
        forall|d: char| h.dom().contains(d) ==> crate::letter::spec_rank(
            #[trigger] hints_misplaced_upto(secret, guess, h, i)[d],
        ) >= crate::letter::spec_rank(h[d]),
    decreases i,
{
    if i > 0 {
        lemma_hints_misplaced_monotonic(secret, guess, h, i - 1);
        let prev = hints_misplaced_upto(secret, guess, h, i - 1);
        let m = marking_upto(secret, guess, i - 1);
        if m.verdicts[i - 1] != CharStatus::Correct && first_unclaimed(
            guess[i - 1],
            secret,
            m.claimed,
            0,
        ) is Some {
            lemma_upgrade_monotonic(
                prev,
                secret[first_unclaimed(guess[i - 1], secret, m.claimed, 0)->0],
                CharStatus::Misplaced,
            );
        }
    }
}

/// The incorrect pass's credits are monotonic.
proof fn lemma_hints_incorrect_monotonic(
    secret: Seq<char>,
    guess: Seq<char>,
    h: Map<char, CharStatus>,
    i: int,
)
    ensures
        hints_incorrect_upto(secret, guess, h, i).dom() == h.dom(),
        forall|d: char| h.dom().contains(d) ==> crate::letter::spec_rank(
            #[trigger] hints_incorrect_upto(secret, guess, h, i)[d],
        ) >= crate::letter::spec_rank(h[d]),
    decreases i,
{
    if i > 0 {
        lemma_hints_incorrect_monotonic(secret, guess, h, i - 1);
        let prev = hints_incorrect_upto(secret, guess, h, i - 1);
        if marking(secret, guess).verdicts[i - 1] == CharStatus::Incorrect {
            lemma_upgrade_monotonic(prev, guess[i - 1], CharStatus::Incorrect);
        }
    }
}

/// Alphabet hints never regress: one comparison keeps every letter of the
/// map, never lowers a letter's recorded rank, and a letter once `Correct`
/// stays `Correct`.
pub proof fn lemma_hints_monotonic(secret: Seq<char>, guess: Seq<char>, h: Map<char, CharStatus>)
    ensures
        compare_hints(secret, guess, h).dom() == h.dom(),
        forall|c: char| h.dom().contains(c) ==> crate::letter::spec_rank(
            #[trigger] compare_hints(secret, guess, h)[c],
        ) >= crate::letter::spec_rank(h[c]),
        forall|c: char| h.dom().contains(c) && h[c] == CharStatus::Correct ==> #[trigger] compare_hints(
            secret,
            guess,
            h,
        )[c] == CharStatus::Correct,
{
    let n = guess.len() as int;
    let h1 = hints_correct_upto(secret, guess, h, n);
    let h2 = hints_misplaced_upto(secret, guess, h1, n);
    lemma_hints_correct_monotonic(secret, guess, h, n);
    lemma_hints_misplaced_monotonic(secret, guess, h1, n);
    lemma_hints_incorrect_monotonic(secret, guess, h2, n);
    assert forall|c: char| h.dom().contains(c) && h[c] == CharStatus::Correct implies #[trigger] compare_hints(
        secret,
        guess,
        h,
    )[c] == CharStatus::Correct by {
        let r = compare_hints(secret, guess, h)[c];
        assert(crate::letter::spec_rank(r) >= 2);
        match r {
            CharStatus::Correct => {},
            CharStatus::Misplaced => {},
            CharStatus::Incorrect => {},
        }
    }
}

/// Comparing the same guess twice against the same engine yields the same
/// verdicts both times: the marking depends only on the secret's characters
/// and the guess, and a comparison never changes the secret's characters.
pub proof fn lemma_repeat_guess(m: FeedbackModel, g: Seq<char>)
    ensures
        chars_of(spec_compare(m, g).secret) == chars_of(m.secret),
        spec_compare(spec_compare(m, g), g).guess == spec_compare(m, g).guess,
        spec_compare(spec_compare(m, g), g).win == spec_compare(m, g).win,
{
    let s = chars_of(m.secret);
    let post = spec_compare(m, g);
    assert(post.secret.len() == m.secret.len());
    assert forall|j: int| 0 <= j < post.secret.len() implies #[trigger] chars_of(post.secret)[j]
        == s[j] by {
        assert(post.secret[j] == spec_letter(s[j], secret_status(s, g, j)));
    }
    assert(chars_of(post.secret) =~= s);
    assert(spec_compare(post, g).guess =~= spec_compare(m, g).guess);
}

} // verus!

verus! {

/// The claim pattern a letter sequence shows: a position is claimed when it
/// no longer carries the unset verdict.
pub open spec fn claimed_of(s: Seq<Char>) -> Seq<bool> {
    s.map_values(|l: Char| l.status != CharStatus::Incorrect)
}

/// A copy of a letter vector.
fn copy_letters(v: &Vec<Char>) -> (r: Vec<Char>)
    ensures
        r@ == v@,
{
    let mut r: Vec<Char> = Vec::new();
    let mut i: usize = 0;
    while i < v.len()
        invariant
            i <= v@.len(),
            r@ == v@.subrange(0, i as int),
        decreases v@.len() - i,
    {
        r.push(v[i]);
        i += 1;
        proof {
            assert(r@ =~= v@.subrange(0, i as int));
        }
    }
    proof {
        assert(r@ =~= v@);
    }
    r
}

/// The leftmost secret letter that is still unclaimed and equivalent to the
/// given character.
fn find_first_unclaimed(secret: &Vec<Char>, c: char) -> (r: Option<usize>)
    ensures
        ({
            let f = first_unclaimed(c, chars_of(secret@), claimed_of(secret@), 0);
            match r {
                Some(j) => f == Some(j as int) && j < secret@.len(),
                None => f is None,
            }
        }),
{
    let ghost s = chars_of(secret@);
    let ghost cl = claimed_of(secret@);
    let mut j: usize = 0;
    while j < secret.len()
        invariant
            s == chars_of(secret@),
            cl == claimed_of(secret@),
            j <= secret@.len(),
            forall|k: int| 0 <= k < j ==> (cl[k] || !spec_compare_chars(c, s[k])),
        decreases secret@.len() - j,
    {
        let entry = secret[j];
        if entry.is_incorrect() && compare_chars(c, entry.character) {
            proof {
                lemma_first_unclaimed_skip(c, s, cl, j as int);
            }
            return Some(j);
        }
        j += 1;
    }
    proof {
        lemma_first_unclaimed_skip(c, s, cl, secret@.len() as int);
    }
    None
}

/// The feedback engine of one round. It owns the secret, the last annotated
/// guess, the round's history and the alphabet hint map; `win` reports
/// whether the last comparison matched everywhere.
pub struct Feedback {
    secret: Vec<Char>,
    guess: Vec<Char>,
    feedback_history: Vec<Vec<Char>>,
    abecedary: Abecedary,
    pub win: bool,
}

impl View for Feedback {
    type V = FeedbackModel;

    closed spec fn view(&self) -> FeedbackModel {
        FeedbackModel {
            secret: self.secret@,
            guess: self.guess@,
            history: self.feedback_history@.map_values(|v: Vec<Char>| v@),
            hints: self.abecedary@,
            win: self.win,
        }
    }
}

impl Feedback {
    /// Well-formed: the hint map's entries are sorted and unique, and every
    /// character of the stored secret and guess is a legal letter.
    pub closed spec fn wf(&self) -> bool {
        &&& self.abecedary.wf()
        &&& forall|i: int| 0 <= i < self.secret@.len() ==> self.abecedary@.dom().contains(
            #[trigger] self.secret@[i].character,
        )
        &&& forall|i: int| 0 <= i < self.guess@.len() ==> self.abecedary@.dom().contains(
            #[trigger] self.guess@[i].character,
        )
    }

    /// A fresh engine for one round: it owns the secret, starts with an
    /// empty guess and history, and maps every legal character to the unset
    /// verdict. Every character of the secret must be a legal letter.
    pub fn new(secret_word: &[char], abecedary: &[char]) -> (r: Feedback)
        requires
            forall|i: int| 0 <= i < secret_word@.len() ==> abecedary@.contains(secret_word@[i]),
        ensures
            r.wf(),
            r@.secret == secret_word@.map_values(
                |c: char| spec_letter(c, CharStatus::Incorrect),
            ),
            r@.guess == Seq::<Char>::empty(),
            r@.history == Seq::<Seq<Char>>::empty(),
            forall|c: char| r@.hints.dom().contains(c) <==> abecedary@.contains(c),
            forall|c: char| #[trigger] r@.hints.dom().contains(c) ==> r@.hints[c]
                == CharStatus::Incorrect,
            r@.win == false,
    {
        let mut secret: Vec<Char> = Vec::new();
        let mut i: usize = 0;
        while i < secret_word.len()
            invariant
                i <= secret_word@.len(),
                secret@ == secret_word@.subrange(0, i as int).map_values(
                    |c: char| spec_letter(c, CharStatus::Incorrect),
                ),
            decreases secret_word@.len() - i,
        {
            secret.push(Char::new(secret_word[i]));
            i += 1;
            proof {
                assert(secret@ =~= secret_word@.subrange(0, i as int).map_values(
                    |c: char| spec_letter(c, CharStatus::Incorrect),
                ));
            }
        }
        proof {
            assert(secret_word@.subrange(0, secret_word@.len() as int) =~= secret_word@);
        }
        let r = Feedback {
            secret,
            guess: Vec::new(),
            feedback_history: Vec::new(),
            abecedary: Abecedary::new(abecedary),
            win: false,
        };
        proof {
            assert(r@.history =~= Seq::<Seq<Char>>::empty());
            assert forall|k: int| 0 <= k < r.secret@.len() implies r@.hints.dom().contains(
                #[trigger] r.secret@[k].character,
            ) by {
                assert(r.secret@[k].character == secret_word@[k]);
            }
        }
        r
    }
}

} // verus!

verus! {

impl Feedback {
    /// The reset pass: every secret verdict back to unset, the new guess
    /// installed all-unset, and the win flag provisionally set.
    fn reset(&mut self, new_guess: &[char])
        requires
            old(self).wf(),
            forall|i: int| 0 <= i < new_guess@.len() ==> old(self)@.hints.dom().contains(
                new_guess@[i],
            ),
        ensures
            final(self).wf(),
            final(self)@.secret == old(self)@.secret.map_values(
                |l: Char| spec_letter(l.character, CharStatus::Incorrect),
            ),
            final(self)@.guess == new_guess@.map_values(
                |c: char| spec_letter(c, CharStatus::Incorrect),
            ),
            final(self)@.history == old(self)@.history,
            final(self)@.hints == old(self)@.hints,
            final(self)@.win == true,
    {
        let n = self.secret.len();
        let mut i: usize = 0;
        while i < n
            invariant
                old(self).wf(),
                n == self.secret@.len(),
                self.secret@.len() == old(self).secret@.len(),
                i <= n,
                self.guess == old(self).guess,
                self.feedback_history == old(self).feedback_history,
                self.abecedary == old(self).abecedary,
                self.win == old(self).win,
                forall|k: int| 0 <= k < i ==> self.secret@[k] == spec_letter(
                    old(self).secret@[k].character,
                    CharStatus::Incorrect,
                ),
                forall|k: int| i <= k < n ==> self.secret@[k] == old(self).secret@[k],
            decreases n - i,
        {
            let entry = self.secret[i];
            self.secret.set(i, Char { character: entry.character, status: CharStatus::Incorrect });
            i += 1;
        }
        proof {
            assert(self.secret@ =~= old(self).secret@.map_values(
                |l: Char| spec_letter(l.character, CharStatus::Incorrect),
            ));
        }
        let mut guess: Vec<Char> = Vec::new();
        let mut j: usize = 0;
        while j < new_guess.len()
            invariant
                j <= new_guess@.len(),
                guess@ == new_guess@.subrange(0, j as int).map_values(
                    |c: char| spec_letter(c, CharStatus::Incorrect),
                ),
            decreases new_guess@.len() - j,
        {
            guess.push(Char::new(new_guess[j]));
            j += 1;
            proof {
                assert(guess@ =~= new_guess@.subrange(0, j as int).map_values(
                    |c: char| spec_letter(c, CharStatus::Incorrect),
                ));
            }
        }
        proof {
            assert(new_guess@.subrange(0, new_guess@.len() as int) =~= new_guess@);
        }
        self.guess = guess;
        self.win = true;
        proof {
            assert forall|k: int| 0 <= k < self.secret@.len() implies self.abecedary@.dom().contains(
                #[trigger] self.secret@[k].character,
            ) by {
                assert(self.secret@[k].character == old(self).secret@[k].character);
            }
            assert forall|k: int| 0 <= k < self.guess@.len() implies self.abecedary@.dom().contains(
                #[trigger] self.guess@[k].character,
            ) by {
                assert(self.guess@[k].character == new_guess@[k]);
            }
        }
    }

    /// The correct pass: each position where the guess letter is equivalent
    /// to the secret letter is claimed as correct, crediting the secret's
    /// character (its accented form is the true letter when the two differ
    /// only by a diacritic); the win flag survives only when every position
    /// matches.
    fn mark_correct(&mut self)
        requires
            old(self).wf(),
            old(self)@.guess.len() == old(self)@.secret.len(),
            forall|k: int| 0 <= k < old(self)@.guess.len() ==> old(self)@.guess[k].status
                == CharStatus::Incorrect,
            forall|k: int| 0 <= k < old(self)@.secret.len() ==> old(self)@.secret[k].status
                == CharStatus::Incorrect,
        ensures
            final(self).wf(),
            final(self)@.guess.len() == old(self)@.guess.len(),
            final(self)@.secret.len() == old(self)@.secret.len(),
            chars_of(final(self)@.guess) == chars_of(old(self)@.guess),
            chars_of(final(self)@.secret) == chars_of(old(self)@.secret),
            ({
                let s = chars_of(old(self)@.secret);
                let g = chars_of(old(self)@.guess);
                &&& forall|k: int| 0 <= k < g.len() ==> final(self)@.guess[k].status
                    == initial_marking(s, g).verdicts[k]
                &&& forall|j: int| 0 <= j < s.len() ==> final(self)@.secret[j].status == (
                    if spec_compare_chars(g[j], s[j]) {
                        CharStatus::Correct
                    } else {
                        CharStatus::Incorrect
                    })
                &&& final(self)@.hints == hints_correct_upto(s, g, old(self)@.hints, g.len() as int)
                &&& final(self)@.win == spec_win(s, g)
            }),
            final(self)@.history == old(self)@.history,
    {
        let ghost s = chars_of(old(self)@.secret);
        let ghost g = chars_of(old(self)@.guess);
        let ghost h0 = old(self)@.hints;
        self.win = true;
        let n = self.guess.len();
        let mut i: usize = 0;
        while i < n
            invariant
                old(self).wf(),
                s == chars_of(old(self)@.secret),
                g == chars_of(old(self)@.guess),
                n == g.len(),
                g.len() == s.len(),
                i <= n,
                self.guess@.len() == n,
                self.secret@.len() == n,
                self.feedback_history == old(self).feedback_history,
                forall|k: int| 0 <= k < n ==> #[trigger] self.guess@[k].character == g[k],
                forall|k: int| 0 <= k < n ==> #[trigger] self.secret@[k].character == s[k],
                forall|k: int| 0 <= k < i ==> #[trigger] self.guess@[k].status == initial_marking(
                    s,
                    g,
                ).verdicts[k],
                forall|k: int| i <= k < n ==> #[trigger] self.guess@[k].status
                    == CharStatus::Incorrect,
                forall|j: int| 0 <= j < i ==> #[trigger] self.secret@[j].status == (
                    if spec_compare_chars(g[j], s[j]) {
                        CharStatus::Correct
                    } else {
                        CharStatus::Incorrect
                    }),
                forall|j: int| i <= j < n ==> #[trigger] self.secret@[j].status
                    == CharStatus::Incorrect,
                self.abecedary.wf(),
                self.abecedary@.dom() == old(self).abecedary@.dom(),
                self.abecedary@ == hints_correct_upto(s, g, h0, i as int),
                self.win == (forall|k: int| 0 <= k < i ==> spec_compare_chars(g[k], s[k])),
            decreases n - i,
        {
            let gi = self.guess[i];
            let si = self.secret[i];
            if compare_chars(gi.character, si.character) {
                self.guess.set(i, Char { character: gi.character, status: CharStatus::Correct });
                self.secret.set(i, Char { character: si.character, status: CharStatus::Correct });
                proof {
                    lemma_upgrade_dom(self.abecedary@, si.character, CharStatus::Correct);
                }
                if gi.character != si.character {
                    self.abecedary.upgrade(si.character, CharStatus::Correct);
                } else {
                    self.abecedary.upgrade(gi.character, CharStatus::Correct);
                }
            } else {
                self.win = false;
            }
            i += 1;
        }
        proof {
            assert(chars_of(self@.guess) =~= chars_of(old(self)@.guess));
            assert(chars_of(self@.secret) =~= chars_of(old(self)@.secret));
        }
    }
}

/// The upgrade-only merge never changes which letters the map holds.
proof fn lemma_upgrade_dom(h: Map<char, CharStatus>, c: char, st: CharStatus)
    ensures
        spec_upgrade(h, c, st).dom() == h.dom(),
{
    if h.dom().contains(c) && crate::letter::spec_rank(st) > crate::letter::spec_rank(h[c]) {
        assert(spec_upgrade(h, c, st).dom() =~= h.dom());
    }
}

} // verus!

verus! {

impl Feedback {
    /// The misplaced pass: each guess letter not already correct claims the
    /// leftmost unclaimed equivalent secret letter, if any — at most one
    /// guess letter per secret occurrence — crediting the secret's
    /// character.
    fn mark_misplaced(&mut self)
        requires
            old(self).wf(),
            old(self)@.guess.len() == old(self)@.secret.len(),
            ({
                let s = chars_of(old(self)@.secret);
                let g = chars_of(old(self)@.guess);
                &&& forall|k: int| 0 <= k < g.len() ==> old(self)@.guess[k].status
                    == initial_marking(s, g).verdicts[k]
                &&& forall|j: int| 0 <= j < s.len() ==> old(self)@.secret[j].status == (
                    if spec_compare_chars(g[j], s[j]) {
                        CharStatus::Correct
                    } else {
                        CharStatus::Incorrect
                    })
            }),
        ensures
            final(self).wf(),
            final(self)@.guess.len() == old(self)@.guess.len(),
            final(self)@.secret.len() == old(self)@.secret.len(),
            chars_of(final(self)@.guess) == chars_of(old(self)@.guess),
            chars_of(final(self)@.secret) == chars_of(old(self)@.secret),
            ({
                let s = chars_of(old(self)@.secret);
                let g = chars_of(old(self)@.guess);
                &&& forall|k: int| 0 <= k < g.len() ==> final(self)@.guess[k].status == marking(
                    s,
                    g,
                ).verdicts[k]
                &&& forall|j: int| 0 <= j < s.len() ==> final(self)@.secret[j].status
                    == secret_status(s, g, j)
                &&& final(self)@.hints == hints_misplaced_upto(
                    s,
                    g,
                    old(self)@.hints,
                    g.len() as int,
                )
            }),
            final(self)@.history == old(self)@.history,
            final(self)@.win == old(self)@.win,
    {
        let ghost s = chars_of(old(self)@.secret);
        let ghost g = chars_of(old(self)@.guess);
        let ghost h0 = old(self)@.hints;
        let n = self.guess.len();
        let mut i: usize = 0;
        while i < n
            invariant
                old(self).wf(),
                s == chars_of(old(self)@.secret),
                g == chars_of(old(self)@.guess),
                n == g.len(),
                g.len() == s.len(),
                i <= n,
                self.guess@.len() == n,
                self.secret@.len() == n,
                self.feedback_history == old(self).feedback_history,
                self.win == old(self).win,
                forall|k: int| 0 <= k < n ==> #[trigger] self.guess@[k].character == g[k],
                forall|k: int| 0 <= k < n ==> #[trigger] self.secret@[k].character == s[k],
                forall|k: int| 0 <= k < n ==> #[trigger] self.guess@[k].status == marking_upto(
                    s,
                    g,
                    i as int,
                ).verdicts[k],
                forall|j: int| 0 <= j < n ==> #[trigger] self.secret@[j].status == (
                    if spec_compare_chars(g[j], s[j]) {
                        CharStatus::Correct
                    } else if marking_upto(s, g, i as int).claimed[j] {
                        CharStatus::Misplaced
                    } else {
                        CharStatus::Incorrect
                    }),
                self.abecedary.wf(),
                self.abecedary@.dom() == old(self).abecedary@.dom(),
                self.abecedary@ == hints_misplaced_upto(s, g, h0, i as int),
            decreases n - i,
        {
            let ghost m = marking_upto(s, g, i as int);
            proof {
                lemma_marking_upto_props(s, g, i as int);
                assert forall|j: int| 0 <= j < n implies #[trigger] claimed_of(self.secret@)[j]
                    == m.claimed[j] by {
                    if spec_compare_chars(g[j], s[j]) {
                        assert(m.verdicts[j] == CharStatus::Correct);
                        assert(m.assign.dom().contains(j));
                        assert(m.assign[j] == j);
                        assert(m.claimed[j]);
                    }
                }
                assert(claimed_of(self.secret@) =~= m.claimed);
                assert(chars_of(self.secret@) =~= s);
            }
            let gi = self.guess[i];
            if gi.is_incorrect() {
                proof {
                    assert(m.verdicts[i as int] == initial_marking(s, g).verdicts[i as int]);
                    assert(m.verdicts[i as int] != CharStatus::Correct);
                }
                match find_first_unclaimed(&self.secret, gi.character) {
                    Some(j) => {
                        let sj = self.secret[j];
                        proof {
                            assert(first_unclaimed(gi.character, s, m.claimed, 0) == Some(
                                j as int,
                            ));
                            lemma_first_unclaimed_props(gi.character, s, m.claimed, 0);
                            assert(!m.claimed[j as int]);
                            if spec_compare_chars(g[j as int], s[j as int]) {
                                assert(m.verdicts[j as int] == CharStatus::Correct);
                                assert(m.assign.dom().contains(j as int));
                                assert(m.assign[j as int] == j as int);
                                assert(m.claimed[j as int]);
                            }
                            assert(!spec_compare_chars(g[j as int], s[j as int]));
                        }
                        self.guess.set(
                            i,
                            Char { character: gi.character, status: CharStatus::Misplaced },
                        );
                        self.secret.set(
                            j,
                            Char { character: sj.character, status: CharStatus::Misplaced },
                        );
                        proof {
                            lemma_upgrade_dom(self.abecedary@, sj.character, CharStatus::Misplaced);
                        }
                        if gi.character != sj.character {
                            self.abecedary.upgrade(sj.character, CharStatus::Misplaced);
                        } else {
                            self.abecedary.upgrade(gi.character, CharStatus::Misplaced);
                        }
                        proof {
                            let mnext = marking_upto(s, g, i + 1);
                            assert(mnext == misplaced_step(s, g, m, i as int));
                            assert(mnext.verdicts == m.verdicts.update(
                                i as int,
                                CharStatus::Misplaced,
                            ));
                            assert(mnext.claimed == m.claimed.update(j as int, true));
                            assert(self.abecedary@ == hints_misplaced_upto(s, g, h0, i + 1));
                        }
                    },
                    None => {
                        proof {
                            assert(marking_upto(s, g, i + 1) == m);
                        }
                    },
                }
            } else {
                proof {
                    assert(m.verdicts[i as int] == CharStatus::Correct);
                    assert(marking_upto(s, g, i + 1) == m);
                }
            }
            i += 1;
        }
        proof {
            assert(chars_of(self@.guess) =~= chars_of(old(self)@.guess));
            assert(chars_of(self@.secret) =~= chars_of(old(self)@.secret));
            lemma_marking_upto_props(s, g, n as int);
            assert forall|j: int| 0 <= j < s.len() implies self@.secret[j].status == secret_status(
                s,
                g,
                j,
            ) by {
                let mk = marking(s, g);
                if spec_compare_chars(g[j], s[j]) {
                    assert(mk.verdicts[j] == CharStatus::Correct);
                    assert(mk.assign.dom().contains(j));
                    assert(mk.assign[j] == j);
                    assert(mk.claimed[j]);
                }
            }
        }
    }

    /// The incorrect pass: every guess letter left unclaimed is confirmed
    /// incorrect and credits its own character — without ever downgrading a
    /// better verdict already recorded for that letter.
    fn mark_incorrect(&mut self)
        requires
            old(self).wf(),
            old(self)@.guess.len() == old(self)@.secret.len(),
            forall|k: int| 0 <= k < old(self)@.guess.len() ==> old(self)@.guess[k].status
                == marking(
                chars_of(old(self)@.secret),
                chars_of(old(self)@.guess),
            ).verdicts[k],
        ensures
            final(self).wf(),
            final(self)@.guess == old(self)@.guess,
            final(self)@.secret == old(self)@.secret,
            final(self)@.history == old(self)@.history,
            final(self)@.win == old(self)@.win,
            final(self)@.hints == hints_incorrect_upto(
                chars_of(old(self)@.secret),
                chars_of(old(self)@.guess),
                old(self)@.hints,
                old(self)@.guess.len() as int,
            ),
    {
        let ghost s = chars_of(old(self)@.secret);
        let ghost g = chars_of(old(self)@.guess);
        let ghost h0 = old(self)@.hints;
        let n = self.guess.len();
        let mut i: usize = 0;
        while i < n
            invariant
                old(self).wf(),
                s == chars_of(old(self)@.secret),
                g == chars_of(old(self)@.guess),
                n == g.len(),
                i <= n,
                self.guess@ == old(self).guess@,
                self.secret == old(self).secret,
                self.feedback_history == old(self).feedback_history,
                self.win == old(self).win,
                forall|k: int| 0 <= k < n ==> old(self)@.guess[k].status == marking(
                    s,
                    g,
                ).verdicts[k],
                self.abecedary.wf(),
                self.abecedary@.dom() == old(self).abecedary@.dom(),
                self.abecedary@ == hints_incorrect_upto(s, g, h0, i as int),
            decreases n - i,
        {
            let gi = self.guess[i];
            if gi.is_incorrect() {
                self.guess.set(i, Char { character: gi.character, status: CharStatus::Incorrect });
                proof {
                    assert(self.guess@ =~= old(self).guess@);
                    lemma_upgrade_dom(self.abecedary@, gi.character, CharStatus::Incorrect);
                    assert(gi.character == g[i as int]);
                }
                self.abecedary.upgrade(gi.character, CharStatus::Incorrect);
            }
            i += 1;
        }
    }
}

} // verus!

verus! {

impl Feedback {
    /// One comparison: reset, mark in three passes, publish. The guess must
    /// have the secret's length (a mismatch would corrupt the
    /// position-aligned passes) and hold only legal letters; the caller
    /// validates both. Results are read back through the accessors and the
    /// `win` flag.
    pub fn compare(&mut self, guess: String)
        requires
            old(self).wf(),
            guess@.len() == old(self)@.secret.len(),
            forall|i: int| 0 <= i < guess@.len() ==> old(self)@.hints.dom().contains(guess@[i]),
        ensures
            final(self).wf(),
            final(self)@ == spec_compare(old(self)@, guess@),
    {
        let ghost pre = old(self)@;
        let ghost s = chars_of(old(self)@.secret);
        let ghost g = guess@;
        let gchars = crate::text::chars_of(guess.as_str());
        self.reset(gchars.as_slice());
        proof {
            assert forall|k: int| 0 <= k < self.guess@.len() implies (#[trigger] self.guess@[k]
                == spec_letter(g[k], CharStatus::Incorrect)) by {
                assert(self.guess@[k] == g.subrange(0, g.len() as int).map_values(
                    |c: char| spec_letter(c, CharStatus::Incorrect),
                )[k]);
            }
            assert(chars_of(self@.secret) =~= s);
            assert(chars_of(self@.guess) =~= g);
        }
        self.mark_correct();
        self.mark_misplaced();
        self.mark_incorrect();
        let rendered = copy_letters(&self.guess);
        self.feedback_history.push(rendered);
        proof {
            let post = spec_compare(pre, g);
            let mk = marking(s, g);
            lemma_marking_upto_props(s, g, g.len() as int);
            assert forall|k: int| 0 <= k < g.len() implies #[trigger] self@.guess[k] == post.guess[k] by {
                assert(self@.guess[k].character == g[k]);
                assert(self@.guess[k].status == mk.verdicts[k]);
                assert(post.guess[k] == spec_letter(g[k], mk.verdicts[k]));
            }
            assert(self@.guess =~= post.guess);
            assert forall|j: int| 0 <= j < s.len() implies #[trigger] self@.secret[j]
                == post.secret[j] by {
                assert(self@.secret[j].character == s[j]);
                assert(self@.secret[j].status == secret_status(s, g, j));
                assert(post.secret[j] == spec_letter(s[j], secret_status(s, g, j)));
            }
            assert(self@.secret =~= post.secret);
            assert(self@.history =~= post.history);
            assert(self@.hints == post.hints);
            assert(self@.win == post.win);
        }
    }

    /// The secret word's characters, for the end-of-round reveal.
    pub fn get_secret(&self) -> (r: String)
        ensures
            r@ == chars_of(self@.secret),
    {
        let mut r = String::new();
        let mut i: usize = 0;
        while i < self.secret.len()
            invariant
                i <= self.secret@.len(),
                r@ == chars_of(self.secret@).subrange(0, i as int),
            decreases self.secret@.len() - i,
        {
            push_char(&mut r, self.secret[i].character);
            i += 1;
            proof {
                assert(r@ =~= chars_of(self.secret@).subrange(0, i as int));
            }
        }
        proof {
            assert(r@ =~= chars_of(self.secret@));
        }
        r
    }

    /// The most recent verdict-annotated guess.
    pub fn get_feedback(&self) -> (r: Vec<Char>)
        ensures
            r@ == self@.guess,
    {
        copy_letters(&self.guess)
    }

    /// Every legal letter of the round, sorted by character code, each
    /// annotated with its current best-known verdict.
    pub fn get_abecedary(&self) -> (r: Vec<Char>)
        requires
            self.wf(),
        ensures
            sorted_unique(r@),
            forall|k: int| 0 <= k < r@.len() ==> self@.hints.dom().contains(
                #[trigger] r@[k].character,
            ) && self@.hints[r@[k].character] == r@[k].status,
            forall|c: char| self@.hints.dom().contains(c) ==> has_letter(r@, c),
    {
        let r = self.abecedary.entries();
        proof {
            self.abecedary.lemma_letters_view();
            assert forall|k: int| 0 <= k < r@.len() implies self@.hints.dom().contains(
                #[trigger] r@[k].character,
            ) && self@.hints[r@[k].character] == r@[k].status by {
                lemma_hint_map_index(self.abecedary.spec_letters(), k);
            }
        }
        r
    }

    /// The round's history: one annotated guess per comparison, in
    /// submission order, append-only.
    pub fn get_history(&self) -> (r: &Vec<Vec<Char>>)
        ensures
            r@.map_values(|v: Vec<Char>| v@) == self@.history,
    {
        &self.feedback_history
    }
}

} // verus!
