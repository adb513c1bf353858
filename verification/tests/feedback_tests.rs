use wordle::feedback::Feedback;
use wordle::letter::{Char, CharStatus};

fn alphabet() -> Vec<char> {
    let mut v: Vec<char> = ('a'..='z').collect();
    for c in ['á', 'é', 'í', 'ó', 'ú', 'ü', 'ñ'] {
        v.push(c);
    }
    v
}

fn statuses(letters: &[Char]) -> Vec<CharStatus> {
    letters.iter().map(|l| l.status).collect()
}

fn hint_of(engine: &Feedback, c: char) -> CharStatus {
    let entries = engine.get_abecedary();
    for e in &entries {
        if e.character == c {
            return e.status;
        }
    }
    panic!("character not in abecedary");
}

#[test]
fn exact_guess_all_correct() {
    let alpha = alphabet();
    let mut engine = Feedback::new(&['g', 'r', 'a', 'p', 'e'], &alpha);
    engine.compare(String::from("grape"));
    assert!(engine.win);
    assert_eq!(
        statuses(&engine.get_feedback()),
        vec![
            CharStatus::Correct,
            CharStatus::Correct,
            CharStatus::Correct,
            CharStatus::Correct,
            CharStatus::Correct
        ]
    );
    assert_eq!(engine.get_history().len(), 1);
}

#[test]
fn disjoint_guess_all_incorrect() {
    let alpha = alphabet();
    let mut engine = Feedback::new(&['g', 'r', 'a', 'p', 'e'], &alpha);
    engine.compare(String::from("shiny"));
    assert!(!engine.win);
    assert_eq!(
        statuses(&engine.get_feedback()),
        vec![
            CharStatus::Incorrect,
            CharStatus::Incorrect,
            CharStatus::Incorrect,
            CharStatus::Incorrect,
            CharStatus::Incorrect
        ]
    );
}

#[test]
fn diacritic_guess_matches_accented_secret() {
    let alpha = alphabet();
    let mut engine = Feedback::new(&['á', 'r', 'b', 'o', 'l'], &alpha);
    engine.compare(String::from("arbol"));
    assert!(engine.win);
    let feedback = engine.get_feedback();
    assert_eq!(feedback[0].character, 'a');
    assert_eq!(feedback[0].status, CharStatus::Correct);
    // the hint map credits the secret's accented form, not the bare vowel
    assert_eq!(hint_of(&engine, 'á'), CharStatus::Correct);
    assert_eq!(hint_of(&engine, 'a'), CharStatus::Incorrect);
}

#[test]
fn duplicate_letters_claim_one_occurrence_each() {
    let alpha = alphabet();
    let mut engine = Feedback::new(&['a', 'b', 'c', 'd', 'e'], &alpha);
    engine.compare(String::from("aaxyz"));
    assert!(!engine.win);
    // the secret has one "a": the first guess "a" is correct in place, the
    // second finds no unclaimed occurrence left
    assert_eq!(
        statuses(&engine.get_feedback()),
        vec![
            CharStatus::Correct,
            CharStatus::Incorrect,
            CharStatus::Incorrect,
            CharStatus::Incorrect,
            CharStatus::Incorrect
        ]
    );
}

#[test]
fn misplaced_claims_leftmost_unclaimed() {
    let alpha = alphabet();
    let mut engine = Feedback::new(&['a', 'p', 'p', 'l', 'e'], &alpha);
    engine.compare(String::from("plape"));
    assert!(!engine.win);
    // trace: "e" is correct in place; "p" claims the secret's first "p",
    // "l" its "l", "a" its "a", and the second "p" the remaining "p"
    assert_eq!(
        statuses(&engine.get_feedback()),
        vec![
            CharStatus::Misplaced,
            CharStatus::Misplaced,
            CharStatus::Misplaced,
            CharStatus::Misplaced,
            CharStatus::Correct
        ]
    );
}

#[test]
fn hints_never_downgrade() {
    let alpha = alphabet();
    let mut engine = Feedback::new(&['g', 'r', 'a', 'p', 'e'], &alpha);
    engine.compare(String::from("gxxxx"));
    assert_eq!(hint_of(&engine, 'g'), CharStatus::Correct);
    // a later guess lands "g" on a wrong position: the hint keeps Correct
    engine.compare(String::from("xgxxx"));
    assert_eq!(hint_of(&engine, 'g'), CharStatus::Correct);
    // and one with no "g" at all cannot erase it either
    engine.compare(String::from("shiny"));
    assert_eq!(hint_of(&engine, 'g'), CharStatus::Correct);
}

#[test]
fn hints_upgrade_from_misplaced_to_correct() {
    let alpha = alphabet();
    let mut engine = Feedback::new(&['g', 'r', 'a', 'p', 'e'], &alpha);
    engine.compare(String::from("xgxxx"));
    assert_eq!(hint_of(&engine, 'g'), CharStatus::Misplaced);
    engine.compare(String::from("gxxxx"));
    assert_eq!(hint_of(&engine, 'g'), CharStatus::Correct);
}

#[test]
fn history_is_append_only_and_ordered() {
    let alpha = alphabet();
    let mut engine = Feedback::new(&['g', 'r', 'a', 'p', 'e'], &alpha);
    assert!(engine.get_history().is_empty());
    engine.compare(String::from("shiny"));
    engine.compare(String::from("grape"));
    engine.compare(String::from("plaza"));
    let history = engine.get_history();
    assert_eq!(history.len(), 3);
    let first: String = history[0].iter().map(|l| l.character).collect();
    let second: String = history[1].iter().map(|l| l.character).collect();
    let third: String = history[2].iter().map(|l| l.character).collect();
    assert_eq!(first, "shiny");
    assert_eq!(second, "grape");
    assert_eq!(third, "plaza");
}

#[test]
fn repeated_guess_gives_identical_verdicts() {
    let alpha = alphabet();
    let mut engine = Feedback::new(&['a', 'p', 'p', 'l', 'e'], &alpha);
    engine.compare(String::from("plape"));
    let first = statuses(&engine.get_feedback());
    engine.compare(String::from("plape"));
    let second = statuses(&engine.get_feedback());
    assert_eq!(first, second);
    assert_eq!(engine.get_history().len(), 2);
}

#[test]
fn get_secret_reveals_the_word() {
    let alpha = alphabet();
    let engine = Feedback::new(&['á', 'r', 'b', 'o', 'l'], &alpha);
    assert_eq!(engine.get_secret(), "árbol");
}

#[test]
fn win_flag_starts_false() {
    let alpha = alphabet();
    let engine = Feedback::new(&['g', 'r', 'a', 'p', 'e'], &alpha);
    assert!(!engine.win);
}

#[test]
fn abecedary_is_sorted_and_annotated() {
    let alpha = vec!['c', 'a', 'b'];
    let mut engine = Feedback::new(&['a', 'a', 'a', 'a', 'a'], &alpha);
    engine.compare(String::from("abcba"));
    let entries = engine.get_abecedary();
    let chars: Vec<char> = entries.iter().map(|e| e.character).collect();
    assert_eq!(chars, vec!['a', 'b', 'c']);
    assert_eq!(entries[0].status, CharStatus::Correct);
    assert_eq!(entries[1].status, CharStatus::Incorrect);
    assert_eq!(entries[2].status, CharStatus::Incorrect);
}

#[test]
fn mixed_verdicts_in_one_guess() {
    let alpha = alphabet();
    let mut engine = Feedback::new(&['g', 'r', 'a', 'p', 'e'], &alpha);
    engine.compare(String::from("gears"));
    // "g" and "a" sit in place; "e" and "r" are elsewhere in the secret;
    // "s" is absent
    assert_eq!(
        statuses(&engine.get_feedback()),
        vec![
            CharStatus::Correct,
            CharStatus::Misplaced,
            CharStatus::Correct,
            CharStatus::Misplaced,
            CharStatus::Incorrect
        ]
    );
    assert!(!engine.win);
}

#[test]
fn letters_carry_their_verdict() {
    let mut letter = Char::new('g');
    assert_eq!(letter.character, 'g');
    assert!(letter.is_incorrect());
    letter.set_status(CharStatus::Misplaced);
    assert_eq!(letter.character, 'g');
    assert!(!letter.is_incorrect());
    letter.set_status(CharStatus::Correct);
    assert_eq!(letter.status, CharStatus::Correct);
}
