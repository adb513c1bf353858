use wordle::args::Args;
use wordle::ascii::{asciify, asciify_str, compare_chars, has_non_ascii};
use wordle::game::{validate, GuessError};
use wordle::language::{Language, LanguagePack};
use wordle::prompt::bool_from_str;
use wordle::settings::get_settings;
use wordle::text::{split_lines, str_eq, string_from_chars};

#[test]
fn asciify_folds_accented_vowels() {
    assert_eq!(asciify('á'), 'a');
    assert_eq!(asciify('é'), 'e');
    assert_eq!(asciify('í'), 'i');
    assert_eq!(asciify('ó'), 'o');
    assert_eq!(asciify('ú'), 'u');
    assert_eq!(asciify('ü'), 'u');
    assert_eq!(asciify('a'), 'a');
    assert_eq!(asciify('ñ'), 'ñ');
    assert_eq!(asciify('z'), 'z');
}

#[test]
fn asciify_str_folds_whole_words() {
    assert_eq!(asciify_str("árbol"), "arbol");
    assert_eq!(asciify_str("grape"), "grape");
    assert_eq!(asciify_str(""), "");
}

#[test]
fn compare_chars_is_symmetric_on_diacritics() {
    assert!(compare_chars('a', 'á'));
    assert!(compare_chars('á', 'a'));
    assert!(compare_chars('u', 'ü'));
    assert!(compare_chars('ü', 'u'));
    assert!(compare_chars('ñ', 'ñ'));
    assert!(!compare_chars('a', 'e'));
    // two different accented forms of the same vowel are distinct letters
    assert!(!compare_chars('ú', 'ü'));
}

#[test]
fn has_non_ascii_spots_accents() {
    assert!(has_non_ascii("árbol"));
    assert!(has_non_ascii("pingüino"));
    assert!(!has_non_ascii("grape"));
    assert!(!has_non_ascii("ñandu"));
    assert!(!has_non_ascii(""));
}

#[test]
fn language_from_str_reads_names_and_codes() {
    assert_eq!(Language::from_str("en"), Ok(Language::English));
    assert_eq!(Language::from_str("English"), Ok(Language::English));
    assert_eq!(Language::from_str("ENGLISH"), Ok(Language::English));
    assert_eq!(Language::from_str("es"), Ok(Language::Spanish));
    assert_eq!(Language::from_str("Español"), Ok(Language::Spanish));
    assert_eq!(Language::from_str("ESPAÑOL"), Ok(Language::Spanish));
    assert_eq!(Language::from_str("fr"), Err(()));
    assert_eq!(Language::from_str(""), Err(()));
}

#[test]
fn language_packs_differ() {
    let en = LanguagePack::english();
    let es = LanguagePack::spanish();
    assert_eq!(en.tries_left, "Tries left");
    assert_eq!(es.tries_left, "Intentos restantes");
    assert_ne!(en.welcome, es.welcome);
}

#[test]
fn args_language_defaults_to_spanish() {
    let none = Args { language: None, secret: None, tries: None };
    assert_eq!(none.get_language(), Language::Spanish);
    let bad = Args { language: Some(String::from("zz")), secret: None, tries: None };
    assert_eq!(bad.get_language(), Language::Spanish);
    let en = Args { language: Some(String::from("en")), secret: None, tries: None };
    assert_eq!(en.get_language(), Language::English);
}

#[test]
fn args_tries_defaults_to_five() {
    let none = Args { language: None, secret: None, tries: None };
    assert_eq!(none.get_tries(), 5);
    let some = Args { language: None, secret: None, tries: Some(9) };
    assert_eq!(some.get_tries(), 9);
}

#[test]
fn args_secret_needs_five_characters() {
    let mut abecedary = vec!['a', 'b'];
    let ok = Args { language: None, secret: Some(String::from("árbol")), tries: None };
    let got = ok.get_secret(&mut abecedary);
    assert_eq!(got, Some(vec!['á', 'r', 'b', 'o', 'l']));
    // the secret's characters joined the abecedary, once each
    for c in ['á', 'r', 'b', 'o', 'l', 'a'] {
        assert!(abecedary.contains(&c));
    }
    assert_eq!(abecedary.len(), 6);

    let mut abecedary2 = vec!['a', 'b'];
    let short = Args { language: None, secret: Some(String::from("abc")), tries: None };
    assert_eq!(short.get_secret(&mut abecedary2), None);
    assert_eq!(abecedary2, vec!['a', 'b']);

    let absent = Args { language: None, secret: None, tries: None };
    assert_eq!(absent.get_secret(&mut abecedary2), None);
}

#[test]
fn validate_reports_each_problem() {
    let words = vec![String::from("grape"), String::from("mango")];
    let abecedary: Vec<char> = ('a'..='z').collect();
    assert_eq!(validate("grape", &words, &abecedary), Ok(()));
    assert_eq!(validate("gr4pe", &words, &abecedary), Err(GuessError::InvalidChars));
    assert_eq!(validate("grap", &words, &abecedary), Err(GuessError::InvalidLen));
    assert_eq!(validate("grapes", &words, &abecedary), Err(GuessError::InvalidLen));
    assert_eq!(validate("lemon", &words, &abecedary), Err(GuessError::UnknownWord));
}

#[test]
fn validate_counts_characters_not_bytes() {
    let words = vec![String::from("árbol")];
    let mut abecedary: Vec<char> = ('a'..='z').collect();
    abecedary.push('á');
    // "árbol" is five characters even though it is six bytes
    assert_eq!(validate("árbol", &words, &abecedary), Ok(()));
}

#[test]
fn bool_from_str_reads_confirm_answers() {
    assert!(bool_from_str("y"));
    assert!(bool_from_str("yes"));
    assert!(!bool_from_str("n"));
    assert!(!bool_from_str("no"));
}

#[test]
fn settings_distill_the_options() {
    let args = Args {
        language: Some(String::from("en")),
        secret: Some(String::from("grape")),
        tries: Some(7),
    };
    let settings = get_settings(&args);
    assert_eq!(settings.language, Language::English);
    assert_eq!(settings.secret, vec!['g', 'r', 'a', 'p', 'e']);
    assert_eq!(settings.tries, 7);

    let defaults = get_settings(&Args { language: None, secret: None, tries: None });
    assert_eq!(defaults.language, Language::Spanish);
    assert!(defaults.secret.is_empty());
    assert_eq!(defaults.tries, 5);
}

#[test]
fn split_lines_matches_line_conventions() {
    let lines = split_lines("one\ntwo\r\nthree");
    assert_eq!(lines, vec!["one", "two", "three"]);
    let trailing = split_lines("one\ntwo\n");
    assert_eq!(trailing, vec!["one", "two"]);
    let empty = split_lines("");
    assert!(empty.is_empty());
    let blank_line = split_lines("one\n\ntwo");
    assert_eq!(blank_line, vec!["one", "", "two"]);
}

#[test]
fn str_helpers_round_trip() {
    assert!(str_eq("árbol", "árbol"));
    assert!(!str_eq("árbol", "arbol"));
    assert!(!str_eq("ab", "abc"));
    assert_eq!(string_from_chars(&['á', 'b', 'c']), "ábc");
}
