use wordle::dictionary::Dictionary;

fn contains_word(words: &Vec<String>, w: &str) -> bool {
    words.iter().any(|x| x == w)
}

#[test]
fn dictionary_keeps_every_line() {
    let d = Dictionary::new("grape\nmango\nlemon", "grape\nmango");
    assert!(contains_word(&d.dictionary, "grape"));
    assert!(contains_word(&d.dictionary, "mango"));
    assert!(contains_word(&d.dictionary, "lemon"));
    assert!(!contains_word(&d.dictionary, "melon"));
}

#[test]
fn accented_words_also_get_a_folded_spelling() {
    let d = Dictionary::new("árbol\nmango", "árbol");
    assert!(contains_word(&d.dictionary, "árbol"));
    assert!(contains_word(&d.dictionary, "arbol"));
    assert!(!contains_word(&d.dictionary, "mángo"));
}

#[test]
fn abecedary_collects_lowercased_characters() {
    // an uppercase line: the abecedary must hold the lowercase letters
    let d = Dictionary::new("GRAPE", "MANGO");
    for c in ['g', 'r', 'a', 'p', 'e', 'm', 'n', 'o'] {
        assert!(d.abecedary.contains(&c));
    }
    assert!(!d.abecedary.contains(&'G'));
    assert!(!d.abecedary.contains(&'z'));
}

#[test]
fn abecedary_has_no_duplicates() {
    let d = Dictionary::new("papas\nsapas", "papas");
    let mut seen: Vec<char> = Vec::new();
    for c in &d.abecedary {
        assert!(!seen.contains(c));
        seen.push(*c);
    }
}

#[test]
fn duplicate_lines_are_stored_once() {
    let d = Dictionary::new("grape\ngrape\ngrape", "grape");
    let count = d.dictionary.iter().filter(|w| w.as_str() == "grape").count();
    assert_eq!(count, 1);
}

#[test]
fn windows_line_endings_are_accepted() {
    let d = Dictionary::new("grape\r\nmango\r\n", "grape\r\n");
    assert!(contains_word(&d.dictionary, "grape"));
    assert!(contains_word(&d.dictionary, "mango"));
    assert_eq!(d.dictionary.len(), 2);
}

#[test]
fn secret_word_is_drawn_from_the_secret_list() {
    let d = Dictionary::new("grape\nmango", "grape");
    assert_eq!(d.secret_word_count(), 1);
    let secret = d.get_secret_word();
    let s: String = secret.iter().collect();
    assert_eq!(s, "grape");
}

#[test]
fn secret_word_is_always_a_listed_word() {
    let d = Dictionary::new("grape\nmango\nlemon", "grape\nmango\nlemon");
    for _ in 0..20 {
        let s: String = d.get_secret_word().iter().collect();
        assert!(s == "grape" || s == "mango" || s == "lemon");
    }
}
