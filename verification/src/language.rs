//! The two languages of the game and their string tables. Everything here
//! is plain data; printing belongs to the presentation layer outside the
//! crate.

use vstd::prelude::*;
use vstd::string::StrSliceExecFns;

verus! {

/// The languages the game speaks.
#[derive(Clone, Copy, Debug, PartialEq, Eq, Structural)]
pub enum Language {
    English,
    Spanish,
}

/// Case folding for language names: ASCII uppercase letters and the
/// uppercase enye go to lower case; everything else stays itself.
pub open spec fn spec_lower_game(c: char) -> char {
    if c == 'A' {
        'a'
    } else if c == 'B' {
        'b'
    } else if c == 'C' {
        'c'
    } else if c == 'D' {
        'd'
    } else if c == 'E' {
        'e'
    } else if c == 'F' {
        'f'
    } else if c == 'G' {
        'g'
    } else if c == 'H' {
        'h'
    } else if c == 'I' {
        'i'
    } else if c == 'J' {
        'j'
    } else if c == 'K' {
        'k'
    } else if c == 'L' {
        'l'
    } else if c == 'M' {
        'm'
    } else if c == 'N' {
        'n'
    } else if c == 'O' {
        'o'
    } else if c == 'P' {
        'p'
    } else if c == 'Q' {
        'q'
    } else if c == 'R' {
        'r'
    } else if c == 'S' {
        's'
    } else if c == 'T' {
        't'
    } else if c == 'U' {
        'u'
    } else if c == 'V' {
        'v'
    } else if c == 'W' {
        'w'
    } else if c == 'X' {
        'x'
    } else if c == 'Y' {
        'y'
    } else if c == 'Z' {
        'z'
    } else if c == 'Ñ' {
        'ñ'
    } else {
        c
    }
}

/// A string folded character by character.
pub open spec fn fold_lower(s: Seq<char>) -> Seq<char> {
    s.map_values(|c: char| spec_lower_game(c))
}

/// The language a name denotes, read case-insensitively: the full name or
/// the two-letter code of either language.
pub open spec fn spec_language_of(s: Seq<char>) -> Option<Language> {
    let l = fold_lower(s);
    if l == "english"@ || l == "en"@ {
        Some(Language::English)
    } else if l == "español"@ || l == "es"@ {
        Some(Language::Spanish)
    } else {
        None
    }
}

/// Folds one character.
pub fn to_lower_game(c: char) -> (r: char)
    ensures
        r == spec_lower_game(c),
{
    match c {
        'A' => 'a',
        'B' => 'b',
        'C' => 'c',
        'D' => 'd',
        'E' => 'e',
        'F' => 'f',
        'G' => 'g',
        'H' => 'h',
        'I' => 'i',
        'J' => 'j',
        'K' => 'k',
        'L' => 'l',
        'M' => 'm',
        'N' => 'n',
        'O' => 'o',
        'P' => 'p',
        'Q' => 'q',
        'R' => 'r',
        'S' => 's',
        'T' => 't',
        'U' => 'u',
        'V' => 'v',
        'W' => 'w',
        'X' => 'x',
        'Y' => 'y',
        'Z' => 'z',
        'Ñ' => 'ñ',
        other => other,
    }
}

impl Language {
    /// Parses a language name, case-insensitively: the full name or the
    /// two-letter code of either language.
    pub fn from_str(s: &str) -> (r: Result<Language, ()>)
        ensures
            r == (match spec_language_of(s@) {
                Option::Some(lang) => Ok::<Language, ()>(lang),
                Option::None => Err::<Language, ()>(()),
            }),
    {
        let n = s.unicode_len();
        let mut lowered = String::new();
        let mut i: usize = 0;
        while i < n
            invariant
                n == s@.len(),
                i <= n,
                lowered@ == fold_lower(s@.subrange(0, i as int)),
            decreases n - i,
        {
            crate::text::push_char(&mut lowered, to_lower_game(s.get_char(i)));
            i += 1;
            proof {
                assert(lowered@ =~= fold_lower(s@.subrange(0, i as int)));
            }
        }
        proof {
            assert(s@.subrange(0, n as int) =~= s@);
            assert(lowered@ =~= fold_lower(s@));
        }
        if crate::text::str_eq(lowered.as_str(), "english") || crate::text::str_eq(
            lowered.as_str(),
            "en",
        ) {
            Ok(Language::English)
        } else if crate::text::str_eq(lowered.as_str(), "español") || crate::text::str_eq(
            lowered.as_str(),
            "es",
        ) {
            Ok(Language::Spanish)
        } else {
            Err(())
        }
    }
}

/// Picks the value that belongs to the language.
pub fn get_language_appropriate<T>(language: &Language, english: T, spanish: T) -> (r: T)
    ensures
        *language == Language::English ==> r == english,
        *language == Language::Spanish ==> r == spanish,
{
    match language {
        Language::English => english,
        Language::Spanish => spanish,
    }
}

} // verus!

verus! {

// The string tables, one constant per message and language.
pub const WELCOME_EN: &'static str = "\
Welcome! This is a simple game of discovering a 5 letter secret word. If you're not familiar to the rules they're the next:\n
When you write a word, the letters of the word will be shown in different colors. Those colors mean the next:
\x1b[92mGreen\x1b[0m: The letter is in the secret word in that position
\x1b[93mYellow\x1b[0m: The letter is in the secret word, but in another position
\x1b[91mRed\x1b[0m: The letter is not in the secret word\n
You can enter \"h\" when writing a word to see useful commands\n";

pub const WELCOME_ES: &'static str = "\
Este es un juego en el que tienes que adivinar una palabra secreta de 5 letras. Si no conoces las reglas, son las siguientes:\n
Cuando escribas una palabra, sus letras serán mostradas en diferentes colores. Los colores significan lo siguiente:
\x1b[92mVerde\x1b[0m: La letra está en la palabra secreta en esa posición
\x1b[93mAmarillo\x1b[0m: La letra está en la palabra secreta, pero en otra posición
\x1b[91mRojo\x1b[0m: La letra no está en la palabra secreta\n
Puedes escribir \"h\" cuando estés ingresando una palabra para consultar comandos útiles\n";

pub const COMMANDS_EN: &'static str = "\
w: Show previous guessed word
l: Show all the words guessed at that point
a: Show all possible letters, like printing the abecedary, with revealed hints
t: Show how many tries are left
h: Show available commands
q: Quits the game";

pub const COMMANDS_ES: &'static str = "\
w: Muestra la palabra ingresada anteriormente
l: Muestra todas las palabras ingresadas hasta ese punto
a: Muestra todas las letras disponibles, como el abecedario, con las pistas reveladas
t: Muestra los intentos restantes
h: Muestra los comandos disponibles
q: Sale del juego";

pub const WIN_EN: &'static str = "Congratulations! You win!";

pub const WIN_ES: &'static str = "Has acertado la palabra ¡Felicidades!";

pub const LOSS_EN: &'static str = "You loose! Word was";

pub const LOSS_ES: &'static str = "¡Perdiste! La palabra era";

pub const TRIES_LEFT_EN: &'static str = "Tries left";

pub const TRIES_LEFT_ES: &'static str = "Intentos restantes";

pub const ERR_INVALID_CHARS_EN: &'static str = "Guess contains invalid characters";

pub const ERR_INVALID_CHARS_ES: &'static str = "La palabra contiene caracteres inválidos";

pub const ERR_INVALID_LEN_EN: &'static str = "Guess must be 5 characters long";

pub const ERR_INVALID_LEN_ES: &'static str = "La palabra debe contener 5 caracteres";

pub const ERR_INVALID_WORD_EN: &'static str = "Unrecognized word. Try another one";

pub const ERR_INVALID_WORD_ES: &'static str = "La palabra no ha sido encontrada. Intenta una nueva";

pub const PROMPT_GUESS_TITLE_EN: &'static str = "Write your guess:";

pub const PROMPT_GUESS_TITLE_ES: &'static str = "Escribe una palabra:";

pub const PROMPT_LANGUAGE_TITLE_EN: &'static str = "Select language:";

pub const PROMPT_LANGUAGE_TITLE_ES: &'static str = "Selecciona idioma:";

pub const PROMPT_PLAY_AGAIN_EN: &'static str = "Play again?";

pub const PROMPT_PLAY_AGAIN_ES: &'static str = "¿Quires jugar otra vez?";

pub const NO_WORD_GUESSED_EN: &'static str = "No word has been guessed yet";

pub const NO_WORD_GUESSED_ES: &'static str = "No se ha ingresado ninguna palabra todavía";

/// Every message the game shows, in one language.
pub struct LanguagePack<'a> {
    pub welcome: &'a str,
    pub commands: &'a str,
    pub win: &'a str,
    pub loss: &'a str,
    pub tries_left: &'a str,
    pub err_invalid_chars: &'a str,
    pub err_invalid_len: &'a str,
    pub err_invalid_word: &'a str,
    pub prompt_guess_title: &'a str,
    pub prompt_language_title: &'a str,
    pub prompt_play_again: &'a str,
    pub no_word_guessed: &'a str,
}

impl LanguagePack<'static> {
    /// The English table.
    pub fn english() -> (r: LanguagePack<'static>)
        ensures
            r.welcome@ == WELCOME_EN@,
            r.commands@ == COMMANDS_EN@,
            r.win@ == WIN_EN@,
            r.loss@ == LOSS_EN@,
            r.tries_left@ == TRIES_LEFT_EN@,
            r.err_invalid_chars@ == ERR_INVALID_CHARS_EN@,
            r.err_invalid_len@ == ERR_INVALID_LEN_EN@,
            r.err_invalid_word@ == ERR_INVALID_WORD_EN@,
            r.prompt_guess_title@ == PROMPT_GUESS_TITLE_EN@,
            r.prompt_language_title@ == PROMPT_LANGUAGE_TITLE_EN@,
            r.prompt_play_again@ == PROMPT_PLAY_AGAIN_EN@,
            r.no_word_guessed@ == NO_WORD_GUESSED_EN@,
    {
        LanguagePack {
            welcome: WELCOME_EN,
            commands: COMMANDS_EN,
            win: WIN_EN,
            loss: LOSS_EN,
            tries_left: TRIES_LEFT_EN,
            err_invalid_chars: ERR_INVALID_CHARS_EN,
            err_invalid_len: ERR_INVALID_LEN_EN,
            err_invalid_word: ERR_INVALID_WORD_EN,
            prompt_guess_title: PROMPT_GUESS_TITLE_EN,
            prompt_language_title: PROMPT_LANGUAGE_TITLE_EN,
            prompt_play_again: PROMPT_PLAY_AGAIN_EN,
            no_word_guessed: NO_WORD_GUESSED_EN,
        }
    }

    /// The Spanish table.
    pub fn spanish() -> (r: LanguagePack<'static>)
        ensures
            r.welcome@ == WELCOME_ES@,
            r.commands@ == COMMANDS_ES@,
            r.win@ == WIN_ES@,
            r.loss@ == LOSS_ES@,
            r.tries_left@ == TRIES_LEFT_ES@,
            r.err_invalid_chars@ == ERR_INVALID_CHARS_ES@,
            r.err_invalid_len@ == ERR_INVALID_LEN_ES@,
            r.err_invalid_word@ == ERR_INVALID_WORD_ES@,
            r.prompt_guess_title@ == PROMPT_GUESS_TITLE_ES@,
            r.prompt_language_title@ == PROMPT_LANGUAGE_TITLE_ES@,
            r.prompt_play_again@ == PROMPT_PLAY_AGAIN_ES@,
            r.no_word_guessed@ == NO_WORD_GUESSED_ES@,
    {
        LanguagePack {
            welcome: WELCOME_ES,
            commands: COMMANDS_ES,
            win: WIN_ES,
            loss: LOSS_ES,
            tries_left: TRIES_LEFT_ES,
            err_invalid_chars: ERR_INVALID_CHARS_ES,
            err_invalid_len: ERR_INVALID_LEN_ES,
            err_invalid_word: ERR_INVALID_WORD_ES,
            prompt_guess_title: PROMPT_GUESS_TITLE_ES,
            prompt_language_title: PROMPT_LANGUAGE_TITLE_ES,
            prompt_play_again: PROMPT_PLAY_AGAIN_ES,
            no_word_guessed: NO_WORD_GUESSED_ES,
        }
    }
}

} // verus!
