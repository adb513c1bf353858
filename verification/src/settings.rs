//! The settings of one sitting, distilled from the command-line options.

use vstd::prelude::*;
use crate::args::{Args, DEFAULT_LANG, DEFAULT_TRIES};
use crate::language::{Language, spec_language_of};

verus! {

/// What a sitting runs with: a language, a fixed secret (possibly empty,
/// meaning none), and a try budget.
pub struct Settings {
    pub language: Language,
    pub secret: Vec<char>,
    pub tries: u32,
}

/// Distills the options into settings: the language (or the default), the
/// fixed secret's characters (empty when none was given), and the try
/// budget (or the default).
pub fn get_settings(args: &Args) -> (r: Settings)
    ensures
        r.language == (match args.language {
            Option::Some(l) => match spec_language_of(l@) {
                Option::Some(lang) => lang,
                Option::None => DEFAULT_LANG,
            },
            Option::None => DEFAULT_LANG,
        }),
        r.secret@ == (match args.secret {
            Option::Some(s) => s@,
            Option::None => Seq::<char>::empty(),
        }),
        r.tries == (match args.tries {
            Option::Some(t) => t as u32,
            Option::None => DEFAULT_TRIES as u32,
        }),
{
    let language = args.get_language();
    let secret: Vec<char> = if let Some(s) = &args.secret {
        crate::text::chars_of(s.as_str())
    } else {
        Vec::new()
    };
    let tries = args.get_tries() as u32;
    Settings { language, secret, tries }
}

} // verus!
