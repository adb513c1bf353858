//! Command-line options, as plain data. Reading them off the process's
//! actual argument list happens outside the crate; the rules for turning
//! them into game settings live here.

use vstd::prelude::*;
use vstd::string::StrSliceExecFns;
use crate::language::{Language, spec_language_of};
use crate::dictionary::insert_char_unique;

verus! {

/// The language used when none is asked for.
pub const DEFAULT_LANG: Language = Language::Spanish;

/// The number of tries used when none is asked for.
pub const DEFAULT_TRIES: u8 = 5;

/// The options a player may pass: a language, a fixed secret word, and a
/// try budget.
pub struct Args {
    /// Change the default language | Cambia el idioma por defecto ("en", "es")
    pub language: Option<String>,
    /// Set a secret word | Asigna una palabra secreta
    pub secret: Option<String>,
    /// Set max guesses | Asigna los intentos máximos
    pub tries: Option<u8>,
}

impl Args {
    /// The language asked for, or the default when none was given or the
    /// name cannot be read.
    pub fn get_language(&self) -> (r: Language)
        ensures
            r == (match self.language {
                Option::Some(l) => match spec_language_of(l@) {
                    Option::Some(lang) => lang,
                    Option::None => DEFAULT_LANG,
                },
                Option::None => DEFAULT_LANG,
            }),
    {
        if let Some(language_str) = &self.language {
            if let Ok(language) = Language::from_str(language_str.as_str()) {
                return language;
            }
        }
        DEFAULT_LANG
    }

    /// The fixed secret word, when one was given and it has exactly five
    /// characters; its characters then join the abecedary. An absent or
    /// ill-sized secret changes nothing and yields none.
    pub fn get_secret(&self, abecedary: &mut Vec<char>) -> (r: Option<Vec<char>>)
        ensures
            ({
                match self.secret {
                    Option::Some(s) => {
                        if s@.len() == 5 {
                            &&& (match r {
                                Option::Some(v) => v@ == s@,
                                Option::None => false,
                            })
                            &&& (forall|c: char| final(abecedary)@.contains(c)
                                <==> (old(abecedary)@.contains(c) || s@.contains(c)))
                            &&& (old(abecedary)@.no_duplicates()
                                ==> final(abecedary)@.no_duplicates())
                        } else {
                            r is None && final(abecedary)@ == old(abecedary)@
                        }
                    },
                    Option::None => r is None && final(abecedary)@ == old(abecedary)@,
                }
            }),
    {
        let secret_vec: Vec<char> = if let Some(secret) = &self.secret {
            crate::text::chars_of(secret.as_str())
        } else {
            return None;
        };
        let ghost s = secret_vec@;
        if secret_vec.len() == 5 {
            let ghost abc0 = abecedary@;
            let ghost mut done: Seq<char> = Seq::empty();
            let mut i: usize = 0;
            proof {
                assert(done =~= s.subrange(0, 0));
            }
            while i < secret_vec.len()
                invariant
                    secret_vec@ == s,
                    i <= s.len(),
                    done == s.subrange(0, i as int),
                    forall|c: char| abecedary@.contains(c) <==> (abc0.contains(c)
                        || done.contains(c)),
                    abc0.no_duplicates() ==> abecedary@.no_duplicates(),
                decreases s.len() - i,
            {
                let ch = secret_vec[i];
                let ghost done0 = done;
                insert_char_unique(abecedary, ch);
                proof {
                    done = done.push(ch);
                    assert forall|c: char| abecedary@.contains(c) <==> (abc0.contains(c)
                        || done.contains(c)) by {
                        crate::text::lemma_contains_push(done0, ch, c);
                    }
                }
                i += 1;
                proof {
                    assert(done =~= s.subrange(0, i as int));
                }
            }
            proof {
                assert(done =~= s);
            }
            Some(secret_vec)
        } else {
            None
        }
    }

    /// The try budget asked for, or the default.
    pub fn get_tries(&self) -> (r: u8)
        ensures
            r == (match self.tries {
                Option::Some(t) => t,
                Option::None => DEFAULT_TRIES,
            }),
    {
        if let Some(tries) = self.tries {
            tries
        } else {
            DEFAULT_TRIES
        }
    }
}

} // verus!
