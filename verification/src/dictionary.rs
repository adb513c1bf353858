//! Word lists for one round: the set of words a secret may be drawn from,
//! the set of words accepted as guesses (which also holds a folded spelling
//! of every accented word, to improve playability), and the abecedary of
//! every legal character.

use vstd::prelude::*;
use vstd::string::StrSliceExecFns;
use crate::ascii::{asciify_str, has_non_ascii, spec_asciify, spec_is_accented};
use crate::text::{split_lines, spec_lines};

verus! {

/// What `str::to_lowercase` returns for the given characters.
pub uninterp spec fn lower_of(s: Seq<char>) -> Seq<char>;

/// Relies on `str::to_lowercase`: the result is a function of the
/// characters alone.
#[verifier::external_body]
fn lowercase(s: &str) -> (r: String)
    ensures
        r@ == lower_of(s@),
{
    s.to_lowercase()
}

/// Relies on `rand::random_range` over `0..n`: the thread-local generator
/// returns a value in the given range (empty ranges are excluded here, so
/// it cannot panic).
#[verifier::external_body]
fn random_below(n: usize) -> (r: usize)
    requires
        n > 0,
    ensures
        r < n,
{
    rand::random_range(0..n)
}

/// Whether some word of the list has exactly these characters.
pub open spec fn has_word(ws: Seq<String>, w: Seq<char>) -> bool {
    exists|i: int| 0 <= i < ws.len() && ws[i]@ == w
}

/// No two words of the list have the same characters.
pub open spec fn distinct_words(ws: Seq<String>) -> bool {
    forall|i: int, j: int| 0 <= i < j < ws.len() ==> ws[i]@ != ws[j]@
}

/// A line is accented when any of its characters folds to something else.
pub open spec fn line_has_accent(l: Seq<char>) -> bool {
    exists|i: int| 0 <= i < l.len() && spec_is_accented(l[i])
}

/// The folded spelling of a line.
pub open spec fn folded_line(l: Seq<char>) -> Seq<char> {
    l.map_values(|c: char| spec_asciify(c))
}

/// The words a set of lines contributes to the guess dictionary: every line
/// itself, and the folded spelling of every accented line.
pub open spec fn dictionary_has(lines: Seq<Seq<char>>, w: Seq<char>) -> bool {
    lines.contains(w) || (exists|i: int|
        0 <= i < lines.len() && line_has_accent(#[trigger] lines[i]) && w == folded_line(lines[i]))
}

/// The characters a set of lines contributes to the abecedary: every
/// character of every lowercased line.
pub open spec fn lines_have_char(lines: Seq<Seq<char>>, c: char) -> bool {
    exists|i: int| 0 <= i < lines.len() && lower_of(#[trigger] lines[i]).contains(c)
}

/// Appends the word unless an equal one is already there.
fn insert_word_unique(ws: &mut Vec<String>, w: String)
    requires
        distinct_words(old(ws)@),
    ensures
        distinct_words(final(ws)@),
        forall|u: Seq<char>| has_word(final(ws)@, u) <==> (has_word(old(ws)@, u) || u == w@),
{
    let mut i: usize = 0;
    while i < ws.len()
        invariant
            distinct_words(ws@),
            i <= ws@.len(),
            forall|k: int| 0 <= k < i ==> ws@[k]@ != w@,
        decreases ws@.len() - i,
    {
        if crate::text::str_eq(ws[i].as_str(), w.as_str()) {
            proof {
                assert(ws@[i as int]@ == w@);
                assert forall|u: Seq<char>| has_word(ws@, u) <==> (has_word(ws@, u) || u
                    == w@) by {
                    if u == w@ {
                        assert(has_word(ws@, u));
                    }
                }
            }
            return ;
        }
        i += 1;
    }
    let ghost before = ws@;
    ws.push(w);
    proof {
        assert forall|u: Seq<char>| has_word(ws@, u) <==> (has_word(before, u) || u == w@) by {
            if has_word(ws@, u) {
                let k = choose|k: int| 0 <= k < ws@.len() && ws@[k]@ == u;
                if k < before.len() {
                    assert(has_word(before, u));
                }
            }
            if has_word(before, u) {
                let k = choose|k: int| 0 <= k < before.len() && before[k]@ == u;
                assert(ws@[k]@ == u);
            }
            if u == w@ {
                assert(ws@[ws@.len() - 1]@ == u);
            }
        }
    }
}

/// Appends the character unless it is already there.
pub fn insert_char_unique(cs: &mut Vec<char>, c: char)
    ensures
        forall|d: char| final(cs)@.contains(d) <==> (old(cs)@.contains(d) || d == c),
        old(cs)@.no_duplicates() ==> final(cs)@.no_duplicates(),
{
    let mut i: usize = 0;
    while i < cs.len()
        invariant
            i <= cs@.len(),
            forall|k: int| 0 <= k < i ==> cs@[k] != c,
        decreases cs@.len() - i,
    {
        if cs[i] == c {
            proof {
                assert(cs@.contains(c));
                assert forall|d: char| cs@.contains(d) <==> (cs@.contains(d) || d == c) by {}
            }
            return ;
        }
        i += 1;
    }
    let ghost before = cs@;
    cs.push(c);
    proof {
        assert forall|d: char| cs@.contains(d) <==> (before.contains(d) || d == c) by {
            if cs@.contains(d) {
                let k = choose|k: int| 0 <= k < cs@.len() && cs@[k] == d;
                if k < before.len() {
                    assert(before.contains(d));
                }
            }
            if before.contains(d) {
                let k = choose|k: int| 0 <= k < before.len() && before[k] == d;
                assert(cs@[k] == d);
            }
            if d == c {
                assert(cs@[cs@.len() - 1] == d);
            }
        }
        assert(forall|k: int| 0 <= k < before.len() ==> before[k] != c);
    }
}

/// The word lists of one language.
pub struct Dictionary {
    /// The words a secret may be drawn from: only correctly spelled words.
    secret_words: Vec<String>,
    /// The words accepted as guesses; accented words also appear in a
    /// folded spelling, to improve playability.
    pub dictionary: Vec<String>,
    /// Every legal character.
    pub abecedary: Vec<char>,
}

impl Dictionary {
    /// The characters of each word a secret may be drawn from.
    pub closed spec fn spec_secret_words(&self) -> Seq<Seq<char>> {
        self.secret_words@.map_values(|w: String| w@)
    }

    /// The words accepted as guesses.
    pub closed spec fn spec_dictionary(&self) -> Seq<String> {
        self.dictionary@
    }

    /// The legal characters.
    pub closed spec fn spec_abecedary(&self) -> Seq<char> {
        self.abecedary@
    }

    /// How many words a secret may be drawn from.
    pub fn secret_word_count(&self) -> (r: usize)
        ensures
            r == self.spec_secret_words().len(),
    {
        self.secret_words.len()
    }

    /// Builds the three lists from two texts, one word per line: the guess
    /// dictionary and the abecedary from the first, the secret-word list
    /// and more abecedary characters from the second.
    pub fn new(dictionary_text: &str, secret_text: &str) -> (r: Dictionary)
        ensures
            ({
                let dl = spec_lines(dictionary_text@);
                let sl = spec_lines(secret_text@);
                &&& forall|w: Seq<char>| has_word(r.spec_dictionary(), w) <==> dictionary_has(
                    dl,
                    w,
                )
                &&& forall|c: char| r.spec_abecedary().contains(c) <==> (lines_have_char(dl, c)
                    || lines_have_char(sl, c))
                &&& distinct_words(r.spec_dictionary())
                &&& r.spec_abecedary().no_duplicates()
                &&& forall|w: Seq<char>| r.spec_secret_words().contains(w) <==> sl.contains(w)
            }),
    {
        let dict_lines = split_lines(dictionary_text);
        let secret_lines = split_lines(secret_text);
        let ghost dl = spec_lines(dictionary_text@);
        let ghost sl = spec_lines(secret_text@);
        let mut dictionary: Vec<String> = Vec::new();
        let mut secret_words: Vec<String> = Vec::new();
        let mut abecedary: Vec<char> = Vec::new();
        let mut i: usize = 0;
        while i < dict_lines.len()
            invariant
                dict_lines@.map_values(|t: String| t@) == dl,
                i <= dl.len(),
                distinct_words(dictionary@),
                abecedary@.no_duplicates(),
                forall|w: Seq<char>| has_word(dictionary@, w) <==> dictionary_has(
                    dl.subrange(0, i as int),
                    w,
                ),
                forall|c: char| abecedary@.contains(c) <==> lines_have_char(
                    dl.subrange(0, i as int),
                    c,
                ),
            decreases dl.len() - i,
        {
            let line = &dict_lines[i];
            proof {
                assert(line@ == dl[i as int]);
            }
            let low = lowercase(line.as_str());
            let ghost abc0 = abecedary@;
            let low_n = low.as_str().unicode_len();
            let mut k: usize = 0;
            let ghost mut done: Seq<char> = Seq::empty();
            proof {
                assert(done =~= low@.subrange(0, 0));
            }
            while k < low_n
                invariant
                    low_n == low@.len(),
                    k <= low@.len(),
                    done == low@.subrange(0, k as int),
                    abecedary@.no_duplicates(),
                    forall|c: char| abecedary@.contains(c) <==> (abc0.contains(c)
                        || done.contains(c)),
                decreases low@.len() - k,
            {
                let ch = low.as_str().get_char(k);
                let ghost done0 = done;
                insert_char_unique(&mut abecedary, ch);
                proof {
                    done = done.push(ch);
                    assert forall|c: char| abecedary@.contains(c) <==> (abc0.contains(c)
                        || done.contains(c)) by {
                        crate::text::lemma_contains_push(done0, ch, c);
                    }
                }
                k += 1;
                proof {
                    assert(done =~= low@.subrange(0, k as int));
                }
            }
            proof {
                assert(done =~= low@);
            }
            proof {
                assert forall|c: char| abecedary@.contains(c) <==> lines_have_char(
                    dl.subrange(0, i + 1),
                    c,
                ) by {
                    let pre = dl.subrange(0, i as int);
                    let now = dl.subrange(0, i + 1);
                    if lines_have_char(pre, c) {
                        let m = choose|m: int|
                            0 <= m < pre.len() && lower_of(#[trigger] pre[m]).contains(c);
                        assert(now[m] == pre[m]);
                        assert(lines_have_char(now, c));
                    }
                    if low@.contains(c) {
                        assert(now[i as int] == dl[i as int]);
                        assert(lower_of(now[i as int]).contains(c));
                        assert(lines_have_char(now, c));
                    }
                    if lines_have_char(now, c) {
                        let m = choose|m: int|
                            0 <= m < now.len() && lower_of(#[trigger] now[m]).contains(c);
                        if m < i {
                            assert(pre[m] == now[m]);
                            assert(lines_have_char(pre, c));
                        } else {
                            assert(now[m] == dl[i as int]);
                        }
                    }
                }
            }
            let ghost dict_before = dictionary@;
            if has_non_ascii(line.as_str()) {
                insert_word_unique(&mut dictionary, asciify_str(line.as_str()));
            }
            insert_word_unique(&mut dictionary, line.clone());
            i += 1;
            proof {
                let pre = dl.subrange(0, i - 1);
                let now = dl.subrange(0, i as int);
                assert(now.drop_last() =~= pre);
                assert(now.last() == dl[i - 1]);
                assert forall|w: Seq<char>| has_word(dictionary@, w) <==> dictionary_has(
                    now,
                    w,
                ) by {
                    if has_word(dictionary@, w) {
                        if has_word(dict_before, w) {
                            assert(dictionary_has(pre, w));
                            if pre.contains(w) {
                                let m = choose|m: int| 0 <= m < pre.len() && pre[m] == w;
                                assert(now[m] == w);
                                assert(now.contains(w));
                            } else {
                                let m = choose|m: int|
                                    0 <= m < pre.len() && line_has_accent(#[trigger] pre[m]) && w
                                        == folded_line(pre[m]);
                                assert(now[m] == pre[m]);
                            }
                        } else if w == dl[i - 1] {
                            assert(now[i - 1] == w);
                            assert(now.contains(w));
                        } else {
                            assert(line_has_accent(dl[i - 1]) && w == folded_line(dl[i - 1]));
                            assert(now[i - 1] == dl[i - 1]);
                        }
                    }
                    if dictionary_has(now, w) {
                        if now.contains(w) {
                            let m = choose|m: int| 0 <= m < now.len() && now[m] == w;
                            if m < i - 1 {
                                assert(pre[m] == w);
                                assert(pre.contains(w));
                                assert(has_word(dict_before, w));
                            } else {
                                assert(w == dl[i - 1]);
                            }
                        } else {
                            let m = choose|m: int|
                                0 <= m < now.len() && line_has_accent(#[trigger] now[m]) && w
                                    == folded_line(now[m]);
                            if m < i - 1 {
                                assert(pre[m] == now[m]);
                                assert(dictionary_has(pre, w));
                                assert(has_word(dict_before, w));
                            } else {
                                assert(now[m] == dl[i - 1]);
                            }
                        }
                    }
                }
            }
        }
        proof {
            assert(dl.subrange(0, dl.len() as int) =~= dl);
        }
        let mut j: usize = 0;
        while j < secret_lines.len()
            invariant
                secret_lines@.map_values(|t: String| t@) == sl,
                j <= sl.len(),
                distinct_words(secret_words@),
                abecedary@.no_duplicates(),
                forall|w: Seq<char>| has_word(secret_words@, w) <==> sl.subrange(
                    0,
                    j as int,
                ).contains(w),
                forall|c: char| abecedary@.contains(c) <==> (lines_have_char(dl, c)
                    || lines_have_char(sl.subrange(0, j as int), c)),
            decreases sl.len() - j,
        {
            let line = &secret_lines[j];
            proof {
                assert(line@ == sl[j as int]);
            }
            let low = lowercase(line.as_str());
            let ghost abc0 = abecedary@;
            proof {
                assert(forall|c: char| abc0.contains(c) <==> (lines_have_char(dl, c)
                    || lines_have_char(sl.subrange(0, j as int), c)));
            }
            let low_n = low.as_str().unicode_len();
            let mut k: usize = 0;
            let ghost mut done: Seq<char> = Seq::empty();
            proof {
                assert(done =~= low@.subrange(0, 0));
            }
            while k < low_n
                invariant
                    low_n == low@.len(),
                    k <= low@.len(),
                    done == low@.subrange(0, k as int),
                    abecedary@.no_duplicates(),
                    forall|c: char| abecedary@.contains(c) <==> (abc0.contains(c)
                        || done.contains(c)),
                decreases low@.len() - k,
            {
                let ch = low.as_str().get_char(k);
                let ghost done0 = done;
                insert_char_unique(&mut abecedary, ch);
                proof {
                    done = done.push(ch);
                    assert forall|c: char| abecedary@.contains(c) <==> (abc0.contains(c)
                        || done.contains(c)) by {
                        crate::text::lemma_contains_push(done0, ch, c);
                    }
                }
                k += 1;
                proof {
                    assert(done =~= low@.subrange(0, k as int));
                }
            }
            proof {
                assert(done =~= low@);
            }
            let ghost sec_before = secret_words@;
            insert_word_unique(&mut secret_words, line.clone());
            proof {
                let pre = sl.subrange(0, j as int);
                let now = sl.subrange(0, j + 1);
                assert forall|c: char| abecedary@.contains(c) <==> (lines_have_char(dl, c)
                    || lines_have_char(now, c)) by {
                    assert(abecedary@.contains(c) <==> (abc0.contains(c) || low@.contains(c)));
                    assert(abc0.contains(c) <==> (lines_have_char(dl, c) || lines_have_char(
                        pre,
                        c,
                    )));
                    if lines_have_char(pre, c) {
                        let m = choose|m: int|
                            0 <= m < pre.len() && lower_of(#[trigger] pre[m]).contains(c);
                        assert(now[m] == pre[m]);
                        assert(lines_have_char(now, c));
                    }
                    if low@.contains(c) {
                        assert(now[j as int] == sl[j as int]);
                        assert(lower_of(now[j as int]).contains(c));
                        assert(lines_have_char(now, c));
                    }
                    if lines_have_char(now, c) {
                        let m = choose|m: int|
                            0 <= m < now.len() && lower_of(#[trigger] now[m]).contains(c);
                        if m < j {
                            assert(pre[m] == now[m]);
                            assert(lines_have_char(pre, c));
                        } else {
                            assert(now[m] == sl[j as int]);
                        }
                    }
                }
                assert forall|w: Seq<char>| has_word(secret_words@, w) <==> now.contains(w) by {
                    if has_word(secret_words@, w) {
                        if has_word(sec_before, w) {
                            assert(pre.contains(w));
                            let m = choose|m: int| 0 <= m < pre.len() && pre[m] == w;
                            assert(now[m] == w);
                        } else {
                            assert(w == sl[j as int]);
                            assert(now[j as int] == w);
                        }
                    }
                    if now.contains(w) {
                        let m = choose|m: int| 0 <= m < now.len() && now[m] == w;
                        if m < j {
                            assert(pre[m] == w);
                            assert(pre.contains(w));
                        }
                    }
                }
            }
            j += 1;
        }
        proof {
            assert(sl.subrange(0, sl.len() as int) =~= sl);
        }
        let r = Dictionary { secret_words, dictionary, abecedary };
        proof {
            assert(forall|w: Seq<char>| has_word(r.spec_dictionary(), w) <==> dictionary_has(
                dl,
                w,
            ));
            assert(forall|c: char| r.spec_abecedary().contains(c) <==> (lines_have_char(dl, c)
                || lines_have_char(sl, c)));
            assert(distinct_words(r.spec_dictionary()));
            assert(r.spec_abecedary().no_duplicates());
            assert forall|w: Seq<char>| r.spec_secret_words().contains(w) <==> sl.contains(
                w,
            ) by {
                if r.spec_secret_words().contains(w) {
                    let m = choose|m: int|
                        0 <= m < r.spec_secret_words().len() && r.spec_secret_words()[m] == w;
                    assert(r.secret_words@[m]@ == w);
                    assert(has_word(r.secret_words@, w));
                }
                if has_word(r.secret_words@, w) {
                    let m = choose|m: int|
                        0 <= m < r.secret_words@.len() && r.secret_words@[m]@ == w;
                    assert(r.spec_secret_words()[m] == w);
                }
            }
        }
        r
    }

    /// Draws a secret word at random; the result is always one of the
    /// secret words.
    pub fn get_secret_word(&self) -> (r: Vec<char>)
        requires
            self.spec_secret_words().len() > 0,
        ensures
            self.spec_secret_words().contains(r@),
    {
        let index = random_below(self.secret_words.len());
        let word = &self.secret_words[index];
        let r = crate::text::chars_of(word.as_str());
        proof {
            assert(self.spec_secret_words()[index as int] == r@);
        }
        r
    }
}

} // verus!
