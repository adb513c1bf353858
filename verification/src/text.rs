//! Small verified helpers over `str` and `String`, plus the one trusted
//! wrapper around `String::push`.

use vstd::prelude::*;
use vstd::string::StrSliceExecFns;

verus! {

/// Relies on `String::push`: it appends exactly the given character to the
/// end of the string.
#[verifier::external_body]
pub fn push_char(s: &mut String, c: char)
    ensures
        final(s)@ == old(s)@.push(c),
{
    s.push(c);
}

/// The characters of a string slice, as a vector.
pub fn chars_of(s: &str) -> (r: Vec<char>)
    ensures
        r@ == s@,
{
    let n = s.unicode_len();
    let mut r: Vec<char> = Vec::new();
    let mut i: usize = 0;
    while i < n
        invariant
            n == s@.len(),
            i <= n,
            r@ == s@.subrange(0, i as int),
        decreases n - i,
    {
        r.push(s.get_char(i));
        i += 1;
        proof {
            assert(r@ =~= s@.subrange(0, i as int));
        }
    }
    proof {
        assert(r@ =~= s@);
    }
    r
}

/// A string holding exactly the given characters.
pub fn string_from_chars(v: &[char]) -> (r: String)
    ensures
        r@ == v@,
{
    let mut r = String::new();
    let mut i: usize = 0;
    while i < v.len()
        invariant
            i <= v@.len(),
            r@ == v@.subrange(0, i as int),
        decreases v@.len() - i,
    {
        push_char(&mut r, v[i]);
        i += 1;
        proof {
            assert(r@ =~= v@.subrange(0, i as int));
        }
    }
    proof {
        assert(r@ =~= v@);
    }
    r
}

/// Character-for-character equality of two string slices.
pub fn str_eq(a: &str, b: &str) -> (r: bool)
    ensures
        r == (a@ == b@),
{
    let n = a.unicode_len();
    if n != b.unicode_len() {
        return false;
    }
    let mut i: usize = 0;
    while i < n
        invariant
            n == a@.len(),
            n == b@.len(),
            i <= n,
            forall|k: int| 0 <= k < i ==> a@[k] == b@[k],
        decreases n - i,
    {
        if a.get_char(i) != b.get_char(i) {
            return false;
        }
        i += 1;
    }
    proof {
        assert(a@ =~= b@);
    }
    true
}

} // verus!

verus! {

/// Index of the first line feed at or after `j`, or the length when there
/// is none.
pub open spec fn first_newline(s: Seq<char>, j: int) -> int
    decreases s.len() - j,
{
    if j < 0 || j >= s.len() {
        s.len() as int
    } else if s[j] == '\n' {
        j
    } else {
        first_newline(s, j + 1)
    }
}

/// A line with one carriage return stripped off its end, so that a file
/// with `\r\n` endings reads the same as one with bare `\n`.
pub open spec fn strip_cr(line: Seq<char>) -> Seq<char> {
    if line.len() > 0 && line.last() == '\r' {
        line.drop_last()
    } else {
        line
    }
}

/// The lines of a text: split at each line feed, one trailing carriage
/// return removed per line, and no empty final line for a text that ends
/// with a line feed.
pub open spec fn spec_lines(s: Seq<char>) -> Seq<Seq<char>>
    decreases s.len(),
{
    if s.len() == 0 {
        Seq::empty()
    } else {
        let i = first_newline(s, 0);
        if 0 <= i < s.len() {
            seq![strip_cr(s.subrange(0, i))] + spec_lines(s.subrange(i + 1, s.len() as int))
        } else {
            seq![s]
        }
    }
}

/// What `first_newline` finds: the first line feed at or after `j`, with
/// everything before it on the same line.
pub proof fn lemma_first_newline_props(s: Seq<char>, j: int)
    requires
        0 <= j <= s.len(),
    ensures
        j <= first_newline(s, j) <= s.len(),
        first_newline(s, j) < s.len() ==> s[first_newline(s, j)] == '\n',
        forall|k: int| j <= k < first_newline(s, j) ==> s[k] != '\n',
    decreases s.len() - j,
{
    if j < s.len() && s[j] != '\n' {
        lemma_first_newline_props(s, j + 1);
    }
}

/// Skipping positions known to hold no line feed does not change what is
/// found.
pub proof fn lemma_first_newline_skip(s: Seq<char>, j: int)
    requires
        0 <= j <= s.len(),
        forall|k: int| 0 <= k < j ==> s[k] != '\n',
    ensures
        first_newline(s, 0) == first_newline(s, j),
    decreases j,
{
    if j > 0 {
        lemma_first_newline_skip(s, j - 1);
    }
}

/// The text split into its lines.
pub fn split_lines(text: &str) -> (r: Vec<String>)
    ensures
        r@.map_values(|t: String| t@) == spec_lines(text@),
{
    let v = chars_of(text);
    let n = v.len();
    let mut r: Vec<String> = Vec::new();
    let mut start: usize = 0;
    proof {
        assert(v@.subrange(0, n as int) =~= text@);
        assert(r@.map_values(|t: String| t@) =~= Seq::<Seq<char>>::empty());
        assert(spec_lines(text@) =~= r@.map_values(|t: String| t@) + spec_lines(
            v@.subrange(0, n as int),
        ));
    }
    while start < n
        invariant
            v@ == text@,
            n == v@.len(),
            start <= n,
            spec_lines(text@) == r@.map_values(|t: String| t@) + spec_lines(
                v@.subrange(start as int, n as int),
            ),
        decreases n - start,
    {
        let ghost rest = v@.subrange(start as int, n as int);
        let mut i: usize = start;
        while i < n && v[i] != '\n'
            invariant
                v@ == text@,
                n == v@.len(),
                start <= i <= n,
                forall|k: int| start <= k < i ==> v@[k] != '\n',
            decreases n - i,
        {
            i += 1;
        }
        proof {
            lemma_first_newline_skip(rest, i - start);
            lemma_first_newline_props(rest, 0);
            assert forall|k: int| 0 <= k < i - start implies rest[k] != '\n' by {
                assert(rest[k] == v@[start + k]);
            }
            if i < n {
                assert(rest[i - start] == v@[i as int]);
                assert(first_newline(rest, i - start) == i - start);
            } else {
                assert(first_newline(rest, i - start) == rest.len() as int);
            }
        }
        // the line runs from start to i (exclusive); before a line feed one
        // trailing carriage return is dropped
        let mut stop = i;
        if i < n && stop > start && v[stop - 1] == '\r' {
            stop = stop - 1;
        }
        let mut line = String::new();
        let mut k = start;
        while k < stop
            invariant
                v@ == text@,
                n == v@.len(),
                start <= k <= stop <= n,
                line@ == v@.subrange(start as int, k as int),
            decreases stop - k,
        {
            push_char(&mut line, v[k]);
            k += 1;
            proof {
                assert(line@ =~= v@.subrange(start as int, k as int));
            }
        }
        proof {
            let li = v@.subrange(start as int, i as int);
            assert(li =~= rest.subrange(0, i - start));
            if i < n {
                assert(strip_cr(li) =~= v@.subrange(start as int, stop as int));
                assert(spec_lines(rest) == seq![strip_cr(li)] + spec_lines(
                    rest.subrange(i - start + 1, rest.len() as int),
                ));
                assert(rest.subrange(i - start + 1, rest.len() as int) =~= v@.subrange(
                    i + 1,
                    n as int,
                ));
            } else {
                assert(line@ =~= rest);
                assert(spec_lines(rest) == seq![rest]);
            }
        }
        r.push(line);
        if i < n {
            start = i + 1;
        } else {
            start = n;
        }
        proof {
            assert(spec_lines(text@) =~= r@.map_values(|t: String| t@) + spec_lines(
                v@.subrange(start as int, n as int),
            ));
        }
    }
    proof {
        assert(v@.subrange(n as int, n as int) =~= Seq::<char>::empty());
        assert(spec_lines(v@.subrange(n as int, n as int)) =~= Seq::<Seq<char>>::empty());
        assert(r@.map_values(|t: String| t@) =~= spec_lines(text@));
    }
    r
}

} // verus!

verus! {

/// A sequence extended by one element contains exactly what it contained
/// before, plus that element.
pub proof fn lemma_contains_push<A>(s: Seq<A>, x: A, y: A)
    ensures
        s.push(x).contains(y) <==> (s.contains(y) || y == x),
{
    if s.push(x).contains(y) {
        let m = choose|m: int| 0 <= m < s.push(x).len() && s.push(x)[m] == y;
        if m < s.len() {
            assert(s[m] == y);
        }
    }
    if s.contains(y) {
        let m = choose|m: int| 0 <= m < s.len() && s[m] == y;
        assert(s.push(x)[m] == y);
    }
    assert(s.push(x)[s.len() as int] == x);
}

} // verus!
