//! Text primitives for shipment lines: case folding, trimming, comparison
//! and splitting into columns.

use vstd::prelude::*;

verus! {

/// The upper-case form of an ASCII lower-case letter; any other character is
/// itself.
pub open spec fn upper_char(c: char) -> char {
    if 'a' <= c && c <= 'z' {
        ((c as u32) - 32) as char
    } else {
        c
    }
}

/// A text with every ASCII lower-case letter replaced by its upper-case form.
pub open spec fn spec_upper(s: Seq<char>) -> Seq<char> {
    Seq::new(s.len(), |i: int| upper_char(s[i]))
}

/// What `str::trim` makes of a text: the text without its leading and
/// trailing Unicode white space.
pub uninterp spec fn spec_trim(s: Seq<char>) -> Seq<char>;

/// Calls `str::to_ascii_uppercase`. Trusted: the result has the length of the
/// input, with 'a'..='z' mapped to 'A'..='Z' and every other character kept.
#[verifier::external_body]
pub(crate) fn to_upper(s: &str) -> (r: String)
    ensures
        r@ == spec_upper(s@),
{
    s.to_ascii_uppercase()
}

/// Calls `str::trim`. Trusted: the result is a function of the input's
/// characters alone, named `spec_trim`.
#[verifier::external_body]
pub(crate) fn trim<'a>(s: &'a str) -> (r: &'a str)
    ensures
        r@ == spec_trim(s@),
{
    s.trim()
}

/// Whether two texts hold the same characters.
pub fn same_text(a: &str, b: &str) -> (same: bool)
    ensures
        same == (a@ == b@),
{
    let n = a.unicode_len();
    if b.unicode_len() != n {
        return false;
    }
    let mut i: usize = 0;
    while i < n
        invariant
            i <= n,
            n == a@.len(),
            n == b@.len(),
            a@.take(i as int) == b@.take(i as int),
        decreases n - i,
    {
        if a.get_char(i) != b.get_char(i) {
            return false;
        }
        assert(a@.take(i + 1) == a@.take(i as int).push(a@[i as int]));
        assert(b@.take(i + 1) == b@.take(i as int).push(b@[i as int]));
        i += 1;
    }
    assert(a@.take(n as int) == a@);
    assert(b@.take(n as int) == b@);
    true
}

/// The pieces of a text between occurrences of `sep`, in order. A text
/// without `sep` is one piece; two adjacent separators enclose an empty piece.
pub open spec fn spec_split(s: Seq<char>, sep: char) -> Seq<Seq<char>>
    decreases s.len(),
{
    if s.len() == 0 {
        seq![Seq::<char>::empty()]
    } else {
        let before = spec_split(s.drop_last(), sep);
        if s.last() == sep {
            before.push(Seq::<char>::empty())
        } else {
            before.drop_last().push(before.last().push(s.last()))
        }
    }
}

/// The character sequences of a list of strings.
pub open spec fn texts(words: Seq<String>) -> Seq<Seq<char>> {
    Seq::new(words.len(), |i: int| words[i]@)
}

/// Splits a text at every occurrence of `sep`.
pub fn split(s: &str, sep: char) -> (words: Vec<String>)
    ensures
        texts(words@) == spec_split(s@, sep),
{
    let n = s.unicode_len();
    let mut words: Vec<String> = Vec::new();
    let mut start: usize = 0;
    let mut i: usize = 0;
    proof {
        assert(s@.take(0).len() == 0);
        assert(s@.subrange(0, 0) == Seq::<char>::empty());
        assert(texts(words@).push(s@.subrange(0, 0)) == seq![Seq::<char>::empty()]);
    }
    while i < n
        invariant
            start <= i <= n,
            n == s@.len(),
            spec_split(s@.take(i as int), sep) == texts(words@).push(
                s@.subrange(start as int, i as int),
            ),
        decreases n - i,
    {
        let c = s.get_char(i);
        proof {
            let t = s@.take(i + 1);
            assert(t.drop_last() == s@.take(i as int));
            assert(t.last() == c);
            let before = spec_split(t.drop_last(), sep);
            assert(before.drop_last() == texts(words@));
            assert(before.last() == s@.subrange(start as int, i as int));
        }
        if c == sep {
            let word = String::from_str(s.substring_char(start, i));
            let ghost prev = words@;
            words.push(word);
            assert(texts(words@) == texts(prev).push(s@.subrange(start as int, i as int)));
            start = i + 1;
            assert(s@.subrange(start as int, start as int) == Seq::<char>::empty());
        } else {
            assert(s@.subrange(start as int, i as int).push(c) == s@.subrange(
                start as int,
                i + 1,
            ));
        }
        i += 1;
    }
    let word = String::from_str(s.substring_char(start, n));
    let ghost prev = words@;
    words.push(word);
    assert(texts(words@) == texts(prev).push(s@.subrange(start as int, n as int)));
    assert(s@.take(n as int) == s@);
    words
}

/// The pieces of a list written one after another with `sep` between each two.
pub open spec fn spec_join(parts: Seq<Seq<char>>, sep: Seq<char>) -> Seq<char>
    decreases parts.len(),
{
    if parts.len() == 0 {
        Seq::empty()
    } else if parts.len() == 1 {
        parts[0]
    } else {
        spec_join(parts.drop_last(), sep) + sep + parts.last()
    }
}

/// Joins texts with `sep` between each two.
pub fn join(parts: &Vec<String>, sep: &str) -> (joined: String)
    ensures
        joined@ == spec_join(texts(parts@), sep@),
{
    let mut joined = String::new();
    let n = parts.len();
    let mut i: usize = 0;
    while i < n
        invariant
            i <= n,
            n == parts.len(),
            joined@ == spec_join(texts(parts@).take(i as int), sep@),
        decreases n - i,
    {
        proof {
            let t = texts(parts@).take(i + 1);
            assert(t.drop_last() == texts(parts@).take(i as int));
            assert(t.last() == parts[i as int]@);
            if i == 0 {
                assert(spec_join(t.drop_last(), sep@) == Seq::<char>::empty());
            }
        }
        if i > 0 {
            joined.append(sep);
        }
        joined.append(parts[i].as_str());
        assert(joined@ =~= spec_join(texts(parts@).take(i + 1), sep@));
        i += 1;
    }
    assert(texts(parts@).take(n as int) == texts(parts@));
    joined
}

} // verus!
