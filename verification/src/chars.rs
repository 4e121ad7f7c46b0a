//! Characters and what surrounds a text.

use vstd::prelude::*;

use crate::text::{matches_at, stands_at};

verus! {

/// Whether a character beyond ASCII has Unicode's `Alphabetic` property.
pub uninterp spec fn wide_letter(c: char) -> bool;

/// Whether a character beyond ASCII has Unicode's `Alphabetic` property or is
/// numeric.
pub uninterp spec fn wide_letter_or_digit(c: char) -> bool;

/// Whether a character is a letter of ASCII.
pub open spec fn ascii_letter(c: char) -> bool {
    ('a' <= c && c <= 'z') || ('A' <= c && c <= 'Z')
}

/// Whether a character has Unicode's `White_Space` property: the tabulator to the
/// carriage return, the spaces of all widths, and what ends a line or a paragraph.
pub open spec fn is_space(c: char) -> bool {
    ||| '\u{9}' <= c && c <= '\u{d}'
    ||| c == ' '
    ||| c == '\u{85}'
    ||| c == '\u{a0}'
    ||| c == '\u{1680}'
    ||| '\u{2000}' <= c && c <= '\u{200a}'
    ||| c == '\u{2028}'
    ||| c == '\u{2029}'
    ||| c == '\u{202f}'
    ||| c == '\u{205f}'
    ||| c == '\u{3000}'
}

/// Whether a character has Unicode's `Alphabetic` property.
pub open spec fn is_letter(c: char) -> bool {
    if c as u32 <= 127 {
        ascii_letter(c)
    } else {
        wide_letter(c)
    }
}

/// Whether a character has Unicode's `Alphabetic` property or is numeric.
pub open spec fn is_letter_or_digit(c: char) -> bool {
    if c as u32 <= 127 {
        ascii_letter(c) || ('0' <= c && c <= '9')
    } else {
        wide_letter_or_digit(c)
    }
}

/// `char::is_whitespace` is the `White_Space` property, which Unicode gives to
/// these characters and no others.
pub assume_specification[ char::is_whitespace ](c: char) -> (b: bool)
    ensures
        b == is_space(c),
;

/// `char::is_alphabetic` is the `Alphabetic` property: of ASCII the letters, and
/// beyond it what a fixed table holds.
pub assume_specification[ char::is_alphabetic ](c: char) -> (b: bool)
    ensures
        b == (if c as u32 <= 127 {
            ascii_letter(c)
        } else {
            wide_letter(c)
        }),
;

/// `char::is_alphanumeric` is true of every character that is alphabetic, and of
/// those that are numeric: of ASCII the digits, and beyond it what a fixed table
/// holds.
pub assume_specification[ char::is_alphanumeric ](c: char) -> (b: bool)
    ensures
        b == (if c as u32 <= 127 {
            ascii_letter(c) || ('0' <= c && c <= '9')
        } else {
            wide_letter_or_digit(c)
        }),
        is_letter(c) ==> b,
;

// ---- trimming ----

/// A text without the white space it starts with.
pub open spec fn trim_start(s: Seq<char>) -> Seq<char>
    decreases s.len(),
{
    if s.len() > 0 && is_space(s[0]) {
        trim_start(s.skip(1))
    } else {
        s
    }
}

/// A text without the white space it ends with.
pub open spec fn trim_end(s: Seq<char>) -> Seq<char>
    decreases s.len(),
{
    if s.len() > 0 && is_space(s.last()) {
        trim_end(s.drop_last())
    } else {
        s
    }
}

/// A text without the white space around it.
pub open spec fn trimmed(s: Seq<char>) -> Seq<char> {
    trim_end(trim_start(s))
}

/// A slice of a text, as characters of their own.
pub fn piece(s: &[char], a: usize, b: usize) -> (r: Vec<char>)
    requires
        a <= b <= s@.len(),
    ensures
        r@ == s@.subrange(a as int, b as int),
{
    let mut r: Vec<char> = Vec::new();
    let mut i: usize = a;
    while i < b
        invariant
            a <= i <= b <= s@.len(),
            r@ == s@.subrange(a as int, i as int),
        decreases b - i,
    {
        r.push(s[i]);
        i += 1;
        assert(r@ =~= s@.subrange(a as int, i as int));
    }
    r
}

pub fn trim_left(s: &[char]) -> (r: Vec<char>)
    ensures
        r@ == trim_start(s@),
{
    let mut i: usize = 0;
    assert(s@.skip(0) =~= s@);
    while i < s.len() && s[i].is_whitespace()
        invariant
            i <= s.len(),
            trim_start(s@) == trim_start(s@.skip(i as int)),
        decreases s.len() - i,
    {
        assert(s@.skip(i as int).skip(1) =~= s@.skip(i + 1));
        assert(s@.skip(i as int)[0] == s@[i as int]);
        i += 1;
    }
    let r = piece(s, i, s.len());
    assert(r@ =~= s@.skip(i as int));
    r
}

pub fn trim_right(s: &[char]) -> (r: Vec<char>)
    ensures
        r@ == trim_end(s@),
{
    let mut i: usize = s.len();
    assert(s@.take(i as int) =~= s@);
    while i > 0 && s[i - 1].is_whitespace()
        invariant
            i <= s.len(),
            trim_end(s@) == trim_end(s@.take(i as int)),
        decreases i,
    {
        assert(s@.take(i as int).drop_last() =~= s@.take(i - 1));
        assert(s@.take(i as int).last() == s@[i - 1]);
        i -= 1;
    }
    let r = piece(s, 0, i);
    assert(r@ =~= s@.take(i as int));
    assert(i > 0 ==> s@.take(i as int).last() == s@[i - 1]);
    r
}

pub fn trim(s: &[char]) -> (r: Vec<char>)
    ensures
        r@ == trimmed(s@),
{
    let a = trim_left(s);
    trim_right(&a)
}

// ---- finding ----

/// The first place of a pattern from `from` on.
pub open spec fn place_from(s: Seq<char>, pat: Seq<char>, from: int) -> Option<int>
    decreases s.len() - from,
{
    if from < 0 || from + pat.len() > s.len() {
        None
    } else if stands_at(s, pat, from) {
        Some(from)
    } else if from < s.len() {
        place_from(s, pat, from + 1)
    } else {
        None
    }
}

/// The first place of a pattern.
pub open spec fn place_of(s: Seq<char>, pat: Seq<char>) -> Option<int> {
    place_from(s, pat, 0)
}

/// What a first place is.
pub proof fn lemma_place_from(s: Seq<char>, pat: Seq<char>, from: int)
    requires
        0 <= from,
    ensures
        match place_from(s, pat, from) {
            Some(i) => from <= i && stands_at(s, pat, i) && i + pat.len() <= s.len() && forall|j: int|
                from <= j < i ==> !stands_at(s, pat, j),
            None => forall|j: int| from <= j ==> !stands_at(s, pat, j),
        },
    decreases s.len() - from,
{
    if from + pat.len() <= s.len() && !stands_at(s, pat, from) && from < s.len() {
        lemma_place_from(s, pat, from + 1);
    }
}

/// The first place of a pattern from `from` on.
pub fn search_from(s: &[char], pat: &[char], from: usize) -> (r: Option<usize>)
    requires
        from <= s@.len(),
    ensures
        match r {
            Some(i) => place_from(s@, pat@, from as int) == Some(i as int) && from <= i && i
                + pat@.len() <= s@.len(),
            None => place_from(s@, pat@, from as int) is None,
        },
{
    let mut i: usize = from;
    while i < s.len()
        invariant
            from <= i <= s.len(),
            place_from(s@, pat@, from as int) == place_from(s@, pat@, i as int),
        decreases s.len() - i,
    {
        if pat.len() > s.len() - i {
            return None;
        }
        if matches_at(s, pat, i) {
            return Some(i);
        }
        i += 1;
    }
    if matches_at(s, pat, i) {
        Some(i)
    } else {
        None
    }
}

/// The first place of a pattern.
pub fn search(s: &[char], pat: &[char]) -> (r: Option<usize>)
    ensures
        match r {
            Some(i) => place_of(s@, pat@) == Some(i as int) && i + pat@.len() <= s@.len(),
            None => place_of(s@, pat@) is None,
        },
{
    search_from(s, pat, 0)
}

/// A text cut in two around the first place of a pattern.
pub open spec fn split_at_first(s: Seq<char>, pat: Seq<char>) -> Option<(Seq<char>, Seq<char>)> {
    match place_of(s, pat) {
        Some(i) => Some((s.take(i), s.skip(i + pat.len()))),
        None => None,
    }
}

/// A text cut in two around the first place of a pattern.
pub fn split_once(s: &[char], pat: &[char]) -> (r: Option<(Vec<char>, Vec<char>)>)
    ensures
        match r {
            Some(p) => split_at_first(s@, pat@) == Some((p.0@, p.1@)) && p.0@.len() + pat@.len()
                + p.1@.len() == s@.len(),
            None => split_at_first(s@, pat@) is None,
        },
{
    let n = s.len();
    match search(s, pat) {
        Some(i) => {
            let a = piece(s, 0, i);
            let b = piece(s, i + pat.len(), n);
            assert(a@ =~= s@.take(i as int));
            assert(b@ =~= s@.skip(i + pat@.len()));
            Some((a, b))
        },
        None => None,
    }
}

/// Whether a text starts with another.
pub open spec fn begins(s: Seq<char>, pat: Seq<char>) -> bool {
    stands_at(s, pat, 0)
}

/// Whether a text ends with another.
pub open spec fn ends(s: Seq<char>, pat: Seq<char>) -> bool {
    stands_at(s, pat, s.len() - pat.len())
}

pub fn starts_with(s: &[char], pat: &[char]) -> (b: bool)
    ensures
        b == begins(s@, pat@),
{
    matches_at(s, pat, 0)
}

pub fn ends_with(s: &[char], pat: &[char]) -> (b: bool)
    ensures
        b == ends(s@, pat@),
{
    if pat.len() > s.len() {
        false
    } else {
        matches_at(s, pat, s.len() - pat.len())
    }
}

} // verus!
