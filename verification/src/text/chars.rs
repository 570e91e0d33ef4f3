//! Character classes, and the way between strings and vectors of characters.

use vstd::prelude::*;

verus! {

/// Whether `c` lies in the ASCII range.
pub open spec fn is_ascii_char(c: char) -> bool {
    (c as u32) < 0x80
}

/// Whether `c` is one of the digits `0` to `9`.
pub open spec fn is_digit(c: char) -> bool {
    '0' <= c <= '9'
}

/// Whether `c` is one of the letters `a` to `z` or `A` to `Z`.
pub open spec fn is_ascii_letter(c: char) -> bool {
    'a' <= c <= 'z' || 'A' <= c <= 'Z'
}

/// Unicode's White_Space property, on characters beyond ASCII.
pub uninterp spec fn unicode_whitespace(c: char) -> bool;

/// Unicode's Alphabetic property, on characters beyond ASCII.
pub uninterp spec fn unicode_alphabetic(c: char) -> bool;

/// Unicode's Alphabetic property or a numeric category, on characters beyond ASCII.
pub uninterp spec fn unicode_alphanumeric(c: char) -> bool;

/// The lowercase of a text that holds a character beyond ASCII.
pub uninterp spec fn unicode_lowercase(s: Seq<char>) -> Seq<char>;

/// Whether `c` is white space: a blank, or one of the controls from tab to
/// carriage return, or what Unicode adds to these.
pub open spec fn is_space(c: char) -> bool {
    if is_ascii_char(c) {
        c == ' ' || '\t' <= c <= '\r'
    } else {
        unicode_whitespace(c)
    }
}

/// Whether `c` is a letter.
pub open spec fn is_letter(c: char) -> bool {
    if is_ascii_char(c) {
        is_ascii_letter(c)
    } else {
        unicode_alphabetic(c)
    }
}

/// Whether `c` is a letter or a number.
pub open spec fn is_letter_or_number(c: char) -> bool {
    if is_ascii_char(c) {
        is_ascii_letter(c) || is_digit(c)
    } else {
        unicode_alphanumeric(c)
    }
}

/// An ASCII capital turned small; every other character as it is.
pub open spec fn ascii_lower(c: char) -> char {
    if 'A' <= c <= 'Z' {
        ((c as u32 + 32) as u32) as char
    } else {
        c
    }
}

/// The lowercase of `s`.
pub open spec fn lowercase(s: Seq<char>) -> Seq<char> {
    if s.all(|c: char| is_ascii_char(c)) {
        s.map_values(|c: char| ascii_lower(c))
    } else {
        unicode_lowercase(s)
    }
}

/// `char::is_whitespace`. Of an ASCII character it holds for the blank and for
/// the controls from tab to carriage return; of any other it is Unicode's
/// White_Space property.
pub assume_specification[ char::is_whitespace ](c: char) -> (b: bool)
    ensures
        is_ascii_char(c) ==> b == (c == ' ' || '\t' <= c <= '\r'),
        !is_ascii_char(c) ==> b == unicode_whitespace(c),
;

/// `char::is_alphabetic`. Of an ASCII character it holds for the fifty-two
/// letters; of any other it is Unicode's Alphabetic property.
pub assume_specification[ char::is_alphabetic ](c: char) -> (b: bool)
    ensures
        is_ascii_char(c) ==> b == is_ascii_letter(c),
        !is_ascii_char(c) ==> b == unicode_alphabetic(c),
;

/// `char::is_alphanumeric`. Of an ASCII character it holds for letters and
/// digits; of any other Unicode decides.
pub assume_specification[ char::is_alphanumeric ](c: char) -> (b: bool)
    ensures
        is_ascii_char(c) ==> b == (is_ascii_letter(c) || is_digit(c)),
        !is_ascii_char(c) ==> b == unicode_alphanumeric(c),
;

/// `str::to_lowercase`. A text that is all ASCII has its capitals turned small,
/// character by character; what it gives for another text depends on that text
/// alone.
pub assume_specification[ str::to_lowercase ](s: &str) -> (r: String)
    ensures
        s@.all(|c: char| is_ascii_char(c)) ==> r@ == s@.map_values(|c: char| ascii_lower(c)),
        !s@.all(|c: char| is_ascii_char(c)) ==> r@ == unicode_lowercase(s@),
;

/// `String::push` adds one character at the end.
pub assume_specification[ String::push ](s: &mut String, c: char)
    ensures
        final(s)@ == old(s)@.push(c),
;

/// The characters of `s`, in order.
pub fn to_chars(s: &str) -> (r: Vec<char>)
    ensures
        r@ == s@,
{
    let mut out: Vec<char> = Vec::new();
    for c in it: s.chars()
        invariant
            it.seq() == s@,
            out@ == s@.take(it.index() as int),
    {
        out.push(c);
        assert(s@.take(it.index() + 1) =~= s@.take(it.index() as int).push(c));
    }
    assert(s@.take(s@.len() as int) =~= s@);
    out
}

/// The text of the characters from `from` up to `to`.
pub fn substring(cs: &[char], from: usize, to: usize) -> (r: String)
    requires
        from <= to <= cs@.len(),
    ensures
        r@ == cs@.subrange(from as int, to as int),
{
    let mut out = String::new();
    let mut i: usize = from;
    while i < to
        invariant
            from <= i <= to <= cs@.len(),
            out@ == cs@.subrange(from as int, i as int),
        decreases to - i,
    {
        out.push(cs[i]);
        proof {
            assert(cs@.subrange(from as int, i + 1) =~= cs@.subrange(from as int, i as int).push(
                cs@[i as int],
            ));
        }
        i += 1;
    }
    out
}

/// Whether two texts are the same.
pub fn same(a: &str, b: &str) -> (r: bool)
    ensures
        r == (a@ == b@),
{
    a.to_owned() == b.to_owned()
}

} // verus!
