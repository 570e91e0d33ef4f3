//! Texts of a given width.

use vstd::prelude::*;
use vstd::string::StringExecFns;
use crate::text::chars::{substring, to_chars};

verus! {

/// So many blanks.
pub open spec fn blanks(n: int) -> Seq<char> {
    Seq::new(if n > 0 { n as nat } else { 0 }, |i: int| ' ')
}

/// `s` with blanks behind it, up to `width` characters.
pub open spec fn padded(s: Seq<char>, width: nat) -> Seq<char> {
    s + blanks(width - s.len())
}

/// `s` with blanks in front of it, up to `width` characters.
pub open spec fn aligned(s: Seq<char>, width: nat) -> Seq<char> {
    blanks(width - s.len()) + s
}

/// The first `n` characters of `s`.
pub open spec fn first_chars(s: Seq<char>, n: nat) -> Seq<char> {
    if s.len() <= n {
        s
    } else {
        s.take(n as int)
    }
}

/// So many blanks.
pub fn spaces(n: usize) -> (r: String)
    ensures
        r@ == blanks(n as int),
{
    let mut s = String::new();
    let mut i: usize = 0;
    assert(s@ =~= blanks(0));
    while i < n
        invariant
            i <= n,
            s@ == blanks(i as int),
        decreases n - i,
    {
        s.push(' ');
        assert(s@ =~= blanks(i + 1));
        i += 1;
    }
    s
}

fn missing(s: &str, width: usize) -> (r: usize)
    ensures
        r == if width > s@.len() {
            width - s@.len()
        } else {
            0
        },
{
    let n: usize = to_chars(s).len();
    if width > n {
        width - n
    } else {
        0
    }
}

/// `s` with blanks behind it, up to `width` characters.
pub fn pad(s: &str, width: usize) -> (r: String)
    ensures
        r@ == padded(s@, width as nat),
{
    let gap = spaces(missing(s, width));
    assert(gap@ =~= blanks(width - s@.len()));
    s.to_owned().concat(gap.as_str())
}

/// `s` with blanks in front of it, up to `width` characters.
pub fn align(s: &str, width: usize) -> (r: String)
    ensures
        r@ == aligned(s@, width as nat),
{
    let gap = spaces(missing(s, width));
    assert(gap@ =~= blanks(width - s@.len()));
    gap.concat(s)
}

/// The first `n` characters of `s`.
pub fn take_chars(s: &str, n: usize) -> (r: String)
    ensures
        r@ == first_chars(s@, n as nat),
{
    let cs = to_chars(s);
    if cs.len() <= n {
        s.to_owned()
    } else {
        let r = substring(&cs, 0, n);
        assert(r@ =~= s@.take(n as int));
        r
    }
}

} // verus!
