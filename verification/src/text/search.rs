//! Looking for one text inside another.

use vstd::prelude::*;
use vstd::slice::slice_subrange;
use crate::text::chars::{to_chars, substring};
use crate::text::split::strs;

verus! {

/// Whether `pat` stands in `s` at position `i`.
pub open spec fn occurs_at(s: Seq<char>, pat: Seq<char>, i: int) -> bool {
    0 <= i && i + pat.len() <= s.len() && s.subrange(i, i + pat.len()) == pat
}

/// The first position, from `from` on, at which `pat` stands in `s`.
pub open spec fn position_from(s: Seq<char>, pat: Seq<char>, from: int) -> Option<int>
    decreases s.len() - from + 1,
{
    if from < 0 || from + pat.len() > s.len() {
        None
    } else if occurs_at(s, pat, from) {
        Some(from)
    } else {
        position_from(s, pat, from + 1)
    }
}

/// The first position at which `pat` stands in `s`.
pub open spec fn position(s: Seq<char>, pat: Seq<char>) -> Option<int> {
    position_from(s, pat, 0)
}

/// Whether `pat` stands somewhere in `s`.
pub open spec fn has_text(s: Seq<char>, pat: Seq<char>) -> bool {
    exists|i: int| occurs_at(s, pat, i)
}

/// Whether `s` begins with `pat`.
pub open spec fn has_prefix(s: Seq<char>, pat: Seq<char>) -> bool {
    occurs_at(s, pat, 0)
}

/// Whether `s` ends with `pat`.
pub open spec fn has_suffix(s: Seq<char>, pat: Seq<char>) -> bool {
    occurs_at(s, pat, s.len() - pat.len())
}

/// The first position of `c` in `s`, or the length of `s` where it is absent.
pub open spec fn char_position(s: Seq<char>, c: char) -> int
    decreases s.len(),
{
    if s.len() == 0 {
        0
    } else if s[0] == c {
        0
    } else {
        1 + char_position(s.skip(1), c)
    }
}

/// What `s` becomes once `pat` is taken off its front as often as it stands there.
pub open spec fn without_prefixes(s: Seq<char>, pat: Seq<char>) -> Seq<char>
    decreases s.len(),
{
    if pat.len() > 0 && has_prefix(s, pat) {
        without_prefixes(s.skip(pat.len() as int), pat)
    } else {
        s
    }
}

/// A position is a place where the text stands, with no earlier one.
pub proof fn position_from_meaning(s: Seq<char>, pat: Seq<char>, from: int)
    requires
        0 <= from,
    ensures
        match position_from(s, pat, from) {
            Some(i) => from <= i && occurs_at(s, pat, i) && forall|j: int|
                from <= j < i ==> !occurs_at(s, pat, j),
            None => forall|j: int| from <= j ==> !occurs_at(s, pat, j),
        },
    decreases s.len() - from + 1,
{
    if from + pat.len() <= s.len() && !occurs_at(s, pat, from) {
        position_from_meaning(s, pat, from + 1);
    }
}

/// A text is contained exactly where it has a position.
pub proof fn has_iff_position(s: Seq<char>, pat: Seq<char>)
    ensures
        has_text(s, pat) <==> position(s, pat) is Some,
{
    position_from_meaning(s, pat, 0);
}

/// The position of a character is where it first stands.
pub proof fn char_position_meaning(s: Seq<char>, c: char)
    ensures
        0 <= char_position(s, c) <= s.len(),
        forall|j: int| 0 <= j < char_position(s, c) ==> s[j] != c,
        char_position(s, c) < s.len() ==> s[char_position(s, c)] == c,
    decreases s.len(),
{
    if s.len() > 0 && s[0] != c {
        char_position_meaning(s.skip(1), c);
        assert forall|j: int| 0 <= j < char_position(s, c) implies s[j] != c by {
            if j > 0 {
                assert(s.skip(1)[j - 1] == s[j]);
            }
        }
    }
}

/// A place where `c` stands, with none before it, is its position.
pub proof fn char_position_unique(s: Seq<char>, c: char, i: int)
    requires
        0 <= i <= s.len(),
        forall|j: int| 0 <= j < i ==> s[j] != c,
        i < s.len() ==> s[i] == c,
    ensures
        char_position(s, c) == i,
{
    char_position_meaning(s, c);
    let p = char_position(s, c);
    if p < i {
        assert(s[p] != c);
    }
}

/// Whether `pat` stands in `cs` at `i`.
pub fn stands_at(cs: &[char], pat: &[char], i: usize) -> (r: bool)
    ensures
        r == occurs_at(cs@, pat@, i as int),
{
    let n: usize = cs.len();
    let m: usize = pat.len();
    if i > n || m > n - i {
        return false;
    }
    let mut k: usize = 0;
    while k < m
        invariant
            k <= m == pat@.len(),
            i + m <= n == cs@.len(),
            forall|j: int| 0 <= j < k ==> cs@[i + j] == pat@[j],
        decreases m - k,
    {
        if cs[i + k] != pat[k] {
            proof {
                assert(cs@.subrange(i as int, i + m)[k as int] != pat@[k as int]);
            }
            return false;
        }
        k += 1;
    }
    proof {
        assert(cs@.subrange(i as int, i + m) =~= pat@);
    }
    true
}

/// The first place, from `from` on, where `pat` stands in `cs`.
pub fn seek(cs: &[char], pat: &[char], from: usize) -> (r: Option<usize>)
    ensures
        match r {
            Some(i) => position_from(cs@, pat@, from as int) == Some(i as int),
            None => position_from(cs@, pat@, from as int) is None,
        },
{
    let n: usize = cs.len();
    let m: usize = pat.len();
    let mut i: usize = from;
    while i <= n && m <= n - i
        invariant
            n == cs@.len(),
            m == pat@.len(),
            position_from(cs@, pat@, from as int) == position_from(cs@, pat@, i as int),
        decreases n + 1 - i,
    {
        if stands_at(cs, pat, i) {
            return Some(i);
        }
        if i == n {
            assert(position_from(cs@, pat@, i + 1) is None);
            return None;
        }
        i += 1;
    }
    None
}

/// Whether `pat` stands somewhere in `s`.
pub fn contains(s: &str, pat: &str) -> (r: bool)
    ensures
        r == has_text(s@, pat@),
{
    let cs = to_chars(s);
    let ps = to_chars(pat);
    proof {
        has_iff_position(s@, pat@);
    }
    seek(&cs, &ps, 0).is_some()
}

/// Whether `s` begins with `pat`.
pub fn starts_with(s: &str, pat: &str) -> (r: bool)
    ensures
        r == has_prefix(s@, pat@),
{
    let cs = to_chars(s);
    let ps = to_chars(pat);
    stands_at(&cs, &ps, 0)
}

/// Whether `s` ends with `pat`.
pub fn ends_with(s: &str, pat: &str) -> (r: bool)
    ensures
        r == has_suffix(s@, pat@),
{
    let cs = to_chars(s);
    let ps = to_chars(pat);
    if ps.len() > cs.len() {
        return false;
    }
    stands_at(&cs, &ps, cs.len() - ps.len())
}

/// What follows `pat` in `s`, where `s` begins with it.
pub fn strip_prefix(s: &str, pat: &str) -> (r: Option<String>)
    ensures
        match r {
            Some(rest) => has_prefix(s@, pat@) && rest@ == s@.skip(pat@.len() as int),
            None => !has_prefix(s@, pat@),
        },
{
    let cs = to_chars(s);
    let ps = to_chars(pat);
    if stands_at(&cs, &ps, 0) {
        Some(substring(&cs, ps.len(), cs.len()))
    } else {
        None
    }
}

/// `s` without `pat` at its front, however often it stands there.
pub fn trim_start_matches(s: &str, pat: &str) -> (r: String)
    ensures
        r@ == without_prefixes(s@, pat@),
{
    let cs = to_chars(s);
    let ps = to_chars(pat);
    let n: usize = cs.len();
    let m: usize = ps.len();
    let mut i: usize = 0;
    if m == 0 {
        return s.to_owned();
    }
    proof {
        assert(cs@.subrange(0, n as int) =~= s@);
    }
    while stands_at(slice_subrange(&cs, i, n), &ps, 0)
        invariant
            i <= n == cs@.len(),
            0 < m == ps@.len(),
            ps@ == pat@,
            without_prefixes(s@, pat@) == without_prefixes(cs@.subrange(i as int, n as int), pat@),
        decreases n - i,
    {
        proof {
            let rest = cs@.subrange(i as int, n as int);
            assert(rest.skip(m as int) =~= cs@.subrange(i + m, n as int));
        }
        i += m;
    }
    substring(&cs, i, n)
}

/// The first place of `c` in `cs`, or the length where it is absent.
pub fn seek_char(cs: &[char], c: char) -> (r: usize)
    ensures
        r == char_position(cs@, c),
        r <= cs@.len(),
{
    let n: usize = cs.len();
    let mut i: usize = 0;
    while i < n && cs[i] != c
        invariant
            i <= n == cs@.len(),
            forall|j: int| 0 <= j < i ==> cs@[j] != c,
        decreases n - i,
    {
        i += 1;
    }
    proof {
        char_position_unique(cs@, c, i as int);
    }
    i
}

/// Whether one of `pats` stands somewhere in `s`.
pub open spec fn has_one_of(s: Seq<char>, pats: Seq<Seq<char>>) -> bool {
    exists|i: int| 0 <= i < pats.len() && has_text(s, #[trigger] pats[i])
}

/// Whether `s` ends with one of `pats`.
pub open spec fn has_suffix_of(s: Seq<char>, pats: Seq<Seq<char>>) -> bool {
    exists|i: int| 0 <= i < pats.len() && has_suffix(s, #[trigger] pats[i])
}

/// Whether `s` begins with one of `pats`.
pub open spec fn has_prefix_of(s: Seq<char>, pats: Seq<Seq<char>>) -> bool {
    exists|i: int| 0 <= i < pats.len() && has_prefix(s, #[trigger] pats[i])
}

/// Whether one of `pats` stands somewhere in `s`.
pub fn contains_any(s: &str, pats: &[&str]) -> (r: bool)
    ensures
        r == has_one_of(s@, strs(pats@)),
{
    let mut i: usize = 0;
    while i < pats.len()
        invariant
            i <= pats@.len(),
            forall|j: int| 0 <= j < i ==> !has_text(s@, #[trigger] strs(pats@)[j]),
        decreases pats@.len() - i,
    {
        if contains(s, pats[i]) {
            assert(has_text(s@, strs(pats@)[i as int]));
            return true;
        }
        i += 1;
    }
    false
}

/// Whether `s` ends with one of `pats`.
pub fn ends_with_any(s: &str, pats: &[&str]) -> (r: bool)
    ensures
        r == has_suffix_of(s@, strs(pats@)),
{
    let mut i: usize = 0;
    while i < pats.len()
        invariant
            i <= pats@.len(),
            forall|j: int| 0 <= j < i ==> !has_suffix(s@, #[trigger] strs(pats@)[j]),
        decreases pats@.len() - i,
    {
        if ends_with(s, pats[i]) {
            assert(has_suffix(s@, strs(pats@)[i as int]));
            return true;
        }
        i += 1;
    }
    false
}

/// Whether `s` begins with one of `pats`.
pub fn starts_with_any(s: &str, pats: &[&str]) -> (r: bool)
    ensures
        r == has_prefix_of(s@, strs(pats@)),
{
    let mut i: usize = 0;
    while i < pats.len()
        invariant
            i <= pats@.len(),
            forall|j: int| 0 <= j < i ==> !has_prefix(s@, #[trigger] strs(pats@)[j]),
        decreases pats@.len() - i,
    {
        if starts_with(s, pats[i]) {
            assert(has_prefix(s@, strs(pats@)[i as int]));
            return true;
        }
        i += 1;
    }
    false
}

} // verus!
