//! Words inside a line of code.

use vstd::prelude::*;
use crate::text::chars::{is_letter_or_number, substring, to_chars};
use crate::text::search::{occurs_at, position_from, position_from_meaning, seek};
use crate::text::split::strs;

verus! {

/// Whether `c` can stand in a name.
pub open spec fn is_name_char(c: char) -> bool {
    is_letter_or_number(c) || c == '_'
}

/// Whether the characters on either side of the stretch from `start` to `end` can
/// stand in no name, or there are none.
pub open spec fn bounded(line: Seq<char>, start: int, end: int) -> bool {
    &&& start <= 0 || !is_name_char(line[start - 1])
    &&& end >= line.len() || !is_name_char(line[end])
}

/// Whether `word` stands in `line` as a word of its own, where each search goes on
/// behind the last place found.
pub open spec fn word_from(line: Seq<char>, word: Seq<char>, from: int) -> bool
    decreases line.len() - from + 1,
{
    match position_from(line, word, from) {
        Some(i) => if word.len() > 0 && from <= i && i + word.len() <= line.len() {
            bounded(line, i, i + word.len()) || word_from(line, word, i + word.len())
        } else {
            false
        },
        None => false,
    }
}

/// Whether `word` stands in `line` as a word of its own.
pub open spec fn has_own_word(line: Seq<char>, word: Seq<char>) -> bool {
    word_from(line, word, 0)
}

/// Whether one of `words` stands in `line` as a word of its own.
pub open spec fn has_some_word(line: Seq<char>, words: Seq<Seq<char>>) -> bool {
    exists|i: int| 0 <= i < words.len() && has_own_word(line, #[trigger] words[i])
}

/// A word of name characters is found exactly where it stands with no name
/// character on either side.
pub proof fn own_word_meaning(line: Seq<char>, word: Seq<char>)
    requires
        word.len() > 0,
        forall|i: int| 0 <= i < word.len() ==> is_name_char(#[trigger] word[i]),
    ensures
        has_own_word(line, word) <==> exists|i: int|
            #[trigger] occurs_at(line, word, i) && bounded(line, i, i + word.len()),
{
    word_from_meaning(line, word, 0);
}

proof fn word_from_meaning(line: Seq<char>, word: Seq<char>, from: int)
    requires
        0 <= from,
        word.len() > 0,
        forall|i: int| 0 <= i < word.len() ==> is_name_char(#[trigger] word[i]),
    ensures
        word_from(line, word, from) <==> exists|i: int|
            from <= i && #[trigger] occurs_at(line, word, i) && bounded(line, i, i + word.len()),
    decreases line.len() - from + 1,
{
    position_from_meaning(line, word, from);
    match position_from(line, word, from) {
        Some(i) => {
            word_from_meaning(line, word, i + word.len());
            if !bounded(line, i, i + word.len()) {
                assert forall|j: int| from <= j && #[trigger] occurs_at(line, word, j) && bounded(
                    line,
                    j,
                    j + word.len(),
                ) implies i + word.len() <= j by {
                    if j < i + word.len() {
                        assert(i < j);
                        let k = j - 1 - i;
                        assert(line.subrange(i, i + word.len())[k] == word[k]);
                        assert(is_name_char(line[j - 1]));
                    }
                }
            }
        },
        None => {},
    }
}

fn name_char(c: char) -> (r: bool)
    ensures
        r == is_name_char(c),
{
    c.is_alphanumeric() || c == '_'
}

/// Whether `word` stands in `line` as a word of its own. A bare search reads
/// `returns` in a sentence and `next` inside `context` as control flow.
pub fn has_word(line: &str, word: &str) -> (r: bool)
    requires
        word@.len() > 0,
    ensures
        r == has_own_word(line@, word@),
{
    let cs = to_chars(line);
    let ws = to_chars(word);
    let n: usize = cs.len();
    let mut from: usize = 0;
    loop
        invariant
            cs@ == line@,
            ws@ == word@,
            n == cs@.len(),
            word@.len() > 0,
            from <= n,
            has_own_word(line@, word@) == word_from(line@, word@, from as int),
        decreases n - from,
    {
        proof {
            position_from_meaning(line@, word@, from as int);
        }
        match seek(&cs, &ws, from) {
            None => {
                return false;
            },
            Some(start) => {
                assert(occurs_at(line@, word@, start as int));
                let end: usize = start + ws.len();
                let before = start == 0 || !name_char(cs[start - 1]);
                let after = end == n || !name_char(cs[end]);
                if before && after {
                    return true;
                }
                from = end;
            },
        }
    }
}

/// Whether one of `words` stands in `line` as a word of its own.
pub fn has_any_word(line: &str, words: &[&str]) -> (r: bool)
    requires
        forall|i: int| 0 <= i < words@.len() ==> strs(words@)[i].len() > 0,
    ensures
        r == has_some_word(line@, strs(words@)),
{
    let mut i: usize = 0;
    while i < words.len()
        invariant
            i <= words@.len(),
            forall|j: int| 0 <= j < words@.len() ==> strs(words@)[j].len() > 0,
            forall|j: int| 0 <= j < i ==> !has_own_word(line@, #[trigger] strs(words@)[j]),
        decreases words@.len() - i,
    {
        assert(strs(words@)[i as int].len() > 0);
        if has_word(line, words[i]) {
            assert(has_own_word(line@, strs(words@)[i as int]));
            return true;
        }
        i += 1;
    }
    false
}

/// How many name characters stand at the front of `s`.
pub open spec fn name_length(s: Seq<char>) -> int
    decreases s.len(),
{
    if s.len() > 0 && is_name_char(s[0]) {
        1 + name_length(s.skip(1))
    } else {
        0
    }
}

proof fn name_length_unique(s: Seq<char>, i: int)
    requires
        0 <= i <= s.len(),
        forall|j: int| 0 <= j < i ==> is_name_char(#[trigger] s[j]),
        i < s.len() ==> !is_name_char(s[i]),
    ensures
        name_length(s) == i,
    decreases s.len(),
{
    if i > 0 {
        assert(is_name_char(s[0]));
        assert forall|j: int| 0 <= j < i - 1 implies is_name_char(#[trigger] s.skip(1)[j]) by {
            assert(is_name_char(s[j + 1]));
        }
        name_length_unique(s.skip(1), i - 1);
    }
}

/// The name that starts at `from`, which may be empty.
pub fn name_at(cs: &[char], from: usize) -> (r: String)
    requires
        from <= cs@.len(),
    ensures
        r@ == cs@.skip(from as int).take(name_length(cs@.skip(from as int))),
        0 <= name_length(cs@.skip(from as int)) <= cs@.len() - from,
{
    let n: usize = cs.len();
    let mut i: usize = from;
    let ghost rest = cs@.skip(from as int);
    while i < n && name_char(cs[i])
        invariant
            from <= i <= n == cs@.len(),
            rest == cs@.skip(from as int),
            forall|j: int| 0 <= j < i - from ==> is_name_char(#[trigger] rest[j]),
        decreases n - i,
    {
        i += 1;
    }
    proof {
        name_length_unique(rest, i - from);
        assert(cs@.subrange(from as int, i as int) =~= rest.take(i - from));
    }
    substring(cs, from, i)
}

} // verus!
