//! Lines, words, fields, and putting them together again.

use vstd::prelude::*;
use vstd::slice::slice_subrange;
use vstd::string::StringExecFns;
use crate::text::chars::{to_chars, same, substring, is_space};
use crate::text::search::{
    char_position, position, position_from_meaning, occurs_at, seek, seek_char,
};

verus! {

/// The texts of a list of strings.
pub open spec fn texts(v: Seq<String>) -> Seq<Seq<char>> {
    Seq::new(v.len(), |i: int| v[i]@)
}

/// Adding a string adds its text.
pub broadcast proof fn texts_push(v: Seq<String>, s: String)
    ensures
        #[trigger] texts(v.push(s)) == texts(v).push(s@),
{
    assert(texts(v.push(s)) =~= texts(v).push(s@));
}

/// `s` without the white space at its front.
pub open spec fn trimmed_start(s: Seq<char>) -> Seq<char>
    decreases s.len(),
{
    if s.len() > 0 && is_space(s[0]) {
        trimmed_start(s.skip(1))
    } else {
        s
    }
}

/// `s` without the white space at its end.
pub open spec fn trimmed_end(s: Seq<char>) -> Seq<char>
    decreases s.len(),
{
    if s.len() > 0 && is_space(s.last()) {
        trimmed_end(s.drop_last())
    } else {
        s
    }
}

/// `s` without the white space at either end.
pub open spec fn trimmed(s: Seq<char>) -> Seq<char> {
    trimmed_end(trimmed_start(s))
}

/// A line as it stands before a line feed: without a carriage return at its end.
pub open spec fn without_return(line: Seq<char>) -> Seq<char> {
    if line.len() > 0 && line.last() == '\r' {
        line.drop_last()
    } else {
        line
    }
}

/// The lines of `s`. A line ends at a line feed, which a carriage return may
/// precede, or at the end of the text; nothing follows a last line feed.
pub open spec fn lines_of(s: Seq<char>) -> Seq<Seq<char>>
    decreases s.len(),
{
    if s.len() == 0 {
        Seq::empty()
    } else {
        let n = char_position(s, '\n');
        if 0 <= n < s.len() {
            seq![without_return(s.take(n))] + lines_of(s.skip(n + 1))
        } else {
            seq![s]
        }
    }
}

/// How many characters stand in `s` before the first white space.
pub open spec fn word_length(s: Seq<char>) -> int
    decreases s.len(),
{
    if s.len() == 0 || is_space(s[0]) {
        0
    } else {
        1 + word_length(s.skip(1))
    }
}

/// The words of `s`: its longest stretches without white space.
pub open spec fn words_of(s: Seq<char>) -> Seq<Seq<char>>
    decreases s.len(),
    via words_of_shrinks
{
    let t = trimmed_start(s);
    if t.len() == 0 {
        Seq::empty()
    } else {
        seq![t.take(word_length(t))] + words_of(t.skip(word_length(t)))
    }
}

#[via_fn]
proof fn words_of_shrinks(s: Seq<char>) {
    trimmed_start_is_suffix(s);
    word_length_bounds(trimmed_start(s));
}

/// The pieces of `s` between the places where `sep` stands.
pub open spec fn pieces(s: Seq<char>, sep: Seq<char>) -> Seq<Seq<char>>
    decreases s.len(),
{
    match position(s, sep) {
        Some(i) => if sep.len() > 0 && 0 <= i && i + sep.len() <= s.len() {
            seq![s.take(i)] + pieces(s.skip(i + sep.len()), sep)
        } else {
            seq![s]
        },
        None => seq![s],
    }
}

/// The texts of `parts` one after the other, `sep` between each two.
pub open spec fn joined(parts: Seq<Seq<char>>, sep: Seq<char>) -> Seq<char>
    decreases parts.len(),
{
    if parts.len() == 0 {
        Seq::empty()
    } else if parts.len() == 1 {
        parts[0]
    } else {
        joined(parts.drop_last(), sep) + sep + parts.last()
    }
}

/// What is left after trimming the front is an end of the text.
pub proof fn trimmed_start_is_suffix(s: Seq<char>)
    ensures
        trimmed_start(s).len() <= s.len(),
        trimmed_start(s) == s.skip(s.len() - trimmed_start(s).len()),
        trimmed_start(s).len() > 0 ==> !is_space(trimmed_start(s)[0]),
    decreases s.len(),
{
    if s.len() > 0 && is_space(s[0]) {
        trimmed_start_is_suffix(s.skip(1));
        let t = trimmed_start(s);
        assert(s.skip(1).skip(s.skip(1).len() - t.len()) =~= s.skip(s.len() - t.len()));
    } else {
        assert(s.skip(0) =~= s);
    }
}

/// A word's length is positive where the text does not start with white space.
pub proof fn word_length_bounds(s: Seq<char>)
    ensures
        0 <= word_length(s) <= s.len(),
        s.len() > 0 && !is_space(s[0]) ==> word_length(s) > 0,
        forall|j: int| 0 <= j < word_length(s) ==> !is_space(s[j]),
        word_length(s) < s.len() ==> is_space(s[word_length(s)]),
    decreases s.len(),
{
    if s.len() > 0 && !is_space(s[0]) {
        word_length_bounds(s.skip(1));
        assert forall|j: int| 0 <= j < word_length(s) implies !is_space(s[j]) by {
            if j > 0 {
                assert(s.skip(1)[j - 1] == s[j]);
            }
        }
    }
}

proof fn word_length_unique(s: Seq<char>, i: int)
    requires
        0 <= i <= s.len(),
        forall|j: int| 0 <= j < i ==> !is_space(s[j]),
        i < s.len() ==> is_space(s[i]),
    ensures
        word_length(s) == i,
{
    word_length_bounds(s);
    let p = word_length(s);
    if p < i {
        assert(!is_space(s[p]));
    }
}

/// How many characters of `cs` stand before the first white space.
fn leading_word(cs: &[char]) -> (r: usize)
    ensures
        r == word_length(cs@),
        r <= cs@.len(),
{
    let n: usize = cs.len();
    let mut i: usize = 0;
    while i < n && !cs[i].is_whitespace()
        invariant
            i <= n == cs@.len(),
            forall|j: int| 0 <= j < i ==> !is_space(cs@[j]),
        decreases n - i,
    {
        i += 1;
    }
    proof {
        word_length_unique(cs@, i as int);
    }
    i
}

/// `cs` without the white space at its front.
pub fn skip_whitespace(cs: &[char]) -> (r: &[char])
    ensures
        r@ == trimmed_start(cs@),
{
    let n: usize = cs.len();
    let mut i: usize = 0;
    proof {
        assert(cs@.subrange(0, n as int) =~= cs@);
    }
    while i < n && cs[i].is_whitespace()
        invariant
            i <= n == cs@.len(),
            trimmed_start(cs@) == trimmed_start(cs@.subrange(i as int, n as int)),
        decreases n - i,
    {
        proof {
            assert(cs@.subrange(i as int, n as int).skip(1) =~= cs@.subrange(i + 1, n as int));
        }
        i += 1;
    }
    slice_subrange(cs, i, n)
}

/// `s` without the white space at its front.
pub fn trim_start(s: &str) -> (r: String)
    ensures
        r@ == trimmed_start(s@),
{
    let cs = to_chars(s);
    let t = skip_whitespace(&cs);
    let r = substring(t, 0, t.len());
    proof {
        assert(t@.subrange(0, t@.len() as int) =~= t@);
    }
    r
}

/// `s` without the white space at either end.
pub fn trim(s: &str) -> (r: String)
    ensures
        r@ == trimmed(s@),
{
    let cs = to_chars(s);
    let t = skip_whitespace(&cs);
    let mut n: usize = t.len();
    proof {
        assert(t@.take(n as int) =~= t@);
    }
    while n > 0 && t[n - 1].is_whitespace()
        invariant
            n <= t@.len(),
            trimmed_end(t@) == trimmed_end(t@.take(n as int)),
        decreases n,
    {
        proof {
            assert(t@.take(n as int).drop_last() =~= t@.take(n - 1));
        }
        n -= 1;
    }
    let r = substring(t, 0, n);
    proof {
        assert(t@.subrange(0, n as int) =~= t@.take(n as int));
    }
    r
}

/// The lines of `s`.
pub fn lines(s: &str) -> (r: Vec<String>)
    ensures
        texts(r@) == lines_of(s@),
{
    broadcast use texts_push;
    let cs = to_chars(s);
    let mut rest: &[char] = &cs;
    let mut out: Vec<String> = Vec::new();
    proof {
        assert(texts(out@) + lines_of(s@) =~= lines_of(s@));
    }
    while rest.len() > 0
        invariant
            lines_of(s@) == texts(out@) + lines_of(rest@),
        decreases rest@.len(),
    {
        let n: usize = seek_char(rest, '\n');
        let ghost before = texts(out@);
        if n < rest.len() {
            let end: usize = if n > 0 && rest[n - 1] == '\r' { n - 1 } else { n };
            let line = substring(rest, 0, end);
            proof {
                assert(line@ =~= without_return(rest@.take(n as int)));
                assert(before + lines_of(rest@) =~= before.push(line@) + lines_of(
                    rest@.skip(n + 1),
                ));
                assert(rest@.skip(n + 1) =~= rest@.subrange(n + 1, rest@.len() as int));
            }
            out.push(line);
            rest = slice_subrange(rest, n + 1, rest.len());
        } else {
            let line = substring(rest, 0, n);
            proof {
                assert(line@ =~= rest@);
                assert(before + lines_of(rest@) =~= before.push(line@) + lines_of(
                    rest@.skip(rest@.len() as int),
                ));
                assert(rest@.skip(rest@.len() as int) =~= rest@.subrange(n as int, rest@.len() as int));
            }
            out.push(line);
            rest = slice_subrange(rest, n, rest.len());
        }
    }
    proof {
        assert(texts(out@) + lines_of(rest@) =~= texts(out@));
    }
    out
}

/// The words of `s`.
pub fn words(s: &str) -> (r: Vec<String>)
    ensures
        texts(r@) == words_of(s@),
{
    broadcast use texts_push;
    let cs = to_chars(s);
    let mut rest: &[char] = &cs;
    let mut out: Vec<String> = Vec::new();
    proof {
        assert(texts(out@) + words_of(s@) =~= words_of(s@));
    }
    loop
        invariant
            words_of(s@) == texts(out@) + words_of(rest@),
        ensures
            words_of(s@) == texts(out@),
        decreases rest@.len(),
    {
        let t = skip_whitespace(rest);
        proof {
            trimmed_start_is_suffix(rest@);
            word_length_bounds(t@);
        }
        if t.len() == 0 {
            proof {
                assert(texts(out@) + words_of(rest@) =~= texts(out@));
            }
            break;
        }
        let n: usize = leading_word(t);
        let word = substring(t, 0, n);
        proof {
            let before = texts(out@);
            assert(word@ =~= t@.take(n as int));
            assert(t@.skip(n as int) =~= t@.subrange(n as int, t@.len() as int));
            assert(before + words_of(rest@) =~= before.push(word@) + words_of(t@.skip(n as int)));
        }
        out.push(word);
        rest = slice_subrange(t, n, t.len());
    }
    out
}

/// The pieces of `s` between the places where `sep` stands.
pub fn split(s: &str, sep: &str) -> (r: Vec<String>)
    ensures
        texts(r@) == pieces(s@, sep@),
{
    broadcast use texts_push;
    let cs = to_chars(s);
    let ps = to_chars(sep);
    let mut rest: &[char] = &cs;
    let mut out: Vec<String> = Vec::new();
    proof {
        assert(texts(out@) + pieces(s@, sep@) =~= pieces(s@, sep@));
    }
    loop
        invariant
            ps@ == sep@,
            pieces(s@, sep@) == texts(out@) + pieces(rest@, sep@),
        ensures
            pieces(s@, sep@) == texts(out@) + seq![rest@],
        decreases rest@.len(),
    {
        proof {
            position_from_meaning(rest@, sep@, 0);
        }
        match seek(rest, &ps, 0) {
            Some(i) => {
                if ps.len() == 0 {
                    break;
                }
                assert(occurs_at(rest@, sep@, i as int));
                let piece = substring(rest, 0, i);
                let total: usize = rest.len();
                let next: usize = i + ps.len();
                proof {
                    let before = texts(out@);
                    assert(piece@ =~= rest@.take(i as int));
                    assert(rest@.skip(i + sep@.len()) =~= rest@.subrange(
                        next as int,
                        rest@.len() as int,
                    ));
                    assert(before + pieces(rest@, sep@) =~= before.push(piece@) + pieces(
                        rest@.skip(i + sep@.len()),
                        sep@,
                    ));
                }
                out.push(piece);
                rest = slice_subrange(rest, next, total);
            },
            None => {
                break;
            },
        }
    }
    let last = substring(rest, 0, rest.len());
    proof {
        assert(last@ =~= rest@);
        assert(texts(out@) + seq![rest@] =~= texts(out@).push(last@));
    }
    out.push(last);
    out
}

/// The texts of `parts` one after the other, `sep` between each two.
pub fn join(parts: &[String], sep: &str) -> (r: String)
    ensures
        r@ == joined(texts(parts@), sep@),
{
    let mut out = String::new();
    let mut i: usize = 0;
    let ghost all = texts(parts@);
    proof {
        assert(all.take(0) =~= Seq::empty());
    }
    while i < parts.len()
        invariant
            i <= parts@.len(),
            all == texts(parts@),
            out@ == joined(all.take(i as int), sep@),
        decreases parts@.len() - i,
    {
        let ghost before = out@;
        if i > 0 {
            out.append(sep);
        }
        out.append(parts[i].as_str());
        proof {
            assert(all.take(i + 1).drop_last() =~= all.take(i as int));
            if i == 0 {
                assert(before + all[0] =~= all[0]);
            }
        }
        i += 1;
    }
    proof {
        assert(all.take(i as int) =~= all);
    }
    out
}

/// `s` with every stretch of white space inside it made one blank, and none at its ends.
pub open spec fn collapsed(s: Seq<char>) -> Seq<char> {
    joined(words_of(s), " "@)
}

/// The first `n` of `s`, or all of it where it is no longer than that.
pub open spec fn at_most<A>(s: Seq<A>, n: nat) -> Seq<A> {
    if s.len() <= n {
        s
    } else {
        s.take(n as int)
    }
}

/// White space at the front of a text is no part of any word.
pub proof fn indentation_keeps_words(pad: Seq<char>, s: Seq<char>)
    requires
        forall|i: int| 0 <= i < pad.len() ==> is_space(#[trigger] pad[i]),
    ensures
        words_of(pad + s) == words_of(s),
        trimmed_start(pad + s) == trimmed_start(s),
    decreases pad.len(),
{
    if pad.len() == 0 {
        assert(pad + s =~= s);
    } else {
        assert((pad + s).skip(1) =~= pad.skip(1) + s);
        assert(is_space(pad[0]));
        indentation_keeps_words(pad.skip(1), s);
    }
}

/// Collapsing never makes a text longer.
pub proof fn collapsed_is_no_longer(s: Seq<char>)
    ensures
        collapsed(s).len() <= s.len(),
    decreases s.len(),
{
    let t = trimmed_start(s);
    trimmed_start_is_suffix(s);
    if t.len() > 0 {
        let n = word_length(t);
        word_length_bounds(t);
        let u = t.skip(n);
        joined_from_the_front(t.take(n), words_of(u), " "@);
        reveal_strlit(" ");
        if words_of(u).len() > 0 {
            assert(u.len() > 0);
            assert(u[0] == t[n]);
            assert(words_of(u) == words_of(u.skip(1)));
            collapsed_is_no_longer(u.skip(1));
        }
    }
}

proof fn joined_from_the_front(first: Seq<char>, rest: Seq<Seq<char>>, sep: Seq<char>)
    ensures
        joined(seq![first] + rest, sep).len() == first.len() + if rest.len() == 0 {
            0
        } else {
            sep.len() + joined(rest, sep).len()
        },
    decreases rest.len(),
{
    let all = seq![first] + rest;
    if rest.len() > 0 {
        joined_from_the_front(first, rest.drop_last(), sep);
        assert(all.drop_last() =~= seq![first] + rest.drop_last());
        assert(all.last() == rest.last());
    }
}

/// `s` with its white space collapsed.
pub fn collapse(s: &str) -> (r: String)
    ensures
        r@ == collapsed(s@),
{
    let ws = words(s);
    join(&ws, " ")
}

/// Whether `s` is one of `list`.
pub fn listed(list: &[String], s: &str) -> (r: bool)
    ensures
        r == texts(list@).contains(s@),
{
    let mut i: usize = 0;
    while i < list.len()
        invariant
            i <= list@.len(),
            forall|j: int| 0 <= j < i ==> texts(list@)[j] != s@,
        decreases list@.len() - i,
    {
        if same(list[i].as_str(), s) {
            assert(texts(list@)[i as int] == s@);
            return true;
        }
        i += 1;
    }
    false
}

/// A copy of a list of strings.
pub fn clone_texts(list: &[String]) -> (r: Vec<String>)
    ensures
        texts(r@) == texts(list@),
{
    let mut out: Vec<String> = Vec::new();
    let mut i: usize = 0;
    while i < list.len()
        invariant
            i <= list@.len(),
            out@.len() == i,
            forall|j: int| 0 <= j < i ==> out@[j]@ == list@[j]@,
        decreases list@.len() - i,
    {
        out.push(list[i].clone());
        i += 1;
    }
    assert(texts(out@) =~= texts(list@));
    out
}

/// The texts of a list of string slices.
pub open spec fn strs(v: Seq<&str>) -> Seq<Seq<char>> {
    Seq::new(v.len(), |i: int| v[i]@)
}

/// A list of strings with the texts of `items`.
pub fn owned(items: &[&str]) -> (r: Vec<String>)
    ensures
        texts(r@) == strs(items@),
{
    let mut out: Vec<String> = Vec::new();
    let mut i: usize = 0;
    while i < items.len()
        invariant
            i <= items@.len(),
            out@.len() == i,
            forall|j: int| 0 <= j < i ==> out@[j]@ == items@[j]@,
        decreases items@.len() - i,
    {
        out.push(items[i].to_owned());
        i += 1;
    }
    assert(texts(out@) =~= strs(items@));
    out
}

/// How many bytes `s` takes in UTF-8.
pub open spec fn utf8_length(s: Seq<char>) -> nat {
    vstd::utf8::encode_utf8(s).len()
}

/// How many bytes `s` takes in UTF-8.
pub fn byte_len(s: &str) -> (r: usize)
    ensures
        r == utf8_length(s@),
{
    s.as_bytes().len()
}

/// Adds `s` to `list` unless it is there, and says whether it was new.
pub fn note(list: &mut Vec<String>, s: &str) -> (fresh: bool)
    ensures
        fresh == !texts(old(list)@).contains(s@),
        texts(final(list)@) == if fresh {
            texts(old(list)@).push(s@)
        } else {
            texts(old(list)@)
        },
        texts(old(list)@).no_duplicates() ==> texts(final(list)@).no_duplicates(),
        texts(final(list)@).to_set() == texts(old(list)@).to_set().insert(s@),
{
    broadcast use texts_push;

    let ghost before = texts(list@);
    if listed(list, s) {
        assert(before.to_set().insert(s@) =~= before.to_set());
        false
    } else {
        list.push(s.to_owned());
        proof {
            before.lemma_push_to_set_commute(s@);
            let after = texts(list@);
            if before.no_duplicates() {
                assert forall|i: int, j: int|
                    0 <= i < after.len() && 0 <= j < after.len() && i != j implies after[i]
                    != after[j] by {
                    if i < before.len() {
                        assert(before.contains(before[i]));
                    }
                    if j < before.len() {
                        assert(before.contains(before[j]));
                    }
                }
            }
        }
        true
    }
}

/// A line feed ends a line: the lines of what stands before it and behind it are the
/// lines of the whole.
pub proof fn lines_split_at_line_feed(a: Seq<char>, b: Seq<char>)
    ensures
        lines_of(a.push('\n') + b) == lines_of(a.push('\n')) + lines_of(b),
    decreases a.len(),
{
    let front = a.push('\n');
    let s = front + b;
    let n = char_position(front, '\n');
    crate::text::search::char_position_meaning(front, '\n');
    assert(front[a.len() as int] == '\n');
    assert(n <= a.len());
    assert(char_position(s, '\n') == n) by {
        assert forall|j: int| 0 <= j < n implies s[j] != '\n' by {
            assert(s[j] == front[j]);
        }
        assert(s[n] == front[n]);
        crate::text::search::char_position_unique(s, '\n', n);
    }
    assert(s.take(n) =~= front.take(n));
    if n == a.len() {
        assert(s.skip(n + 1) =~= b);
        assert(front.skip(n + 1) =~= Seq::empty());
        assert(lines_of(front.skip(n + 1)) =~= Seq::empty());
        assert(lines_of(s) =~= lines_of(front) + lines_of(b));
    } else {
        let rest = a.skip(n + 1);
        assert(s.skip(n + 1) =~= rest.push('\n') + b);
        assert(front.skip(n + 1) =~= rest.push('\n'));
        lines_split_at_line_feed(rest, b);
        assert(lines_of(s) =~= lines_of(front) + lines_of(b));
    }
}

/// Ending the last line with a line feed changes nothing but a carriage return at its end;
/// after a line feed it adds an empty line.
pub proof fn lines_of_ended(s: Seq<char>)
    ensures
        s.len() == 0 || s.last() == '\n' ==> lines_of(s.push('\n')) == lines_of(s).push(Seq::empty()),
        s.len() > 0 && s.last() != '\n' ==> lines_of(s).len() > 0 && lines_of(s.push('\n'))
            == lines_of(s).drop_last().push(without_return(lines_of(s).last())),
    decreases s.len(),
{
    let t = s.push('\n');
    let n = char_position(t, '\n');
    crate::text::search::char_position_meaning(t, '\n');
    assert(t[s.len() as int] == '\n');
    assert(n <= s.len());
    assert forall|j: int| 0 <= j < n implies s[j] != '\n' by {
        assert(t[j] == s[j]);
    }
    if n == s.len() {
        if s.len() > 0 {
            assert(s[s.len() - 1] != '\n');
            crate::text::search::char_position_unique(s, '\n', n);
        }
        assert(t.take(n) =~= s);
        assert(t.skip(n + 1) =~= Seq::empty());
        assert(lines_of(t.skip(n + 1)) =~= Seq::empty());
        assert(lines_of(t) =~= seq![without_return(s)]);
        if s.len() == 0 {
            assert(without_return(s) =~= Seq::empty());
            assert(lines_of(s) =~= Seq::empty());
        } else {
            assert(lines_of(s) =~= seq![s]);
            assert(lines_of(s).drop_last() =~= Seq::empty());
        }
    } else {
        assert(t[n] == s[n]);
        crate::text::search::char_position_unique(s, '\n', n);
        let rest = s.skip(n + 1);
        assert(t.take(n) =~= s.take(n));
        assert(t.skip(n + 1) =~= rest.push('\n'));
        lines_of_ended(rest);
        let first = without_return(s.take(n));
        assert(lines_of(s) == seq![first] + lines_of(rest));
        assert(lines_of(t) == seq![first] + lines_of(rest.push('\n')));
        if rest.len() == 0 {
            assert(s.last() == '\n');
            assert(lines_of(t) =~= lines_of(s).push(Seq::empty()));
        } else {
            assert(rest.last() == s.last());
            if s.last() == '\n' {
                assert(lines_of(t) =~= lines_of(s).push(Seq::empty()));
            } else {
                assert(lines_of(s).last() == lines_of(rest).last());
                assert(lines_of(s).drop_last() =~= seq![first] + lines_of(rest).drop_last());
                assert(lines_of(t) =~= lines_of(s).drop_last().push(
                    without_return(lines_of(s).last()),
                ));
            }
        }
    }
}

/// White space at the end of a text is trimmed away.
pub proof fn trimmed_ignores_space_at_end(s: Seq<char>, c: char)
    requires
        is_space(c),
    ensures
        trimmed(s.push(c)) == trimmed(s),
    decreases s.len(),
{
    let t = s.push(c);
    if s.len() == 0 {
        assert(t.skip(1) =~= s);
        assert(trimmed_start(t) == trimmed_start(s));
    } else if is_space(s[0]) {
        assert(t[0] == s[0]);
        assert(t.skip(1) =~= s.skip(1).push(c));
        trimmed_ignores_space_at_end(s.skip(1), c);
    } else {
        assert(t[0] == s[0]);
        assert(trimmed_start(t) == t);
        assert(trimmed_start(s) == s);
        assert(t.last() == c);
        assert(t.drop_last() =~= s);
    }
}

} // verus!
