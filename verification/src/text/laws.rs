//! What holds of lines, pieces and lists of texts, whatever they are.

use vstd::prelude::*;
use crate::text::chars::{is_digit, is_space};
use crate::text::number::{decimal, decimal_reads_back, digit_count, leading_number};
use crate::text::search::{
    char_position, char_position_meaning, char_position_unique, has_prefix, has_text, occurs_at,
    position, position_from_meaning, without_prefixes,
};
use crate::text::split::{
    at_most, indentation_keeps_words, joined, lines_of, pieces, trimmed, trimmed_end,
    trimmed_start, word_length, words_of,
};

verus! {

/// Choosing by conditions that agree on what is there chooses the same.
pub proof fn same_choice<A>(s: Seq<A>, p: spec_fn(A) -> bool, q: spec_fn(A) -> bool)
    requires
        forall|i: int| 0 <= i < s.len() ==> p(#[trigger] s[i]) == q(s[i]),
    ensures
        s.filter(p) == s.filter(q),
    decreases s.len(),
{
    reveal(Seq::filter);
    if s.len() > 0 {
        let rest = s.drop_last();
        assert forall|i: int| 0 <= i < rest.len() implies p(#[trigger] rest[i]) == q(rest[i]) by {
            assert(rest[i] == s[i]);
        }
        same_choice(rest, p, q);
        assert(s.last() == s[s.len() - 1]);
    }
}

/// Choosing twice is choosing by both conditions.
pub proof fn choosing_twice<A>(s: Seq<A>, p: spec_fn(A) -> bool, q: spec_fn(A) -> bool)
    ensures
        s.filter(p).filter(q) == s.filter(|x: A| p(x) && q(x)),
    decreases s.len(),
{
    reveal(Seq::filter);
    let both = |x: A| p(x) && q(x);
    if s.len() > 0 {
        choosing_twice(s.drop_last(), p, q);
        if p(s.last()) {
            let sub = s.drop_last().filter(p);
            assert(sub.push(s.last()).drop_last() =~= sub);
        }
    }
}

/// The first `n` of the first `m`, where `m` is no fewer, are the first `n`.
pub proof fn first_of_the_first<A>(s: Seq<A>, m: nat, n: nat)
    requires
        n <= m,
    ensures
        at_most(at_most(s, m), n) == at_most(s, n),
        at_most(s, n).len() == if s.len() < n { s.len() } else { n },
        forall|i: int| 0 <= i < at_most(s, n).len() ==> #[trigger] at_most(s, n)[i] == s[i],
{
    assert(at_most(at_most(s, m), n) =~= at_most(s, n));
}

/// Lists are joined one after the other, with the separator between them.
pub proof fn joining_lists(a: Seq<Seq<char>>, b: Seq<Seq<char>>, sep: Seq<char>)
    requires
        a.len() > 0,
        b.len() > 0,
    ensures
        joined(a + b, sep) == joined(a, sep) + sep + joined(b, sep),
    decreases b.len(),
{
    let all = a + b;
    if b.len() == 1 {
        assert(all.drop_last() =~= a);
        assert(all.last() == b[0]);
    } else {
        joining_lists(a, b.drop_last(), sep);
        assert(all.drop_last() =~= a + b.drop_last());
        assert(all.last() == b.last());
        assert(joined(all, sep) =~= joined(a, sep) + sep + joined(b, sep));
    }
}

/// Pieces joined again are the text, and none of them holds the separator.
pub proof fn pieces_make_the_text(s: Seq<char>, sep: Seq<char>)
    requires
        sep.len() > 0,
    ensures
        joined(pieces(s, sep), sep) == s,
        pieces(s, sep).len() > 0,
        forall|i: int| 0 <= i < pieces(s, sep).len() ==> !has_text(#[trigger] pieces(s, sep)[i], sep),
    decreases s.len(),
{
    position_from_meaning(s, sep, 0);
    match position(s, sep) {
        Some(i) => {
            let front = s.take(i);
            let back = s.skip(i + sep.len());
            pieces_make_the_text(back, sep);
            joining_lists(seq![front], pieces(back, sep), sep);
            assert(joined(seq![front], sep) == front);
            assert(s.subrange(i, i + sep.len()) == sep);
            assert(front + sep + back =~= s);
            assert(!has_text(front, sep)) by {
                if has_text(front, sep) {
                    let j = choose|j: int| occurs_at(front, sep, j);
                    assert(s.subrange(j, j + sep.len()) =~= front.subrange(j, j + sep.len()));
                    assert(occurs_at(s, sep, j));
                }
            }
            let all = pieces(s, sep);
            assert forall|k: int| 0 <= k < all.len() implies !has_text(#[trigger] all[k], sep) by {
                if k > 0 {
                    assert(all[k] == pieces(back, sep)[k - 1]);
                }
            }
        },
        None => {
            assert(joined(seq![s], sep) == s);
            assert(!has_text(s, sep)) by {
                if has_text(s, sep) {
                    let j = choose|j: int| occurs_at(s, sep, j);
                    assert(occurs_at(s, sep, j));
                }
            }
        },
    }
}

/// A separator that stands nowhere earlier ends the first piece.
pub proof fn the_first_piece(front: Seq<char>, sep: Seq<char>, back: Seq<char>)
    requires
        sep.len() > 0,
        forall|j: int| 0 <= j < front.len() ==> !occurs_at(front + sep + back, sep, j),
    ensures
        pieces(front + sep + back, sep) == seq![front] + pieces(back, sep),
{
    let s = front + sep + back;
    let n = front.len() as int;
    assert(s.subrange(n, n + sep.len()) =~= sep);
    assert(occurs_at(s, sep, n));
    position_from_meaning(s, sep, 0);
    assert(position(s, sep) == Some(n));
    assert(s.take(n) =~= front);
    assert(s.skip(n + sep.len()) =~= back);
}

/// The first piece between colons is what stands before the first colon.
pub proof fn before_the_first(s: Seq<char>, c: char, sep: Seq<char>)
    requires
        sep == seq![c],
    ensures
        pieces(s, sep)[0] == s.take(char_position(s, c)),
{
    char_position_meaning(s, c);
    position_from_meaning(s, sep, 0);
    let n = char_position(s, c);
    if n < s.len() {
        assert(s.subrange(n, n + 1) =~= sep);
        assert(occurs_at(s, sep, n));
        assert forall|j: int| 0 <= j < n implies !occurs_at(s, sep, j) by {
            if occurs_at(s, sep, j) {
                assert(s.subrange(j, j + 1)[0] == s[j]);
            }
        }
        assert(position(s, sep) == Some(n));
    } else {
        if position(s, sep) is Some {
            let j = position(s, sep)->0;
            assert(s.subrange(j, j + 1)[0] == s[j]);
        }
        assert(s.take(n) =~= s);
    }
}

// ---------------------------------------------------------------- trimming and splitting

/// Trimming takes white space off both ends, all of it and nothing else.
pub proof fn trimming_takes_space_off(front: Seq<char>, t: Seq<char>, back: Seq<char>)
    requires
        forall|i: int| 0 <= i < front.len() ==> is_space(#[trigger] front[i]),
        forall|i: int| 0 <= i < back.len() ==> is_space(#[trigger] back[i]),
        t.len() > 0 ==> !is_space(t[0]) && !is_space(t.last()),
    ensures
        trimmed(front + t + back) == t,
    decreases back.len(), front.len(),
{
    let s = front + t + back;
    if front.len() > 0 {
        assert(is_space(front[0]));
        assert(s[0] == front[0]);
        assert(s.skip(1) =~= front.skip(1) + t + back);
        assert forall|i: int| 0 <= i < front.skip(1).len() implies is_space(
            #[trigger] front.skip(1)[i],
        ) by {
            assert(front.skip(1)[i] == front[i + 1]);
        }
        trimming_takes_space_off(front.skip(1), t, back);
    } else if t.len() == 0 {
        if back.len() > 0 {
            assert(s =~= back + t + front);
            trimming_takes_space_off(back, t, front);
        } else {
            assert(s =~= t);
        }
    } else {
        assert(s[0] == t[0]);
        assert(trimmed_start(s) == s);
        ends_are_trimmed(t, back);
        assert(s =~= t + back);
    }
}

proof fn ends_are_trimmed(t: Seq<char>, back: Seq<char>)
    requires
        forall|i: int| 0 <= i < back.len() ==> is_space(#[trigger] back[i]),
        t.len() > 0,
        !is_space(t.last()),
    ensures
        trimmed_end(t + back) == t,
    decreases back.len(),
{
    if back.len() == 0 {
        assert(t + back =~= t);
    } else {
        let rest = back.drop_last();
        assert(is_space(back[back.len() - 1]));
        assert((t + back).drop_last() =~= t + rest);
        assert forall|i: int| 0 <= i < rest.len() implies is_space(#[trigger] rest[i]) by {
            assert(rest[i] == back[i]);
        }
        ends_are_trimmed(t, rest);
    }
}

/// A line goes up to the next line feed, a carriage return before that left out; what follows the
/// last line feed is a line where there is any of it.
pub proof fn lines_end_at_line_feeds(line: Seq<char>, back: Seq<char>)
    requires
        forall|i: int| 0 <= i < line.len() ==> line[i] != '\n',
    ensures
        lines_of(line.push('\n') + back) == seq![
            if line.len() > 0 && line.last() == '\r' {
                line.drop_last()
            } else {
                line
            },
        ] + lines_of(back),
        lines_of(line) == if line.len() > 0 {
            seq![line]
        } else {
            Seq::empty()
        },
{
    let s = line.push('\n') + back;
    let n = line.len() as int;
    char_position_unique(s, '\n', n);
    assert(s.take(n) =~= line);
    assert(s.skip(n + 1) =~= back);
    char_position_meaning(line, '\n');
}

/// A word goes up to the next white space; white space before it does not count.
pub proof fn words_end_at_spaces(pad: Seq<char>, word: Seq<char>, space: char, back: Seq<char>)
    requires
        forall|i: int| 0 <= i < pad.len() ==> is_space(#[trigger] pad[i]),
        word.len() > 0,
        forall|i: int| 0 <= i < word.len() ==> !is_space(#[trigger] word[i]),
        is_space(space),
    ensures
        words_of(pad + word.push(space) + back) == seq![word] + words_of(back),
        words_of(pad + word) == seq![word],
        words_of(pad) == Seq::<Seq<char>>::empty(),
{
    indentation_keeps_words(pad, word);
    indentation_keeps_words(pad, word.push(space) + back);
    assert(pad + (word.push(space) + back) =~= pad + word.push(space) + back);
    indentation_keeps_words(pad, Seq::empty());
    assert(pad + Seq::<char>::empty() =~= pad);
    let s = word.push(space) + back;
    let n = word.len() as int;
    assert(!is_space(word[0]));
    assert(s[0] == word[0]);
    assert(trimmed_start(s) == s);
    assert(trimmed_start(word) == word);
    length_of_a_word(word, seq![space] + back);
    assert(s =~= word + (seq![space] + back));
    length_of_a_word(word, Seq::empty());
    assert(word + Seq::<char>::empty() =~= word);
    assert(s.take(n) =~= word);
    assert(s.skip(n) =~= seq![space] + back);
    indentation_keeps_words(seq![space], back);
    assert(word.take(n) =~= word);
    assert(word.skip(n) =~= Seq::<char>::empty());
}

proof fn length_of_a_word(word: Seq<char>, back: Seq<char>)
    requires
        forall|i: int| 0 <= i < word.len() ==> !is_space(#[trigger] word[i]),
        back.len() == 0 || is_space(back[0]),
    ensures
        word_length(word + back) == word.len(),
    decreases word.len(),
{
    if word.len() == 0 {
        assert(word + back =~= back);
    } else {
        let rest = word.skip(1);
        assert(!is_space(word[0]));
        assert((word + back).skip(1) =~= rest + back);
        assert forall|i: int| 0 <= i < rest.len() implies !is_space(#[trigger] rest[i]) by {
            assert(rest[i] == word[i + 1]);
        }
        length_of_a_word(rest, back);
    }
}

/// A prefix is taken off as often as it stands in front, and what is left does not start with it.
pub proof fn prefixes_are_taken_off(s: Seq<char>, pat: Seq<char>)
    requires
        pat.len() > 0,
    ensures
        without_prefixes(pat + s, pat) == without_prefixes(s, pat),
        !has_prefix(s, pat) ==> without_prefixes(s, pat) == s,
{
    assert((pat + s).subrange(0, pat.len() as int) =~= pat);
    assert((pat + s).skip(pat.len() as int) =~= s);
}

// ---------------------------------------------------------------- numbers

/// A number in front of a text is read up to its last digit, as long as it is within the limit.
pub proof fn a_number_in_front_is_read(n: nat, back: Seq<char>, max: nat)
    requires
        back.len() == 0 || !('0' <= back[0] <= '9'),
    ensures
        leading_number(decimal(n) + back, max) == if n <= max {
            Some(n)
        } else {
            None
        },
{
    decimal_reads_back(n);
    let d = decimal(n);
    digits_in_front(d, back);
    assert((d + back).take(d.len() as int) =~= d);
}

/// Without a digit in front there is no number.
pub proof fn without_a_digit_there_is_no_number(s: Seq<char>, max: nat)
    requires
        s.len() == 0 || !('0' <= s[0] <= '9'),
    ensures
        leading_number(s, max) is None,
{
}

proof fn digits_in_front(d: Seq<char>, back: Seq<char>)
    requires
        forall|i: int| 0 <= i < d.len() ==> is_digit(#[trigger] d[i]),
        back.len() == 0 || !is_digit(back[0]),
    ensures
        digit_count(d + back) == d.len(),
    decreases d.len(),
{
    if d.len() == 0 {
        assert(d + back =~= back);
    } else {
        let rest = d.skip(1);
        assert(is_digit(d[0]));
        assert((d + back).skip(1) =~= rest + back);
        assert forall|i: int| 0 <= i < rest.len() implies is_digit(#[trigger] rest[i]) by {
            assert(rest[i] == d[i + 1]);
        }
        digits_in_front(rest, back);
    }
}

} // verus!
