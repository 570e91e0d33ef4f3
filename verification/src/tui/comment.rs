//! The block of comment lines below an answer in the editor.

use vstd::prelude::*;
use vstd::string::StringExecFns;
use crate::text::chars::to_chars;
use crate::text::search::{has_prefix, starts_with};
use crate::text::split::{
    join, joined, lines, lines_of, lines_of_ended, lines_split_at_line_feed, texts,
    texts_push, trim, trimmed, trimmed_ignores_space_at_end,
    without_return, words, words_of,
};

verus! {

/// A line with one more word.
pub open spec fn with_word(line: Seq<char>, word: Seq<char>) -> Seq<char> {
    line + " "@ + word
}

/// The lines of a comment that goes on with `words` after what stands in `line` already.
/// A word that would make the line longer than seventy-two characters starts a new one, unless
/// it would be the first word of the line.
pub open spec fn wrapped(line: Seq<char>, words: Seq<Seq<char>>) -> Seq<Seq<char>>
    decreases words.len(),
{
    if words.len() == 0 {
        if line == "#"@ {
            Seq::empty()
        } else {
            seq![line]
        }
    } else if line.len() + 1 + words[0].len() > 72 && line != "#"@ {
        seq![line] + wrapped(with_word("#"@, words[0]), words.skip(1))
    } else {
        wrapped(with_word(line, words[0]), words.skip(1))
    }
}

/// The lines of a comment with this text.
pub open spec fn comment_lines(text: Seq<char>) -> Seq<Seq<char>> {
    wrapped("#"@, words_of(text))
}

/// A text as comment lines, wrapped at seventy-two columns, the width that a commit message
/// editor assumes.
pub fn wrap_comment(text: &str) -> (r: Vec<String>)
    ensures
        texts(r@) == comment_lines(text@),
{
    broadcast use texts_push;

    let all = words(text);
    let ghost ws = texts(all@);
    let ghost whole = comment_lines(text@);
    let mut out: Vec<String> = Vec::new();
    let mut cur = "#".to_owned();
    let mut fresh = true;
    let mut i: usize = 0;
    proof {
        assert(ws.skip(0) =~= ws);
        assert(texts(out@) + whole =~= whole);
        reveal_strlit("#");
    }
    while i < all.len()
        invariant
            i <= all@.len(),
            ws == texts(all@),
            fresh == (cur@ == "#"@),
            cur@.len() >= 1,
            whole == texts(out@) + wrapped(cur@, ws.skip(i as int)),
        decreases all@.len() - i,
    {
        let word = all[i].as_str();
        let ghost before = texts(out@);
        let ghost line = cur@;
        proof {
            assert(ws.skip(i as int).skip(1) =~= ws.skip(i + 1));
            assert(ws.skip(i as int)[0] == word@);
        }
        let width: u128 = to_chars(cur.as_str()).len() as u128 + 1 + to_chars(word).len() as u128;
        if width > 72 && !fresh {
            out.push(cur);
            cur = "#".to_owned();
            proof {
                let rest = wrapped(with_word("#"@, word@), ws.skip(i + 1));
                assert(before + (seq![line] + rest) =~= before.push(line) + rest);
            }
        }
        cur.append(" ");
        cur.append(word);
        fresh = false;
        proof {
            reveal_strlit("#");
            reveal_strlit(" ");
            assert(cur@.len() > 1);
        }
        i += 1;
    }
    let ghost line = cur@;
    let ghost before = texts(out@);
    if !fresh {
        out.push(cur);
        assert(whole =~= before.push(line));
    } else {
        assert(whole =~= before);
    }
    out
}

/// Whether a line is one of a comment block: it starts with a hash, or is blank.
pub open spec fn is_comment(line: Seq<char>) -> bool {
    has_prefix(line, "#"@) || trimmed(line).len() == 0
}

/// Lines without the comment block at their end.
pub open spec fn without_block(ls: Seq<Seq<char>>) -> Seq<Seq<char>>
    decreases ls.len(),
{
    if ls.len() > 0 && is_comment(ls.last()) {
        without_block(ls.drop_last())
    } else {
        ls
    }
}

/// What was written above the comment block.
pub open spec fn written(body: Seq<char>) -> Seq<char> {
    trimmed(joined(without_block(lines_of(body)), "\n"@))
}

/// Drops the run of comment lines at the end. Only that run: an answer can legitimately
/// start a line with a hash, and eating that would silently corrupt the answer.
pub fn strip_comments(body: &str) -> (r: String)
    ensures
        r@ == written(body@),
{
    let mut all = lines(body);
    let ghost ls = texts(all@);
    proof {
        assert(ls.take(all@.len() as int) =~= ls);
    }
    while all.len() > 0 && (starts_with(all[all.len() - 1].as_str(), "#") || trim(
        all[all.len() - 1].as_str(),
    ).as_str().is_empty())
        invariant
            all@.len() <= ls.len(),
            texts(all@) == ls.take(all@.len() as int),
            without_block(ls) == without_block(ls.take(all@.len() as int)),
        decreases all@.len(),
    {
        let ghost n = all@.len() as int;
        proof {
            assert(ls.take(n).last() == texts(all@)[n - 1]);
            assert(ls.take(n).drop_last() =~= ls.take(n - 1));
        }
        let _ = all.pop();
        proof {
            assert(texts(all@) =~= ls.take(n - 1));
        }
    }
    proof {
        let n = all@.len() as int;
        if n > 0 {
            assert(ls.take(n).last() == texts(all@)[n - 1]);
        }
    }
    trim(join(&all, "\n").as_str())
}

// ---------------------------------------------------------------- laws

/// Every line of a comment starts with a hash.
pub proof fn comments_start_with_a_hash(text: Seq<char>, i: int)
    requires
        0 <= i < comment_lines(text).len(),
    ensures
        has_prefix(comment_lines(text)[i], "#"@),
{
    reveal_strlit("#");
    assert("#"@.subrange(0, 1) =~= "#"@);
    wrapped_lines_start_with_a_hash("#"@, words_of(text), i);
}

proof fn wrapped_lines_start_with_a_hash(line: Seq<char>, words: Seq<Seq<char>>, i: int)
    requires
        has_prefix(line, "#"@),
        0 <= i < wrapped(line, words).len(),
    ensures
        has_prefix(wrapped(line, words)[i], "#"@),
    decreases words.len(),
{
    reveal_strlit("#");
    if words.len() > 0 {
        if line.len() + 1 + words[0].len() > 72 && line != "#"@ {
            let next = with_word("#"@, words[0]);
            assert(next.subrange(0, 1) =~= "#"@);
            if i > 0 {
                assert(wrapped(line, words)[i] == wrapped(next, words.skip(1))[i - 1]);
                wrapped_lines_start_with_a_hash(next, words.skip(1), i - 1);
            }
        } else {
            let next = with_word(line, words[0]);
            assert(line.subrange(0, 1)[0] == '#');
            assert(next.subrange(0, 1) =~= "#"@);
            wrapped_lines_start_with_a_hash(next, words.skip(1), i);
        }
    }
}

/// Whether a line keeps to the width, or holds a single word of `words`.
pub open spec fn keeps_width(line: Seq<char>, words: Seq<Seq<char>>) -> bool {
    line.len() <= 72 || exists|k: int|
        0 <= k < words.len() && line == with_word("#"@, #[trigger] words[k])
}

/// No line of a comment is longer than seventy-two characters, unless it holds a single word.
pub proof fn comments_keep_their_width(text: Seq<char>, i: int)
    requires
        0 <= i < comment_lines(text).len(),
    ensures
        keeps_width(comment_lines(text)[i], words_of(text)),
{
    let ws = words_of(text);
    assert(ws.skip(0) =~= ws);
    wrapped_lines_keep_width("#"@, ws, 0, i);
}

proof fn wrapped_lines_keep_width(line: Seq<char>, all: Seq<Seq<char>>, k: int, i: int)
    requires
        0 <= k <= all.len(),
        line == "#"@ || keeps_width(line, all),
        0 <= i < wrapped(line, all.skip(k)).len(),
    ensures
        keeps_width(wrapped(line, all.skip(k))[i], all),
    decreases all.len() - k,
{
    let words = all.skip(k);
    if words.len() > 0 {
        let word = words[0];
        assert(word == all[k]);
        assert(words.skip(1) =~= all.skip(k + 1));
        let fresh = with_word("#"@, word);
        assert(keeps_width(fresh, all));
        if line.len() + 1 + word.len() > 72 && line != "#"@ {
            if i > 0 {
                assert(wrapped(line, words)[i] == wrapped(fresh, words.skip(1))[i - 1]);
                wrapped_lines_keep_width(fresh, all, k + 1, i - 1);
            }
        } else {
            let next = with_word(line, word);
            reveal_strlit(" ");
            assert(line == "#"@ || next.len() <= 72);
            wrapped_lines_keep_width(next, all, k + 1, i);
        }
    }
}

proof fn block_falls_off(ls: Seq<Seq<char>>, block: Seq<Seq<char>>)
    requires
        forall|i: int| 0 <= i < block.len() ==> is_comment(#[trigger] block[i]),
    ensures
        without_block(ls + block) == without_block(ls),
    decreases block.len(),
{
    if block.len() == 0 {
        assert(ls + block =~= ls);
    } else {
        assert((ls + block).last() == block[block.len() - 1]);
        assert((ls + block).drop_last() =~= ls + block.drop_last());
        assert forall|i: int| 0 <= i < block.drop_last().len() implies is_comment(
            #[trigger] block.drop_last()[i],
        ) by {
            assert(block.drop_last()[i] == block[i]);
        }
        block_falls_off(ls, block.drop_last());
    }
}

proof fn return_at_end_is_trimmed(line: Seq<char>)
    ensures
        trimmed(without_return(line)) == trimmed(line),
        is_comment(without_return(line)) == is_comment(line),
{
    if line.len() > 0 && line.last() == '\r' {
        let l = line.drop_last();
        assert(l.push('\r') =~= line);
        trimmed_ignores_space_at_end(l, '\r');
        reveal_strlit("#");
        if has_prefix(line, "#"@) {
            assert(line.subrange(0, 1)[0] == '#');
            assert(line[0] == '#');
            assert(l.subrange(0, 1) =~= "#"@);
        }
        if has_prefix(l, "#"@) {
            assert(l.subrange(0, 1)[0] == '#');
            assert(line.subrange(0, 1) =~= "#"@);
        }
    }
}

/// Ending a text with a line feed does not change what was written in it.
proof fn ending_keeps_written(answer: Seq<char>)
    ensures
        trimmed(joined(without_block(lines_of(answer.push('\n'))), "\n"@)) == written(answer),
{
    lines_of_ended(answer);
    let ls = lines_of(answer);
    if answer.len() == 0 || answer.last() == '\n' {
        assert(trimmed(Seq::<char>::empty()) =~= Seq::empty());
        assert(is_comment(Seq::empty()));
        assert(ls.push(Seq::empty()).drop_last() =~= ls);
    } else {
        let last = ls.last();
        let front = ls.drop_last();
        let other = front.push(without_return(last));
        return_at_end_is_trimmed(last);
        assert(other.drop_last() =~= front);
        assert(other.last() == without_return(last));
        if is_comment(last) {
            assert(without_block(other) == without_block(ls));
        } else {
            assert(without_block(ls) == ls);
            assert(without_block(other) == other);
            if last.len() > 0 && last.last() == '\r' {
                let l = last.drop_last();
                if front.len() == 0 {
                    assert(joined(ls, "\n"@) == ls[0]);
                    assert(joined(other, "\n"@) == other[0]);
                    assert(other[0].push('\r') =~= ls[0]);
                    trimmed_ignores_space_at_end(other[0], '\r');
                } else {
                    let a = joined(other, "\n"@);
                    let b = joined(ls, "\n"@);
                    assert(b =~= a.push('\r'));
                    trimmed_ignores_space_at_end(a, '\r');
                }
            } else {
                assert(other =~= ls);
            }
        }
    }
}

/// What the editor is given and what is taken back from it agree: with a comment block
/// below it, an answer reads as it does without.
pub proof fn the_block_is_stripped(answer: Seq<char>, block: Seq<char>)
    requires
        forall|i: int| 0 <= i < lines_of(block).len() ==> is_comment(#[trigger] lines_of(block)[i]),
    ensures
        written(answer + "\n\n"@ + block) == written(answer),
{
    reveal_strlit("\n\n");
    let body = answer + "\n\n"@ + block;
    let one = answer.push('\n');
    assert(body =~= one.push('\n') + block);
    lines_split_at_line_feed(one, block);
    lines_of_ended(one);
    let ls = lines_of(one);
    assert(one.last() == '\n');
    assert(trimmed(Seq::<char>::empty()) =~= Seq::empty());
    assert(is_comment(Seq::empty()));
    block_falls_off(lines_of(one.push('\n')), lines_of(block));
    assert(ls.push(Seq::empty()).drop_last() =~= ls);
    assert(without_block(lines_of(body)) == without_block(ls));
    ending_keeps_written(answer);
}

} // verus!
