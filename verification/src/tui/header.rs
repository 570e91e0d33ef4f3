//! What the editor shows below an answer: the question, as comment lines.

use vstd::prelude::*;
use vstd::string::StringExecFns;
use crate::db::QuestionModel;
use crate::text::chars::is_space;
use crate::text::number::{decimal, decimal_reads_back, show_usize};
use crate::text::search::has_prefix;
use crate::text::split::{
    at_most, lines_of, lines_of_ended, lines_split_at_line_feed, texts, trimmed_start,
    trimmed_start_is_suffix, without_return, word_length, word_length_bounds, words_of,
};
use crate::tui::app::{App, AppModel};
use crate::tui::comment::{
    comment_lines, comments_start_with_a_hash, is_comment, the_block_is_stripped, with_word, wrap_comment,
    wrapped, written,
};

verus! {

/// Lines, each ended by a line feed.
pub open spec fn ended(ls: Seq<Seq<char>>) -> Seq<char>
    decreases ls.len(),
{
    if ls.len() == 0 {
        Seq::empty()
    } else {
        ended(ls.drop_last()) + ls.last() + "\n"@
    }
}

/// A text as comment lines.
pub open spec fn commented(text: Seq<char>) -> Seq<char> {
    ended(comment_lines(text))
}

/// Hints as comment lines, an empty one before each.
pub open spec fn hint_block(hints: Seq<Seq<char>>) -> Seq<char>
    decreases hints.len(),
{
    if hints.len() == 0 {
        Seq::empty()
    } else {
        hint_block(hints.drop_last()) + "#\n"@ + commented("hint: "@ + hints.last())
    }
}

/// What says which question it is.
pub open spec fn title_line(what: Seq<char>, number: nat, total: nat, q: QuestionModel) -> Seq<char> {
    what + decimal(number) + "/"@ + decimal(total) + " · "@ + q.kind + " · "@ + q.file + "\n"@
}

/// What says that the block is stripped.
pub open spec fn closing_lines() -> Seq<char> {
    "#\n"@ + "# The `#` block at the end of this file is stripped.\n"@
}

/// The block below an answer: the question, and the hints that are shown.
pub open spec fn answer_block(a: AppModel) -> Seq<char> {
    if a.current < a.questions.len() {
        let q = a.questions[a.current as int];
        title_line("# Question "@, (a.current + 1) as nat, a.questions.len(), q) + "#\n"@ + commented(
            q.text,
        ) + hint_block(at_most(q.hints, a.slot().hints_shown as nat)) + closing_lines()
    } else {
        Seq::empty()
    }
}

/// What a dispute is held to.
pub const DISPUTE_RULES: &'static str =
    "Say what is wrong: the question assumes something the code does not do \
     (premise), the stored answer is wrong (reference), or the code itself is \
     wrong (code_bug). Quote a changed line — file.rs:88 — or the claim is \
     refused before it costs anything. Upholding is deliberately hard.";

/// The block below a dispute: the question, and what the claim is held to.
pub open spec fn dispute_block(a: AppModel) -> Seq<char> {
    if a.current < a.questions.len() {
        let q = a.questions[a.current as int];
        title_line("# Disputing question "@, (a.current + 1) as nat, a.questions.len(), q) + "#\n"@
            + commented(q.text) + "#\n"@ + commented(DISPUTE_RULES@) + closing_lines()
    } else {
        Seq::empty()
    }
}

fn end_lines(ls: &[String]) -> (r: String)
    ensures
        r@ == ended(texts(ls@)),
{
    let ghost all = texts(ls@);
    let mut out = String::new();
    let mut i: usize = 0;
    proof {
        assert(all.take(0) =~= Seq::empty());
    }
    while i < ls.len()
        invariant
            i <= ls@.len(),
            all == texts(ls@),
            out@ == ended(all.take(i as int)),
        decreases ls@.len() - i,
    {
        proof {
            assert(all.take(i + 1).drop_last() =~= all.take(i as int));
        }
        out.append(ls[i].as_str());
        out.append("\n");
        i += 1;
    }
    proof {
        assert(all.take(i as int) =~= all);
    }
    out
}

fn comment_text(text: &str) -> (r: String)
    ensures
        r@ == commented(text@),
{
    let ls = wrap_comment(text);
    end_lines(&ls)
}

fn hint_text(hints: &[String], shown: usize) -> (r: String)
    ensures
        r@ == hint_block(at_most(texts(hints@), shown as nat)),
{
    let ghost all = at_most(texts(hints@), shown as nat);
    let mut out = String::new();
    let mut i: usize = 0;
    proof {
        assert(all.take(0) =~= Seq::empty());
    }
    while i < hints.len() && i < shown
        invariant
            i <= hints@.len(),
            i <= shown,
            all == at_most(texts(hints@), shown as nat),
            out@ == hint_block(all.take(i as int)),
        decreases hints@.len() - i,
    {
        proof {
            assert(all.take(i + 1).drop_last() =~= all.take(i as int));
            assert(all.take(i + 1).last() == hints@[i as int]@);
        }
        out.append("#\n");
        out.append(comment_text("hint: ".to_owned().concat(hints[i].as_str()).as_str()).as_str());
        i += 1;
    }
    proof {
        assert(all.take(i as int) =~= all);
    }
    out
}

fn title_text(what: &str, number: usize, total: usize, kind: &str, file: &str) -> (r: String)
    ensures
        r@ == what@ + decimal(number as nat) + "/"@ + decimal(total as nat) + " · "@ + kind@ + " · "@
            + file@ + "\n"@,
{
    what.to_owned().concat(show_usize(number).as_str()).concat("/").concat(
        show_usize(total).as_str(),
    ).concat(" · ").concat(kind).concat(" · ").concat(file).concat("\n")
}

fn closing_text() -> (r: String)
    ensures
        r@ == closing_lines(),
{
    "#\n".to_owned().concat("# The `#` block at the end of this file is stripped.\n")
}

/// The question, as comment lines below the answer. The editor covers the quiz screen, so
/// without this you compose the answer from memory of a question you can no longer see.
pub fn editor_header(app: &App) -> (r: String)
    ensures
        r@ == answer_block(app@),
{
    let shown: usize = app.hints_shown();
    match app.question() {
        None => String::new(),
        Some(q) => {
            assert(app@.questions[app.current as int] == q@);
            let total: usize = app.questions.len();
            title_text(
                "# Question ",
                app.current + 1,
                total,
                q.kind.as_str(),
                q.file.as_str(),
            ).concat("#\n").concat(comment_text(q.text.as_str()).as_str()).concat(
                hint_text(&q.hints, shown).as_str(),
            ).concat(closing_text().as_str())
        },
    }
}

/// The block below a dispute. It states the question and what the judge will hold the claim
/// to, and never the reference answer, which is what half the disputes are about.
pub fn dispute_header(app: &App) -> (r: String)
    ensures
        r@ == dispute_block(app@),
{
    match app.question() {
        None => String::new(),
        Some(q) => {
            assert(app@.questions[app.current as int] == q@);
            let total: usize = app.questions.len();
            title_text(
                "# Disputing question ",
                app.current + 1,
                total,
                q.kind.as_str(),
                q.file.as_str(),
            ).concat("#\n").concat(comment_text(q.text.as_str()).as_str()).concat("#\n").concat(
                comment_text(DISPUTE_RULES).as_str(),
            ).concat(closing_text().as_str())
        },
    }
}

// ---------------------------------------------------------------- laws

/// Whether a text is made of whole comment lines.
pub open spec fn all_comments(s: Seq<char>) -> bool {
    &&& s.len() == 0 || s.last() == '\n'
    &&& forall|i: int| 0 <= i < lines_of(s).len() ==> is_comment(#[trigger] lines_of(s)[i])
}

proof fn comments_join(a: Seq<char>, b: Seq<char>)
    requires
        all_comments(a),
        all_comments(b),
    ensures
        all_comments(a + b),
{
    if a.len() == 0 {
        assert(a + b =~= b);
    } else if b.len() == 0 {
        assert(a + b =~= a);
    } else {
        let front = a.drop_last();
        assert(front.push('\n') =~= a);
        lines_split_at_line_feed(front, b);
        assert((a + b).last() == b.last());
        assert forall|i: int| 0 <= i < lines_of(a + b).len() implies is_comment(
            #[trigger] lines_of(a + b)[i],
        ) by {
            if i < lines_of(a).len() {
                assert(lines_of(a + b)[i] == lines_of(a)[i]);
            } else {
                assert(lines_of(a + b)[i] == lines_of(b)[i - lines_of(a).len()]);
            }
        }
    }
}

proof fn one_comment(line: Seq<char>)
    requires
        has_prefix(line, "#"@),
        forall|i: int| 0 <= i < line.len() ==> line[i] != '\n',
    ensures
        all_comments(line + "\n"@),
{
    reveal_strlit("\n");
    reveal_strlit("#");
    let s = line + "\n"@;
    assert(s =~= line.push('\n'));
    assert(line.subrange(0, 1)[0] == '#');
    assert(line[0] == '#');
    crate::text::search::char_position_unique(line, '\n', line.len() as int);
    assert(lines_of(line) =~= seq![line]);
    lines_of_ended(line);
    assert(line.last() != '\n');
    let kept = without_return(line);
    assert(lines_of(s) =~= seq![kept]);
    assert(kept.subrange(0, 1) =~= "#"@);
    assert(has_prefix(kept, "#"@));
}

proof fn ended_comments(ls: Seq<Seq<char>>)
    requires
        forall|i: int| 0 <= i < ls.len() ==> has_prefix(#[trigger] ls[i], "#"@),
        forall|i: int, j: int| 0 <= i < ls.len() && 0 <= j < ls[i].len() ==> #[trigger] ls[i][j] != '\n',
    ensures
        all_comments(ended(ls)),
    decreases ls.len(),
{
    if ls.len() == 0 {
        assert(lines_of(ended(ls)) =~= Seq::empty());
    } else {
        let front = ls.drop_last();
        assert forall|i: int| 0 <= i < front.len() implies has_prefix(#[trigger] front[i], "#"@) by {
            assert(front[i] == ls[i]);
        }
        assert forall|i: int, j: int| 0 <= i < front.len() && 0 <= j < front[i].len() implies
            #[trigger] front[i][j] != '\n' by {
            assert(front[i][j] == ls[i][j]);
        }
        ended_comments(front);
        let last = ls[ls.len() - 1];
        assert forall|j: int| 0 <= j < last.len() implies last[j] != '\n' by {
            assert(ls[ls.len() - 1][j] != '\n');
        }
        one_comment(last);
        comments_join(ended(front), last + "\n"@);
        assert(ended(ls) =~= ended(front) + (last + "\n"@));
    }
}

/// A word holds no white space, so no line feed.
proof fn words_hold_no_line_feed(s: Seq<char>)
    ensures
        forall|i: int, j: int|
            0 <= i < words_of(s).len() && 0 <= j < words_of(s)[i].len() ==> #[trigger] words_of(s)[i][j]
                != '\n',
    decreases s.len(),
{
    let t = trimmed_start(s);
    trimmed_start_is_suffix(s);
    if t.len() > 0 {
        let n = word_length(t);
        word_length_bounds(t);
        words_hold_no_line_feed(t.skip(n));
        assert forall|i: int, j: int|
            0 <= i < words_of(s).len() && 0 <= j < words_of(s)[i].len() implies
            #[trigger] words_of(s)[i][j] != '\n' by {
            if i == 0 {
                assert(words_of(s)[0] == t.take(n));
                assert(!is_space(t[j]));
                assert(t.take(n)[j] == t[j]);
            } else {
                assert(words_of(s)[i] == words_of(t.skip(n))[i - 1]);
            }
        }
    }
}

proof fn wrapped_holds_no_line_feed(line: Seq<char>, words: Seq<Seq<char>>)
    requires
        forall|j: int| 0 <= j < line.len() ==> line[j] != '\n',
        forall|i: int, j: int|
            0 <= i < words.len() && 0 <= j < words[i].len() ==> #[trigger] words[i][j] != '\n',
    ensures
        forall|i: int, j: int|
            0 <= i < wrapped(line, words).len() && 0 <= j < wrapped(line, words)[i].len() ==>
                #[trigger] wrapped(line, words)[i][j] != '\n',
    decreases words.len(),
{
    if words.len() > 0 {
        let rest = words.skip(1);
        assert forall|i: int, j: int| 0 <= i < rest.len() && 0 <= j < rest[i].len() implies
            #[trigger] rest[i][j] != '\n' by {
            assert(rest[i] == words[i + 1]);
            assert(words[i + 1][j] != '\n');
        }
        reveal_strlit("#");
        reveal_strlit(" ");
        let over = line.len() + 1 + words[0].len() > 72 && line != "#"@;
        let base = if over { "#"@ } else { line };
        let next = with_word(base, words[0]);
        assert forall|j: int| 0 <= j < next.len() implies next[j] != '\n' by {
            if j >= base.len() + 1 {
                assert(next[j] == words[0][j - base.len() - 1]);
            } else if j == base.len() {
                assert(next[j] == ' ');
            } else {
                assert(next[j] == base[j]);
            }
        }
        wrapped_holds_no_line_feed(next, rest);
        if over {
            assert(wrapped(line, words) == seq![line] + wrapped(next, rest));
            assert forall|i: int, j: int|
                0 <= i < wrapped(line, words).len() && 0 <= j < wrapped(line, words)[i].len() implies
                #[trigger] wrapped(line, words)[i][j] != '\n' by {
                if i > 0 {
                    assert(wrapped(line, words)[i] == wrapped(next, rest)[i - 1]);
                }
            }
        } else {
            assert(wrapped(line, words) == wrapped(next, rest));
        }
    }
}

proof fn commented_is_comments(text: Seq<char>)
    ensures
        all_comments(commented(text)),
{
    let ls = comment_lines(text);
    reveal_strlit("#");
    words_hold_no_line_feed(text);
    wrapped_holds_no_line_feed("#"@, words_of(text));
    assert forall|i: int| 0 <= i < ls.len() implies has_prefix(#[trigger] ls[i], "#"@) by {
        comments_start_with_a_hash(text, i);
    }
    ended_comments(ls);
}

proof fn hints_are_comments(hints: Seq<Seq<char>>)
    ensures
        all_comments(hint_block(hints)),
    decreases hints.len(),
{
    if hints.len() == 0 {
        assert(lines_of(hint_block(hints)) =~= Seq::empty());
    } else {
        hints_are_comments(hints.drop_last());
        empty_comment();
        commented_is_comments("hint: "@ + hints.last());
        comments_join(hint_block(hints.drop_last()), "#\n"@);
        comments_join(
            hint_block(hints.drop_last()) + "#\n"@,
            commented("hint: "@ + hints.last()),
        );
    }
}

proof fn empty_comment()
    ensures
        all_comments("#\n"@),
        all_comments(closing_lines()),
{
    reveal_strlit("#");
    reveal_strlit("#\n");
    reveal_strlit("\n");
    assert("#"@.subrange(0, 1) =~= "#"@);
    one_comment("#"@);
    assert("#\n"@ =~= "#"@ + "\n"@);
    reveal_strlit("# The `#` block at the end of this file is stripped.\n");
    reveal_strlit("# The `#` block at the end of this file is stripped.");
    let l = "# The `#` block at the end of this file is stripped."@;
    assert(l.subrange(0, 1) =~= "#"@);
    one_comment(l);
    assert("# The `#` block at the end of this file is stripped.\n"@ =~= l + "\n"@);
    comments_join("#\n"@, "# The `#` block at the end of this file is stripped.\n"@);
}

/// Whether a text stands on one line.
pub open spec fn on_one_line(s: Seq<char>) -> bool {
    forall|i: int| 0 <= i < s.len() ==> s[i] != '\n'
}

proof fn title_is_comment(what: Seq<char>, number: nat, total: nat, q: QuestionModel)
    requires
        has_prefix(what, "#"@),
        on_one_line(what),
        on_one_line(q.kind),
        on_one_line(q.file),
    ensures
        all_comments(title_line(what, number, total, q)),
{
    reveal_strlit("#");
    reveal_strlit("/");
    reveal_strlit(" · ");
    decimal_reads_back(number);
    decimal_reads_back(total);
    let line = what + decimal(number) + "/"@ + decimal(total) + " · "@ + q.kind + " · "@ + q.file;
    assert(what.subrange(0, 1)[0] == '#');
    assert(line.subrange(0, 1) =~= "#"@);
    let a = what + decimal(number);
    one_line_joins(what, decimal(number));
    one_line_joins(a, "/"@);
    one_line_joins(a + "/"@, decimal(total));
    let b = a + "/"@ + decimal(total);
    one_line_joins(b, " · "@);
    one_line_joins(b + " · "@, q.kind);
    let c = b + " · "@ + q.kind;
    one_line_joins(c, " · "@);
    one_line_joins(c + " · "@, q.file);
    one_comment(line);
}

proof fn one_line_joins(a: Seq<char>, b: Seq<char>)
    requires
        on_one_line(a),
        on_one_line(b),
    ensures
        on_one_line(a + b),
{
    assert forall|i: int| 0 <= i < (a + b).len() implies (a + b)[i] != '\n' by {
        if i < a.len() {
            assert((a + b)[i] == a[i]);
        } else {
            assert((a + b)[i] == b[i - a.len()]);
        }
    }
}

/// The block that shows a question is taken off again: an answer handed to the editor with
/// it, and handed back as it is, reads as it did. The kind and the file of the question
/// stand on one line each.
pub proof fn the_question_is_stripped_again(a: AppModel, answer: Seq<char>)
    requires
        a.current < a.questions.len() ==> on_one_line(a.questions[a.current as int].kind)
            && on_one_line(a.questions[a.current as int].file),
    ensures
        written(answer + "\n\n"@ + answer_block(a)) == written(answer),
        written(answer + "\n\n"@ + dispute_block(a)) == written(answer),
{
    let q = a.questions[a.current as int];
    if a.current < a.questions.len() {
        reveal_strlit("#");
        reveal_strlit("# Question ");
        reveal_strlit("# Disputing question ");
        assert("# Question "@.subrange(0, 1) =~= "#"@);
        assert("# Disputing question "@.subrange(0, 1) =~= "#"@);
        let number = (a.current + 1) as nat;
        let total = a.questions.len();
        empty_comment();
        commented_is_comments(q.text);
        commented_is_comments(DISPUTE_RULES@);
        hints_are_comments(at_most(q.hints, a.slot().hints_shown as nat));
        title_is_comment("# Question "@, number, total, q);
        title_is_comment("# Disputing question "@, number, total, q);

        let t = title_line("# Question "@, number, total, q);
        comments_join(t, "#\n"@);
        comments_join(t + "#\n"@, commented(q.text));
        comments_join(
            t + "#\n"@ + commented(q.text),
            hint_block(at_most(q.hints, a.slot().hints_shown as nat)),
        );
        comments_join(
            t + "#\n"@ + commented(q.text) + hint_block(
                at_most(q.hints, a.slot().hints_shown as nat),
            ),
            closing_lines(),
        );

        let d = title_line("# Disputing question "@, number, total, q);
        comments_join(d, "#\n"@);
        comments_join(d + "#\n"@, commented(q.text));
        comments_join(d + "#\n"@ + commented(q.text), "#\n"@);
        comments_join(d + "#\n"@ + commented(q.text) + "#\n"@, commented(DISPUTE_RULES@));
        comments_join(
            d + "#\n"@ + commented(q.text) + "#\n"@ + commented(DISPUTE_RULES@),
            closing_lines(),
        );
    } else {
        assert(lines_of(Seq::<char>::empty()) =~= Seq::empty());
    }
    assert(all_comments(answer_block(a)));
    assert(all_comments(dispute_block(a)));
    the_block_is_stripped(answer, answer_block(a));
    the_block_is_stripped(answer, dispute_block(a));
}

/// Neither block shows the reference answer: it is the same whatever that answer is.
pub proof fn blocks_do_not_depend_on_the_reference(a: AppModel, i: int, reference: Seq<char>)
    requires
        0 <= i < a.questions.len(),
    ensures
        ({
            let other = AppModel {
                questions: a.questions.update(
                    i,
                    QuestionModel { reference, ..a.questions[i] },
                ),
                ..a
            };
            answer_block(other) == answer_block(a) && dispute_block(other) == dispute_block(a)
        }),
{
}

} // verus!
