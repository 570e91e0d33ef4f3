//! What holds of prompts, replies and citations, whatever they are.

use vstd::prelude::*;
use crate::context::new_side_start;
use crate::git::{hunk_models, Hunk, HunkModel};
use crate::json::json_value;
use crate::llm::cli::{
    closing_brace, extracted, first_object, is_second_reply, json_instruction, retry_text,
    ExtractError, FirstReply,
};
use crate::llm::generate::{
    anchored, dashed, decline_reason, fit_remark, fitted, intent_position, rendered, system_text,
    user_text, OPENING, RANGE, RULES, SHAPE,
};
use crate::llm::judge::{
    count_below, dispute_system, dispute_user, divergence_system, divergence_user, feedback_of,
    grade_system, grade_user, is_dispute_kind, label_named, median, settled_feedback,
    settled_label, sources_section, Graded, ANSWER_SHAPE, DISPUTE_SHAPE, DISPUTE_SYSTEM,
    DIVERGENCE_SHAPE, DIVERGENCE_SYSTEM, SYSTEM,
};
use crate::llm::stub::{
    graded_by_length, length_feedback, scripted_next, scripted_rest, stub_adversarial,
    stub_checkable, stub_intent, stub_prediction, stub_questions,
};
use crate::llm::{
    cited_from, cites, cites_hunk_line, cites_number, cites_some_line, file_tail,
    hunk_span, identifies, is_line_of, is_own_number, is_whole_name, kept_lines, line_cite,
    mentions, mentions_name_of, not_blank, refers_to_line, stands_alone, Context, Generated,
    Label,
};
use crate::text::chars::{is_letter, lowercase};
use crate::text::laws::{joining_lists, same_choice};
use crate::text::number::decimal;
use crate::text::search::{
    char_position_meaning, has_prefix, has_text, occurs_at, position, position_from,
    position_from_meaning,
};
use crate::text::split::{joined, lines_of, pieces, texts, trimmed};
use crate::text::words::is_name_char;

verus! {

// ---------------------------------------------------------------- grades

/// The scores of labels, and their names.
pub proof fn what_labels_are_worth()
    ensures
        Label::Wrong.points() == 0,
        Label::Restates.points() == 3,
        Label::Partial.points() == 6,
        Label::Demonstrates.points() == 9,
        Label::Wrong.name() == "wrong"@,
        Label::Restates.name() == "restates"@,
        Label::Partial.name() == "partial"@,
        Label::Demonstrates.name() == "demonstrates"@,
        forall|s: Seq<char>|
            s != "restates"@ && s != "partial"@ && s != "demonstrates"@ ==> #[trigger] label_named(s)
                == Label::Wrong,
{
}

/// Of three grades the middle one decides: no fewer than two score as much or less, and no fewer
/// than two as much or more.
pub proof fn the_middle_grade(a: Label, b: Label, c: Label)
    ensures
        ({
            let m = median(seq![a, b, c]);
            &&& m == a || m == b || m == c
            &&& (a.points() <= m.points() && b.points() <= m.points()) || (a.points() <= m.points()
                && c.points() <= m.points()) || (b.points() <= m.points() && c.points()
                <= m.points())
            &&& (a.points() >= m.points() && b.points() >= m.points()) || (a.points() >= m.points()
                && c.points() >= m.points()) || (b.points() >= m.points() && c.points()
                >= m.points())
        }),
{
    reveal_with_fuel(count_below, 4);
    let x = seq![a, b, c];
    assert(x.drop_last() =~= seq![a, b]);
    assert(x.drop_last().drop_last() =~= seq![a]);
    assert(x.drop_last().drop_last().drop_last() =~= Seq::<Label>::empty());
}

/// A grade other than `partial` stands. `partial` is decided with its two repeats, and stands
/// where one of these failed.
pub proof fn how_a_grade_settles(first: Label, a: Label, b: Label)
    ensures
        first != Label::Partial ==> settled_label(first, seq![a, b]) == first,
        settled_label(Label::Partial, seq![a, b]) == median(seq![Label::Partial, a, b]),
        settled_label(Label::Partial, seq![a]) == Label::Partial,
        settled_label(Label::Partial, Seq::empty()) == Label::Partial,
{
    assert(seq![Label::Partial] + seq![a, b] =~= seq![Label::Partial, a, b]);
}

/// The feedback is that of the last repeat that disagreed with `partial`, and otherwise that of
/// the first grade.
pub proof fn whose_feedback_is_given(first: Graded, again: Seq<Graded>, k: int)
    requires
        -1 <= k < again.len(),
        k >= 0 ==> again[k].label@ != "partial"@,
        forall|j: int| k < j < again.len() ==> (#[trigger] again[j]).label@ == "partial"@,
    ensures
        first.label@ == "partial"@ ==> settled_feedback(first, again) == if k >= 0 {
            again[k].feedback@
        } else {
            first.feedback@
        },
        first.label@ != "partial"@ ==> settled_feedback(first, again) == first.feedback@,
{
    other_names_are_no_partial(first.label@);
    last_that_disagreed(first.feedback@, again, k);
}

proof fn other_names_are_no_partial(s: Seq<char>)
    ensures
        label_named(s) == Label::Partial <==> s == "partial"@,
{
    reveal_strlit("partial");
    reveal_strlit("demonstrates");
    assert("partial"@.len() != "demonstrates"@.len());
}

proof fn last_that_disagreed(first: Seq<char>, again: Seq<Graded>, k: int)
    requires
        -1 <= k < again.len(),
        k >= 0 ==> again[k].label@ != "partial"@,
        forall|j: int| k < j < again.len() ==> (#[trigger] again[j]).label@ == "partial"@,
    ensures
        feedback_of(first, again) == if k >= 0 {
            again[k].feedback@
        } else {
            first
        },
    decreases again.len(),
{
    if again.len() > 0 {
        let n = again.len() - 1;
        other_names_are_no_partial(again[n].label@);
        if k < n {
            assert(again[n].label@ == "partial"@);
            let rest = again.drop_last();
            assert forall|j: int| k < j < rest.len() implies (#[trigger] rest[j]).label@
                == "partial"@ by {
                assert(rest[j] == again[j]);
            }
            last_that_disagreed(first, rest, k);
        }
    }
}

// ---------------------------------------------------------------- prompts

/// The generator sees every hunk, in order, with its file, its anchor and its whole body.
pub proof fn every_hunk_is_shown(a: Seq<HunkModel>, h: HunkModel, b: Seq<HunkModel>)
    ensures
        rendered(a + b) == rendered(a) + rendered(b),
        rendered(seq![h]) == "--- "@ + h.file + " (anchor: "@ + h.anchor + ")\n"@ + h.body + "\n\n"@,
        rendered(Seq::empty()).len() == 0,
    decreases b.len(),
{
    reveal_with_fuel(rendered, 2);
    assert(seq![h].drop_last() =~= Seq::<HunkModel>::empty());
    assert(rendered(seq![h]) =~= "--- "@ + h.file + " (anchor: "@ + h.anchor + ")\n"@ + h.body
        + "\n\n"@);
    if b.len() == 0 {
        assert(a + b =~= a);
        assert(rendered(a + b) =~= rendered(a) + rendered(b));
    } else {
        every_hunk_is_shown(a, h, b.drop_last());
        assert((a + b).drop_last() =~= a + b.drop_last());
        assert((a + b).last() == b.last());
        assert(rendered(a + b) =~= rendered(a) + rendered(b));
    }
}

/// Every line of a list stands behind a dash, in order.
pub proof fn every_line_is_dashed(a: Seq<Seq<char>>, l: Seq<char>, b: Seq<Seq<char>>)
    ensures
        dashed(a + b) == dashed(a) + dashed(b),
        dashed(seq![l]) == "- "@ + l + "\n"@,
        dashed(Seq::empty()).len() == 0,
    decreases b.len(),
{
    reveal_with_fuel(dashed, 2);
    assert(seq![l].drop_last() =~= Seq::<Seq<char>>::empty());
    assert(dashed(seq![l]) =~= "- "@ + l + "\n"@);
    if b.len() == 0 {
        assert(a + b =~= a);
        assert(dashed(a + b) =~= dashed(a) + dashed(b));
    } else {
        every_line_is_dashed(a, l, b.drop_last());
        assert((a + b).drop_last() =~= a + b.drop_last());
        assert((a + b).last() == b.last());
        assert(dashed(a + b) =~= dashed(a) + dashed(b));
    }
}

/// What the generator is told: the hunks, what the change says it is for, every file it touches,
/// the test command, the call sites and the guards, each of the last three also where there is
/// none.
pub proof fn what_the_generator_is_told(ctx: Context)
    ensures
        ({
            let tests = match ctx.test_command {
                Some(cmd) => "# Test command\n\nThe project is tested with `"@ + cmd@
                    + "`. A checkable question may ask the respondent to run it.\n\n"@,
                None => "# Test command\n\nNone found. Do not use the checkable kind.\n\n"@,
            };
            let calls = if ctx.call_sites@.len() == 0 {
                "# Call sites\n\nNone found. Do not use the cross_cutting kind.\n\n"@
            } else {
                "# Call sites\n\n"@ + joined(texts(ctx.call_sites@), "\n"@) + "\n\n"@
            };
            let guards = if ctx.shadowed@.len() == 0 {
                "# What this change now runs before\n\nNone found. Do not use the shadowed kind.\n"@
            } else {
                "# What this change now runs before\n\nEach block is a guard this change added, followed by dispatch that was already there and now sits behind it.\n\n"@
                    + joined(texts(ctx.shadowed@), "\n"@) + "\n"@
            };
            user_text(ctx) == "# AI-authored hunks\n\n"@ + rendered(hunk_models(ctx.hunks@))
                + "# What this change says it is for\n\n"@ + ctx.pr_title@ + "\n"@ + dashed(
                texts(ctx.commit_subjects@),
            ) + "\n"@ + "# Every file this change touches\n\n"@ + joined(
                texts(ctx.all_files@),
                "\n"@,
            ) + "\n\n"@ + tests + calls + guards
        }),
{
}

/// What a judge is told of an answer, of a claim and of a run. The reference is part of the
/// last two and not of the first.
pub proof fn what_the_judge_is_told(q: Seq<char>, x: Seq<char>, y: Seq<char>)
    ensures
        grade_user(q, x) == "# Question\n\n"@ + q + "\n\n# The respondent's answer\n\n"@ + x,
        dispute_user(q, x, y) == "# Question\n\n"@ + q + "\n\n# Stored reference answer\n\n"@ + x
            + "\n\n# The respondent's claim\n\n"@ + y,
        divergence_user(q, x, y) == "# The exercise\n\n"@ + q
            + "\n\n# What the run was predicted to print\n\n"@ + x
            + "\n\n# What the respondent reports it printed\n\n"@ + y,
{
}

/// Every source that could be echoed is listed, behind a dash.
pub proof fn every_source_is_listed(a: Seq<Seq<char>>, b: Seq<Seq<char>>)
    requires
        a.len() > 0,
        b.len() > 0,
    ensures
        sources_section(a + b) == sources_section(a) + "\n"@ + joined(
            b.map_values(|s: Seq<char>| "- "@ + s),
            "\n"@,
        ),
        sources_section(a) == "\n\n# The respondent can already read all of this\n\n"@ + joined(
            a.map_values(|s: Seq<char>| "- "@ + s),
            "\n"@,
        ),
        sources_section(Seq::empty()).len() == 0,
{
    let f = |s: Seq<char>| "- "@ + s;
    assert(crate::llm::judge::listed_sources(a) =~= a.map_values(f));
    assert(crate::llm::judge::listed_sources(b) =~= b.map_values(f));
    assert(crate::llm::judge::listed_sources(a + b) =~= a.map_values(f) + b.map_values(f));
    joining_lists(a.map_values(f), b.map_values(f), "\n"@);
    assert(sources_section(a + b) =~= sources_section(a) + "\n"@ + joined(b.map_values(f), "\n"@));
}

/// What could be echoed is the title and the subjects, the blank ones left out.
pub proof fn what_could_be_echoed(all: Seq<Seq<char>>)
    ensures
        not_blank(all) == all.filter(|s: Seq<char>| trimmed(s).len() > 0),
    decreases all.len(),
{
    reveal(Seq::filter);
    if all.len() > 0 {
        what_could_be_echoed(all.drop_last());
    }
    assert(not_blank(all) =~= all.filter(|s: Seq<char>| trimmed(s).len() > 0));
}

// ---------------------------------------------------------------- questions

/// A reply within the ceiling is kept as it is. One over it is cut: without a question about
/// intent to its front; with one, the first such changes places with the first question before.
pub proof fn how_questions_are_fitted(qs: Seq<Generated>, max: nat, i: int)
    requires
        0 <= i <= qs.len(),
        forall|j: int| 0 <= j < i ==> (#[trigger] qs[j]).kind@ != "intent"@,
        i < qs.len() ==> qs[i].kind@ == "intent"@,
    ensures
        qs.len() <= max ==> fitted(qs, max) == qs,
        qs.len() > max ==> fitted(qs, max).len() == max,
        qs.len() > max && i == qs.len() ==> fitted(qs, max) == qs.take(max as int),
        qs.len() > max && i < qs.len() ==> forall|k: int|
            0 <= k < max ==> #[trigger] fitted(qs, max)[k] == if k == 0 {
                qs[i]
            } else if k == i {
                qs[0]
            } else {
                qs[k]
            },
{
    place_of_intent(qs, i);
}

proof fn place_of_intent(qs: Seq<Generated>, i: int)
    requires
        0 <= i <= qs.len(),
        forall|j: int| 0 <= j < i ==> (#[trigger] qs[j]).kind@ != "intent"@,
        i < qs.len() ==> qs[i].kind@ == "intent"@,
    ensures
        intent_position(qs) == i,
    decreases i,
{
    if i > 0 {
        assert(qs[0].kind@ != "intent"@);
        assert forall|j: int| 0 <= j < i - 1 implies (#[trigger] qs.skip(1)[j]).kind@ != "intent"@ by {
            assert(qs.skip(1)[j] == qs[j + 1]);
        }
        place_of_intent(qs.skip(1), i - 1);
    }
}

/// A question with the anchor of a hunk, whichever it is, stays as it is; any other is put on the
/// first hunk, and nothing else of it changes.
pub proof fn where_a_question_stands(q: Generated, hunks: Seq<Hunk>, i: int)
    requires
        hunks.len() > 0,
    ensures
        0 <= i < hunks.len() && hunks[i].anchor@ == q.anchor@ ==> anchored(q, hunks) == q,
        (forall|j: int| 0 <= j < hunks.len() ==> (#[trigger] hunks[j]).anchor@ != q.anchor@) ==> {
            let a = anchored(q, hunks);
            &&& a.file == hunks[0].file
            &&& a.anchor == hunks[0].anchor
            &&& a.kind == q.kind
            &&& a.text == q.text
            &&& a.reference == q.reference
            &&& a.hints == q.hints
        },
{
}

/// What is said of a reply outside the band, and that nothing is said of one within it.
pub proof fn what_is_said_of_the_band(n: nat, min: nat, max: nat)
    requires
        min <= max,
    ensures
        min <= n <= max ==> fit_remark(n, min, max) is None,
        n > max ==> fit_remark(n, min, max) == Some(
            "  generator returned "@ + decimal(n) + " questions for a ceiling of "@ + decimal(max)
                + " — keeping "@ + decimal(max),
        ),
        n < min ==> fit_remark(n, min, max) == Some(
            "  note: "@ + decimal(n) + " questions for a floor of "@ + decimal(min)
                + " — the generator found less to ask about"@,
        ),
{
}

/// Stand-ins: one about intent, a prediction and an input on the first hunks, and one to run
/// where there is a test command; no more than the ceiling, and at least one.
pub proof fn what_stand_ins_ask(
    hunks: Seq<HunkModel>,
    files: nat,
    test_command: Option<Seq<char>>,
    max: nat,
)
    requires
        hunks.len() > 0,
    ensures
        ({
            let qs = stub_questions(hunks, files, test_command, max);
            let n: nat = if test_command is Some { 4 } else { 3 };
            let most: nat = if max > 1 { max } else { 1 };
            &&& qs.len() == if n < most { n } else { most }
            &&& qs[0].kind == "intent"@ && qs[0].anchor == hunks[0].anchor && qs[0].file
                == hunks[0].file
            &&& qs.len() > 1 ==> qs[1].kind == "prediction"@ && qs[1].anchor == hunks[0].anchor
                && qs[1].file == hunks[0].file
            &&& qs.len() > 2 ==> qs[2].kind == "adversarial"@ && (hunks.len() > 1 ==> qs[2].anchor
                == hunks[1].anchor && qs[2].file == hunks[1].file) && (hunks.len() == 1
                ==> qs[2].anchor == hunks[0].anchor && qs[2].file == hunks[0].file)
            &&& qs.len() > 3 ==> qs[3].kind == "checkable"@ && qs[3].anchor == hunks[0].anchor
                && qs[3].text == "Run `"@ + test_command->0
                + "`. What does it report about this change?"@
            &&& forall|k: int|
                0 <= k < qs.len() ==> (#[trigger] qs[k]).hints.len() == 3 && qs[k].reference
                    == "[stand-in] not a real reference answer"@
        }),
{
}

/// A script is followed entry by entry, and its last entry stays; without one an answer is good
/// from the forty-first character on.
pub proof fn how_a_stand_in_grades(script: Seq<Option<Label>>, answer: Seq<char>)
    ensures
        script.len() == 0 ==> scripted_next(script) is None,
        script.len() > 0 ==> scripted_next(script) == Some(script[0]),
        script.len() > 1 ==> scripted_rest(script) == script.drop_first(),
        script.len() <= 1 ==> scripted_rest(script) == script,
        graded_by_length(answer) == if trimmed(answer).len() >= 41 {
            Label::Demonstrates
        } else {
            Label::Restates
        },
{
    if script.len() > 1 {
        assert(script.skip(1) =~= script.drop_first());
    }
}

// ---------------------------------------------------------------- citations

/// The name of a file is what stands behind the last slash of its path.
pub proof fn the_name_of_a_file(dir: Seq<char>, name: Seq<char>)
    requires
        forall|i: int| 0 <= i < name.len() ==> name[i] != '/',
    ensures
        file_tail(dir + "/"@ + name) == name,
        file_tail(name) == name,
    decreases dir.len(),
{
    reveal_strlit("/");
    let sep = "/"@;
    assert(sep =~= seq!['/']);
    no_slash_no_pieces(name);
    let s = dir + sep + name;
    position_from_meaning(s, sep, 0);
    let n = dir.len() as int;
    assert(s.subrange(n, n + 1) =~= sep);
    assert(occurs_at(s, sep, n));
    let p = position(s, sep)->0;
    assert(p <= n);
    if p < n {
        let rest = dir.skip(p + 1);
        assert(s.skip(p + 1) =~= rest + sep + name);
        the_name_of_a_file(rest, name);
        crate::git::pieces_not_empty(s.skip(p + 1), sep);
        assert(pieces(s, sep) == seq![s.take(p)] + pieces(s.skip(p + 1), sep));
        assert(pieces(s, sep).last() == pieces(s.skip(p + 1), sep).last());
    } else {
        assert(s.skip(n + 1) =~= name);
        assert(pieces(s, sep) == seq![s.take(n)] + pieces(name, sep));
    }
}

proof fn no_slash_no_pieces(name: Seq<char>)
    requires
        forall|i: int| 0 <= i < name.len() ==> name[i] != '/',
    ensures
        pieces(name, "/"@) == seq![name],
{
    reveal_strlit("/");
    position_from_meaning(name, "/"@, 0);
    if position(name, "/"@) is Some {
        let p = position(name, "/"@)->0;
        assert(name.subrange(p, p + 1)[0] == name[p]);
        assert("/"@[0] == '/');
    }
}

/// An answer cites the diff exactly where it holds, in whatever case, the name of a hunk's file,
/// or a whole name of four bytes with a letter from a line that a hunk adds, or the number of one
/// of a hunk's lines as a number of its own. No hunk is left out.
pub proof fn what_cites_the_diff(answer: Seq<char>, hunks: Seq<HunkModel>)
    ensures
        cites(answer, hunks) <==> exists|k: int|
            0 <= k < hunks.len() && (has_text(
                lowercase(answer),
                lowercase(file_tail((#[trigger] hunks[k]).file)),
            ) || adds_a_name_of(lowercase(answer), hunks[k]) || holds_a_number_of(answer, hunks[k])),
{
    assert forall|h: HunkModel| #[trigger] mentions(lowercase(answer), h) == (has_text(
        lowercase(answer),
        lowercase(file_tail(h.file)),
    ) || adds_a_name_of(lowercase(answer), h)) by {
        if adds_a_name_of(lowercase(answer), h) {
            let (m, i, j) = choose|m: int, i: int, j: int|
                0 <= m < h.added.len() && is_a_name(#[trigger] h.added[m], i, j) && #[trigger] has_text(
                    lowercase(answer),
                    lowercase(h.added[m].subrange(i, j)),
                );
            assert(is_whole_name(h.added[m], i, j));
            assert(mentions_name_of(lowercase(answer), h.added[m]));
        }
        if mentions(lowercase(answer), h) && !has_text(
            lowercase(answer),
            lowercase(file_tail(h.file)),
        ) {
            let m = choose|m: int|
                0 <= m < h.added.len() && mentions_name_of(lowercase(answer), #[trigger] h.added[m]);
            let line = h.added[m];
            let (i, j) = choose|i: int, j: int|
                #[trigger] is_whole_name(line, i, j) && identifies(line.subrange(i, j)) && has_text(
                    lowercase(answer),
                    lowercase(line.subrange(i, j)),
                );
            assert(is_a_name(h.added[m], i, j));
            assert(has_text(lowercase(answer), lowercase(h.added[m].subrange(i, j))));
        }
    }
    assert forall|h: HunkModel| #[trigger] refers_to_line(answer, h) == holds_a_number_of(answer, h) by {
        span_of_a_hunk(h);
        if refers_to_line(answer, h) {
            let n = choose|n: int| #[trigger] is_line_of(h, n) && cites_number(answer, n);
            let i = choose|i: int| #[trigger] is_own_number(answer, decimal(n as nat), i);
            assert(is_number_at(answer, n, i));
        }
        if holds_a_number_of(answer, h) {
            let (n, i) = choose|n: int, i: int|
                lies_in(h, n) && #[trigger] is_number_at(answer, n, i);
            assert(is_own_number(answer, decimal(n as nat), i));
            assert(is_line_of(h, n));
            assert(cites_number(answer, n));
        }
    }
}

/// Whether the stretch from `i` to `j` of a line is a whole name, four bytes long or more and
/// with a letter.
pub open spec fn is_a_name(line: Seq<char>, i: int, j: int) -> bool {
    &&& 0 <= i < j <= line.len()
    &&& forall|k: int| i <= k < j ==> is_name_char(#[trigger] line[k])
    &&& i == 0 || !is_name_char(line[i - 1])
    &&& j == line.len() || !is_name_char(line[j])
    &&& vstd::utf8::encode_utf8(line.subrange(i, j)).len() >= 4
    &&& exists|k: int| 0 <= k < j - i && is_letter(#[trigger] line.subrange(i, j)[k])
}

/// Whether a text holds, in lowercase, a name from a line that the hunk adds.
pub open spec fn adds_a_name_of(lower: Seq<char>, h: HunkModel) -> bool {
    exists|m: int, i: int, j: int|
        0 <= m < h.added.len() && is_a_name(#[trigger] h.added[m], i, j) && #[trigger] has_text(
            lower,
            lowercase(h.added[m].subrange(i, j)),
        )
}

/// Whether a line of the file, after the change, is one of the hunk's: from the start in its
/// header on, as many as its body has lines that were not removed.
pub open spec fn lies_in(h: HunkModel, n: int) -> bool {
    let lines = lines_of(h.body);
    let kept = if lines.len() == 0 {
        0
    } else {
        lines.skip(1).filter(|l: Seq<char>| !has_prefix(l, "-"@)).len()
    };
    new_side_start(h.header, u32::MAX as nat) matches Some(start) && start <= n < start + (if kept
        > 0 {
        kept
    } else {
        1
    })
}

/// Whether a number stands at a place of a text, part of neither a longer number nor a name.
pub open spec fn is_number_at(s: Seq<char>, n: int, i: int) -> bool {
    let d = decimal(n as nat);
    &&& 0 <= i
    &&& i + d.len() <= s.len()
    &&& s.subrange(i, i + d.len()) == d
    &&& i == 0 || !is_name_char(s[i - 1])
    &&& i + d.len() == s.len() || !is_name_char(s[i + d.len()])
}

/// Whether a text holds the number of a line of the hunk.
pub open spec fn holds_a_number_of(s: Seq<char>, h: HunkModel) -> bool {
    exists|n: int, i: int| lies_in(h, n) && #[trigger] is_number_at(s, n, i)
}

proof fn span_of_a_hunk(h: HunkModel)
    ensures
        forall|n: int| #[trigger] is_line_of(h, n) == lies_in(h, n),
{
    let ls = lines_of(h.body);
    if ls.len() > 0 {
        kept_are_counted(ls);
    }
}

proof fn kept_are_counted(ls: Seq<Seq<char>>)
    requires
        ls.len() > 0,
    ensures
        kept_lines(ls) == ls.skip(1).filter(|l: Seq<char>| !has_prefix(l, "-"@)).len(),
    decreases ls.len(),
{
    reveal(Seq::filter);
    let p = |l: Seq<char>| !has_prefix(l, "-"@);
    if ls.len() == 1 {
        assert(ls.skip(1) =~= Seq::<Seq<char>>::empty());
    } else {
        kept_are_counted(ls.drop_last());
        assert(ls.skip(1).drop_last() =~= ls.drop_last().skip(1));
        assert(ls.skip(1).last() == ls.last());
    }
}

/// A claim that names a line holds the path of a hunk's file, or its name, a colon and the number
/// of one of the hunk's lines, with no digit behind it.
pub proof fn what_names_a_line(claim: Seq<char>, h: HunkModel)
    requires
        cites_hunk_line(claim, h),
    ensures
        exists|n: int, i: int| lies_in(h, n) && #[trigger] names_at(claim, h.file, n, i),
{
    span_of_a_hunk(h);
    let start = new_side_start(h.header, u32::MAX as nat)->0;
    let n = choose|n: int|
        start <= n < start + hunk_span(h) && {
            let cite = #[trigger] line_cite(n);
            cited_from(claim, h.file, cite, 0) || cited_from(claim, file_tail(h.file), cite, 0)
        };
    assert(is_line_of(h, n));
    if cited_from(claim, h.file, line_cite(n), 0) {
        let i = where_it_is_cited(claim, h.file, n, 0);
        assert(names_at(claim, h.file, n, i));
    } else {
        let i = where_it_is_cited(claim, file_tail(h.file), n, 0);
        assert(names_at(claim, h.file, n, i));
    }
}

/// Whether the path of a file, or its name, stands at a place with the number of a line behind it.
pub open spec fn names_at(claim: Seq<char>, file: Seq<char>, n: int, i: int) -> bool {
    cite_stands_at(claim, file, n, i) || cite_stands_at(claim, file_tail(file), n, i)
}

/// Whether a name, a colon and a number stand at a place, with no digit behind them.
pub open spec fn cite_stands_at(claim: Seq<char>, name: Seq<char>, n: int, i: int) -> bool {
    let whole = name + ":"@ + decimal(n as nat);
    &&& 0 <= i
    &&& i + whole.len() <= claim.len()
    &&& claim.subrange(i, i + whole.len()) == whole
    &&& i + whole.len() < claim.len() ==> !('0' <= claim[i + whole.len()] <= '9')
}

proof fn where_it_is_cited(claim: Seq<char>, name: Seq<char>, n: int, from: int) -> (i: int)
    requires
        0 <= from,
        cited_from(claim, name, line_cite(n), from),
    ensures
        cite_stands_at(claim, name, n, i),
    decreases claim.len() - from + 1,
{
    position_from_meaning(claim, name, from);
    let i = position_from(claim, name, from)->0;
    let step = if name.len() > 0 { name.len() as int } else { 1 };
    let cite = line_cite(n);
    if stands_alone(claim, cite, i + name.len()) {
        let whole = name + ":"@ + decimal(n as nat);
        assert(whole =~= name + cite);
        assert(claim.subrange(i, i + whole.len()) =~= claim.subrange(i, i + name.len())
            + claim.subrange(i + name.len(), i + name.len() + cite.len()));
        i
    } else {
        where_it_is_cited(claim, name, n, i + step)
    }
}

/// A line of a hunk that is named is found, wherever in the claim that stands, where the name of
/// the file does not stand across its own beginning there.
pub proof fn a_named_line_is_found(claim: Seq<char>, hunks: Seq<HunkModel>, k: int, n: int, i: int)
    requires
        0 <= k < hunks.len(),
        lies_in(hunks[k], n),
        named_plainly(claim, hunks[k].file, n, i) || named_plainly(
            claim,
            file_tail(hunks[k].file),
            n,
            i,
        ),
    ensures
        cites_some_line(claim, hunks),
{
    let h = hunks[k];
    span_of_a_hunk(h);
    assert(is_line_of(h, n));
    let cite = line_cite(n);
    if named_plainly(claim, h.file, n, i) {
        cited_at(claim, h.file, n, 0, i);
    } else {
        cited_at(claim, file_tail(h.file), n, 0, i);
    }
    assert(cites_hunk_line(claim, hunks[k]));
}

/// Whether a name, a colon and a number stand at a place, and the name does not also stand
/// across that place.
pub open spec fn named_plainly(claim: Seq<char>, name: Seq<char>, n: int, i: int) -> bool {
    &&& name.len() > 0
    &&& cite_stands_at(claim, name, n, i)
    &&& forall|j: int| i - name.len() < j < i ==> !#[trigger] occurs_at(claim, name, j)
}

proof fn cited_at(claim: Seq<char>, name: Seq<char>, n: int, from: int, i: int)
    requires
        0 <= from <= i,
        named_plainly(claim, name, n, i),
    ensures
        cited_from(claim, name, line_cite(n), from),
    decreases i - from,
{
    let cite = line_cite(n);
    let whole = name + ":"@ + decimal(n as nat);
    assert(whole =~= name + cite);
    assert(claim.subrange(i, i + name.len()) =~= claim.subrange(i, i + whole.len()).take(
        name.len() as int,
    ));
    assert(whole.take(name.len() as int) =~= name);
    assert(occurs_at(claim, name, i));
    position_from_meaning(claim, name, from);
    let p = position_from(claim, name, from)->0;
    assert(from <= p <= i);
    if p == i {
        assert(claim.subrange(i + name.len(), i + name.len() + cite.len()) =~= claim.subrange(
            i,
            i + whole.len(),
        ).skip(name.len() as int));
        assert(whole.skip(name.len() as int) =~= cite);
        assert(stands_alone(claim, cite, i + name.len()));
    } else {
        assert(occurs_at(claim, name, p));
        assert(p + name.len() <= i);
        cited_at(claim, name, n, p + name.len(), i);
    }
}

// ---------------------------------------------------------------- replies

/// Prose before an object is passed over, and so is a quoted value with whatever braces in it:
/// from a quotation mark to the next one that no backslash stands before.
pub proof fn a_quoted_value_is_passed_over(s: Seq<char>, i: int, j: int, depth: int)
    requires
        0 <= i < j < s.len(),
        s[i] == '"',
        s[j] == '"',
        forall|k: int| i < k < j ==> s[k] != '"' && s[k] != '\\',
    ensures
        closing_brace(s, i, depth, false, false) == closing_brace(s, j + 1, depth, false, false),
{
    inside_a_value(s, i + 1, j, depth);
}

proof fn inside_a_value(s: Seq<char>, i: int, j: int, depth: int)
    requires
        0 <= i <= j < s.len(),
        s[j] == '"',
        forall|k: int| i <= k < j ==> s[k] != '"' && s[k] != '\\',
    ensures
        closing_brace(s, i, depth, true, false) == closing_brace(s, j + 1, depth, false, false),
    decreases j - i,
{
    if i < j {
        inside_a_value(s, i + 1, j, depth);
    }
}

/// An object without another in it, nor a quotation mark, goes from its first brace to the next
/// closing one, whatever stands around it.
pub proof fn a_plain_object_is_found(front: Seq<char>, body: Seq<char>, back: Seq<char>)
    requires
        forall|i: int| 0 <= i < front.len() ==> front[i] != '{',
        forall|i: int| 0 <= i < body.len() ==> body[i] != '{' && body[i] != '}' && body[i] != '"',
    ensures
        first_object(front + seq!['{'] + body + seq!['}'] + back) == Ok::<Seq<char>, ExtractError>(
            seq!['{'] + body + seq!['}'],
        ),
{
    let s = front + seq!['{'] + body + seq!['}'] + back;
    let n = front.len() as int;
    crate::text::search::char_position_unique(s, '{', n);
    let end = n + 1 + body.len();
    assert forall|k: int| n < k < end implies s[k] != '{' && s[k] != '}' && s[k] != '"' by {
        assert(s[k] == body[k - n - 1]);
    }
    plain_until(s, n + 1, end, 1);
    assert(s[end] == '}');
    assert(s.subrange(n, end + 1) =~= seq!['{'] + body + seq!['}']);
}

proof fn plain_until(s: Seq<char>, i: int, j: int, depth: int)
    requires
        0 <= i <= j <= s.len(),
        forall|k: int| i <= k < j ==> s[k] != '{' && s[k] != '}' && s[k] != '"',
    ensures
        closing_brace(s, i, depth, false, false) == closing_brace(s, j, depth, false, false),
    decreases j - i,
{
    if i < j {
        plain_until(s, i + 1, j, depth);
    }
}

/// An object inside another is part of it: an opening brace is matched before an outer one.
pub proof fn braces_are_counted(s: Seq<char>, i: int, depth: int)
    requires
        0 <= i < s.len(),
    ensures
        s[i] == '{' ==> closing_brace(s, i, depth, false, false) == closing_brace(
            s,
            i + 1,
            depth + 1,
            false,
            false,
        ),
        s[i] == '}' && depth > 1 ==> closing_brace(s, i, depth, false, false) == closing_brace(
            s,
            i + 1,
            depth - 1,
            false,
            false,
        ),
        s[i] == '}' && depth == 1 ==> closing_brace(s, i, depth, false, false) == Some(i),
        closing_brace(s, s.len() as int, depth, false, false) is None,
{
}

/// A text without an opening brace has no object, and what asks again names the error and keeps
/// the prompt.
pub proof fn without_a_brace_there_is_no_object(s: Seq<char>, user: Seq<char>, error: Seq<char>)
    requires
        forall|i: int| 0 <= i < s.len() ==> s[i] != '{',
    ensures
        first_object(s) == Err::<Seq<char>, ExtractError>(ExtractError::NoObject),
        retry_text(user, error) == user
            + "\n\n# Your previous reply could not be parsed\n\nError: "@ + error
            + "\n\nReturn only the JSON object."@,
{
    char_position_meaning(s, '{');
}

/// What is said of a reply that cannot be read, and what is read of one: the whole, where that is
/// JSON, and otherwise the first object in it.
pub proof fn what_is_read_of_a_reply(text: Seq<char>)
    ensures
        ExtractError::NoObject.text() == "no JSON object in the reply"@,
        ExtractError::Unbalanced.text() == "unbalanced braces in the reply"@,
        ExtractError::NotJson.text() == "the extracted object is not valid JSON"@,
        json_value(trimmed(text)) matches Some(v) ==> extracted(text) == Ok::<
            serde_json::Value,
            ExtractError,
        >(v),
        json_value(trimmed(text)) is None ==> match first_object(trimmed(text)) {
            Ok(object) => match json_value(object) {
                Some(v) => extracted(text) == Ok::<serde_json::Value, ExtractError>(v),
                None => extracted(text) == Err::<serde_json::Value, ExtractError>(
                    ExtractError::NotJson,
                ),
            },
            Err(e) => extracted(text) == Err::<serde_json::Value, ExtractError>(e),
        },
        json_instruction()
            == "\n\nReturn a single JSON object and nothing else. No prose, no explanation, no code fences."@,
{
}

/// The tasks: each holds its rules, the shape of the reply and the whole diff, behind everything
/// else; the generator's holds the band.
pub proof fn what_tasks_hold(diff: Seq<char>, sources: Seq<Seq<char>>, min: nat, max: nat)
    ensures
        grade_system(diff, sources) == SYSTEM@ + "\n\n# Reply with exactly this shape\n\n"@
            + ANSWER_SHAPE@ + sources_section(sources) + "\n\n# The diff\n\n"@ + diff,
        dispute_system(diff) == DISPUTE_SYSTEM@ + "\n\n# Reply with exactly this shape\n\n"@
            + DISPUTE_SHAPE@ + "\n\n# The diff\n\n"@ + diff,
        divergence_system(diff) == DIVERGENCE_SYSTEM@
            + "\n\n# Reply with exactly this shape\n\n"@ + DIVERGENCE_SHAPE@
            + "\n\n# The diff\n\n"@ + diff,
        system_text(min, max) == OPENING@ + decimal(min) + " and "@ + decimal(max) + RANGE@
            + decimal(max) + " only if there are "@ + decimal(max)
            + " separate things worth understanding, and "@ + decimal(min) + " if there are "@
            + decimal(min) + RULES@ + "\n\n# Reply with exactly this shape\n\n"@ + SHAPE@,
{
}

/// Which claims there are, and what stands for a reason that was not given.
pub proof fn what_is_claimed_and_declined(kind: Seq<char>, reason: Seq<char>)
    ensures
        is_dispute_kind(kind) <==> kind == "premise"@ || kind == "reference"@ || kind == "code_bug"@,
        reason.len() > 0 ==> decline_reason(reason) == reason,
        reason.len() == 0 ==> decline_reason(reason) == "nothing worth asking"@,
{
}

// ---------------------------------------------------------------- stand-ins and repeats

/// Of any number of grades the middle one decides: no more than half score less, and more than
/// half score as much or less.
pub proof fn the_middle_of_any_number(labels: Seq<Label>)
    requires
        labels.len() > 0,
    ensures
        ({
            let m = median(labels).points();
            &&& labels.filter(|l: Label| l.points() < m).len() <= labels.len() / 2
            &&& labels.filter(|l: Label| l.points() <= m).len() > labels.len() / 2
        }),
{
    let m = median(labels).points();
    lower_grades_are_counted(labels, m as int);
    lower_grades_are_counted(labels, m + 3);
    same_choice(labels, |l: Label| l.points() < m as int, |l: Label| l.points() < m);
    same_choice(labels, |l: Label| l.points() < m + 3, |l: Label| l.points() <= m);
    all_are_below(labels, m + 3);
    none_is_below(labels, m as int);
}

proof fn lower_grades_are_counted(labels: Seq<Label>, points: int)
    ensures
        count_below(labels, points) == labels.filter(|l: Label| l.points() < points).len(),
    decreases labels.len(),
{
    reveal(Seq::filter);
    if labels.len() > 0 {
        lower_grades_are_counted(labels.drop_last(), points);
    }
}

proof fn all_are_below(labels: Seq<Label>, points: int)
    ensures
        points > 9 ==> count_below(labels, points) == labels.len(),
    decreases labels.len(),
{
    if labels.len() > 0 {
        all_are_below(labels.drop_last(), points);
    }
}

proof fn none_is_below(labels: Seq<Label>, points: int)
    ensures
        points <= 0 ==> count_below(labels, points) == 0,
    decreases labels.len(),
{
    if labels.len() > 0 {
        none_is_below(labels.drop_last(), points);
    }
}

/// How stand-ins read.
pub proof fn how_stand_ins_read(h: HunkModel, files: nat, cmd: Seq<char>, answer: Seq<char>)
    requires
        files > 0,
    ensures
        stub_intent(h, files).text == decimal(files)
            + " files changed together here. What single change of intent required all of them, that you could not get from the title?"@,
        stub_intent(h, files).hints == seq![
            "Look at what the files have in common."@,
            "Start from the file with the most added lines."@,
            "[stand-in] half the answer"@,
        ],
        stub_prediction(h).text == "In "@ + h.file
            + ", what does the caller observe if this hunk's happy path does not run?"@,
        stub_prediction(h).hints == seq![
            "Look at how control leaves the block."@,
            "Check the error branch."@,
            "[stand-in] half the answer"@,
        ],
        stub_adversarial(h).text == "What input to "@ + h.file + " breaks this change?"@,
        stub_adversarial(h).hints == seq![
            "Consider the empty case."@,
            "Check the boundary values."@,
            "[stand-in] half the answer"@,
        ],
        stub_checkable(h, cmd).hints == seq![
            "Run it and read the output."@,
            "`"@ + cmd + "` covers the changed paths."@,
            "[stand-in] half the answer"@,
        ],
        length_feedback(answer) == if graded_by_length(answer) is Demonstrates {
            "[offline] accepted on length — no real grading happened."@
        } else {
            "[offline] too short to be a real answer."@
        },
{
}

/// A reply that cannot be read is asked for once more, with the error in the prompt; where that one
/// cannot be read either, the first error is told.
pub proof fn asking_once_more(
    user: Seq<char>,
    first: ExtractError,
    again: String,
    told: String,
    read: Result<serde_json::Value, ExtractError>,
    v: serde_json::Value,
)
    ensures
        FirstReply::Done(v).follows(user, read) <==> (read matches Ok(w) && w == v),
        (FirstReply::Retry { error: first, user: again }).follows(user, read) <==> (read matches Err(
            e,
        ) && e == first && again@ == user
            + "\n\n# Your previous reply could not be parsed\n\nError: "@ + first.text()
            + "\n\nReturn only the JSON object."@),
        is_second_reply(Ok(v), first, read) <==> (read matches Ok(w) && w == v),
        is_second_reply(Err(told), first, read) <==> (read is Err && told@
            == "second attempt also unparseable (first: "@ + first.text() + ")"@),
{
}

} // verus!
