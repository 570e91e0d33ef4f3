//! What holds of the quiz, whatever its questions, its diff and the keys pressed.

use vstd::prelude::*;
use crate::db::{QuestionModel, RecordsModel};
use crate::git::HunkModel;
use crate::llm::{cites, cites_some_line, Label};
use crate::text::number::decimal;
use crate::text::search::has_suffix;
use crate::text::split::trimmed;
use crate::tui::app::{
    calls_out, carried_scores, first_open, header_of, hunk_anchored, mark, marks, row_reading,
    scores_of, starting_place, target_before, target_from, AppModel, PendingModel, ScoredModel,
    SlotModel, Target,
};
use crate::tui::diff::DiffLineModel;
use crate::tui::event::{event_result, place_of, AppEvent};
use crate::tui::header::{answer_block, dispute_block};
use crate::tui::keys::{ActionModel, Code, Key};

verus! {

// ---------------------------------------------------------------- questions

/// Whether a question is still open: neither passed nor taken out.
pub open spec fn is_open(q: QuestionModel) -> bool {
    q.status != "passed"@ && q.status != "waived"@ && q.status != "deferred"@
}

/// A quiz starts at its first open question, and at the first of all where none is open.
pub proof fn where_a_quiz_starts(qs: Seq<QuestionModel>, i: int)
    requires
        0 <= i <= qs.len(),
        forall|j: int| 0 <= j < i ==> !is_open(#[trigger] qs[j]),
        i < qs.len() ==> is_open(qs[i]),
    ensures
        starting_place(qs) == if i < qs.len() {
            i
        } else {
            0
        },
{
    first_open_at(qs, i);
}

proof fn first_open_at(qs: Seq<QuestionModel>, i: int)
    requires
        0 <= i <= qs.len(),
        forall|j: int| 0 <= j < i ==> !is_open(#[trigger] qs[j]),
        i < qs.len() ==> is_open(qs[i]),
    ensures
        first_open(qs) == i,
    decreases i,
{
    if i > 0 {
        assert(!is_open(qs[0]));
        assert forall|j: int| 0 <= j < i - 1 implies !is_open(#[trigger] qs.skip(1)[j]) by {
            assert(qs.skip(1)[j] == qs[j + 1]);
        }
        first_open_at(qs.skip(1), i - 1);
    }
}

/// A quiz taken up again carries the scores of what was answered before.
pub proof fn scores_are_carried(qs: Seq<QuestionModel>, i: int)
    requires
        0 <= i < qs.len(),
    ensures
        carried_scores(qs).len() == qs.len(),
        qs[i].score is Some ==> carried_scores(qs)[i] == qs[i].score->0,
        qs[i].score is None ==> carried_scores(qs)[i] == 0,
{
}

/// The next question is the nearest one behind the current one, once round, that is open and not
/// with the judge.
pub proof fn the_nearest_is_next(a: AppModel, k: int)
    requires
        a.wf(),
        0 < k < a.questions.len(),
        forall|j: int|
            0 < j < k ==> !(is_open(#[trigger] a.questions[(a.current + j) % a.questions.len() as int])
                && a.slots[(a.current + j) % a.questions.len() as int].pending is None),
        is_open(a.questions[(a.current + k) % a.questions.len() as int]),
        a.slots[(a.current + k) % a.questions.len() as int].pending is None,
    ensures
        a.next_unanswered() == Some((a.current + k) % a.questions.len() as int),
{
    next_from_reaches(a, 1, k);
}

proof fn next_from_reaches(a: AppModel, from: int, k: int)
    requires
        a.wf(),
        0 < from <= k < a.questions.len(),
        forall|j: int|
            from <= j < k ==> !(is_open(
                #[trigger] a.questions[(a.current + j) % a.questions.len() as int],
            ) && a.slots[(a.current + j) % a.questions.len() as int].pending is None),
        is_open(a.questions[(a.current + k) % a.questions.len() as int]),
        a.slots[(a.current + k) % a.questions.len() as int].pending is None,
    ensures
        a.next_from(from) == Some((a.current + k) % a.questions.len() as int),
    decreases k - from,
{
    let n = a.questions.len() as int;
    let i = (a.current + from) % n;
    vstd::arithmetic::div_mod::lemma_mod_bound(a.current + from, n);
    assert(i != a.current) by (nonlinear_arith)
        requires
            0 < from < n,
            0 <= a.current < n,
            i == (a.current + from) % n,
    {
        if a.current + from < n {
            vstd::arithmetic::div_mod::lemma_small_mod((a.current + from) as nat, n as nat);
        } else {
            vstd::arithmetic::div_mod::lemma_mod_sub_multiples_vanish(a.current + from, n);
            vstd::arithmetic::div_mod::lemma_small_mod((a.current + from - n) as nat, n as nat);
        }
    }
    if from < k {
        assert(!(is_open(a.questions[(a.current + from) % n])
            && a.slots[(a.current + from) % n].pending is None));
        next_from_reaches(a, from + 1, k);
    }
}

/// Every answer and every dispute that is with the judge is a call that is out.
pub proof fn every_call_is_counted(slots: Seq<SlotModel>)
    ensures
        calls_out(slots) == slots.filter(
            |s: SlotModel| s.pending is Some || s.dispute is Some,
        ).len(),
    decreases slots.len(),
{
    reveal(Seq::filter);
    if slots.len() > 0 {
        every_call_is_counted(slots.drop_last());
    }
}

/// Every question that was not taken out is a score of its kind, in order.
pub proof fn every_question_scores(
    a: Seq<QuestionModel>,
    sa: Seq<u32>,
    q: QuestionModel,
    s: u32,
    b: Seq<QuestionModel>,
    sb: Seq<u32>,
)
    requires
        a.len() == sa.len(),
        b.len() == sb.len(),
    ensures
        scores_of(a + b, sa + sb) == scores_of(a, sa) + scores_of(b, sb),
        scores_of(seq![q], seq![s]) == if q.status == "waived"@ || q.status == "deferred"@ {
            Seq::empty()
        } else {
            seq![ScoredModel { kind: q.kind, score: s }]
        },
    decreases a.len(),
{
    reveal_with_fuel(scores_of, 2);
    assert(seq![q].skip(1) =~= Seq::<QuestionModel>::empty());
    assert(seq![s].skip(1) =~= Seq::<u32>::empty());
    assert(scores_of(seq![q], seq![s]) =~= if q.status == "waived"@ || q.status == "deferred"@ {
        Seq::empty()
    } else {
        seq![ScoredModel { kind: q.kind, score: s }]
    });
    if a.len() == 0 {
        assert(a + b =~= b);
        assert(sa + sb =~= sb);
        assert(scores_of(a + b, sa + sb) =~= scores_of(a, sa) + scores_of(b, sb));
    } else {
        every_question_scores(a.skip(1), sa.skip(1), q, s, b, sb);
        assert((a + b).skip(1) =~= a.skip(1) + b);
        assert((sa + sb).skip(1) =~= sa.skip(1) + sb);
        assert((a + b)[0] == a[0]);
        assert((sa + sb)[0] == sa[0]);
        assert(scores_of(a + b, sa + sb) =~= scores_of(a, sa) + scores_of(b, sb));
    }
}

/// The mark of a question: with the judge, taken out, passed, graded and not passed, answered and
/// not yet graded, or untouched, the first of these that holds; behind its number.
pub proof fn what_marks_say(slots: Seq<SlotModel>, qs: Seq<QuestionModel>, i: int)
    requires
        slots.len() == qs.len(),
        0 <= i < qs.len(),
    ensures
        marks(slots, qs).len() == qs.len(),
        ({
            let m = marks(slots, qs)[i];
            let s = slots[i];
            let n = decimal((i + 1) as nat);
            let with_judge = s.pending is Some || s.dispute is Some;
            let out = qs[i].status == "waived"@ || qs[i].status == "deferred"@;
            let passed = qs[i].status == "passed"@;
            &&& with_judge ==> m == n + "~"@
            &&& !with_judge && out ==> m == n + "!"@
            &&& !with_judge && !out && passed ==> m == n + "+"@
            &&& !with_judge && !out && !passed && s.verdict is Some ==> m == n + "x"@
            &&& !with_judge && !out && !passed && s.verdict is None && s.answer.len() > 0 ==> m
                == n + "*"@
            &&& !with_judge && !out && !passed && s.verdict is None && s.answer.len() == 0 ==> m
                == n + "."@
        }),
{
}

// ---------------------------------------------------------------- moving about the diff

/// Scrolling goes by what it was told, kept between the top and the last row that still fills the
/// view.
pub proof fn scrolling_goes_so_far(a: AppModel, delta: int)
    requires
        a.diff.len() <= 0xffff,
        a.viewport > 0,
    ensures
        ({
            let last = if a.diff.len() > a.viewport { a.diff.len() - a.viewport } else { 0 };
            let there = a.scroll + delta;
            a.scrolled(delta).scroll == if there < 0 {
                0
            } else if there > last {
                last
            } else {
                there
            }
        }),
{
}

/// Whether a row is a header of what a jump goes to.
pub open spec fn is_header(row: DiffLineModel, target: Target) -> bool {
    (target is Hunk && row.is_hunk_header) || (target is File && row.is_file_header)
}

/// A jump forward goes to the first header behind the row on top, and one backward to the last
/// before it.
pub proof fn a_jump_goes_to_the_nearest(a: AppModel, target: Target, i: int)
    ensures
        a.scroll < i < a.diff.len() && is_header(a.diff[i], target) && (forall|j: int|
            a.scroll < j < i ==> !is_header(#[trigger] a.diff[j], target)) ==> a.jump_place(
            true,
            target,
        ) == Some(i),
        0 <= i < a.scroll && i < a.diff.len() && is_header(a.diff[i], target) && (forall|j: int|
            i < j < a.scroll && j < a.diff.len() ==> !is_header(#[trigger] a.diff[j], target))
            ==> a.jump_place(false, target) == Some(i),
        (forall|j: int|
            a.scroll < j < a.diff.len() ==> !is_header(#[trigger] a.diff[j], target))
            ==> a.jump_place(true, target) is None,
        (forall|j: int|
            0 <= j < a.scroll && j < a.diff.len() ==> !is_header(#[trigger] a.diff[j], target))
            ==> a.jump_place(false, target) is None,
{
    target_ahead(a.diff, target, a.scroll + 1);
    let here = if a.scroll < a.diff.len() { a.scroll as int } else { a.diff.len() as int };
    target_behind(a.diff, target, here);
}

proof fn target_ahead(rows: Seq<DiffLineModel>, target: Target, from: int)
    requires
        0 <= from,
    ensures
        match target_from(rows, target, from) {
            Some(i) => from <= i < rows.len() && is_header(rows[i], target) && forall|j: int|
                from <= j < i ==> !is_header(#[trigger] rows[j], target),
            None => forall|j: int|
                from <= j < rows.len() ==> !is_header(#[trigger] rows[j], target),
        },
    decreases rows.len() - from,
{
    if from < rows.len() {
        target_ahead(rows, target, from + 1);
    }
}

proof fn target_behind(rows: Seq<DiffLineModel>, target: Target, from: int)
    requires
        0 <= from <= rows.len(),
    ensures
        match target_before(rows, target, from) {
            Some(i) => 0 <= i < from && is_header(rows[i], target) && forall|j: int|
                i < j < from ==> !is_header(#[trigger] rows[j], target),
            None => forall|j: int| 0 <= j < from ==> !is_header(#[trigger] rows[j], target),
        },
    decreases from,
{
    if from > 0 {
        target_behind(rows, target, from - 1);
    }
}

/// The hunk of a question is shown where its header stands, behind the header of its file, three
/// rows of what comes before it above it.
pub proof fn a_question_is_shown_at_its_hunk(
    a: AppModel,
    hunks: Seq<HunkModel>,
    k: int,
    f: int,
    row: int,
)
    requires
        a.current < a.questions.len(),
        0 <= k < hunks.len(),
        hunks[k].anchor == a.questions[a.current as int].anchor,
        forall|j: int|
            0 <= j < k ==> (#[trigger] hunks[j]).anchor != a.questions[a.current as int].anchor,
        0 <= f <= row < a.diff.len() <= 0xffff,
        a.diff[f].is_file_header,
        has_suffix(a.diff[f].text, "b/"@ + a.questions[a.current as int].file),
        forall|j: int|
            0 <= j < f ==> !((#[trigger] a.diff[j]).is_file_header && has_suffix(
                a.diff[j].text,
                "b/"@ + a.questions[a.current as int].file,
            )),
        a.diff[row].text == hunks[k].header,
        forall|j: int| f <= j < row ==> (#[trigger] a.diff[j]).text != hunks[k].header,
    ensures
        a.anchor_row(hunks) == Some(row),
        a.at_anchor(hunks).hscroll == 0,
        ({
            let there = if row > 3 { row - 3 } else { 0 };
            a.at_anchor(hunks).scroll == if there < a.max_scroll() {
                there
            } else {
                a.max_scroll() as int
            }
        }),
{
    let q = a.questions[a.current as int];
    anchored_at(hunks, q.anchor, k);
    header_at(a.diff, q.file, 0, f);
    reading_at(a.diff, hunks[k].header, f, row);
}

proof fn anchored_at(hunks: Seq<HunkModel>, anchor: Seq<char>, k: int)
    requires
        0 <= k < hunks.len(),
        hunks[k].anchor == anchor,
        forall|j: int| 0 <= j < k ==> (#[trigger] hunks[j]).anchor != anchor,
    ensures
        hunk_anchored(hunks, anchor) == Some(hunks[k]),
    decreases k,
{
    if k > 0 {
        assert(hunks[0].anchor != anchor);
        assert forall|j: int| 0 <= j < k - 1 implies (#[trigger] hunks.skip(1)[j]).anchor != anchor by {
            assert(hunks.skip(1)[j] == hunks[j + 1]);
        }
        anchored_at(hunks.skip(1), anchor, k - 1);
    }
}

proof fn header_at(rows: Seq<DiffLineModel>, file: Seq<char>, from: int, f: int)
    requires
        0 <= from <= f < rows.len(),
        rows[f].is_file_header,
        has_suffix(rows[f].text, "b/"@ + file),
        forall|j: int|
            from <= j < f ==> !((#[trigger] rows[j]).is_file_header && has_suffix(
                rows[j].text,
                "b/"@ + file,
            )),
    ensures
        header_of(rows, file, from) == Some(f),
    decreases f - from,
{
    if from < f {
        header_at(rows, file, from + 1, f);
    }
}

proof fn reading_at(rows: Seq<DiffLineModel>, text: Seq<char>, from: int, row: int)
    requires
        0 <= from <= row < rows.len(),
        rows[row].text == text,
        forall|j: int| from <= j < row ==> (#[trigger] rows[j]).text != text,
    ensures
        row_reading(rows, text, from) == Some(row),
    decreases row - from,
{
    if from < row {
        reading_at(rows, text, from + 1, row);
    }
}

// ---------------------------------------------------------------- keys

/// An answer that cites the diff goes to the judge with its question, as it was written, with the
/// number of hints that were shown; its slot waits, and no other changes.
pub proof fn submitting_sends_the_answer(a: AppModel, hunks: Seq<HunkModel>, r: RecordsModel)
    requires
        a.wf(),
        a.current < a.questions.len(),
        a.slots[a.current as int].pending is None,
        trimmed(a.slots[a.current as int].answer).len() > 0,
    ensures
        ({
            let at = a.current as int;
            let s = a.slots[at];
            let (next, action) = a.after_key(Key { code: Code::Char('s'), ctrl: true }, hunks, r);
            &&& cites(s.answer, hunks) ==> action == (ActionModel::Grade {
                question_id: a.questions[at].id,
                question: a.questions[at].text,
                answer: s.answer,
            })
            &&& !cites(s.answer, hunks) ==> action == (ActionModel::Settle {
                question_id: a.questions[at].id,
                label: Label::Wrong,
                feedback: "Cites nothing from the diff — name an identifier, file or line."@,
            })
            &&& next.slots == a.slots.update(
                at,
                SlotModel {
                    pending: Some(PendingModel { answer: s.answer, hints_used: s.hints_shown }),
                    verdict: None,
                    answer: s.answer,
                    hints_shown: s.hints_shown,
                    failures: s.failures,
                    dispute: s.dispute,
                    note: s.note,
                },
            )
            &&& next.questions == a.questions
            &&& next.scores == a.scores
            &&& next.diff == a.diff
            &&& next.quit == a.quit
        }),
{
}

/// What is not submitted: an answer that is with the judge already, and one that says nothing.
pub proof fn what_is_not_submitted(a: AppModel, hunks: Seq<HunkModel>, r: RecordsModel)
    requires
        a.wf(),
        a.current < a.questions.len(),
    ensures
        ({
            let s = a.slots[a.current as int];
            let (next, action) = a.after_key(Key { code: Code::Char('s'), ctrl: true }, hunks, r);
            &&& s.pending is Some ==> action is Stay && next == (AppModel {
                status: "already grading this one"@,
                ..a
            })
            &&& s.pending is None && trimmed(s.answer).len() == 0 ==> action is Stay && next == (
            AppModel { status: "nothing to submit — press a to write an answer"@, ..a })
            &&& a.after_key(Key { code: Code::Char('s'), ctrl: false }, hunks, r) == (
                a,
                ActionModel::Stay,
            )
        }),
{
}

/// Moving on goes to the next question that needs you. With none, it leaves where no call is out,
/// and waits otherwise.
pub proof fn moving_on(a: AppModel, hunks: Seq<HunkModel>, r: RecordsModel, ctrl: bool)
    ensures
        ({
            let (next, action) = a.after_key(Key { code: Code::Char(' '), ctrl }, hunks, r);
            &&& a.next_unanswered() is Some ==> action is Stay && next.current
                == a.next_unanswered()->0 as usize && next.slots == a.slots && next.status
                == "a answer · h hint · d dispute · tab/1-9 question · n/p hunk · g back · q quit"@
            &&& a.next_unanswered() is None && calls_out(a.slots) == 0 ==> action is Leave && next
                == a
            &&& a.next_unanswered() is None && calls_out(a.slots) > 0 ==> action is Stay && next
                == (AppModel {
                status: "waiting on "@ + decimal(calls_out(a.slots)) + " grading…"@,
                ..a
            })
        }),
{
}

/// `q` leaves at once where no call is out, and at the second press otherwise; control and `c`
/// leave in any case.
pub proof fn leaving(a: AppModel, hunks: Seq<HunkModel>, r: RecordsModel, ctrl: bool)
    ensures
        ({
            let (next, action) = a.after_key(Key { code: Code::Char('q'), ctrl }, hunks, r);
            &&& calls_out(a.slots) == 0 || a.quit ==> action is Leave && next == a
            &&& calls_out(a.slots) > 0 && !a.quit ==> action is Stay && next == (AppModel {
                quit: true,
                status: decimal(calls_out(a.slots)) + " still grading — q again to abandon them"@,
                ..a
            })
        }),
        a.after_key(Key { code: Code::Char('c'), ctrl: true }, hunks, r) == (a, ActionModel::Leave),
        a.after_key(Key { code: Code::Char('c'), ctrl: false }, hunks, r) == (a, ActionModel::Stay),
{
}

/// A digit goes to the question of that number, and is told off where there is none.
pub proof fn going_by_number(a: AppModel, c: char, hunks: Seq<HunkModel>, r: RecordsModel, ctrl: bool)
    requires
        '1' <= c <= '9',
    ensures
        ({
            let n = c as u32 - '0' as u32;
            let (next, action) = a.after_key(Key { code: Code::Char(c), ctrl }, hunks, r);
            &&& action is Stay
            &&& n <= a.questions.len() ==> next.current == n - 1 && next.slots == a.slots
            &&& n > a.questions.len() ==> next == (AppModel { status: "no question "@ + seq![c], ..a })
        }),
{
    let n = a.questions.len();
    let want = (c as u32 - '0' as u32) - 1;
    if want < n {
        vstd::arithmetic::div_mod::lemma_small_mod(want as nat, n);
    }
}

/// Tab goes to the question behind, and round from the last to the first; back-tab undoes it.
pub proof fn going_round(a: AppModel, hunks: Seq<HunkModel>, r: RecordsModel, ctrl: bool)
    requires
        a.wf(),
        0 < a.questions.len() <= usize::MAX,
    ensures
        ({
            let n = a.questions.len();
            let (next, x) = a.after_key(Key { code: Code::Tab, ctrl }, hunks, r);
            let (back, y) = a.after_key(Key { code: Code::BackTab, ctrl }, hunks, r);
            &&& x is Stay && y is Stay
            &&& next.slots == a.slots && back.slots == a.slots
            &&& next.current == if a.current + 1 < n {
                a.current + 1
            } else {
                0
            }
            &&& back.current == if a.current > 0 {
                a.current - 1
            } else {
                n - 1
            }
        }),
{
    let n = a.questions.len() as int;
    if a.current + 1 < n {
        vstd::arithmetic::div_mod::lemma_small_mod((a.current + 1) as nat, n as nat);
    } else {
        assert(a.current + 1 == n);
        vstd::arithmetic::div_mod::lemma_mod_self_0(n);
    }
    if a.current > 0 {
        vstd::arithmetic::div_mod::lemma_mod_sub_multiples_vanish(a.current + n - 1, n);
        vstd::arithmetic::div_mod::lemma_small_mod((a.current - 1) as nat, n as nat);
        assert((a.current + (n - 1)) % n == a.current - 1);
    } else {
        vstd::arithmetic::div_mod::lemma_small_mod((n - 1) as nat, n as nat);
    }
}

/// What is said of the question gone to: that it is with the judge, how to go on from its grade,
/// or how to answer or submit it.
pub proof fn what_is_said_on_arriving(a: AppModel, i: int, hunks: Seq<HunkModel>)
    requires
        a.wf(),
        0 <= i < a.questions.len() <= usize::MAX,
    ensures
        ({
            let s = a.slots[i];
            let next = a.gone_to(i, hunks);
            &&& next.current == i
            &&& s.pending is Some ==> next.status == "question "@ + decimal((i + 1) as nat)
                + " is with the judge"@
            &&& s.pending is None && s.verdict is Some ==> next.status
                == "space next · e revise · d dispute · tab/1-9 question · g back · q quit"@
            &&& s.pending is None && s.verdict is None && s.answer.len() == 0 ==> next.status
                == "a answer · h hint · d dispute · tab/1-9 question · n/p hunk · g back · q quit"@
            &&& s.pending is None && s.verdict is None && s.answer.len() > 0 ==> next.status
                == "^s submit & move on · e revise · h hint · d dispute · tab/1-9 question · q quit"@
        }),
{
    vstd::arithmetic::div_mod::lemma_small_mod(i as nat, a.questions.len());
}

/// A hint more is shown as long as the question has one; with a grade on screen `h` does nothing.
pub proof fn asking_for_a_hint(a: AppModel, hunks: Seq<HunkModel>, r: RecordsModel, ctrl: bool)
    requires
        a.wf(),
        a.current < a.questions.len(),
    ensures
        ({
            let at = a.current as int;
            let s = a.slots[at];
            let (next, action) = a.after_key(Key { code: Code::Char('h'), ctrl }, hunks, r);
            let reviewing = s.pending is None && s.verdict is Some;
            &&& action is Stay
            &&& reviewing ==> next == a
            &&& !reviewing && s.hints_shown < a.questions[at].hints.len() ==> next.slots
                == a.slots.update(at, SlotModel { hints_shown: (s.hints_shown + 1) as usize, ..s })
                && next.current == a.current && next.status == a.status
            &&& !reviewing && s.hints_shown >= a.questions[at].hints.len() ==> next == (AppModel {
                status: "no more hints"@,
                ..a
            })
        }),
{
}

/// An answer is opened as it stands, with its question below it, unless it is with the judge.
pub proof fn opening_an_answer(a: AppModel, hunks: Seq<HunkModel>, r: RecordsModel, ctrl: bool)
    requires
        a.wf(),
        a.current < a.questions.len(),
    ensures
        ({
            let s = a.slots[a.current as int];
            let by_a = a.after_key(Key { code: Code::Char('a'), ctrl }, hunks, r);
            &&& by_a == a.after_key(Key { code: Code::Char('e'), ctrl }, hunks, r)
            &&& s.pending is None ==> by_a == (
                a,
                ActionModel::Edit { text: s.answer, header: answer_block(a) },
            )
            &&& s.pending is Some ==> by_a.1 is Stay && by_a.0 == (AppModel {
                status: "this one is with the judge — space to move on"@,
                ..a
            })
        }),
{
}

/// What was written is the answer, and takes the grade of an earlier one off the screen. Written
/// empty, it leaves the grade.
pub proof fn what_was_written_is_the_answer(a: AppModel, text: Seq<char>, i: int)
    requires
        a.wf(),
        a.current < a.questions.len(),
        0 <= i < a.slots.len(),
        i != a.current,
    ensures
        ({
            let at = a.current as int;
            let next = a.edited(text);
            &&& next.slots.len() == a.slots.len()
            &&& next.slots[at].answer == text
            &&& text.len() > 0 ==> next.slots[at].verdict is None
            &&& text.len() == 0 ==> next.slots[at].verdict == a.slots[at].verdict && next.status
                == a.status
            &&& next.slots[at].pending == a.slots[at].pending
            &&& next.slots[at].hints_shown == a.slots[at].hints_shown
            &&& next.slots[at].failures == a.slots[at].failures
            &&& next.slots[at].dispute == a.slots[at].dispute
            &&& next.slots[at].note == a.slots[at].note
            &&& next.slots[i] == a.slots[i]
            &&& next.questions == a.questions
            &&& next.scores == a.scores
        }),
{
}

/// Which disputes are refused before anything is written, and that any other is opened.
pub proof fn opening_a_dispute(a: AppModel, hunks: Seq<HunkModel>, r: RecordsModel, ctrl: bool)
    requires
        a.wf(),
        a.current < a.questions.len(),
    ensures
        ({
            let at = a.current as int;
            let q = a.questions[at];
            let of_it = r.attempts.filter(|t: crate::db::AttemptModel|
                t.mode == "dispute"@ && t.question_id == q.id).len();
            let (next, action) = a.after_key(Key { code: Code::Char('d'), ctrl }, hunks, r);
            &&& a.slots[at].dispute is Some || !is_open(q) || of_it > 0 ==> action is Stay
                && next.slots == a.slots && next.current == a.current
            &&& a.slots[at].dispute is None && is_open(q) && of_it == 0 && action is Stay
                ==> crate::db::gate_disputes(
                r.attempts,
                r.questions,
                crate::db::gate_of(r.questions, q.id),
            ) >= 2
            &&& a.slots[at].dispute is None && is_open(q) && of_it == 0
                && crate::db::gate_disputes(
                r.attempts,
                r.questions,
                crate::db::gate_of(r.questions, q.id),
            ) < 2 ==> next == a && action == (ActionModel::EditClaim { header: dispute_block(a) })
        }),
{
    crate::db::laws::what_is_counted(r.attempts, r.questions, a.questions[a.current as int].id);
}

/// A claim goes to the judge where it says something and names a changed line.
pub proof fn which_claims_are_sent(a: AppModel, claim: Seq<char>, hunks: Seq<HunkModel>, i: int)
    requires
        a.wf(),
        a.current < a.questions.len(),
        0 <= i < a.slots.len(),
    ensures
        ({
            let at = a.current as int;
            let next = a.claimed(claim, hunks);
            let sent = trimmed(claim).len() > 0 && cites_some_line(claim, hunks);
            &&& a.claim_stands(claim, hunks) <==> sent
            &&& next.slots.len() == a.slots.len()
            &&& sent && i == at ==> next.slots[i] == (SlotModel {
                dispute: Some(claim),
                note: None,
                ..a.slots[i]
            })
            &&& !sent || i != at ==> next.slots[i] == a.slots[i]
            &&& sent ==> next.status == "disputing…"@
            &&& trimmed(claim).len() == 0 ==> next.status == "nothing to dispute"@
            &&& trimmed(claim).len() > 0 && !cites_some_line(claim, hunks) ==> next.status
                == "a dispute must quote a changed line, like sync.rs:88"@
            &&& next.questions == a.questions && next.current == a.current
        }),
{
}

/// The keys that move: by a row, by twenty, to the next hunk or file and back, to the question's
/// own hunk, and by eight columns.
pub proof fn keys_that_move(a: AppModel, hunks: Seq<HunkModel>, r: RecordsModel, ctrl: bool)
    ensures
        a.after_key(Key { code: Code::Char('j'), ctrl }, hunks, r).0 == a.scrolled(1),
        a.after_key(Key { code: Code::Char('k'), ctrl }, hunks, r).0 == a.scrolled(-1),
        a.after_key(Key { code: Code::Down, ctrl }, hunks, r).0 == a.scrolled(1),
        a.after_key(Key { code: Code::Up, ctrl }, hunks, r).0 == a.scrolled(-1),
        a.after_key(Key { code: Code::PageDown, ctrl }, hunks, r).0 == a.scrolled(20),
        a.after_key(Key { code: Code::PageUp, ctrl }, hunks, r).0 == a.scrolled(-20),
        a.after_key(Key { code: Code::Char('n'), ctrl }, hunks, r).0 == a.jumped(true, Target::Hunk),
        a.after_key(Key { code: Code::Char('p'), ctrl }, hunks, r).0 == a.jumped(
            false,
            Target::Hunk,
        ),
        a.after_key(Key { code: Code::Char(']'), ctrl }, hunks, r).0 == a.jumped(true, Target::File),
        a.after_key(Key { code: Code::Char('['), ctrl }, hunks, r).0 == a.jumped(
            false,
            Target::File,
        ),
        a.after_key(Key { code: Code::Char('g'), ctrl }, hunks, r).0 == a.at_anchor(hunks),
        a.hscroll <= 0xfff0 ==> a.after_key(Key { code: Code::Right, ctrl }, hunks, r).0 == (
        AppModel { hscroll: (a.hscroll + 8) as u16, ..a }),
        a.hscroll >= 8 ==> a.after_key(Key { code: Code::Left, ctrl }, hunks, r).0 == (AppModel {
            hscroll: (a.hscroll - 8) as u16,
            ..a
        }),
        a.hscroll < 8 ==> a.after_key(Key { code: Code::Left, ctrl }, hunks, r).0 == (AppModel {
            hscroll: 0,
            ..a
        }),
        a.after_key(Key { code: Code::Enter, ctrl }, hunks, r) == (a, ActionModel::Stay),
        a.after_key(Key { code: Code::Esc, ctrl }, hunks, r) == (a, ActionModel::Stay),
        a.after_key(Key { code: Code::Other, ctrl }, hunks, r) == (a, ActionModel::Stay),
{
}

// ---------------------------------------------------------------- events

/// A question is found by its id, the first where several have it.
pub proof fn a_question_is_found(qs: Seq<QuestionModel>, id: i64, i: int)
    ensures
        0 <= i < qs.len() && qs[i].id == id && (forall|j: int|
            0 <= j < i ==> (#[trigger] qs[j]).id != id) ==> place_of(qs, id) == Some(i),
        (forall|j: int| 0 <= j < qs.len() ==> (#[trigger] qs[j]).id != id) ==> place_of(qs, id)
            is None,
    decreases qs.len(),
{
    if qs.len() > 0 {
        let rest = qs.drop_last();
        a_question_is_found(rest, id, i);
        if 0 <= i < qs.len() && qs[i].id == id && (forall|j: int|
            0 <= j < i ==> (#[trigger] qs[j]).id != id) {
            if i < rest.len() {
                assert(rest[i] == qs[i]);
                assert forall|j: int| 0 <= j < i implies (#[trigger] rest[j]).id != id by {
                    assert(rest[j] == qs[j]);
                }
            } else {
                assert forall|j: int| 0 <= j < rest.len() implies (#[trigger] rest[j]).id != id by {
                    assert(rest[j] == qs[j]);
                }
            }
        }
        if forall|j: int| 0 <= j < qs.len() ==> (#[trigger] qs[j]).id != id {
            assert(qs[qs.len() - 1].id != id);
            assert forall|j: int| 0 <= j < rest.len() implies (#[trigger] rest[j]).id != id by {
                assert(rest[j] == qs[j]);
            }
        }
    }
}

/// A grade that comes back: the question passes from six points on, and is never failed by it;
/// the screen shows the grade, the points and one failure more below six points; the record gets
/// the answer that was graded, with its hints, and nothing else happens on screen.
pub proof fn a_grade_comes_back(
    a: AppModel,
    r: RecordsModel,
    i: int,
    label: Label,
    feedback: String,
    model: Seq<char>,
    now: Seq<char>,
)
    requires
        a.wf(),
        0 <= i < a.questions.len(),
        place_of(a.questions, a.questions[i].id) == Some(i),
        r.has_question(a.questions[i].id),
        a.slots[i].failures < usize::MAX,
        a.slots[i].hints_shown <= i64::MAX,
        a.slots[i].pending matches Some(p) ==> p.hints_used <= i64::MAX,
    ensures
        ({
            let q = a.questions[i];
            let s = a.slots[i];
            let ev = AppEvent::Graded { question_id: q.id, label, feedback };
            let (next, records, fine) = event_result(a, r, ev, model, now);
            let good = label is Demonstrates || label is Partial;
            let points: u32 = match label {
                Label::Wrong => 0,
                Label::Restates => 3,
                Label::Partial => 6,
                Label::Demonstrates => 9,
            };
            let attempt = records.attempts.last();
            &&& fine
            &&& next.questions == a.questions.update(
                i,
                QuestionModel {
                    status: if good {
                        "passed"@
                    } else {
                        q.status
                    },
                    label: Some(label.name()),
                    score: Some(points),
                    ..q
                },
            )
            &&& next.slots == a.slots.update(
                i,
                SlotModel {
                    pending: None,
                    verdict: Some((label, feedback@)),
                    failures: if good {
                        s.failures
                    } else {
                        (s.failures + 1) as usize
                    },
                    ..s
                },
            )
            &&& next.scores == a.scores.update(i, points)
            &&& next.current == a.current
            &&& records.attempts.len() == r.attempts.len() + 1
            &&& records.attempts.drop_last() == r.attempts
            &&& attempt.question_id == q.id
            &&& attempt.mode == "answer"@
            &&& attempt.body == if s.pending is Some { s.pending->0.answer } else { s.answer }
            &&& attempt.hints_used == if s.pending is Some {
                s.pending->0.hints_used
            } else {
                s.hints_shown
            }
            &&& attempt.label == label.name()
            &&& attempt.score == Some(points)
            &&& attempt.feedback == feedback@
            &&& attempt.judge_model == model
            &&& attempt.created_at == now
            &&& i == a.current ==> next.status
                == "space next · e revise · d dispute · tab/1-9 question · g back · q quit"@
            &&& i != a.current ==> next.status == "question "@ + decimal((i + 1) as nat)
                + " graded: "@ + label.name()
        }),
{
    let ev = AppEvent::Graded { question_id: a.questions[i].id, label, feedback };
    let records = event_result(a, r, ev, model, now).1;
    assert(records.attempts.drop_last() =~= r.attempts);
}

/// A ruling that comes back: an upheld claim takes the question out, deferred where the code is
/// wrong and waived otherwise; the screen says how it was ruled; the record gets the claim.
pub proof fn a_ruling_comes_back(
    a: AppModel,
    r: RecordsModel,
    i: int,
    upheld: bool,
    kind: String,
    feedback: String,
    model: Seq<char>,
    now: Seq<char>,
)
    requires
        a.wf(),
        0 <= i < a.questions.len(),
        place_of(a.questions, a.questions[i].id) == Some(i),
        r.has_question(a.questions[i].id),
    ensures
        ({
            let q = a.questions[i];
            let s = a.slots[i];
            let ev = AppEvent::Disputed { question_id: q.id, upheld, kind, feedback };
            let (next, records, fine) = event_result(a, r, ev, model, now);
            let out = if kind@ == "code_bug"@ { "deferred"@ } else { "waived"@ };
            let attempt = records.attempts.last();
            &&& fine
            &&& upheld ==> next.questions == a.questions.update(i, QuestionModel { status: out, ..q })
            &&& !upheld ==> next.questions == a.questions
            &&& next.slots == a.slots.update(
                i,
                SlotModel {
                    dispute: None,
                    note: Some(
                        if upheld {
                            "dispute upheld ("@ + kind@ + "): "@ + feedback@
                        } else {
                            "dispute rejected: "@ + feedback@
                        },
                    ),
                    ..s
                },
            )
            &&& next.scores == a.scores
            &&& next.current == a.current
            &&& next.status == if upheld {
                "question "@ + decimal((i + 1) as nat) + " "@ + out
            } else {
                "dispute on question "@ + decimal((i + 1) as nat) + " rejected"@
            }
            &&& records.attempts.drop_last() == r.attempts
            &&& attempt.question_id == q.id
            &&& attempt.mode == "dispute"@
            &&& s.dispute is Some ==> attempt.body == s.dispute->0
            &&& attempt.hints_used == 0
            &&& attempt.score is None
            &&& attempt.label == if upheld {
                kind@
            } else {
                "rejected"@
            }
            &&& attempt.feedback == feedback@
            &&& attempt.judge_model == model
            &&& attempt.created_at == now
            &&& !(upheld && kind@ == "code_bug"@) ==> records.obligations == r.obligations
            &&& !upheld ==> records.questions == r.questions
            &&& records.gates == r.gates
        }),
{
    let ev = AppEvent::Disputed { question_id: a.questions[i].id, upheld, kind, feedback };
    let records = event_result(a, r, ev, model, now).1;
    assert(records.attempts.drop_last() =~= r.attempts);
}

/// A call that failed frees the question for another try, records nothing, and says why.
pub proof fn a_call_fails(
    a: AppModel,
    r: RecordsModel,
    i: int,
    error: String,
    model: Seq<char>,
    now: Seq<char>,
)
    requires
        a.wf(),
        0 <= i < a.questions.len(),
        place_of(a.questions, a.questions[i].id) == Some(i),
    ensures
        ({
            let ev = AppEvent::Failed { question_id: a.questions[i].id, error };
            let (next, records, fine) = event_result(a, r, ev, model, now);
            &&& fine
            &&& records == r
            &&& next.questions == a.questions
            &&& next.scores == a.scores
            &&& next.current == a.current
            &&& next.slots == a.slots.update(
                i,
                SlotModel { pending: None, dispute: None, ..a.slots[i] },
            )
            &&& next.status == if a.slots[i].dispute is Some {
                "the dispute failed: "@ + error@
            } else {
                "grading failed: "@ + error@
            }
        }),
{
}

/// What comes back for a question that is not on screen changes neither screen nor record.
pub proof fn what_comes_back_for_no_question(
    a: AppModel,
    r: RecordsModel,
    id: i64,
    label: Label,
    upheld: bool,
    kind: String,
    feedback: String,
    model: Seq<char>,
    now: Seq<char>,
)
    requires
        place_of(a.questions, id) is None,
    ensures
        event_result(a, r, AppEvent::Graded { question_id: id, label, feedback }, model, now) == (
            a,
            r,
            true,
        ),
        event_result(
            a,
            r,
            AppEvent::Disputed { question_id: id, upheld, kind, feedback },
            model,
            now,
        ) == (a, r, true),
{
}

/// What is said where a dispute is refused.
pub proof fn what_a_refused_dispute_is_told(
    a: AppModel,
    hunks: Seq<HunkModel>,
    r: RecordsModel,
    ctrl: bool,
)
    requires
        a.wf(),
        a.current < a.questions.len(),
    ensures
        ({
            let q = a.questions[a.current as int];
            let out = a.slots[a.current as int].dispute is Some;
            let (next, action) = a.after_key(Key { code: Code::Char('d'), ctrl }, hunks, r);
            &&& out ==> next.status == "that dispute is already with the judge"@
            &&& !out && !is_open(q) ==> next.status == "question "@ + decimal(
                (a.current + 1) as nat,
            ) + " is already settled"@
            &&& !out && is_open(q) && crate::db::question_disputes(r.attempts, q.id) > 0
                ==> next.status == "one dispute per question"@
            &&& !out && is_open(q) && crate::db::question_disputes(r.attempts, q.id) == 0
                && action is Stay ==> next.status == "two disputes per gate — answer this one"@
        }),
{
}

} // verus!
