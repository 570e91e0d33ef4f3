//! What holds of a run, whatever the change and the record.

use vstd::prelude::*;
use crate::authorship::Mode;
use crate::db::{
    attempts_on_gate, last_body, live_gate, questions_in, GateModel, QuestionModel, RecordsModel,
};
use crate::gate::ask::{
    asked_count, is_asked, question_text, resume_remarks, scores_so_far, taken_out_count,
    with_status_count,
};
use crate::gate::outcome::{
    covers_gate, gate_coverage_text, not_cleared_text, open_lines, outcome_of, report_text,
    status_text, Outcome,
};
use crate::gate::ready::{
    archive_remark, hunks_covered, left_alone_text, missing_remarks, replays, with_gate,
    with_quiz, with_trivial_gate,
};
use crate::gate::scope::{
    front_bytes, head_remark, headline_text, planned, Facts, PlanModel, Scoped,
};
use crate::gate::{
    diverged_body, diverged_note, failed_note, passed, reasoned, weak, Coverage, Scored,
};
use crate::gh::PrBrief;
use crate::git::{hunk_models, HunkModel};
use crate::llm::GeneratedModel;
use crate::text::number::{decimal, signed_decimal};
use crate::text::pad::padded;
use crate::text::split::{texts, utf8_length};
use crate::triage::{most_questions, skip_reason};
use crate::tui::app::ScoredModel;

verus! {

// ---------------------------------------------------------------- the pass rule

/// The pass rule: every exercise at `partial` or better; of the other answers none below
/// `restates`, and below `partial` no more than a third of them, or one, or none where there is
/// one alone.
pub proof fn the_pass_rule(scored: Seq<Scored>)
    ensures
        ({
            let rest = scored.filter(|s: Scored| s.kind@ != "exercise"@);
            let low = rest.filter(|s: Scored| s.score < 6);
            passed(scored) <==> {
                &&& forall|i: int|
                    0 <= i < scored.len() ==> (#[trigger] scored[i]).score >= if scored[i].kind@
                        == "exercise"@ {
                        6
                    } else {
                        3int
                    }
                &&& low.len() <= if rest.len() <= 1 {
                    0
                } else if rest.len() < 6 {
                    1
                } else {
                    rest.len() / 3
                }
            }
        }),
{
    counts_of_scores(scored);
    assert forall|i: int| 0 <= i < scored.len() implies crate::gate::is_bearable(
        #[trigger] scored[i],
    ) == (scored[i].score >= if scored[i].kind@ == "exercise"@ {
        6
    } else {
        3int
    }) by {}
    if forall|i: int|
        0 <= i < scored.len() ==> (#[trigger] scored[i]).score >= if scored[i].kind@ == "exercise"@ {
            6
        } else {
            3int
        } {
        assert(forall|i: int| 0 <= i < scored.len() ==> crate::gate::is_bearable(#[trigger] scored[i]));
    }
}

proof fn counts_of_scores(scored: Seq<Scored>)
    ensures
        reasoned(scored) == scored.filter(|s: Scored| s.kind@ != "exercise"@).len(),
        weak(scored) == scored.filter(|s: Scored| s.kind@ != "exercise"@).filter(
            |s: Scored| s.score < 6,
        ).len(),
    decreases scored.len(),
{
    reveal(Seq::filter);
    let p = |s: Scored| s.kind@ != "exercise"@;
    let q = |s: Scored| s.score < 6;
    if scored.len() > 0 {
        counts_of_scores(scored.drop_last());
        let sub = scored.drop_last().filter(p);
        if p(scored.last()) {
            assert(sub.push(scored.last()).drop_last() =~= sub);
        }
    }
}

/// A quiz is cleared exactly where something was answered, or there was nothing to answer, and
/// the rule holds; where everything was taken out nothing was answered.
pub proof fn what_a_quiz_comes_to(scores: Seq<Scored>, questions: nat)
    ensures
        outcome_of(scores, questions) == Outcome::Cleared <==> passed(scores) && (scores.len() > 0
            || questions == 0),
        outcome_of(scores, questions) == Outcome::NothingAnswered <==> scores.len() == 0 && questions
            > 0,
        outcome_of(scores, questions) == Outcome::NotCleared <==> !passed(scores) && (scores.len() > 0
            || questions == 0),
{
}

// ---------------------------------------------------------------- coverage

/// What coverage says: the numbers first; who wrote it unless the trailers tell; how many hunks
/// there are in all unless all are the assistant's; and each sort of question that is missing,
/// by itself.
pub proof fn what_coverage_says(c: Coverage)
    ensures
        ({
            let front = decimal(c.questions as nat) + " questions · "@ + signed_decimal(
                c.hunks_covered as int,
            ) + "/"@ + signed_decimal(c.hunks_ai as int) + " AI hunks"@;
            let who = if c.authorship@ == "trailers"@ {
                front
            } else {
                front + (" · authorship: "@ + c.authorship@)
            };
            let all = if c.hunks_ai == c.hunks_total {
                who
            } else {
                who + (" · "@ + signed_decimal(c.hunks_total as int) + " hunks in PR"@)
            };
            let one = if c.has_checkable {
                all
            } else {
                all + " · no checkable"@
            };
            let two = if c.has_exercise {
                one
            } else {
                one + " · no exercise"@
            };
            c.text() == if c.has_intent {
                two
            } else {
                two + " · NO INTENT QUESTION"@
            }
        }),
{
    let front = decimal(c.questions as nat) + " questions · "@ + signed_decimal(
        c.hunks_covered as int,
    ) + "/"@ + signed_decimal(c.hunks_ai as int) + " AI hunks"@;
    let none = Seq::<char>::empty();
    let who = if c.authorship@ == "trailers"@ {
        front
    } else {
        front + (" · authorship: "@ + c.authorship@)
    };
    let all = if c.hunks_ai == c.hunks_total {
        who
    } else {
        who + (" · "@ + signed_decimal(c.hunks_total as int) + " hunks in PR"@)
    };
    let one = if c.has_checkable {
        all
    } else {
        all + " · no checkable"@
    };
    let two = if c.has_exercise {
        one
    } else {
        one + " · no exercise"@
    };
    assert(front + none =~= front);
    assert(who + none =~= who);
    assert(all + none =~= all);
    assert(one + none =~= one);
    assert(two + none =~= two);
}

/// The coverage of a stored gate is what it recorded, for the questions it has.
pub proof fn coverage_of_a_stored_gate(c: Coverage, gate: GateModel, qs: Seq<QuestionModel>)
    requires
        covers_gate(c, gate, qs),
    ensures
        c.questions == qs.len(),
        c.hunks_ai == gate.hunks_ai,
        c.hunks_total == gate.hunks_total,
        c.hunks_covered == gate.hunks_covered,
        c.authorship@ == gate.authorship,
        c.has_checkable == gate.has_checkable,
        c.has_exercise == gate.has_exercise,
        c.has_intent <==> exists|i: int| 0 <= i < qs.len() && (#[trigger] qs[i]).kind == "intent"@,
        c.text() == gate_coverage_text(gate, qs),
{
}

// ---------------------------------------------------------------- the plan

/// What is planned: nothing without a hunk; a trivial change where the trailers leave none of
/// the assistant's, or triage skips it; and otherwise a quiz of three questions up to what the
/// change is worth.
pub proof fn what_is_planned(f: Facts, s: Scoped)
    ensures
        ({
            let ai = hunk_models(s.ai_hunks@);
            let reason = skip_reason(
                texts(f.files@),
                texts(f.marked@),
                f.whitespace_only,
                f.pure_renames,
                ai,
            );
            &&& planned(f, s) is NoHunks <==> s.generated == 0 && s.all_hunks@.len() == 0
            &&& planned(f, s) matches PlanModel::Quiz { min, max } ==> min == 3 && max == most_questions(
                ai,
            )
            &&& planned(f, s) is Quiz <==> (s.generated > 0 || s.all_hunks@.len() > 0) && !(
            s.ai_hunks@.len() == 0 && s.scope.mode == Mode::Trailers) && reason is None
            &&& planned(f, s) matches PlanModel::Trivial { message, reason: why } ==> {
                &&& s.ai_hunks@.len() == 0 && s.scope.mode == Mode::Trailers ==> why
                    == "no AI-authored code"@ && message == "No AI-authored hunks in this PR ("@
                    + decimal(s.scope.total_commits as nat) + " commits, none from "@ + f.assistant@
                    + " touched the diff)."@
                &&& s.ai_hunks@.len() > 0 || s.scope.mode != Mode::Trailers ==> Some(why) == reason
                    && message == "Nothing worth quizzing: "@ + why + "."@
            }
        }),
{
    assert(hunk_models(s.ai_hunks@).len() == s.ai_hunks@.len());
}

/// A short hash is the front of a hash, no longer than it may be, and all of one that is short.
pub proof fn a_short_hash(s: Seq<char>, n: nat)
    ensures
        front_bytes(s, n).len() <= s.len(),
        front_bytes(s, n) == s.take(front_bytes(s, n).len() as int),
        utf8_length(front_bytes(s, n)) <= n || front_bytes(s, n).len() == 0,
        utf8_length(s) <= n ==> front_bytes(s, n) == s,
        front_bytes(s, n).len() < s.len() ==> utf8_length(
            s.take(front_bytes(s, n).len() as int + 1),
        ) > n,
    decreases s.len(),
{
    if utf8_length(s) > n && s.len() > 0 {
        let rest = s.drop_last();
        a_short_hash(rest, n);
        let k = front_bytes(s, n).len() as int;
        assert(rest.take(k) =~= s.take(k));
        if k < rest.len() {
            assert(rest.take(k + 1) =~= s.take(k + 1));
        } else {
            assert(s.take(k + 1) =~= s);
        }
    } else {
        assert(s.take(s.len() as int) =~= s);
    }
}

// ---------------------------------------------------------------- opening

/// A stored gate is replayed exactly where it is not forced away and has a question; otherwise
/// the graded work that is set aside is told by its number.
pub proof fn how_a_run_opens(force: bool, r: RecordsModel, repo: Seq<char>, pr: u64)
    ensures
        replays(force, r, repo, pr) <==> !force && (live_gate(r.gates, repo, pr) matches Some(g)
            && exists|i: int| 0 <= i < r.questions.len() && (#[trigger] r.questions[i]).gate_id == g.id),
        archive_remark(r, repo, pr) is Some <==> (live_gate(r.gates, repo, pr) matches Some(g)
            && attempts_on_gate(r.attempts, r.questions, g.id) > 0),
        live_gate(r.gates, repo, pr) matches Some(g) ==> (archive_remark(r, repo, pr) matches Some(
            remark,
        ) ==> ({
            let n = attempts_on_gate(r.attempts, r.questions, g.id);
            remark == "note: archiving "@ + decimal(n) + (if n == 1 {
                " graded answer on "@
            } else {
                " graded answers on "@
            }) + repo + "#"@ + decimal(pr as nat) + " — the new questions start unanswered"@
        })),
{
    if let Some(g) = live_gate(r.gates, repo, pr) {
        some_question_of(r.questions, g.id);
    }
}

proof fn some_question_of(rows: Seq<crate::db::QuestionRowModel>, id: i64)
    ensures
        questions_in(rows, id).len() > 0 <==> exists|i: int|
            0 <= i < rows.len() && (#[trigger] rows[i]).gate_id == id,
    decreases rows.len(),
{
    if rows.len() > 0 {
        let rest = rows.drop_last();
        some_question_of(rest, id);
        assert(rows[rows.len() - 1] == rows.last());
        if exists|i: int| 0 <= i < rows.len() && (#[trigger] rows[i]).gate_id == id {
            let i = choose|i: int| 0 <= i < rows.len() && (#[trigger] rows[i]).gate_id == id;
            if i < rest.len() {
                assert(rest[i] == rows[i]);
            }
        }
        if exists|i: int| 0 <= i < rest.len() && (#[trigger] rest[i]).gate_id == id {
            let i = choose|i: int| 0 <= i < rest.len() && (#[trigger] rest[i]).gate_id == id;
            assert(rows[i] == rest[i]);
        }
    }
}

/// What cannot be asked: without a test command nothing checkable, and without both a way to run
/// and somewhere to look no exercise, which half is missing being said.
pub proof fn what_cannot_be_asked(test: bool, run: bool, surfaces: bool)
    ensures
        missing_remarks(test, run, surfaces).len() == (if test {
            0int
        } else {
            1
        }) + (if run && surfaces {
            0int
        } else {
            1
        }),
        !test ==> missing_remarks(test, run, surfaces)[0]
            == "note: no test command found — no checkable question is possible"@,
        !run && !surfaces ==> missing_remarks(test, run, surfaces).last() == "note: "@
            + "no run invocation and no reachable surface"@ + " — no exercise question is possible"@,
        !run && surfaces ==> missing_remarks(test, run, surfaces).last() == "note: "@
            + "no run invocation"@ + " — no exercise question is possible"@,
        run && !surfaces ==> missing_remarks(test, run, surfaces).last() == "note: "@
            + "no reachable surface"@ + " — no exercise question is possible"@,
{
}

// ---------------------------------------------------------------- recording

/// A gate made for a change holds what is known of it, counts its hunks, stands behind all others,
/// and takes the place of the live one of the same pull request alone.
pub proof fn the_gate_of_a_change(
    r: RecordsModel,
    f: Facts,
    s: Scoped,
    state: Seq<char>,
    now: Seq<char>,
    i: int,
)
    requires
        0 <= i < r.gates.len(),
        s.all_hunks@.len() <= i64::MAX,
        s.ai_hunks@.len() <= i64::MAX,
    ensures
        ({
            let u = with_gate(r, f, s, state, now);
            let row = u.gates.last();
            &&& u.questions == r.questions
            &&& u.attempts == r.attempts
            &&& u.obligations == r.obligations
            &&& u.gates.len() == r.gates.len() + 1
            &&& row.gate.repo == f.repo@
            &&& row.gate.path == f.path@
            &&& row.gate.diff == f.diff@
            &&& row.gate.pr_number == f.pr_number
            &&& row.gate.branch == f.branch@
            &&& row.gate.base_ref == f.base_ref@
            &&& row.gate.base_sha == f.base_sha@
            &&& row.gate.head_sha == f.head_sha@
            &&& row.gate.hunks_total == s.all_hunks@.len()
            &&& row.gate.hunks_ai == s.ai_hunks@.len()
            &&& row.gate.authorship == (match s.scope.mode {
                Mode::Trailers => "trailers"@,
                Mode::Squashed => "squashed"@,
                Mode::Unknown => "unknown"@,
            })
            &&& row.gate.state == state
            &&& row.gate.id == r.next_gate_id() as i64
            &&& row.cleared_at is None
            &&& row.superseded_at is None
            &&& r.gates[i].superseded_at is None && r.gates[i].gate.repo == f.repo@
                && r.gates[i].gate.pr_number == f.pr_number ==> u.gates[i].superseded_at == Some(now)
                && u.gates[i].gate == (GateModel { diff: Seq::empty(), ..r.gates[i].gate })
            &&& r.gates[i].superseded_at is Some || r.gates[i].gate.repo != f.repo@
                || r.gates[i].gate.pr_number != f.pr_number ==> u.gates[i] == r.gates[i]
        }),
{
}

/// A trivial change has a gate that is trivial and dated as cleared.
pub proof fn the_gate_of_a_trivial_change(r: RecordsModel, f: Facts, s: Scoped, now: Seq<char>)
    requires
        r.wf(),
        r.next_gate_id() <= i64::MAX,
    ensures
        ({
            let u = with_trivial_gate(r, f, s, now);
            &&& u.gates.len() == r.gates.len() + 1
            &&& u.gates.last().gate.state == "trivial"@
            &&& u.gates.last().cleared_at == Some(now)
            &&& u.gates.last().superseded_at is None
            &&& u.gates.last().gate.repo == f.repo@
            &&& u.gates.last().gate.pr_number == f.pr_number
            &&& u.questions == r.questions
            &&& forall|i: int|
                0 <= i < r.gates.len() ==> (#[trigger] u.gates[i]).gate.state == r.gates[i].gate.state
                    && u.gates[i].cleared_at == r.gates[i].cleared_at
        }),
{
    let u = with_trivial_gate(r, f, s, now);
    let id = r.next_gate_id() as i64;
    assert forall|i: int| 0 <= i < r.gates.len() implies (#[trigger] u.gates[i]).gate.state
        == r.gates[i].gate.state && u.gates[i].cleared_at == r.gates[i].cleared_at by {
        if i < r.gates.len() - 1 {
            assert(r.gates[i].gate.id < r.gates[r.gates.len() - 1].gate.id);
        }
        assert(r.gates[i].gate.id < id);
    }
}

/// A quiz is recorded with its gate: open, with what its questions cover and which sorts there
/// are, and with each question as it was generated, open and behind all others.
pub proof fn a_quiz_is_recorded(
    r: RecordsModel,
    f: Facts,
    s: Scoped,
    qs: Seq<GeneratedModel>,
    now: Seq<char>,
    k: int,
)
    requires
        r.wf(),
        r.has_room(qs.len()),
        0 <= k < qs.len(),
        s.ai_hunks@.len() <= i64::MAX,
    ensures
        ({
            let u = with_quiz(r, f, s, qs, now);
            let gate = u.gates.last().gate;
            let row = u.questions[r.questions.len() + k];
            let hunks = hunk_models(s.ai_hunks@);
            &&& gate.state == "open"@
            &&& gate.repo == f.repo@
            &&& gate.pr_number == f.pr_number
            &&& gate.hunks_covered == hunks.filter(
                |h: HunkModel|
                    exists|j: int| 0 <= j < qs.len() && (#[trigger] qs[j]).anchor == h.anchor,
            ).len()
            &&& gate.has_checkable <==> exists|j: int|
                0 <= j < qs.len() && (#[trigger] qs[j]).kind == "checkable"@
            &&& gate.has_exercise <==> exists|j: int|
                0 <= j < qs.len() && (#[trigger] qs[j]).kind == "exercise"@
            &&& u.attempts == r.attempts
            &&& u.obligations == r.obligations
            &&& u.questions.len() == r.questions.len() + qs.len()
            &&& u.questions.take(r.questions.len() as int) == r.questions
            &&& row.gate_id == gate.id
            &&& row.question.kind == qs[k].kind
            &&& row.question.file == qs[k].file
            &&& row.question.anchor == qs[k].anchor
            &&& row.question.text == qs[k].text
            &&& row.question.reference == qs[k].reference
            &&& row.question.hints == qs[k].hints
            &&& row.question.status == "open"@
            &&& row.question.label is None
            &&& row.question.score is None
        }),
{
    let u = with_quiz(r, f, s, qs, now);
    let hunks = hunk_models(s.ai_hunks@);
    covered_hunks_are_counted(hunks, qs);
    crate::gate::ready::coverage_is_of_the_hunks(hunks, qs);
    assert(hunks.len() == s.ai_hunks@.len());
    assert(u.questions.take(r.questions.len() as int) =~= r.questions);
}

proof fn covered_hunks_are_counted(hunks: Seq<HunkModel>, qs: Seq<GeneratedModel>)
    ensures
        hunks_covered(hunks, qs) == hunks.filter(
            |h: HunkModel| exists|j: int| 0 <= j < qs.len() && (#[trigger] qs[j]).anchor == h.anchor,
        ).len(),
    decreases hunks.len(),
{
    reveal(Seq::filter);
    if hunks.len() > 0 {
        covered_hunks_are_counted(hunks.drop_last(), qs);
        let h = hunks.last();
        let anchors = crate::gate::ready::anchors_of(qs);
        if anchors.contains(h.anchor) {
            let j = choose|j: int| 0 <= j < anchors.len() && anchors[j] == h.anchor;
            assert(qs[j].anchor == h.anchor);
        }
        if exists|j: int| 0 <= j < qs.len() && (#[trigger] qs[j]).anchor == h.anchor {
            let j = choose|j: int| 0 <= j < qs.len() && (#[trigger] qs[j]).anchor == h.anchor;
            assert(anchors[j] == h.anchor);
        }
    }
}

// ---------------------------------------------------------------- asking

/// Which questions are asked: those that are neither passed nor taken out by a dispute. Passed
/// ones carry their score, those taken out have none, and those asked have the one given.
pub proof fn which_questions_are_asked(qs: Seq<QuestionModel>, q: QuestionModel, given: Seq<u32>, s: u32)
    ensures
        is_asked(q) <==> q.status != "passed"@ && q.status != "waived"@ && q.status != "deferred"@,
        q.status == "passed"@ ==> scores_so_far(qs.push(q), given) == scores_so_far(qs, given).push(
            ScoredModel {
                kind: q.kind,
                score: match q.score {
                    Some(s) => s,
                    None => 0,
                },
            },
        ),
        q.status != "passed"@ && (q.status == "waived"@ || q.status == "deferred"@) ==> scores_so_far(
            qs.push(q),
            given,
        ) == scores_so_far(qs, given),
        is_asked(q) ==> scores_so_far(qs.push(q), given.push(s)) == scores_so_far(qs, given).push(
            ScoredModel { kind: q.kind, score: s },
        ),
        asked_count(qs.push(q)) == asked_count(qs) + if is_asked(q) {
            1int
        } else {
            0
        },
        asked_count(Seq::empty()) == 0,
        scores_so_far(Seq::empty(), given).len() == 0,
{
    assert(qs.push(q).drop_last() =~= qs);
    assert(given.push(s).drop_last() =~= given);
}

/// What is said on resuming: how many are passed, and how many are out, where any are.
pub proof fn what_is_said_on_resuming(qs: Seq<QuestionModel>)
    ensures
        ({
            let done = qs.filter(|q: QuestionModel| q.status == "passed"@).len();
            let out = qs.filter(
                |q: QuestionModel| q.status == "waived"@ || q.status == "deferred"@,
            ).len();
            let lines = resume_remarks(qs);
            &&& lines.len() == (if done > 0 {
                1int
            } else {
                0
            }) + (if out > 0 {
                1int
            } else {
                0
            })
            &&& done > 0 ==> lines[0] == decimal(done) + " of "@ + decimal(qs.len())
                + " already passed — resuming."@
            &&& out > 0 ==> lines.last() == decimal(out) + " out of the quiz on an upheld dispute."@
        }),
{
    counts_of_statuses(qs);
}

proof fn counts_of_statuses(qs: Seq<QuestionModel>)
    ensures
        with_status_count(qs, "passed"@) == qs.filter(
            |q: QuestionModel| q.status == "passed"@,
        ).len(),
        taken_out_count(qs) == qs.filter(
            |q: QuestionModel| q.status == "waived"@ || q.status == "deferred"@,
        ).len(),
    decreases qs.len(),
{
    reveal(Seq::filter);
    if qs.len() > 0 {
        counts_of_statuses(qs.drop_last());
    }
}

// ---------------------------------------------------------------- the report

/// What is open on a change is told of every question that was deferred, by its file and the
/// last claim made about it, in order.
pub proof fn everything_open_is_told(r: RecordsModel, qs: Seq<QuestionModel>)
    ensures
        open_lines(r, qs) == qs.filter(|q: QuestionModel| q.status == "deferred"@).map_values(
            |q: QuestionModel|
                "  "@ + q.file + " — "@ + match last_body(r.attempts, q.id, "dispute"@) {
                    Some(claim) => claim,
                    None => Seq::empty(),
                },
        ),
    decreases qs.len(),
{
    reveal(Seq::filter);
    let p = |q: QuestionModel| q.status == "deferred"@;
    let f = |q: QuestionModel|
        "  "@ + q.file + " — "@ + match last_body(r.attempts, q.id, "dispute"@) {
            Some(claim) => claim,
            None => Seq::empty(),
        };
    if qs.len() > 0 {
        everything_open_is_told(r, qs.drop_last());
        let sub = qs.drop_last().filter(p);
        assert(sub.push(qs.last()).map_values(f) =~= sub.map_values(f).push(f(qs.last())));
    }
    assert(open_lines(r, qs) =~= qs.filter(p).map_values(f));
}

/// A report begins with the coverage and ends with whose turn it is; between them stands what is
/// open, under a heading, where anything is.
pub proof fn what_is_reported(
    r: RecordsModel,
    gate_id: i64,
    coverage: Coverage,
    number: u64,
    url: Seq<char>,
)
    ensures
        ({
            let lines = report_text(r, gate_id, coverage, number, url);
            let open = open_lines(r, questions_in(r.questions, gate_id));
            &&& lines[0] == "\nCleared · "@ + coverage.text()
            &&& lines.last() == "\n#"@ + decimal(number as nat) + " is yours to mark ready · "@ + url
            &&& open.len() == 0 ==> lines.len() == 2
            &&& open.len() > 0 ==> {
                &&& lines.len() == open.len() + 4
                &&& lines[1] == "\nOpen on this change:"@
                &&& lines.subrange(2, 2 + open.len() as int) == open
                &&& lines[2 + open.len() as int] == "\n`shipgate status` lists these again."@
            }
        }),
{
    let lines = report_text(r, gate_id, coverage, number, url);
    let open = open_lines(r, questions_in(r.questions, gate_id));
    if open.len() > 0 {
        assert(lines.subrange(2, 2 + open.len() as int) =~= open);
    }
}

/// What is said of a pull request: its gate's state, with coverage once it is done and as in
/// progress before; without a gate whether it is a draft still or went ready.
pub proof fn what_is_said_of_a_pull_request(r: RecordsModel, repo: Seq<char>, pr: PrBrief)
    ensures
        ({
            let front = repo + "#"@ + padded(decimal(pr.number as nat), 5) + " "@;
            match live_gate(r.gates, repo, pr.number) {
                Some(g) => {
                    &&& g.state == "cleared"@ || g.state == "trivial"@ ==> status_text(r, repo, pr)
                        == front + padded(g.state, 10) + " "@ + gate_coverage_text(
                        g,
                        questions_in(r.questions, g.id),
                    )
                    &&& g.state != "cleared"@ && g.state != "trivial"@ ==> status_text(r, repo, pr)
                        == front + padded(g.state, 10) + " in progress"@
                },
                None => {
                    &&& pr.is_draft ==> status_text(r, repo, pr) == front + padded("—"@, 10) + " draft"@
                    &&& !pr.is_draft ==> status_text(r, repo, pr) == front + padded("—"@, 10)
                        + " ready, no gate"@
                },
            }
        }),
{
}

/// How a question is put on a terminal: its place, its kind, its file and its text.
pub proof fn how_a_question_is_put(q: QuestionModel, n: nat, total: nat)
    ensures
        question_text(q, n, total) == "── "@ + decimal(n) + "/"@ + decimal(total) + " · "@ + q.kind
            + " · "@ + q.file + "\n"@ + q.text + "\n"@,
{
}

/// What is said of a decline that names nothing, of a quiz that is not cleared, and of a run that
/// went otherwise than predicted.
pub proof fn what_else_is_said(reason: Seq<char>)
    ensures
        left_alone_text(reason) == "Generator declined without naming anything in the diff: "@
            + reason
            + "\nThe PR has been left alone. Re-run to try again, or mark it ready yourself."@,
        not_cleared_text(Outcome::NothingAnswered, true) == Some(
            "\nEvery question left the quiz on an upheld dispute — nothing was answered."@,
        ),
        not_cleared_text(Outcome::NothingAnswered, false) == not_cleared_text(
            Outcome::NothingAnswered,
            true,
        ),
        not_cleared_text(Outcome::NotCleared, true) == Some(
            "\nNot cleared. Re-run when you want another go — disagreements are cheap."@,
        ),
        not_cleared_text(Outcome::NotCleared, false) == Some("\nNot cleared."@),
        not_cleared_text(Outcome::Cleared, true) is None,
        not_cleared_text(Outcome::Cleared, false) is None,
        failed_note(reason) == "  the divergence check failed, so nothing was recorded: "@ + reason,
        diverged_note(reason) == "  the run diverged from what the diff predicted: "@ + reason
            + "\n  recorded as an obligation — fix it, or withdraw the claim.\n"@,
        diverged_body(reason) == "run diverged from the prediction: "@ + reason,
{
}

/// What is printed of a change: its pull request, its branch, its base and its hunks, with those
/// that were left out as generated; and a warning exactly where the heads differ.
pub proof fn what_is_printed_of_a_change(f: Facts, s: Scoped, local: Seq<char>, theirs: Seq<char>)
    ensures
        ({
            let line = f.repo@ + "#"@ + decimal(f.pr_number as nat) + " · "@ + f.branch@
                + " · base "@ + f.base_ref@ + " · "@ + decimal(s.all_hunks@.len()) + " hunks, "@
                + decimal(s.ai_hunks@.len()) + " AI ("@ + s.scope.mode.name() + ")"@;
            &&& s.generated == 0 ==> headline_text(f, s) == line
            &&& s.generated > 0 ==> headline_text(f, s) == line + " · "@ + decimal(
                s.generated as nat,
            ) + " generated hunks excluded"@
        }),
        local == theirs ==> head_remark(local, theirs) is None,
        local != theirs ==> head_remark(local, theirs) == Some(
            "warning: local HEAD "@ + front_bytes(local, 7) + " differs from the PR head "@
                + front_bytes(theirs, 7) + " — push first?"@,
        ),
{
}

} // verus!
