//! Asking questions one after the other, where there is no terminal to draw on.

use vstd::prelude::*;
use vstd::string::StringExecFns;
use crate::db::{
    question_models, record_attempt, with_attempt, AttemptModel, Question, QuestionModel,
    RecordError, Records,
};
use crate::gate::Scored;
use crate::git::{hunk_models, Hunk};
use crate::llm::{cites, cites_the_diff, Label, Verdict};
use crate::text::chars::same;
use crate::text::number::{decimal, show_usize};
use crate::text::split::{texts, texts_push};
use crate::tui::app::{is_taken_out, scored_models, taken_out, ScoredModel};
use crate::tui::keys::cites_nothing_text;

verus! {

/// How many questions have this status.
pub open spec fn with_status_count(qs: Seq<QuestionModel>, status: Seq<char>) -> nat
    decreases qs.len(),
{
    if qs.len() == 0 {
        0
    } else {
        with_status_count(qs.drop_last(), status) + if qs.last().status == status {
            1nat
        } else {
            0nat
        }
    }
}

/// How many questions an upheld dispute took out.
pub open spec fn taken_out_count(qs: Seq<QuestionModel>) -> nat
    decreases qs.len(),
{
    if qs.len() == 0 {
        0
    } else {
        taken_out_count(qs.drop_last()) + if taken_out(qs.last().status) {
            1nat
        } else {
            0nat
        }
    }
}

/// What is said before a quiz goes on: how much of it is done already.
pub open spec fn resume_remarks(qs: Seq<QuestionModel>) -> Seq<Seq<char>> {
    let done = with_status_count(qs, "passed"@);
    let out = taken_out_count(qs);
    (if done > 0 {
        seq![decimal(done) + " of "@ + decimal(qs.len()) + " already passed — resuming."@]
    } else {
        Seq::empty()
    }) + (if out > 0 {
        seq![decimal(out) + " out of the quiz on an upheld dispute."@]
    } else {
        Seq::empty()
    })
}

/// What is said before a quiz goes on.
pub fn resume_notes(questions: &[Question]) -> (r: Vec<String>)
    ensures
        texts(r@) == resume_remarks(question_models(questions@)),
{
    broadcast use texts_push;

    let ghost qs = question_models(questions@);
    let mut done: usize = 0;
    let mut out: usize = 0;
    let mut i: usize = 0;
    proof {
        assert(qs.take(0) =~= Seq::empty());
        assert(qs.len() == questions@.len());
    }
    while i < questions.len()
        invariant
            i <= questions@.len(),
            done <= i,
            out <= i,
            qs == question_models(questions@),
            done == with_status_count(qs.take(i as int), "passed"@),
            out == taken_out_count(qs.take(i as int)),
        decreases questions@.len() - i,
    {
        proof {
            assert(qs.take(i + 1).drop_last() =~= qs.take(i as int));
            assert(qs.take(i + 1).last() == questions@[i as int]@);
        }
        if same(questions[i].status.as_str(), "passed") {
            done += 1;
        }
        if is_taken_out(questions[i].status.as_str()) {
            out += 1;
        }
        i += 1;
    }
    proof {
        assert(qs.take(i as int) =~= qs);
    }
    let mut notes: Vec<String> = Vec::new();
    assert(texts(notes@) =~= Seq::empty());
    if done > 0 {
        notes.push(
            show_usize(done).concat(" of ").concat(show_usize(questions.len()).as_str()).concat(
                " already passed — resuming.",
            ),
        );
    }
    if out > 0 {
        notes.push(show_usize(out).concat(" out of the quiz on an upheld dispute."));
    }
    assert(texts(notes@) =~= resume_remarks(qs));
    notes
}

// ---------------------------------------------------------------- going through them

/// A quiz without a terminal, on its way through the questions.
#[derive(Debug)]
pub struct Asking {
    /// The question that comes next.
    pub at: usize,
    pub scores: Vec<Scored>,
}

/// The scores of a quiz up to a question, where `given` are the scores of the questions that
/// were asked: passed ones carry theirs over, those that an upheld dispute took out have
/// none.
pub open spec fn scores_so_far(qs: Seq<QuestionModel>, given: Seq<u32>) -> Seq<ScoredModel>
    decreases qs.len(),
{
    if qs.len() == 0 {
        Seq::empty()
    } else {
        let q = qs.last();
        let front = qs.drop_last();
        if q.status == "passed"@ {
            scores_so_far(front, given).push(
                ScoredModel {
                    kind: q.kind,
                    score: match q.score {
                        Some(s) => s,
                        None => 0,
                    },
                },
            )
        } else if taken_out(q.status) {
            scores_so_far(front, given)
        } else {
            scores_so_far(front, given.drop_last()).push(
                ScoredModel { kind: q.kind, score: given.last() },
            )
        }
    }
}

/// Whether a question is asked.
pub open spec fn is_asked(q: QuestionModel) -> bool {
    q.status != "passed"@ && !taken_out(q.status)
}

/// How many of the questions are asked.
pub open spec fn asked_count(qs: Seq<QuestionModel>) -> nat
    decreases qs.len(),
{
    if qs.len() == 0 {
        0
    } else {
        asked_count(qs.drop_last()) + if is_asked(qs.last()) {
            1nat
        } else {
            0nat
        }
    }
}

impl Asking {
    /// Whether this is where a quiz stands once these scores were given.
    pub open spec fn stands(self, qs: Seq<QuestionModel>, given: Seq<u32>) -> bool {
        &&& self.at <= qs.len()
        &&& given.len() == asked_count(qs.take(self.at as int))
        &&& scored_models(self.scores@) == scores_so_far(qs.take(self.at as int), given)
    }

    pub fn new() -> (r: Self)
        ensures
            r.at == 0,
            r.scores@.len() == 0,
            forall|qs: Seq<QuestionModel>| #[trigger] r.stands(qs, Seq::empty()),
    {
        let r = Asking { at: 0, scores: Vec::new() };
        proof {
            assert forall|qs: Seq<QuestionModel>| #[trigger] r.stands(qs, Seq::empty()) by {
                assert(qs.take(0) =~= Seq::empty());
                assert(scored_models(r.scores@) =~= Seq::empty());
            }
        }
        r
    }

    /// Goes to the next question that is to be asked, and says which; `None` where there is
    /// none left. A question that an earlier run took out of the quiz stays out: asking it
    /// again would score what a judge already agreed was unfair.
    pub fn next(&mut self, questions: &[Question]) -> (r: Option<usize>)
        requires
            old(self).at <= questions@.len(),
        ensures
            final(self).at <= questions@.len(),
            forall|given: Seq<u32>|
                old(self).stands(question_models(questions@), given)
                    ==> #[trigger] final(self).stands(question_models(questions@), given),
            match r {
                Some(i) => i == final(self).at < questions@.len() && is_asked(questions@[i as int]@),
                None => final(self).at == questions@.len(),
            },
            old(self).at <= final(self).at,
            forall|j: int|
                old(self).at <= j < final(self).at ==> !is_asked((#[trigger] questions@[j])@),
    {
        let ghost qs = question_models(questions@);
        let ghost start = *self;
        while self.at < questions.len()
            invariant
                start == *old(self),
                self.at <= questions@.len(),
                start.at <= self.at,
                qs == question_models(questions@),
                forall|given: Seq<u32>| start.stands(qs, given) ==> #[trigger] self.stands(qs, given),
                forall|j: int| start.at <= j < self.at ==> !is_asked((#[trigger] questions@[j])@),
            decreases questions@.len() - self.at,
        {
            let i: usize = self.at;
            let q = &questions[i];
            let ghost before = *self;
            proof {
                assert(qs.take(i + 1).drop_last() =~= qs.take(i as int));
                assert(qs.take(i + 1).last() == q@);
            }
            if same(q.status.as_str(), "passed") {
                let score: u32 = match q.score {
                    Some(s) => s,
                    None => 0,
                };
                let s = Scored { kind: q.kind.clone(), score };
                proof {
                    assert(scored_models(self.scores@.push(s)) =~= scored_models(self.scores@).push(
                        ScoredModel { kind: q.kind@, score },
                    ));
                }
                self.scores.push(s);
                self.at = i + 1;
                proof {
                    assert forall|given: Seq<u32>| start.stands(qs, given) implies
                        #[trigger] self.stands(qs, given) by {
                        assert(before.stands(qs, given));
                    }
                }
            } else if is_taken_out(q.status.as_str()) {
                self.at = i + 1;
                proof {
                    assert forall|given: Seq<u32>| start.stands(qs, given) implies
                        #[trigger] self.stands(qs, given) by {
                        assert(before.stands(qs, given));
                    }
                }
            } else {
                return Some(i);
            }
        }
        None
    }

    /// Takes in the score of the question that was asked.
    pub fn answered(&mut self, questions: &[Question], score: u32)
        requires
            old(self).at < questions@.len(),
            is_asked(questions@[old(self).at as int]@),
        ensures
            final(self).at == old(self).at + 1,
            forall|given: Seq<u32>|
                old(self).stands(question_models(questions@), given) ==> final(self).stands(
                    question_models(questions@),
                    #[trigger] given.push(score),
                ),
    {
        let ghost qs = question_models(questions@);
        let ghost before = *self;
        let i: usize = self.at;
        let q = &questions[i];
        let s = Scored { kind: q.kind.clone(), score };
        proof {
            assert(qs.take(i + 1).drop_last() =~= qs.take(i as int));
            assert(qs.take(i + 1).last() == q@);
            assert(scored_models(self.scores@.push(s)) =~= scored_models(self.scores@).push(
                ScoredModel { kind: q.kind@, score },
            ));
        }
        self.scores.push(s);
        self.at = i + 1;
        proof {
            assert forall|given: Seq<u32>| before.stands(qs, given) implies self.stands(
                qs,
                #[trigger] given.push(score),
            ) by {
                assert(given.push(score).drop_last() =~= given);
            }
        }
    }
}

// ---------------------------------------------------------------- one question

/// How a question is put.
pub open spec fn question_text(q: QuestionModel, n: nat, total: nat) -> Seq<char> {
    "── "@ + decimal(n) + "/"@ + decimal(total) + " · "@ + q.kind + " · "@ + q.file + "\n"@ + q.text
        + "\n"@
}

/// How a question is put.
pub fn question_prompt(q: &Question, n: usize, total: usize) -> (r: String)
    ensures
        r@ == question_text(q@, n as nat, total as nat),
{
    "── ".to_owned().concat(show_usize(n).as_str()).concat("/").concat(
        show_usize(total).as_str(),
    ).concat(" · ").concat(q.kind.as_str()).concat(" · ").concat(q.file.as_str()).concat(
        "\n",
    ).concat(q.text.as_str()).concat("\n")
}

/// The verdict on an answer that needs no judge: one that cites nothing of the diff is wrong.
pub fn precheck(answer: &str, hunks: &[Hunk]) -> (r: Option<Verdict>)
    ensures
        match r {
            Some(v) => !cites(answer@, hunk_models(hunks@)) && v.label == Label::Wrong && v.feedback@
                == cites_nothing_text(),
            None => cites(answer@, hunk_models(hunks@)),
        },
{
    if cites_the_diff(answer, hunks) {
        None
    } else {
        Some(
            Verdict {
                label: Label::Wrong,
                feedback: "Cites nothing from the diff — name an identifier, file or line.".to_owned(),
            },
        )
    }
}

/// What came of an answer.
#[derive(Debug)]
pub struct Answered {
    pub score: u32,
    /// What to say of it.
    pub line: String,
    /// Whether what the respondent saw is to be compared with what was predicted. That pass
    /// carries no label and cannot move the score.
    pub compare: bool,
}

/// Records an answer with its verdict.
pub fn record_answer(
    records: &mut Records,
    q: &Question,
    answer: &str,
    verdict: &Verdict,
    judge_model: &str,
    now: &str,
) -> (r: Result<Answered, RecordError>)
    ensures
        r is Ok <==> old(records)@.has_question(q.id),
        r matches Err(e) ==> e == RecordError::NoQuestion,
        final(records)@ == if r is Ok {
            with_attempt(
                old(records)@,
                AttemptModel {
                    question_id: q.id,
                    mode: "answer"@,
                    body: answer@,
                    hints_used: 0,
                    label: verdict.label.name(),
                    score: Some(verdict.label.points()),
                    feedback: verdict.feedback@,
                    judge_model: judge_model@,
                    created_at: now@,
                },
                verdict.label.points(),
            )
        } else {
            old(records)@
        },
        old(records)@.wf() ==> final(records)@.wf(),
        r matches Ok(a) ==> {
            &&& a.score == verdict.label.points()
            &&& a.line@ == "  "@ + verdict.label.name() + " — "@ + verdict.feedback@ + "\n"@
            &&& a.compare == (q@.kind == "exercise"@ && verdict.label.points() > 0)
        },
{
    let score: u32 = verdict.label.score();
    match record_attempt(
        records,
        q.id,
        "answer",
        answer,
        0,
        verdict.label.as_str(),
        score,
        verdict.feedback.as_str(),
        judge_model,
        now,
    ) {
        Err(e) => Err(e),
        Ok(()) => Ok(
            Answered {
                score,
                line: "  ".to_owned().concat(verdict.label.as_str()).concat(" — ").concat(
                    verdict.feedback.as_str(),
                ).concat("\n"),
                compare: same(q.kind.as_str(), "exercise") && score > 0,
            },
        ),
    }
}

} // verus!
