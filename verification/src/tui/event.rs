//! What comes back from the judge, on the quiz screen and in the record.

use vstd::prelude::*;
use vstd::string::StringExecFns;
use crate::db::{
    dispute_label, gate_of, open_obligation, question_models, record_attempt, record_dispute,
    set_question_status, with_attempt, with_dispute, with_obligation, with_status, AttemptModel,
    Question, QuestionModel, RecordError, Records, RecordsModel,
};
use crate::llm::{Label, PARTIAL};
use crate::text::chars::same;
use crate::text::number::{decimal, show_usize};
use crate::tui::app::{App, AppModel, Pending, PendingModel, SlotModel, STATUS_REVIEWING};

verus! {

/// What comes back from the judge. A call takes tens of seconds, so it is made elsewhere.
#[derive(Debug)]
pub enum AppEvent {
    Graded { question_id: i64, label: Label, feedback: String },
    Failed { question_id: i64, error: String },
    /// A ruling on the claim that the question, its reference answer or the code is wrong.
    Disputed { question_id: i64, upheld: bool, kind: String, feedback: String },
}

/// The first question with this identifier.
pub open spec fn place_of(qs: Seq<QuestionModel>, id: i64) -> Option<int>
    decreases qs.len(),
{
    if qs.len() == 0 {
        None
    } else if qs.last().id == id && place_of(qs.drop_last(), id) is None {
        Some(qs.len() - 1)
    } else {
        place_of(qs.drop_last(), id)
    }
}

proof fn place_of_meaning(qs: Seq<QuestionModel>, id: i64)
    ensures
        match place_of(qs, id) {
            Some(i) => 0 <= i < qs.len() && qs[i].id == id && forall|j: int|
                0 <= j < i ==> (#[trigger] qs[j]).id != id,
            None => forall|j: int| 0 <= j < qs.len() ==> (#[trigger] qs[j]).id != id,
        },
    decreases qs.len(),
{
    if qs.len() > 0 {
        place_of_meaning(qs.drop_last(), id);
        let d = qs.drop_last();
        match place_of(d, id) {
            Some(i) => {
                assert(d[i] == qs[i]);
                assert forall|j: int| 0 <= j < i implies (#[trigger] qs[j]).id != id by {
                    assert(d[j] == qs[j]);
                }
            },
            None => {
                assert forall|j: int| 0 <= j < d.len() implies (#[trigger] qs[j]).id != id by {
                    assert(d[j] == qs[j]);
                }
            },
        }
    }
}

/// A number of hints as it is recorded.
pub open spec fn hints_recorded(n: usize) -> i64 {
    if n <= i64::MAX {
        n as i64
    } else {
        i64::MAX
    }
}

/// What was graded: the answer as it was submitted, or else what stands in the slot.
pub open spec fn graded_answer(slot: SlotModel) -> PendingModel {
    match slot.pending {
        Some(p) => p,
        None => PendingModel { answer: slot.answer, hints_used: slot.hints_shown },
    }
}

/// What is recorded of a grade.
pub open spec fn grade_record(
    id: i64,
    graded: PendingModel,
    label: Label,
    feedback: Seq<char>,
    model: Seq<char>,
    now: Seq<char>,
) -> AttemptModel {
    AttemptModel {
        question_id: id,
        mode: "answer"@,
        body: graded.answer,
        hints_used: hints_recorded(graded.hints_used),
        label: label.name(),
        score: Some(label.points()),
        feedback,
        judge_model: model,
        created_at: now,
    }
}

/// A question with its grade. It is passed from `partial` on, and otherwise keeps its
/// status.
pub open spec fn graded_question(q: QuestionModel, label: Label) -> QuestionModel {
    QuestionModel {
        status: if label.points() >= PARTIAL {
            "passed"@
        } else {
            q.status
        },
        label: Some(label.name()),
        score: Some(label.points()),
        ..q
    }
}

/// How many answers failed, with one more that was graded like this.
pub open spec fn failures_after(n: usize, label: Label) -> usize {
    if label.points() < PARTIAL && n < usize::MAX {
        (n + 1) as usize
    } else {
        n
    }
}

fn count_failure(n: usize, label: Label) -> (r: usize)
    ensures
        r == failures_after(n, label),
{
    if label.score() < PARTIAL && n < usize::MAX {
        n + 1
    } else {
        n
    }
}

/// The screen once a grade came back for the question at `i`.
pub open spec fn screen_graded(a: AppModel, i: int, label: Label, feedback: Seq<char>) -> AppModel {
    AppModel {
        questions: a.questions.update(i, graded_question(a.questions[i], label)),
        slots: a.slots.update(
            i,
            SlotModel {
                pending: None,
                verdict: Some((label, feedback)),
                failures: failures_after(a.slots[i].failures, label),
                ..a.slots[i]
            },
        ),
        scores: a.scores.update(i, label.points()),
        status: if i == a.current {
            STATUS_REVIEWING@
        } else {
            "question "@ + decimal((i + 1) as nat) + " graded: "@ + label.name()
        },
        ..a
    }
}

/// The screen where a grade came back that could not be recorded.
pub open spec fn screen_unrecorded(a: AppModel, i: int, label: Label) -> AppModel {
    AppModel {
        slots: a.slots.update(i, SlotModel { pending: None, ..a.slots[i] }),
        scores: a.scores.update(i, label.points()),
        ..a
    }
}

/// The screen once a call failed for the question at `i`.
pub open spec fn screen_failed(a: AppModel, i: Option<int>, error: Seq<char>) -> AppModel {
    match i {
        Some(i) => AppModel {
            slots: a.slots.update(i, SlotModel { pending: None, dispute: None, ..a.slots[i] }),
            status: if a.slots[i].dispute is Some {
                "the dispute failed: "@ + error
            } else {
                "grading failed: "@ + error
            },
            ..a
        },
        None => AppModel { status: "grading failed: "@ + error, ..a },
    }
}

/// The status of a question after a ruling: out of the quiz where the claim was upheld.
pub open spec fn ruled_status(kind: Seq<char>) -> Seq<char> {
    if kind == "code_bug"@ {
        "deferred"@
    } else {
        "waived"@
    }
}

/// What is said of a ruling.
pub open spec fn ruling_note(upheld: bool, kind: Seq<char>, feedback: Seq<char>) -> Seq<char> {
    if upheld {
        "dispute upheld ("@ + kind + "): "@ + feedback
    } else {
        "dispute rejected: "@ + feedback
    }
}

/// The claim that a ruling is on.
pub open spec fn claim_of(slot: SlotModel) -> Seq<char> {
    match slot.dispute {
        Some(claim) => claim,
        None => Seq::empty(),
    }
}

/// What is recorded of a dispute.
pub open spec fn dispute_record(
    id: i64,
    claim: Seq<char>,
    upheld: bool,
    kind: Seq<char>,
    feedback: Seq<char>,
    model: Seq<char>,
    now: Seq<char>,
) -> AttemptModel {
    AttemptModel {
        question_id: id,
        mode: "dispute"@,
        body: claim,
        hints_used: 0,
        label: dispute_label(upheld, kind),
        score: None,
        feedback,
        judge_model: model,
        created_at: now,
    }
}

/// The record once a ruling came back. A rejected dispute changes nothing but the record of
/// it; an upheld one takes the question out of the quiz, and opens an obligation where the
/// code was found wrong.
pub open spec fn records_ruled(
    r: RecordsModel,
    id: i64,
    claim: Seq<char>,
    upheld: bool,
    kind: Seq<char>,
    feedback: Seq<char>,
    model: Seq<char>,
    now: Seq<char>,
) -> RecordsModel {
    let disputed = with_dispute(r, dispute_record(id, claim, upheld, kind, feedback, model, now));
    if upheld {
        let owed = if kind == "code_bug"@ {
            with_obligation(disputed, id, claim, now)
        } else {
            disputed
        };
        RecordsModel { questions: with_status(owed.questions, id, ruled_status(kind)), ..owed }
    } else {
        disputed
    }
}

/// The screen once a ruling came back for the question at `i`.
pub open spec fn screen_ruled(
    a: AppModel,
    i: int,
    upheld: bool,
    kind: Seq<char>,
    feedback: Seq<char>,
) -> AppModel {
    AppModel {
        questions: if upheld {
            a.questions.update(
                i,
                QuestionModel { status: ruled_status(kind), ..a.questions[i] },
            )
        } else {
            a.questions
        },
        slots: a.slots.update(
            i,
            SlotModel {
                dispute: None,
                note: Some(ruling_note(upheld, kind, feedback)),
                ..a.slots[i]
            },
        ),
        status: if upheld {
            "question "@ + decimal((i + 1) as nat) + " "@ + ruled_status(kind)
        } else {
            "dispute on question "@ + decimal((i + 1) as nat) + " rejected"@
        },
        ..a
    }
}

/// What an event does to the screen and to the record, and whether it could be recorded.
pub open spec fn event_result(
    a: AppModel,
    r: RecordsModel,
    ev: AppEvent,
    model: Seq<char>,
    now: Seq<char>,
) -> (AppModel, RecordsModel, bool) {
    match ev {
        AppEvent::Graded { question_id, label, feedback } => match place_of(
            a.questions,
            question_id,
        ) {
            Some(i) => if r.has_question(question_id) {
                (
                    screen_graded(a, i, label, feedback@),
                    with_attempt(
                        r,
                        grade_record(
                            question_id,
                            graded_answer(a.slots[i]),
                            label,
                            feedback@,
                            model,
                            now,
                        ),
                        label.points(),
                    ),
                    true,
                )
            } else {
                (screen_unrecorded(a, i, label), r, false)
            },
            None => (a, r, true),
        },
        AppEvent::Failed { question_id, error } => (
            screen_failed(a, place_of(a.questions, question_id), error@),
            r,
            true,
        ),
        AppEvent::Disputed { question_id, upheld, kind, feedback } => match place_of(
            a.questions,
            question_id,
        ) {
            Some(i) => if r.has_question(question_id) {
                (
                    screen_ruled(a, i, upheld, kind@, feedback@),
                    records_ruled(
                        r,
                        question_id,
                        claim_of(a.slots[i]),
                        upheld,
                        kind@,
                        feedback@,
                        model,
                        now,
                    ),
                    true,
                )
            } else {
                (
                    AppModel {
                        slots: a.slots.update(i, SlotModel { dispute: None, ..a.slots[i] }),
                        ..a
                    },
                    r,
                    false,
                )
            },
            None => (a, r, true),
        },
    }
}

fn find_place(questions: &[Question], id: i64) -> (r: Option<usize>)
    ensures
        match r {
            Some(i) => i < questions@.len() && place_of(question_models(questions@), id) == Some(
                i as int,
            ),
            None => place_of(question_models(questions@), id) is None,
        },
{
    let ghost qs = question_models(questions@);
    let mut i: usize = 0;
    while i < questions.len() && questions[i].id != id
        invariant
            i <= questions@.len(),
            qs == question_models(questions@),
            forall|j: int| 0 <= j < i ==> (#[trigger] qs[j]).id != id,
        decreases questions@.len() - i,
    {
        assert(qs[i as int] == questions@[i as int]@);
        i += 1;
    }
    proof {
        place_of_meaning(qs, id);
        if i < questions@.len() {
            assert(qs[i as int] == questions@[i as int]@);
        }
    }
    if i < questions.len() {
        Some(i)
    } else {
        None
    }
}

fn record_hints(n: usize) -> (r: i64)
    ensures
        r == hints_recorded(n),
{
    if n as u128 <= i64::MAX as u128 {
        n as i64
    } else {
        i64::MAX
    }
}

impl App {
    /// Takes in what came back from the judge: on the screen, and in the record. The
    /// verdict belongs to the question it was asked about, not to whatever is on the screen
    /// when it lands, and is recorded against the answer as it was submitted.
    pub fn on_event(&mut self, ev: AppEvent, records: &mut Records, judge_model: &str, now: &str) -> (r:
        Result<(), RecordError>)
        requires
            old(self)@.wf(),
        ensures
            ({
                let result = event_result(old(self)@, old(records)@, ev, judge_model@, now@);
                &&& final(self)@ == result.0
                &&& final(records)@ == result.1
                &&& r is Ok <==> result.2
            }),
            r matches Err(e) ==> e == RecordError::NoQuestion,
            final(self)@.wf(),
            old(records)@.wf() ==> final(records)@.wf(),
    {
        match ev {
            AppEvent::Graded { question_id, label, feedback } => {
                self.take_grade(question_id, label, feedback, records, judge_model, now)
            },
            AppEvent::Failed { question_id, error } => {
                self.take_failure(question_id, error);
                Ok(())
            },
            AppEvent::Disputed { question_id, upheld, kind, feedback } => {
                self.take_ruling(question_id, upheld, kind, feedback, records, judge_model, now)
            },
        }
    }

    fn take_grade(
        &mut self,
        question_id: i64,
        label: Label,
        feedback: String,
        records: &mut Records,
        judge_model: &str,
        now: &str,
    ) -> (r: Result<(), RecordError>)
        requires
            old(self)@.wf(),
        ensures
            ({
                let result = event_result(
                    old(self)@,
                    old(records)@,
                    AppEvent::Graded { question_id, label, feedback },
                    judge_model@,
                    now@,
                );
                &&& final(self)@ == result.0
                &&& final(records)@ == result.1
                &&& r is Ok <==> result.2
            }),
            r matches Err(e) ==> e == RecordError::NoQuestion,
            final(self)@.wf(),
            old(records)@.wf() ==> final(records)@.wf(),
    {
        let ghost a = self@;
        let ghost r0 = records@;
        let i: usize = match find_place(&self.questions, question_id) {
            Some(i) => i,
            None => {
                return Ok(());
            },
        };
        proof {
            place_of_meaning(a.questions, question_id);
            assert(a.slots[i as int] == self.slots@[i as int]@);
            assert(a.questions[i as int] == self.questions@[i as int]@);
        }
        let graded: Pending = match self.slots[i].pending.take() {
            Some(p) => p,
            None => Pending {
                answer: self.slots[i].answer.clone(),
                hints_used: self.slots[i].hints_shown,
            },
        };
        self.scores.set(i, label.score());
        proof {
            assert(self@.slots =~= a.slots.update(
                i as int,
                SlotModel { pending: None, ..a.slots[i as int] },
            ));
        }
        let outcome = record_attempt(
            records,
            question_id,
            "answer",
            graded.answer.as_str(),
            record_hints(graded.hints_used),
            label.as_str(),
            label.score(),
            feedback.as_str(),
            judge_model,
            now,
        );
        if outcome.is_err() {
            return outcome;
        }
        if label.score() >= PARTIAL {
            self.questions[i].status = "passed".to_owned();
        }
        self.questions[i].label = Some(label.as_str().to_owned());
        self.questions[i].score = Some(label.score());
        self.slots[i].verdict = Some((label, feedback));
        self.slots[i].failures = count_failure(self.slots[i].failures, label);
        self.status = if i == self.current {
            STATUS_REVIEWING.to_owned()
        } else {
            let total: usize = self.questions.len();
            "question ".to_owned().concat(show_usize(i + 1).as_str()).concat(" graded: ").concat(
                label.as_str(),
            )
        };
        proof {
            let b = screen_graded(a, i as int, label, feedback@);
            assert(self.questions@[i as int]@ == b.questions[i as int]);
            assert(self@.questions =~= b.questions);
            assert(self.slots@[i as int]@ == b.slots[i as int]);
            assert(self@.slots =~= b.slots);
            assert(self@.scores =~= b.scores);
            assert(self@ == b);
        }
        Ok(())
    }

    fn take_failure(&mut self, question_id: i64, error: String)
        requires
            old(self)@.wf(),
        ensures
            final(self)@ == screen_failed(
                old(self)@,
                place_of(old(self)@.questions, question_id),
                error@,
            ),
            final(self)@.wf(),
    {
        let ghost a = self@;
        let mut what: &str = "grading failed: ";
        if let Some(i) = find_place(&self.questions, question_id) {
            proof {
                assert(a.slots[i as int] == self.slots@[i as int]@);
            }
            if self.slots[i].dispute.is_some() {
                what = "the dispute failed: ";
            }
            self.slots[i].dispute = None;
            self.slots[i].pending = None;
            proof {
                let b = screen_failed(a, Some(i as int), error@);
                assert(self.slots@[i as int]@ == b.slots[i as int]);
                assert(self@.slots =~= b.slots);
            }
        }
        self.status = what.to_owned().concat(error.as_str());
    }

    fn take_ruling(
        &mut self,
        question_id: i64,
        upheld: bool,
        kind: String,
        feedback: String,
        records: &mut Records,
        judge_model: &str,
        now: &str,
    ) -> (r: Result<(), RecordError>)
        requires
            old(self)@.wf(),
        ensures
            ({
                let result = event_result(
                    old(self)@,
                    old(records)@,
                    AppEvent::Disputed { question_id, upheld, kind, feedback },
                    judge_model@,
                    now@,
                );
                &&& final(self)@ == result.0
                &&& final(records)@ == result.1
                &&& r is Ok <==> result.2
            }),
            r matches Err(e) ==> e == RecordError::NoQuestion,
            final(self)@.wf(),
            old(records)@.wf() ==> final(records)@.wf(),
    {
        let ghost a = self@;
        let i: usize = match find_place(&self.questions, question_id) {
            Some(i) => i,
            None => {
                return Ok(());
            },
        };
        proof {
            place_of_meaning(a.questions, question_id);
            assert(a.slots[i as int] == self.slots@[i as int]@);
            assert(a.questions[i as int] == self.questions@[i as int]@);
        }
        let claim: String = match self.slots[i].dispute.take() {
            Some(claim) => claim,
            None => String::new(),
        };
        proof {
            assert(self.slots@[i as int]@ == (SlotModel { dispute: None, ..a.slots[i as int] }));
            assert(self@.slots =~= a.slots.update(
                i as int,
                SlotModel { dispute: None, ..a.slots[i as int] },
            ));
            assert(claim@ =~= claim_of(a.slots[i as int]));
        }
        let outcome = record_dispute(
            records,
            question_id,
            claim.as_str(),
            upheld,
            kind.as_str(),
            feedback.as_str(),
            judge_model,
            now,
        );
        if outcome.is_err() {
            return outcome;
        }
        let total: usize = self.questions.len();
        if upheld {
            let status: &str = if same(kind.as_str(), "code_bug") {
                open_obligation(records, question_id, claim.as_str(), now);
                "deferred"
            } else {
                "waived"
            };
            set_question_status(records, question_id, status);
            self.questions[i].status = status.to_owned();
            self.slots[i].note = Some(
                "dispute upheld (".to_owned().concat(kind.as_str()).concat("): ").concat(
                    feedback.as_str(),
                ),
            );
            self.status = "question ".to_owned().concat(show_usize(i + 1).as_str()).concat(
                " ",
            ).concat(status);
        } else {
            self.slots[i].note = Some("dispute rejected: ".to_owned().concat(feedback.as_str()));
            self.status = "dispute on question ".to_owned().concat(
                show_usize(i + 1).as_str(),
            ).concat(" rejected");
        }
        proof {
            let b = screen_ruled(a, i as int, upheld, kind@, feedback@);
            assert(self.questions@[i as int]@ == b.questions[i as int]);
            assert(self@.questions =~= b.questions);
            assert(self.slots@[i as int]@ == b.slots[i as int]);
            assert(self@.slots =~= b.slots);
            assert(self@ == b);
        }
        Ok(())
    }
}

// ---------------------------------------------------------------- laws

/// A verdict lands on the question it was asked about and on no other, and what is recorded
/// is the answer as it was submitted.
pub proof fn a_verdict_lands_on_its_own_question(
    a: AppModel,
    r: RecordsModel,
    i: int,
    j: int,
    label: Label,
    feedback: String,
    model: Seq<char>,
    now: Seq<char>,
)
    requires
        a.wf(),
        0 <= i < a.questions.len(),
        place_of(a.questions, a.questions[i].id) == Some(i),
        r.has_question(a.questions[i].id),
        0 <= j < a.questions.len(),
        j != i,
    ensures
        ({
            let ev = AppEvent::Graded { question_id: a.questions[i].id, label, feedback };
            let result = event_result(a, r, ev, model, now);
            &&& result.2
            &&& result.0.scores[i] == label.points()
            &&& result.0.slots[i].verdict == Some((label, feedback@))
            &&& result.0.slots[i].pending is None
            &&& result.0.slots[i].answer == a.slots[i].answer
            &&& result.0.scores[j] == a.scores[j]
            &&& result.0.slots[j] == a.slots[j]
            &&& result.0.questions[j] == a.questions[j]
            &&& result.1.attempts.last().body == graded_answer(a.slots[i]).answer
            &&& result.1.attempts.last().question_id == a.questions[i].id
        }),
{
}

/// A rejected dispute is recorded and changes nothing: the grade that it argued with stands,
/// and the question is still there to answer.
pub proof fn a_rejected_dispute_changes_nothing(
    a: AppModel,
    r: RecordsModel,
    i: int,
    kind: String,
    feedback: String,
    model: Seq<char>,
    now: Seq<char>,
)
    requires
        a.wf(),
        0 <= i < a.questions.len(),
        place_of(a.questions, a.questions[i].id) == Some(i),
        r.has_question(a.questions[i].id),
    ensures
        ({
            let id = a.questions[i].id;
            let ev = AppEvent::Disputed { question_id: id, upheld: false, kind, feedback };
            let result = event_result(a, r, ev, model, now);
            &&& result.2
            &&& result.0.questions == a.questions
            &&& result.0.scores == a.scores
            &&& result.0.slots[i].verdict == a.slots[i].verdict
            &&& result.0.slots[i].dispute is None
            &&& result.1.questions == r.questions
            &&& result.1.obligations == r.obligations
            &&& result.1.attempts.len() == r.attempts.len() + 1
            &&& result.1.attempts.last().label == "rejected"@
            &&& result.1.attempts.last().body == claim_of(a.slots[i])
        }),
{
}

/// An upheld dispute takes the question out of the quiz, on the screen and in the record,
/// and leaves its grade as it was. Where the code was found wrong it opens one obligation,
/// which says what was claimed; otherwise none.
pub proof fn an_upheld_dispute_takes_the_question_out(
    a: AppModel,
    r: RecordsModel,
    i: int,
    k: int,
    kind: String,
    feedback: String,
    model: Seq<char>,
    now: Seq<char>,
)
    requires
        a.wf(),
        0 <= i < a.questions.len(),
        place_of(a.questions, a.questions[i].id) == Some(i),
        0 <= k < r.questions.len(),
        r.questions[k].question.id == a.questions[i].id,
    ensures
        ({
            let id = a.questions[i].id;
            let ev = AppEvent::Disputed { question_id: id, upheld: true, kind, feedback };
            let result = event_result(a, r, ev, model, now);
            &&& result.2
            &&& crate::tui::app::taken_out(result.0.questions[i].status)
            &&& result.0.questions[i].score == a.questions[i].score
            &&& result.0.questions[i].label == a.questions[i].label
            &&& result.1.questions[k].question.status == result.0.questions[i].status
            &&& result.1.questions[k].question.score == r.questions[k].question.score
            &&& kind@ == "code_bug"@ ==> {
                &&& result.0.questions[i].status == "deferred"@
                &&& result.1.obligations.len() == r.obligations.len() + 1
                &&& result.1.obligations.last().body == claim_of(a.slots[i])
            }
            &&& kind@ != "code_bug"@ ==> {
                &&& result.0.questions[i].status == "waived"@
                &&& result.1.obligations == r.obligations
            }
        }),
{
    let id = a.questions[i].id;
    gate_of_listed(r.questions, k);
}

proof fn gate_of_listed(rows: Seq<crate::db::QuestionRowModel>, k: int)
    requires
        0 <= k < rows.len(),
    ensures
        gate_of(rows, rows[k].question.id) is Some,
    decreases rows.len(),
{
    if rows[0].question.id != rows[k].question.id {
        assert(rows.skip(1)[k - 1] == rows[k]);
        gate_of_listed(rows.skip(1), k - 1);
    }
}

/// Which question an event is about.
pub open spec fn event_question(ev: AppEvent) -> i64 {
    match ev {
        AppEvent::Graded { question_id, .. } => question_id,
        AppEvent::Failed { question_id, .. } => question_id,
        AppEvent::Disputed { question_id, .. } => question_id,
    }
}

/// The screen mirrors the record: where a question is on the screen as it is recorded, it is
/// so again after an event about any question. A question that is settled and then graded
/// below `partial` is left out: it is open again in the record and keeps its status on the
/// screen.
pub proof fn the_screen_mirrors_the_record(
    a: AppModel,
    r: RecordsModel,
    i: int,
    k: int,
    ev: AppEvent,
    model: Seq<char>,
    now: Seq<char>,
)
    requires
        a.wf(),
        0 <= i < a.questions.len(),
        place_of(a.questions, a.questions[i].id) == Some(i),
        0 <= k < r.questions.len(),
        r.questions[k].question == a.questions[i],
        (ev matches AppEvent::Graded { question_id, label, .. } && question_id == a.questions[i].id
            && label.points() < PARTIAL) ==> a.questions[i].status == "open"@,
    ensures
        event_result(a, r, ev, model, now).2 ==> event_result(a, r, ev, model, now).1.questions[k].question
            == event_result(a, r, ev, model, now).0.questions[i],
        event_question(ev) == a.questions[i].id ==> event_result(a, r, ev, model, now).2,
{
    let id = event_question(ev);
    place_of_meaning(a.questions, id);
    if id == a.questions[i].id {
        gate_of_listed(r.questions, k);
    }
}

/// A failed call leaves the answer, the grade and the record as they were, and frees the
/// question: it can be submitted again.
pub proof fn a_failed_call_frees_the_question(
    a: AppModel,
    r: RecordsModel,
    i: int,
    error: String,
    model: Seq<char>,
    now: Seq<char>,
)
    requires
        a.wf(),
        0 <= i < a.questions.len(),
        place_of(a.questions, a.questions[i].id) == Some(i),
    ensures
        ({
            let ev = AppEvent::Failed { question_id: a.questions[i].id, error };
            let result = event_result(a, r, ev, model, now);
            &&& result.1 == r
            &&& result.0.questions == a.questions
            &&& result.0.scores == a.scores
            &&& result.0.slots[i].answer == a.slots[i].answer
            &&& result.0.slots[i].pending is None
            &&& result.0.slots[i].dispute is None
        }),
{
}

} // verus!
