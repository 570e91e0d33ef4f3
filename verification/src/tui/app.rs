//! The state of the quiz screen.

use vstd::prelude::*;
use vstd::string::StringExecFns;
use crate::db::{question_models, Question, QuestionModel};
use crate::gate::Scored;
use crate::git::{hunk_models, Hunk, HunkModel};
use crate::llm::Label;
use crate::llm::generate::optional_text;
use crate::text::chars::same;
use crate::text::number::{decimal, show_usize};
use crate::text::search::{ends_with, has_suffix};
use crate::text::split::{join, joined, texts};
use crate::tui::diff::{row_models, DiffLine, DiffLineModel};

verus! {

/// What the current question is waiting for.
#[derive(Debug, Clone, Copy, PartialEq, Eq, Structural)]
pub enum Mode {
    /// Typing an answer.
    Answering,
    /// A judge call is in flight.
    Grading,
    /// Verdict shown; space moves on.
    Reviewing,
}

/// What has been sent to the judge and not yet come back, with the answer as it was
/// submitted: you move on and revise while the call is in flight, and the verdict must be
/// recorded against the text that was actually graded.
#[derive(Debug)]
pub struct Pending {
    pub answer: String,
    pub hints_used: usize,
}

/// A pending answer as its text and number.
pub struct PendingModel {
    pub answer: Seq<char>,
    pub hints_used: usize,
}

/// The state of one question on the screen.
#[derive(Debug)]
pub struct Slot {
    pub answer: String,
    pub hints_shown: usize,
    pub verdict: Option<(Label, String)>,
    /// How many answers were graded below `partial`.
    pub failures: usize,
    pub pending: Option<Pending>,
    /// The claim currently with the judge, held for the same reason `pending` is: the
    /// ruling is recorded against what was actually argued.
    pub dispute: Option<String>,
    /// What the judge made of a dispute, shown under the verdict. A rejected dispute leaves
    /// the grade untouched.
    pub note: Option<String>,
}

/// The state of one question as its texts and numbers.
pub struct SlotModel {
    pub answer: Seq<char>,
    pub hints_shown: usize,
    pub verdict: Option<(Label, Seq<char>)>,
    pub failures: usize,
    pub pending: Option<PendingModel>,
    pub dispute: Option<Seq<char>>,
    pub note: Option<Seq<char>>,
}

impl View for Slot {
    type V = SlotModel;

    open spec fn view(&self) -> SlotModel {
        SlotModel {
            answer: self.answer@,
            hints_shown: self.hints_shown,
            verdict: match self.verdict {
                Some((label, feedback)) => Some((label, feedback@)),
                None => None,
            },
            failures: self.failures,
            pending: match self.pending {
                Some(p) => Some(PendingModel { answer: p.answer@, hints_used: p.hints_used }),
                None => None,
            },
            dispute: optional_text(self.dispute),
            note: optional_text(self.note),
        }
    }
}

impl SlotModel {
    /// Whether the reference answer may be read: once an answer demonstrated understanding,
    /// or a second one failed.
    pub open spec fn reveals(self) -> bool {
        (self.verdict matches Some(v) && v.0 == Label::Demonstrates) || self.failures >= 2
    }
}

/// The state of a question that nothing was done about yet.
pub open spec fn empty_slot() -> SlotModel {
    SlotModel {
        answer: Seq::empty(),
        hints_shown: 0,
        verdict: None,
        failures: 0,
        pending: None,
        dispute: None,
        note: None,
    }
}

impl Default for Slot {
    fn default() -> (r: Self)
        ensures
            r@ == empty_slot(),
    {
        Slot {
            answer: String::new(),
            hints_shown: 0,
            verdict: None,
            failures: 0,
            pending: None,
            dispute: None,
            note: None,
        }
    }
}

/// The quiz screen.
#[derive(Debug)]
pub struct App {
    pub questions: Vec<Question>,
    pub current: usize,
    pub slots: Vec<Slot>,
    /// In tenths, in the order of the questions.
    pub scores: Vec<u32>,
    pub diff: Vec<DiffLine>,
    pub scroll: u16,
    /// Horizontal offset. Code lines routinely exceed the pane, and wrapping them would
    /// destroy the indentation that makes code readable.
    pub hscroll: u16,
    /// Rows the diff pane last drew, so scrolling can be clamped to content.
    pub viewport: u16,
    pub status: String,
    pub quit: bool,
}

/// The quiz screen as its texts and numbers.
pub struct AppModel {
    pub questions: Seq<QuestionModel>,
    pub current: usize,
    pub slots: Seq<SlotModel>,
    pub scores: Seq<u32>,
    pub diff: Seq<DiffLineModel>,
    pub scroll: u16,
    pub hscroll: u16,
    pub viewport: u16,
    pub status: Seq<char>,
    pub quit: bool,
}

/// The texts and numbers of a list of slots.
pub open spec fn slot_models(slots: Seq<Slot>) -> Seq<SlotModel> {
    Seq::new(slots.len(), |i: int| slots[i]@)
}

impl View for App {
    type V = AppModel;

    open spec fn view(&self) -> AppModel {
        AppModel {
            questions: question_models(self.questions@),
            current: self.current,
            slots: slot_models(self.slots@),
            scores: self.scores@,
            diff: row_models(self.diff@),
            scroll: self.scroll,
            hscroll: self.hscroll,
            viewport: self.viewport,
            status: self.status@,
            quit: self.quit,
        }
    }
}

/// Shown while an answer is to be written.
pub const STATUS_ANSWERING: &'static str =
    "a answer · h hint · d dispute · tab/1-9 question · n/p hunk · g back · q quit";

/// Shown while an answer is to be submitted.
pub const STATUS_ANSWERED: &'static str =
    "^s submit & move on · e revise · h hint · d dispute · tab/1-9 question · q quit";

/// Shown while a verdict is to be read.
pub const STATUS_REVIEWING: &'static str =
    "space next · e revise · d dispute · tab/1-9 question · g back · q quit";

// ---------------------------------------------------------------- settled

/// Whether nobody is going to answer a question again: it is passed, or an upheld dispute
/// took it out of the quiz.
pub open spec fn settled(status: Seq<char>) -> bool {
    status == "passed"@ || status == "waived"@ || status == "deferred"@
}

/// Whether an upheld dispute took a question out of the quiz.
pub open spec fn taken_out(status: Seq<char>) -> bool {
    status == "waived"@ || status == "deferred"@
}

/// Whether nobody is going to answer a question again. `waived` was the question's own
/// fault and `deferred` is a bug the code owes you: neither is a score you can earn.
pub fn is_settled(status: &str) -> (r: bool)
    ensures
        r == settled(status@),
{
    same(status, "passed") || same(status, "waived") || same(status, "deferred")
}

/// Whether an upheld dispute took a question out of the quiz.
pub fn is_taken_out(status: &str) -> (r: bool)
    ensures
        r == taken_out(status@),
{
    same(status, "waived") || same(status, "deferred")
}

/// The place of the first question that is not settled, or the number of questions.
pub open spec fn first_open(qs: Seq<QuestionModel>) -> int
    decreases qs.len(),
{
    if qs.len() == 0 || !settled(qs[0].status) {
        0
    } else {
        1 + first_open(qs.skip(1))
    }
}

/// Where a quiz starts: at the first question that is not settled, or at the beginning.
pub open spec fn starting_place(qs: Seq<QuestionModel>) -> int {
    if first_open(qs) < qs.len() {
        first_open(qs)
    } else {
        0
    }
}

proof fn first_open_meaning(qs: Seq<QuestionModel>)
    ensures
        0 <= first_open(qs) <= qs.len(),
        forall|j: int| 0 <= j < first_open(qs) ==> settled((#[trigger] qs[j]).status),
        first_open(qs) < qs.len() ==> !settled(qs[first_open(qs)].status),
    decreases qs.len(),
{
    if qs.len() > 0 && settled(qs[0].status) {
        first_open_meaning(qs.skip(1));
        assert forall|j: int| 0 <= j < first_open(qs) implies settled((#[trigger] qs[j]).status) by {
            if j > 0 {
                assert(qs.skip(1)[j - 1] == qs[j]);
            }
        }
    }
}

/// The scores that questions carry, nothing for those without one.
pub open spec fn carried_scores(qs: Seq<QuestionModel>) -> Seq<u32> {
    Seq::new(
        qs.len(),
        |i: int|
            match qs[i].score {
                Some(s) => s,
                None => 0,
            },
    )
}

// ---------------------------------------------------------------- reading it

/// A row as an offset, as far as offsets go.
pub open spec fn as_offset(row: int) -> u16 {
    if row <= 0xffff {
        row as u16
    } else {
        0xffff
    }
}

impl AppModel {
    /// There is a slot and a score for each question, and the current question is one of
    /// them, where there are any.
    pub open spec fn wf(self) -> bool {
        &&& self.slots.len() == self.questions.len()
        &&& self.scores.len() == self.questions.len()
        &&& self.current < self.questions.len() || (self.questions.len() == 0 && self.current == 0)
    }

    /// The slot of the current question.
    pub open spec fn slot(self) -> SlotModel {
        if self.current < self.slots.len() {
            self.slots[self.current as int]
        } else {
            empty_slot()
        }
    }

    /// What the current question is waiting for.
    pub open spec fn mode(self) -> Mode {
        if self.slot().pending is Some {
            Mode::Grading
        } else if self.slot().verdict is Some {
            Mode::Reviewing
        } else {
            Mode::Answering
        }
    }

    /// The furthest useful offset. Without it scrolling runs off the end into blank space.
    pub open spec fn max_scroll(self) -> u16 {
        let viewport = if self.viewport > 1 { self.viewport } else { 1u16 };
        if self.diff.len() <= viewport {
            0
        } else {
            as_offset(self.diff.len() - viewport)
        }
    }

    /// The screen with the current question's slot changed, where there is one.
    pub open spec fn with_slot(self, slot: SlotModel) -> AppModel {
        if self.current < self.slots.len() {
            AppModel { slots: self.slots.update(self.current as int, slot), ..self }
        } else {
            self
        }
    }

    /// Whether a question still needs you: not settled, and not sitting with the judge.
    pub open spec fn needs_answer(self, i: int) -> bool {
        !settled(self.questions[i].status) && (i < self.slots.len() ==> self.slots[i].pending is None)
    }

    /// The first question that still needs you, tried from `offset` places behind the
    /// current one on, once round.
    pub open spec fn next_from(self, offset: int) -> Option<int>
        decreases self.questions.len() - offset + 1,
    {
        let n = self.questions.len() as int;
        if n == 0 || offset > n {
            None
        } else {
            let i = (self.current + offset) % n;
            if self.needs_answer(i) && i != self.current {
                Some(i)
            } else {
                self.next_from(offset + 1)
            }
        }
    }

    /// The next question that still needs you, behind the current one first.
    pub open spec fn next_unanswered(self) -> Option<int> {
        self.next_from(1)
    }
}

/// How many calls are out among the first `n` slots.
pub open spec fn calls_out(slots: Seq<SlotModel>) -> nat
    decreases slots.len(),
{
    if slots.len() == 0 {
        0
    } else {
        calls_out(slots.drop_last()) + if slots.last().pending is Some
            || slots.last().dispute is Some {
            1nat
        } else {
            0nat
        }
    }
}

/// A score with the kind of question that earned it.
pub struct ScoredModel {
    pub kind: Seq<char>,
    pub score: u32,
}

/// The kinds and scores of a list.
pub open spec fn scored_models(ss: Seq<Scored>) -> Seq<ScoredModel> {
    Seq::new(ss.len(), |i: int| ScoredModel { kind: ss[i].kind@, score: ss[i].score })
}

/// The scores that the pass rule sees. A question that an upheld dispute took out is not a
/// score of zero: it is not a score.
pub open spec fn scores_of(qs: Seq<QuestionModel>, scores: Seq<u32>) -> Seq<ScoredModel>
    decreases qs.len(),
{
    if qs.len() == 0 || scores.len() == 0 {
        Seq::empty()
    } else {
        let rest = scores_of(qs.skip(1), scores.skip(1));
        if taken_out(qs[0].status) {
            rest
        } else {
            seq![ScoredModel { kind: qs[0].kind, score: scores[0] }] + rest
        }
    }
}

/// A question that was taken out weighs nothing: the pass rule sees what it would see had
/// the question never been there.
pub proof fn a_question_taken_out_is_no_score(qs: Seq<QuestionModel>, scores: Seq<u32>, i: int)
    requires
        qs.len() == scores.len(),
        0 <= i < qs.len(),
        taken_out(qs[i].status),
    ensures
        scores_of(qs, scores) == scores_of(qs.remove(i), scores.remove(i)),
    decreases qs.len(),
{
    if i == 0 {
        assert(qs.remove(0) =~= qs.skip(1));
        assert(scores.remove(0) =~= scores.skip(1));
    } else {
        assert(qs.skip(1)[i - 1] == qs[i]);
        a_question_taken_out_is_no_score(qs.skip(1), scores.skip(1), i - 1);
        assert(qs.remove(i).skip(1) =~= qs.skip(1).remove(i - 1));
        assert(scores.remove(i).skip(1) =~= scores.skip(1).remove(i - 1));
        assert(qs.remove(i)[0] == qs[0]);
        assert(scores.remove(i)[0] == scores[0]);
    }
}

/// The mark of a question in the footer.
pub open spec fn mark(slot: SlotModel, q: QuestionModel) -> Seq<char> {
    if slot.pending is Some || slot.dispute is Some {
        "~"@
    } else if taken_out(q.status) {
        "!"@
    } else if q.status == "passed"@ {
        "+"@
    } else if slot.verdict is Some {
        "x"@
    } else if slot.answer.len() > 0 {
        "*"@
    } else {
        "."@
    }
}

/// The marks of the questions, with their numbers.
pub open spec fn marks(slots: Seq<SlotModel>, qs: Seq<QuestionModel>) -> Seq<Seq<char>> {
    Seq::new(
        if slots.len() < qs.len() {
            slots.len()
        } else {
            qs.len()
        },
        |i: int| decimal((i + 1) as nat) + mark(slots[i], qs[i]),
    )
}

impl App {
    /// A quiz on these questions: it starts at the first one that is not settled, with the
    /// scores carried over from earlier runs.
    pub fn new(questions: Vec<Question>, diff: Vec<DiffLine>) -> (r: Self)
        ensures
            r@ == (AppModel {
                questions: question_models(questions@),
                current: starting_place(question_models(questions@)) as usize,
                slots: Seq::new(questions@.len(), |i: int| empty_slot()),
                scores: carried_scores(question_models(questions@)),
                diff: row_models(diff@),
                scroll: 0,
                hscroll: 0,
                viewport: 20,
                status: STATUS_ANSWERING@,
                quit: false,
            }),
            r@.wf(),
    {
        let current: usize = App::first_unanswered(&questions);
        let scores = App::restored_scores(&questions);
        let mut slots: Vec<Slot> = Vec::new();
        let n: usize = questions.len();
        while slots.len() < n
            invariant
                slots@.len() <= n == questions@.len(),
                forall|i: int| 0 <= i < slots@.len() ==> (#[trigger] slots@[i])@ == empty_slot(),
            decreases n - slots@.len(),
        {
            slots.push(Slot::default());
        }
        assert(slot_models(slots@) =~= Seq::new(n as nat, |i: int| empty_slot()));
        proof {
            first_open_meaning(question_models(questions@));
        }
        App {
            questions,
            current,
            slots,
            scores,
            diff,
            scroll: 0,
            hscroll: 0,
            viewport: 20,
            status: STATUS_ANSWERING.to_owned(),
            quit: false,
        }
    }

    /// The current question.
    pub fn question(&self) -> (r: Option<&Question>)
        ensures
            match r {
                Some(q) => self.current < self.questions@.len() && *q
                    == self.questions@[self.current as int],
                None => self.current >= self.questions@.len(),
            },
    {
        if self.current < self.questions.len() {
            Some(&self.questions[self.current])
        } else {
            None
        }
    }

    /// What was written as an answer to the current question.
    pub fn answer(&self) -> (r: &str)
        ensures
            r@ == self@.slot().answer,
    {
        if self.current < self.slots.len() {
            assert(self@.slots[self.current as int] == self.slots@[self.current as int]@);
            self.slots[self.current].answer.as_str()
        } else {
            proof {
                reveal_strlit("");
                assert(""@ =~= Seq::empty());
            }
            ""
        }
    }

    /// How many hints of the current question are shown.
    pub fn hints_shown(&self) -> (r: usize)
        ensures
            r == self@.slot().hints_shown,
    {
        if self.current < self.slots.len() {
            assert(self@.slots[self.current as int] == self.slots@[self.current as int]@);
            self.slots[self.current].hints_shown
        } else {
            0
        }
    }

    /// The verdict on the current question.
    pub fn verdict(&self) -> (r: Option<&(Label, String)>)
        ensures
            match r {
                Some(v) => self@.slot().verdict == Some((v.0, v.1@)),
                None => self@.slot().verdict is None,
            },
    {
        if self.current < self.slots.len() {
            assert(self@.slots[self.current as int] == self.slots@[self.current as int]@);
            self.slots[self.current].verdict.as_ref()
        } else {
            None
        }
    }

    /// How many answers to the current question failed.
    pub fn failures(&self) -> (r: usize)
        ensures
            r == self@.slot().failures,
    {
        if self.current < self.slots.len() {
            assert(self@.slots[self.current as int] == self.slots@[self.current as int]@);
            self.slots[self.current].failures
        } else {
            0
        }
    }

    /// What the judge made of a dispute of the current question.
    pub fn slot_note(&self) -> (r: Option<&str>)
        ensures
            match r {
                Some(s) => self@.slot().note == Some(s@),
                None => self@.slot().note is None,
            },
    {
        if self.current < self.slots.len() {
            assert(self@.slots[self.current as int] == self.slots@[self.current as int]@);
            match &self.slots[self.current].note {
                Some(note) => Some(note.as_str()),
                None => None,
            }
        } else {
            None
        }
    }

    /// What the current question is waiting for. This is a view of its slot: with several
    /// questions in flight at once there is no single thing the screen is doing.
    pub fn mode(&self) -> (r: Mode)
        ensures
            r == self@.mode(),
    {
        if self.current < self.slots.len() {
            assert(self@.slots[self.current as int] == self.slots@[self.current as int]@);
            let slot = &self.slots[self.current];
            if slot.pending.is_some() {
                Mode::Grading
            } else if slot.verdict.is_some() {
                Mode::Reviewing
            } else {
                Mode::Answering
            }
        } else {
            Mode::Answering
        }
    }

    /// Judge calls still out, grading and disputes alike. The quiz cannot end while any of
    /// these are outstanding: the score is not known and the attempt is not recorded.
    pub fn in_flight(&self) -> (r: usize)
        ensures
            r == calls_out(self@.slots),
    {
        let ghost slots = self@.slots;
        let mut n: usize = 0;
        let mut i: usize = 0;
        proof {
            assert(slots.take(0) =~= Seq::empty());
        }
        while i < self.slots.len()
            invariant
                i <= self.slots@.len(),
                n <= i,
                slots == self@.slots,
                n == calls_out(slots.take(i as int)),
            decreases self.slots@.len() - i,
        {
            proof {
                assert(slots.take(i + 1).drop_last() =~= slots.take(i as int));
                assert(slots.take(i + 1).last() == self.slots@[i as int]@);
            }
            if self.slots[i].pending.is_some() || self.slots[i].dispute.is_some() {
                n += 1;
            }
            i += 1;
        }
        proof {
            assert(slots.take(i as int) =~= slots);
        }
        n
    }

    /// The scores that the pass rule sees.
    pub fn scoreable(&self) -> (r: Vec<Scored>)
        ensures
            scored_models(r@) == scores_of(self@.questions, self@.scores),
    {
        let ghost qs = self@.questions;
        let ghost ss = self@.scores;
        let ghost whole = scores_of(qs, ss);
        let mut out: Vec<Scored> = Vec::new();
        let mut i: usize = 0;
        proof {
            assert(qs.skip(0) =~= qs);
            assert(ss.skip(0) =~= ss);
            assert(scored_models(out@) + whole =~= whole);
        }
        while i < self.questions.len() && i < self.scores.len()
            invariant
                i <= self.questions@.len(),
                i <= self.scores@.len(),
                qs == self@.questions,
                ss == self@.scores,
                whole == scored_models(out@) + scores_of(qs.skip(i as int), ss.skip(i as int)),
            decreases self.questions@.len() - i,
        {
            let q = &self.questions[i];
            let ghost rest = scores_of(qs.skip(i + 1), ss.skip(i + 1));
            let ghost before = scored_models(out@);
            proof {
                assert(qs.skip(i as int).skip(1) =~= qs.skip(i + 1));
                assert(ss.skip(i as int).skip(1) =~= ss.skip(i + 1));
                assert(qs.skip(i as int)[0] == q@);
            }
            if !is_taken_out(q.status.as_str()) {
                let s = Scored { kind: q.kind.clone(), score: self.scores[i] };
                proof {
                    let m = ScoredModel { kind: q.kind@, score: self.scores@[i as int] };
                    assert(scored_models(out@.push(s)) =~= before.push(m));
                    assert(before + (seq![m] + rest) =~= before.push(m) + rest);
                }
                out.push(s);
            }
            i += 1;
        }
        proof {
            assert(whole =~= scored_models(out@));
        }
        out
    }

    /// One mark for each question: what is done, what is being graded, and what is still
    /// waiting on you.
    pub fn progress(&self) -> (r: String)
        ensures
            r@ == joined(marks(self@.slots, self@.questions), " "@),
    {
        let ghost all = marks(self@.slots, self@.questions);
        let mut parts: Vec<String> = Vec::new();
        let mut i: usize = 0;
        while i < self.slots.len() && i < self.questions.len()
            invariant
                i <= self.slots@.len(),
                i <= self.questions@.len(),
                all == marks(self@.slots, self@.questions),
                parts@.len() == i,
                forall|j: int| 0 <= j < i ==> (#[trigger] parts@[j])@ == all[j],
            decreases self.slots@.len() - i,
        {
            let slot = &self.slots[i];
            let q = &self.questions[i];
            assert(self@.slots[i as int] == slot@);
            assert(self@.questions[i as int] == q@);
            let sign: &str = if slot.pending.is_some() || slot.dispute.is_some() {
                "~"
            } else if is_taken_out(q.status.as_str()) {
                "!"
            } else if same(q.status.as_str(), "passed") {
                "+"
            } else if slot.verdict.is_some() {
                "x"
            } else if !slot.answer.as_str().is_empty() {
                "*"
            } else {
                "."
            };
            let total: usize = self.slots.len();
            parts.push(show_usize(i + 1).concat(sign));
            i += 1;
        }
        assert(texts(parts@) =~= all);
        join(&parts, " ")
    }

    /// The first question still worth answering, so quitting and resuming picks up where
    /// you stopped instead of grading again what already passed.
    pub fn first_unanswered(questions: &[Question]) -> (r: usize)
        ensures
            r == starting_place(question_models(questions@)),
            r < questions@.len() || (r == 0 && questions@.len() == 0),
    {
        let ghost qs = question_models(questions@);
        let mut i: usize = 0;
        proof {
            first_open_meaning(qs);
        }
        while i < questions.len() && is_settled(questions[i].status.as_str())
            invariant
                i <= questions@.len(),
                qs == question_models(questions@),
                forall|j: int| 0 <= j < i ==> settled((#[trigger] qs[j]).status),
            decreases questions@.len() - i,
        {
            assert(qs[i as int] == questions@[i as int]@);
            i += 1;
        }
        proof {
            let p = first_open(qs);
            if p < i {
                assert(settled(qs[p].status));
            }
            if i < p {
                assert(qs[i as int] == questions@[i as int]@);
            }
        }
        if i < questions.len() {
            i
        } else {
            0
        }
    }

    /// Scores carried over from earlier runs.
    pub fn restored_scores(questions: &[Question]) -> (r: Vec<u32>)
        ensures
            r@ == carried_scores(question_models(questions@)),
    {
        let mut out: Vec<u32> = Vec::new();
        let mut i: usize = 0;
        while i < questions.len()
            invariant
                i <= questions@.len(),
                out@.len() == i,
                forall|j: int|
                    0 <= j < i ==> #[trigger] out@[j] == carried_scores(
                        question_models(questions@),
                    )[j],
            decreases questions@.len() - i,
        {
            assert(question_models(questions@)[i as int] == questions@[i as int]@);
            out.push(
                match questions[i].score {
                    Some(s) => s,
                    None => 0,
                },
            );
            i += 1;
        }
        assert(out@ =~= carried_scores(question_models(questions@)));
        out
    }

    /// The next question that still needs you: not settled, and not already sitting with
    /// the judge. Past the current question first, then round, since submitting out of
    /// order is normal.
    pub fn next_unanswered(&self) -> (r: Option<usize>)
        requires
            self.current < self.questions@.len() || self.questions@.len() == 0,
        ensures
            match r {
                Some(i) => self@.next_unanswered() == Some(i as int) && i < self.questions@.len(),
                None => self@.next_unanswered() is None,
            },
    {
        let n: usize = self.questions.len();
        if n == 0 {
            return None;
        }
        let mut offset: usize = 1;
        let mut i: usize = self.current;
        let ghost c = self.current as int;
        let ghost m = n as int;
        proof {
            assert(c % m == c) by (nonlinear_arith)
                requires
                    0 <= c < m,
            ;
        }
        loop
            invariant
                0 < n == self.questions@.len(),
                self.current < n,
                i < n,
                1 <= offset <= n,
                i == (self.current + offset - 1) % (n as int),
                self@.next_unanswered() == self@.next_from(offset as int),
            decreases n - offset,
        {
            proof {
                let s = self.current + offset - 1;
                assert((s + 1) % (n as int) == if s % (n as int) == n - 1 { 0 } else {
                    s % (n as int) + 1
                }) by (nonlinear_arith)
                    requires
                        s >= 0,
                        n > 0,
                ;
            }
            i = if i + 1 < n { i + 1 } else { 0 };
            assert(self@.questions[i as int] == self.questions@[i as int]@);
            if i < self.slots.len() {
                assert(self@.slots[i as int] == self.slots@[i as int]@);
            }
            if i != self.current && !is_settled(self.questions[i].status.as_str()) && (i
                >= self.slots.len() || self.slots[i].pending.is_none()) {
                return Some(i);
            }
            if offset == n {
                assert(self@.next_from(n + 1) is None);
                return None;
            }
            offset += 1;
        }
    }
}

/// What comes next still needs an answer, and is not the question on the screen; where
/// nothing comes next, no other question needs one.
pub proof fn next_question_needs_you(a: AppModel)
    requires
        a.wf(),
    ensures
        match a.next_unanswered() {
            Some(i) => 0 <= i < a.questions.len() && i != a.current && !settled(
                a.questions[i].status,
            ) && a.slots[i].pending is None,
            None => forall|i: int|
                0 <= i < a.questions.len() && i != a.current ==> !(#[trigger] a.needs_answer(i)),
        },
{
    let n = a.questions.len() as int;
    next_from_meaning(a, 1);
    if a.next_unanswered() is None && n > 0 {
        assert forall|i: int| 0 <= i < n && i != a.current implies !(
        #[trigger] a.needs_answer(i)) by {
            let offset = if i > a.current { i - a.current } else { i - a.current + n };
            if i > a.current {
                assert((a.current + offset) % n == i) by (nonlinear_arith)
                    requires
                        0 <= i < n,
                        a.current + offset == i,
                ;
            } else {
                assert((a.current + offset) % n == i) by (nonlinear_arith)
                    requires
                        0 <= i < n,
                        a.current + offset == i + n,
                ;
            }
            assert(a.needs_answer((a.current + offset) % n) == a.needs_answer(i));
        }
    }
}

proof fn next_from_meaning(a: AppModel, offset: int)
    requires
        a.wf(),
        1 <= offset,
    ensures
        match a.next_from(offset) {
            Some(i) => 0 <= i < a.questions.len() && i != a.current && a.needs_answer(i),
            None => forall|k: int|
                offset <= k <= a.questions.len() ==> !(#[trigger] a.needs_answer(
                    (a.current + k) % (a.questions.len() as int),
                )) || (a.current + k) % (a.questions.len() as int) == a.current,
        },
    decreases a.questions.len() - offset + 1,
{
    let n = a.questions.len() as int;
    if n > 0 && offset <= n {
        let i = (a.current + offset) % n;
        assert(0 <= i < n) by (nonlinear_arith)
            requires
                n > 0,
                i == (a.current + offset) % n,
        ;
        if !(a.needs_answer(i) && i != a.current) {
            next_from_meaning(a, offset + 1);
        }
    }
}

// ---------------------------------------------------------------- moving about

/// What a jump goes to.
#[derive(Debug, Clone, Copy, PartialEq, Eq, Structural)]
pub enum Target {
    Hunk,
    File,
}

/// Whether a row is what a jump goes to.
pub open spec fn is_target(row: DiffLineModel, target: Target) -> bool {
    match target {
        Target::Hunk => row.is_hunk_header,
        Target::File => row.is_file_header,
    }
}

/// The first target from `i` on.
pub open spec fn target_from(rows: Seq<DiffLineModel>, target: Target, i: int) -> Option<int>
    decreases rows.len() - i,
{
    if i < 0 || i >= rows.len() {
        None
    } else if is_target(rows[i], target) {
        Some(i)
    } else {
        target_from(rows, target, i + 1)
    }
}

/// The last target before `i`.
pub open spec fn target_before(rows: Seq<DiffLineModel>, target: Target, i: int) -> Option<int>
    decreases i,
{
    if i <= 0 || i > rows.len() {
        None
    } else if is_target(rows[i - 1], target) {
        Some(i - 1)
    } else {
        target_before(rows, target, i - 1)
    }
}

/// The lesser of two offsets.
pub open spec fn at_most_u16(a: u16, b: u16) -> u16 {
    if a < b {
        a
    } else {
        b
    }
}

impl AppModel {
    /// The screen scrolled by so many rows, as far as there is content.
    pub open spec fn scrolled(self, delta: int) -> AppModel {
        let next = self.scroll + delta;
        let wanted = if next < 0 { 0u16 } else { as_offset(next) };
        AppModel { scroll: at_most_u16(wanted, self.max_scroll()), ..self }
    }

    /// The screen scrolled to a row, as far as there is content.
    pub open spec fn scrolled_to(self, row: int) -> AppModel {
        AppModel {
            scroll: at_most_u16(as_offset(row), self.max_scroll()),
            ..self
        }
    }

    /// Where the next or the one before of what a jump goes to stands.
    pub open spec fn jump_place(self, forward: bool, target: Target) -> Option<int> {
        let rows = self.diff.len() as int;
        let here = self.scroll as int;
        if forward {
            target_from(self.diff, target, here + 1)
        } else {
            target_before(self.diff, target, if here < rows { here } else { rows })
        }
    }

    /// The screen at the next or the one before of what a jump goes to; as it is where
    /// there is none.
    pub open spec fn jumped(self, forward: bool, target: Target) -> AppModel {
        match self.jump_place(forward, target) {
            Some(i) => self.scrolled_to(i),
            None => self,
        }
    }

    /// The first row of the part of the diff on a file, or the first row of all.
    pub open spec fn file_start(self, file: Seq<char>) -> int {
        match header_of(self.diff, file, 0) {
            Some(i) => i,
            None => 0,
        }
    }

    /// Where the hunk of the current question stands. Its file is looked for first: the
    /// same header recurs across files.
    pub open spec fn anchor_row(self, hunks: Seq<HunkModel>) -> Option<int> {
        if self.current < self.questions.len() {
            let q = self.questions[self.current as int];
            match hunk_anchored(hunks, q.anchor) {
                Some(h) => row_reading(self.diff, h.header, self.file_start(q.file)),
                None => None,
            }
        } else {
            None
        }
    }

    /// The screen scrolled to the hunk of the current question, three rows above it, and
    /// panned back; as it is where there is no such hunk.
    pub open spec fn at_anchor(self, hunks: Seq<HunkModel>) -> AppModel {
        match self.anchor_row(hunks) {
            Some(row) => AppModel {
                hscroll: 0,
                ..self.scrolled_to(if row > 3 { row - 3 } else { 0 })
            },
            None => self,
        }
    }
}

/// The row from `i` on that heads the part of the diff on a file.
pub open spec fn header_of(rows: Seq<DiffLineModel>, file: Seq<char>, i: int) -> Option<int>
    decreases rows.len() - i,
{
    if i < 0 || i >= rows.len() {
        None
    } else if rows[i].is_file_header && has_suffix(rows[i].text, "b/"@ + file) {
        Some(i)
    } else {
        header_of(rows, file, i + 1)
    }
}

/// The first row from `i` on that reads `text`.
pub open spec fn row_reading(rows: Seq<DiffLineModel>, text: Seq<char>, i: int) -> Option<int>
    decreases rows.len() - i,
{
    if i < 0 || i >= rows.len() {
        None
    } else if rows[i].text == text {
        Some(i)
    } else {
        row_reading(rows, text, i + 1)
    }
}

/// The first hunk with this anchor.
pub open spec fn hunk_anchored(hunks: Seq<HunkModel>, anchor: Seq<char>) -> Option<HunkModel>
    decreases hunks.len(),
{
    if hunks.len() == 0 {
        None
    } else if hunks[0].anchor == anchor {
        Some(hunks[0])
    } else {
        hunk_anchored(hunks.skip(1), anchor)
    }
}

fn offset_of(row: usize) -> (r: u16)
    ensures
        r == as_offset(row as int),
{
    if row <= 0xffff {
        row as u16
    } else {
        0xffff
    }
}

impl App {
    /// The furthest useful offset.
    pub fn max_scroll(&self) -> (r: u16)
        ensures
            r == self@.max_scroll(),
    {
        let viewport: u16 = if self.viewport > 1 { self.viewport } else { 1 };
        if self.diff.len() <= viewport as usize {
            0
        } else {
            offset_of(self.diff.len() - viewport as usize)
        }
    }

    /// Scrolls by so many rows, as far as there is content.
    pub fn scroll_by(&mut self, delta: i32)
        requires
            old(self).scroll + delta <= i32::MAX,
        ensures
            final(self)@ == old(self)@.scrolled(delta as int),
            final(self).scroll <= old(self)@.max_scroll(),
    {
        let next: i32 = self.scroll as i32 + delta;
        let wanted: u16 = if next < 0 { 0 } else { offset_of(next as usize) };
        let max: u16 = self.max_scroll();
        self.scroll = if wanted < max { wanted } else { max };
    }

    fn scroll_to(&mut self, row: usize)
        ensures
            final(self)@ == old(self)@.scrolled_to(row as int),
    {
        let wanted: u16 = offset_of(row);
        let max: u16 = self.max_scroll();
        self.scroll = if wanted < max { wanted } else { max };
    }

    fn find_target(&self, forward: bool, target: Target) -> (r: Option<usize>)
        ensures
            match r {
                Some(i) => self@.jump_place(forward, target) == Some(i as int),
                None => self@.jump_place(forward, target) is None,
            },
    {
        let ghost rows = self@.diff;
        if forward {
            let mut i: usize = self.scroll as usize + 1;
            while i < self.diff.len()
                invariant
                    forward,
                    rows == self@.diff,
                    target_from(rows, target, self.scroll + 1) == target_from(rows, target, i as int),
                decreases self.diff@.len() - i,
            {
                assert(rows[i as int] == self.diff@[i as int]@);
                let found = match target {
                    Target::Hunk => self.diff[i].is_hunk_header,
                    Target::File => self.diff[i].is_file_header,
                };
                if found {
                    return Some(i);
                }
                i += 1;
            }
            None
        } else {
            let here: usize = self.scroll as usize;
            let mut i: usize = if here < self.diff.len() { here } else { self.diff.len() };
            let ghost start = i as int;
            while i > 0
                invariant
                    !forward,
                    start == if self.scroll < self.diff@.len() {
                        self.scroll as int
                    } else {
                        self.diff@.len() as int
                    },
                    i <= self.diff@.len(),
                    rows == self@.diff,
                    target_before(rows, target, start) == target_before(rows, target, i as int),
                decreases i,
            {
                assert(rows[i - 1] == self.diff@[i - 1]@);
                let found = match target {
                    Target::Hunk => self.diff[i - 1].is_hunk_header,
                    Target::File => self.diff[i - 1].is_file_header,
                };
                if found {
                    return Some(i - 1);
                }
                i -= 1;
            }
            None
        }
    }

    /// Moves to the next hunk, or to the one before.
    pub fn jump_hunk(&mut self, forward: bool)
        ensures
            final(self)@ == old(self)@.jumped(forward, Target::Hunk),
    {
        if let Some(i) = self.find_target(forward, Target::Hunk) {
            self.scroll_to(i);
        }
    }

    /// Moves to the next file, or to the one before.
    pub fn jump_file(&mut self, forward: bool)
        ensures
            final(self)@ == old(self)@.jumped(forward, Target::File),
    {
        if let Some(i) = self.find_target(forward, Target::File) {
            self.scroll_to(i);
        }
    }

    fn find_anchor_row(&self, hunks: &[Hunk]) -> (r: Option<usize>)
        ensures
            match r {
                Some(i) => self@.anchor_row(hunk_models(hunks@)) == Some(i as int),
                None => self@.anchor_row(hunk_models(hunks@)) is None,
            },
    {
        if self.current >= self.questions.len() {
            return None;
        }
        let q = &self.questions[self.current];
        assert(self@.questions[self.current as int] == q@);
        let k: usize = match find_anchored(hunks, q.anchor.as_str()) {
            Some(k) => k,
            None => {
                return None;
            },
        };
        let ghost rows = self@.diff;
        let ending = "b/".to_owned().concat(q.file.as_str());
        let mut i: usize = 0;
        while i < self.diff.len() && !(self.diff[i].is_file_header && ends_with(
            self.diff[i].text.as_str(),
            ending.as_str(),
        ))
            invariant
                i <= self.diff@.len(),
                rows == self@.diff,
                ending@ == "b/"@ + q.file@,
                header_of(rows, q.file@, 0) == header_of(rows, q.file@, i as int),
            decreases self.diff@.len() - i,
        {
            assert(rows[i as int] == self.diff@[i as int]@);
            i += 1;
        }
        let start: usize = if i < self.diff.len() {
            assert(rows[i as int] == self.diff@[i as int]@);
            i
        } else {
            0
        };
        assert(start == self@.file_start(q.file@));
        let header = hunks[k].header.as_str();
        let mut j: usize = start;
        while j < self.diff.len() && !same(self.diff[j].text.as_str(), header)
            invariant
                start <= j,
                rows == self@.diff,
                row_reading(rows, header@, start as int) == row_reading(rows, header@, j as int),
            decreases self.diff@.len() - j,
        {
            assert(rows[j as int] == self.diff@[j as int]@);
            j += 1;
        }
        if j < self.diff.len() {
            assert(rows[j as int] == self.diff@[j as int]@);
            Some(j)
        } else {
            None
        }
    }

    /// Scrolls the diff to the hunk that the current question is about, so that the reader
    /// does not have to hunt for it.
    pub fn jump_to_anchor(&mut self, hunks: &[Hunk])
        ensures
            final(self)@ == old(self)@.at_anchor(hunk_models(hunks@)),
    {
        if let Some(row) = self.find_anchor_row(hunks) {
            self.scroll_to(if row > 3 { row - 3 } else { 0 });
            self.hscroll = 0;
        }
    }
}

fn find_anchored(hunks: &[Hunk], anchor: &str) -> (r: Option<usize>)
    ensures
        match r {
            Some(k) => k < hunks@.len() && hunk_anchored(hunk_models(hunks@), anchor@) == Some(
                hunks@[k as int]@,
            ),
            None => hunk_anchored(hunk_models(hunks@), anchor@) is None,
        },
{
    let ghost hs = hunk_models(hunks@);
    let mut k: usize = 0;
    proof {
        assert(hs.skip(0) =~= hs);
    }
    while k < hunks.len()
        invariant
            k <= hunks@.len(),
            hs == hunk_models(hunks@),
            hunk_anchored(hs, anchor@) == hunk_anchored(hs.skip(k as int), anchor@),
        decreases hunks@.len() - k,
    {
        proof {
            assert(hs.skip(k as int).skip(1) =~= hs.skip(k + 1));
            assert(hs.skip(k as int)[0] == hunks@[k as int]@);
        }
        if same(hunks[k].anchor.as_str(), anchor) {
            return Some(k);
        }
        k += 1;
    }
    None
}

/// However the screen is moved, it never shows what lies past the end of the diff, nor
/// changes anything but its own position.
pub proof fn moving_stays_within_the_diff(
    a: AppModel,
    delta: int,
    forward: bool,
    target: Target,
    hunks: Seq<HunkModel>,
)
    requires
        a.scroll <= a.max_scroll(),
    ensures
        a.scrolled(delta).scroll <= a.max_scroll(),
        a.jumped(forward, target).scroll <= a.max_scroll(),
        a.at_anchor(hunks).scroll <= a.max_scroll(),
        a.scrolled(delta) == (AppModel { scroll: a.scrolled(delta).scroll, ..a }),
        a.jumped(forward, target) == (AppModel { scroll: a.jumped(forward, target).scroll, ..a }),
        a.at_anchor(hunks) == (AppModel {
            scroll: a.at_anchor(hunks).scroll,
            hscroll: a.at_anchor(hunks).hscroll,
            ..a
        }),
{
}

} // verus!
