//! Keys on the quiz screen.

use vstd::prelude::*;
use vstd::string::StringExecFns;
use crate::db::{dispute_counts, gate_disputes, gate_of, question_disputes, Records, RecordsModel};
use crate::git::{hunk_models, Hunk, HunkModel};
use crate::llm::{cites, cites_a_changed_line, cites_some_line, cites_the_diff, Label};
use crate::text::chars::is_digit;
use crate::text::number::{decimal, digit_value, show_usize};
use crate::text::split::{trim, trimmed};
use crate::tui::app::{
    calls_out, is_settled, settled, App, AppModel, Mode, Pending, PendingModel, SlotModel, Target,
    STATUS_ANSWERED, STATUS_ANSWERING, STATUS_REVIEWING,
};
use crate::tui::event::AppEvent;
use crate::tui::header::{answer_block, dispute_block, dispute_header, editor_header};

verus! {

/// What a key stands for.
#[derive(Debug, Clone, Copy, PartialEq, Eq, Structural)]
pub enum Code {
    Char(char),
    Up,
    Down,
    Left,
    Right,
    PageUp,
    PageDown,
    Tab,
    BackTab,
    Enter,
    Esc,
    Other,
}

/// A key that was pressed.
#[derive(Debug, Clone, Copy, PartialEq, Eq, Structural)]
pub struct Key {
    pub code: Code,
    /// Whether the control key was held.
    pub ctrl: bool,
}

/// What is to be done after a key.
#[derive(Debug)]
pub enum Action {
    /// Nothing more.
    Stay,
    /// The quiz is over.
    Leave,
    /// The answer is to be edited, with this block below it.
    Edit { text: String, header: String },
    /// A claim is to be written, with this block below it.
    EditClaim { header: String },
    /// The judge is to grade an answer.
    Grade { question_id: i64, question: String, answer: String },
    /// The grade is known without the judge.
    Settle(AppEvent),
}

/// What is to be done after a key, as texts and numbers.
pub enum ActionModel {
    Stay,
    Leave,
    Edit { text: Seq<char>, header: Seq<char> },
    EditClaim { header: Seq<char> },
    Grade { question_id: i64, question: Seq<char>, answer: Seq<char> },
    /// The answer to this question is wrong, and this is said of it.
    Settle { question_id: i64, label: Label, feedback: Seq<char> },
}

/// Whether an action is what the model says.
pub open spec fn is_action(action: Action, m: ActionModel) -> bool {
    match (action, m) {
        (Action::Stay, ActionModel::Stay) => true,
        (Action::Leave, ActionModel::Leave) => true,
        (Action::Edit { text, header }, ActionModel::Edit { text: t, header: h }) => text@ == t
            && header@ == h,
        (Action::EditClaim { header }, ActionModel::EditClaim { header: h }) => header@ == h,
        (
            Action::Grade { question_id, question, answer },
            ActionModel::Grade { question_id: id, question: q, answer: a },
        ) => question_id == id && question@ == q && answer@ == a,
        (
            Action::Settle(AppEvent::Graded { question_id, label, feedback }),
            ActionModel::Settle { question_id: id, label: l, feedback: f },
        ) => question_id == id && label == l && feedback@ == f,
        _ => false,
    }
}

/// What is said of an answer that cites nothing.
pub open spec fn cites_nothing_text() -> Seq<char> {
    "Cites nothing from the diff — name an identifier, file or line."@
}

// ---------------------------------------------------------------- what keys do

impl AppModel {
    pub open spec fn saying(self, status: Seq<char>) -> AppModel {
        AppModel { status, ..self }
    }

    /// Leaving. With calls outstanding, answers that have already been paid for would be
    /// thrown away, so it takes a second press.
    pub open spec fn after_quit(self) -> (AppModel, ActionModel) {
        if calls_out(self.slots) > 0 && !self.quit {
            (
                AppModel {
                    quit: true,
                    status: decimal(calls_out(self.slots))
                        + " still grading — q again to abandon them"@,
                    ..self
                },
                ActionModel::Stay,
            )
        } else {
            (self, ActionModel::Leave)
        }
    }

    /// At another question, wherever that is: passed, failed, or with the judge.
    pub open spec fn gone_to(self, i: int, hunks: Seq<HunkModel>) -> AppModel {
        if self.questions.len() == 0 {
            self
        } else {
            let there = AppModel { current: (i % (self.questions.len() as int)) as usize, ..self };
            let status = match there.mode() {
                Mode::Grading => "question "@ + decimal((there.current + 1) as nat)
                    + " is with the judge"@,
                Mode::Reviewing => STATUS_REVIEWING@,
                Mode::Answering => if there.slot().answer.len() == 0 {
                    STATUS_ANSWERING@
                } else {
                    STATUS_ANSWERED@
                },
            };
            there.saying(status).at_anchor(hunks)
        }
    }

    /// At the next question that still needs answering, where there is one.
    pub open spec fn advanced(self, hunks: Seq<HunkModel>) -> Option<AppModel> {
        match self.next_unanswered() {
            Some(i) => Some(
                AppModel { current: i as usize, status: STATUS_ANSWERING@, ..self }.at_anchor(hunks),
            ),
            None => None,
        }
    }

    /// Moving on. With nothing left to answer the quiz is over, once what is in flight has
    /// landed: its score decides whether a gate passes.
    pub open spec fn after_space(self, hunks: Seq<HunkModel>) -> (AppModel, ActionModel) {
        match self.advanced(hunks) {
            Some(next) => (next, ActionModel::Stay),
            None => if calls_out(self.slots) == 0 {
                (self, ActionModel::Leave)
            } else {
                (
                    self.saying("waiting on "@ + decimal(calls_out(self.slots)) + " grading…"@),
                    ActionModel::Stay,
                )
            },
        }
    }

    /// Straight to a question by its number.
    pub open spec fn after_number(self, c: char, hunks: Seq<HunkModel>) -> AppModel {
        let want = digit_value(c) - 1;
        if want < self.questions.len() {
            self.gone_to(want, hunks)
        } else {
            self.saying("no question "@ + seq![c])
        }
    }

    /// One more hint, where there is one.
    pub open spec fn after_hint(self) -> AppModel {
        let available = if self.current < self.questions.len() {
            self.questions[self.current as int].hints.len()
        } else {
            0
        };
        if self.current < self.slots.len() && self.slot().hints_shown < available {
            self.with_slot(
                SlotModel { hints_shown: (self.slot().hints_shown + 1) as usize, ..self.slot() },
            )
        } else {
            self.saying("no more hints"@)
        }
    }

    /// Writing or revising an answer, unless the judge is reading it.
    pub open spec fn after_edit(self) -> (AppModel, ActionModel) {
        if self.mode() == Mode::Grading {
            (self.saying("this one is with the judge — space to move on"@), ActionModel::Stay)
        } else {
            (self, ActionModel::Edit { text: self.slot().answer, header: answer_block(self) })
        }
    }

    /// Once an answer was edited.
    pub open spec fn edited(self, text: Seq<char>) -> AppModel {
        let slot = SlotModel {
            answer: text,
            verdict: if text.len() == 0 {
                self.slot().verdict
            } else {
                None
            },
            ..self.slot()
        };
        let there = self.with_slot(slot);
        if text.len() == 0 {
            there
        } else {
            there.saying(STATUS_ANSWERED@)
        }
    }

    /// Disputing, where that is still possible: the question is neither settled nor
    /// disputed already, and neither it nor its gate has had the disputes it may have.
    pub open spec fn after_dispute(self, r: RecordsModel) -> (AppModel, ActionModel) {
        if self.current >= self.questions.len() {
            (self, ActionModel::Stay)
        } else {
            let q = self.questions[self.current as int];
            if self.slot().dispute is Some {
                (self.saying("that dispute is already with the judge"@), ActionModel::Stay)
            } else if settled(q.status) {
                (
                    self.saying(
                        "question "@ + decimal((self.current + 1) as nat) + " is already settled"@,
                    ),
                    ActionModel::Stay,
                )
            } else if question_disputes(r.attempts, q.id) >= 1 {
                (self.saying("one dispute per question"@), ActionModel::Stay)
            } else if gate_disputes(r.attempts, r.questions, gate_of(r.questions, q.id)) >= 2 {
                (self.saying("two disputes per gate — answer this one"@), ActionModel::Stay)
            } else {
                (self, ActionModel::EditClaim { header: dispute_block(self) })
            }
        }
    }

    /// Whether a claim goes to the judge: there is a question, the claim says something,
    /// and it names a changed line.
    pub open spec fn claim_stands(self, claim: Seq<char>, hunks: Seq<HunkModel>) -> bool {
        self.current < self.questions.len() && trimmed(claim).len() > 0 && cites_some_line(
            claim,
            hunks,
        )
    }

    /// Once a claim was written.
    pub open spec fn claimed(self, claim: Seq<char>, hunks: Seq<HunkModel>) -> AppModel {
        if self.current >= self.questions.len() {
            self
        } else if trimmed(claim).len() == 0 {
            self.saying("nothing to dispute"@)
        } else if !cites_some_line(claim, hunks) {
            self.saying("a dispute must quote a changed line, like sync.rs:88"@)
        } else {
            self.with_slot(
                SlotModel { dispute: Some(claim), note: None, ..self.slot() },
            ).saying("disputing…"@)
        }
    }

    /// With the answer to the current question on its way to the judge.
    pub open spec fn with_pending(self) -> AppModel {
        self.with_slot(
            SlotModel {
                pending: Some(
                    PendingModel {
                        answer: self.slot().answer,
                        hints_used: self.slot().hints_shown,
                    },
                ),
                verdict: None,
                ..self.slot()
            },
        )
    }

    /// Submitting, and moving on rather than watching the judge. An answer that cites
    /// nothing is wrong at no cost.
    pub open spec fn after_submit(self, hunks: Seq<HunkModel>) -> (AppModel, ActionModel) {
        if self.mode() == Mode::Grading {
            (self.saying("already grading this one"@), ActionModel::Stay)
        } else if self.current >= self.questions.len() {
            (self, ActionModel::Stay)
        } else if trimmed(self.slot().answer).len() == 0 {
            (
                self.saying("nothing to submit — press a to write an answer"@),
                ActionModel::Stay,
            )
        } else {
            let q = self.questions[self.current as int];
            let cited = cites(self.slot().answer, hunks);
            let sent = if cited {
                self.with_pending().saying("grading…"@)
            } else {
                self.with_pending()
            };
            let action = if cited {
                ActionModel::Grade {
                    question_id: q.id,
                    question: q.text,
                    answer: self.slot().answer,
                }
            } else {
                ActionModel::Settle {
                    question_id: q.id,
                    label: Label::Wrong,
                    feedback: cites_nothing_text(),
                }
            };
            match sent.advanced(hunks) {
                Some(next) => (
                    next.saying(
                        STATUS_ANSWERING@ + " · "@ + decimal(calls_out(next.slots)) + " grading"@,
                    ),
                    action,
                ),
                None => (sent, action),
            }
        }
    }

    /// What a key does.
    pub open spec fn after_key(self, key: Key, hunks: Seq<HunkModel>, r: RecordsModel) -> (
        AppModel,
        ActionModel,
    ) {
        let n = self.questions.len() as int;
        match key.code {
            Code::Char(c) => if c == 'q' {
                self.after_quit()
            } else if c == 'c' && key.ctrl {
                (self, ActionModel::Leave)
            } else if c == 'j' {
                (self.scrolled(1), ActionModel::Stay)
            } else if c == 'k' {
                (self.scrolled(-1), ActionModel::Stay)
            } else if c == 'n' {
                (self.jumped(true, Target::Hunk), ActionModel::Stay)
            } else if c == 'p' {
                (self.jumped(false, Target::Hunk), ActionModel::Stay)
            } else if c == ']' {
                (self.jumped(true, Target::File), ActionModel::Stay)
            } else if c == '[' {
                (self.jumped(false, Target::File), ActionModel::Stay)
            } else if c == 'g' {
                (self.at_anchor(hunks), ActionModel::Stay)
            } else if is_digit(c) && c != '0' {
                (self.after_number(c, hunks), ActionModel::Stay)
            } else if c == ' ' {
                self.after_space(hunks)
            } else if c == 'h' && self.mode() != Mode::Reviewing {
                (self.after_hint(), ActionModel::Stay)
            } else if c == 'a' || c == 'e' {
                self.after_edit()
            } else if c == 'd' {
                self.after_dispute(r)
            } else if c == 's' && key.ctrl {
                self.after_submit(hunks)
            } else {
                (self, ActionModel::Stay)
            },
            Code::Down => (self.scrolled(1), ActionModel::Stay),
            Code::Up => (self.scrolled(-1), ActionModel::Stay),
            Code::PageDown => (self.scrolled(20), ActionModel::Stay),
            Code::PageUp => (self.scrolled(-20), ActionModel::Stay),
            Code::Right => (
                AppModel {
                    hscroll: if self.hscroll + 8 <= u16::MAX {
                        (self.hscroll + 8) as u16
                    } else {
                        u16::MAX
                    },
                    ..self
                },
                ActionModel::Stay,
            ),
            Code::Left => (
                AppModel {
                    hscroll: if self.hscroll >= 8 {
                        (self.hscroll - 8) as u16
                    } else {
                        0
                    },
                    ..self
                },
                ActionModel::Stay,
            ),
            Code::Tab => (self.gone_to(self.current + 1, hunks), ActionModel::Stay),
            Code::BackTab => (
                self.gone_to(self.current + if n > 0 { n - 1 } else { 0 }, hunks),
                ActionModel::Stay,
            ),
            _ => (self, ActionModel::Stay),
        }
    }
}

// ---------------------------------------------------------------- doing it

/// A claim on its way to the judge.
#[derive(Debug)]
pub struct Claim {
    pub question_id: i64,
    pub question: String,
    pub reference: String,
    pub claim: String,
}

/// The digit that a character stands for.
fn digit_of(c: char) -> (r: usize)
    requires
        is_digit(c),
    ensures
        r == digit_value(c),
{
    (c as u32 - '0' as u32) as usize
}

impl App {
    /// Moves to a question, round the end.
    pub fn goto(&mut self, i: usize, hunks: &[Hunk])
        requires
            old(self)@.wf(),
        ensures
            final(self)@ == old(self)@.gone_to(i as int, hunk_models(hunks@)),
            final(self)@.wf(),
    {
        let n: usize = self.questions.len();
        if n == 0 {
            return;
        }
        self.current = i % n;
        let mode = self.mode();
        let status: String = match mode {
            Mode::Grading => "question ".to_owned().concat(
                show_usize(self.current + 1).as_str(),
            ).concat(" is with the judge"),
            Mode::Reviewing => STATUS_REVIEWING.to_owned(),
            Mode::Answering => if self.answer().is_empty() {
                STATUS_ANSWERING.to_owned()
            } else {
                STATUS_ANSWERED.to_owned()
            },
        };
        self.status = status;
        self.jump_to_anchor(hunks);
    }

    /// Moves to the next question that still needs answering, and says whether there was
    /// one.
    pub fn advance(&mut self, hunks: &[Hunk]) -> (r: bool)
        requires
            old(self)@.wf(),
        ensures
            match old(self)@.advanced(hunk_models(hunks@)) {
                Some(next) => r && final(self)@ == next,
                None => !r && final(self)@ == old(self)@,
            },
            final(self)@.wf(),
    {
        match self.next_unanswered() {
            None => false,
            Some(next) => {
                self.current = next;
                self.status = STATUS_ANSWERING.to_owned();
                self.jump_to_anchor(hunks);
                true
            },
        }
    }

    fn say(&mut self, status: &str)
        ensures
            final(self)@ == old(self)@.saying(status@),
    {
        self.status = status.to_owned();
    }

    fn press_quit(&mut self) -> (r: Action)
        requires
            old(self)@.wf(),
        ensures
            final(self)@ == old(self)@.after_quit().0,
            is_action(r, old(self)@.after_quit().1),
            final(self)@.wf(),
    {
        let out: usize = self.in_flight();
        if out > 0 && !self.quit {
            self.quit = true;
            self.status = show_usize(out).concat(" still grading — q again to abandon them");
            Action::Stay
        } else {
            Action::Leave
        }
    }

    fn press_space(&mut self, hunks: &[Hunk]) -> (r: Action)
        requires
            old(self)@.wf(),
        ensures
            final(self)@ == old(self)@.after_space(hunk_models(hunks@)).0,
            is_action(r, old(self)@.after_space(hunk_models(hunks@)).1),
            final(self)@.wf(),
    {
        if self.advance(hunks) {
            return Action::Stay;
        }
        let out: usize = self.in_flight();
        if out == 0 {
            return Action::Leave;
        }
        self.status = "waiting on ".to_owned().concat(show_usize(out).as_str()).concat(" grading…");
        Action::Stay
    }

    fn press_number(&mut self, c: char, hunks: &[Hunk])
        requires
            old(self)@.wf(),
            is_digit(c),
            c != '0',
        ensures
            final(self)@ == old(self)@.after_number(c, hunk_models(hunks@)),
            final(self)@.wf(),
    {
        let want: usize = digit_of(c) - 1;
        if want < self.questions.len() {
            self.goto(want, hunks);
        } else {
            let mut status = "no question ".to_owned();
            status.push(c);
            assert(status@ =~= "no question "@ + seq![c]);
            self.status = status;
        }
    }

    fn press_hint(&mut self)
        requires
            old(self)@.wf(),
        ensures
            final(self)@ == old(self)@.after_hint(),
            final(self)@.wf(),
    {
        let ghost a = self@;
        let available: usize = match self.question() {
            Some(q) => q.hints.len(),
            None => 0,
        };
        proof {
            if self.current < self.questions@.len() {
                let q = self.questions@[self.current as int];
                assert(a.questions[self.current as int] == q@);
                assert(q@.hints.len() == q.hints@.len());
            }
        }
        let shown: usize = self.hints_shown();
        if self.current < self.slots.len() && shown < available {
            let i: usize = self.current;
            assert(a.slots[i as int] == self.slots@[i as int]@);
            self.slots[i].hints_shown = shown + 1;
            proof {
                let b = a.after_hint();
                assert(self.slots@[i as int]@ == b.slots[i as int]);
                assert(self@.slots =~= b.slots);
            }
        } else {
            self.say("no more hints");
        }
    }

    fn press_edit(&mut self) -> (r: Action)
        requires
            old(self)@.wf(),
        ensures
            final(self)@ == old(self)@.after_edit().0,
            is_action(r, old(self)@.after_edit().1),
            final(self)@.wf(),
    {
        if self.mode() == Mode::Grading {
            self.say("this one is with the judge — space to move on");
            return Action::Stay;
        }
        let text = self.answer().to_owned();
        let header = editor_header(self);
        Action::Edit { text, header }
    }

    /// Takes in an answer that was edited.
    pub fn edited(&mut self, text: String)
        requires
            old(self)@.wf(),
        ensures
            final(self)@ == old(self)@.edited(text@),
            final(self)@.wf(),
    {
        let ghost a = self@;
        let ghost t = text@;
        let empty = text.as_str().is_empty();
        if self.current < self.slots.len() {
            let i: usize = self.current;
            assert(a.slots[i as int] == self.slots@[i as int]@);
            self.slots[i].answer = text;
            if !empty {
                self.slots[i].verdict = None;
            }
            proof {
                let b = a.edited(t);
                assert(self.slots@[i as int]@ == b.slots[i as int]);
                assert(self@.slots =~= b.slots);
            }
        }
        if !empty {
            self.status = STATUS_ANSWERED.to_owned();
        }
    }

    fn press_dispute(&mut self, records: &Records) -> (r: Action)
        requires
            old(self)@.wf(),
        ensures
            final(self)@ == old(self)@.after_dispute(records@).0,
            is_action(r, old(self)@.after_dispute(records@).1),
            final(self)@.wf(),
    {
        if self.current >= self.questions.len() {
            return Action::Stay;
        }
        let i: usize = self.current;
        let ghost a = self@;
        assert(a.questions[i as int] == self.questions@[i as int]@);
        assert(a.slots[i as int] == self.slots@[i as int]@);
        if self.slots[i].dispute.is_some() {
            self.say("that dispute is already with the judge");
            return Action::Stay;
        }
        if is_settled(self.questions[i].status.as_str()) {
            let total: usize = self.questions.len();
            self.status = "question ".to_owned().concat(show_usize(i + 1).as_str()).concat(
                " is already settled",
            );
            return Action::Stay;
        }
        let counts = dispute_counts(records, self.questions[i].id);
        if counts.0 >= 1 {
            self.say("one dispute per question");
            return Action::Stay;
        }
        if counts.1 >= 2 {
            self.say("two disputes per gate — answer this one");
            return Action::Stay;
        }
        Action::EditClaim { header: dispute_header(self) }
    }

    /// Takes in a claim that was written. It goes to the judge only where it names a
    /// changed line: that is tested here, so a claim that names nothing costs nothing.
    pub fn claimed(&mut self, claim: String, hunks: &[Hunk]) -> (r: Option<Claim>)
        requires
            old(self)@.wf(),
        ensures
            final(self)@ == old(self)@.claimed(claim@, hunk_models(hunks@)),
            final(self)@.wf(),
            match r {
                Some(c) => {
                    let q = old(self)@.questions[old(self).current as int];
                    &&& old(self)@.claim_stands(claim@, hunk_models(hunks@))
                    &&& c.question_id == q.id
                    &&& c.question@ == q.text
                    &&& c.reference@ == q.reference
                    &&& c.claim@ == claim@
                },
                None => !old(self)@.claim_stands(claim@, hunk_models(hunks@)),
            },
    {
        let ghost a = self@;
        if self.current >= self.questions.len() {
            return None;
        }
        if trim(claim.as_str()).as_str().is_empty() {
            self.say("nothing to dispute");
            return None;
        }
        if !cites_a_changed_line(claim.as_str(), hunks) {
            self.say("a dispute must quote a changed line, like sync.rs:88");
            return None;
        }
        let i: usize = self.current;
        assert(a.questions[i as int] == self.questions@[i as int]@);
        assert(a.slots[i as int] == self.slots@[i as int]@);
        let call = Claim {
            question_id: self.questions[i].id,
            question: self.questions[i].text.clone(),
            reference: self.questions[i].reference.clone(),
            claim: claim.clone(),
        };
        self.slots[i].dispute = Some(claim);
        self.slots[i].note = None;
        self.status = "disputing…".to_owned();
        proof {
            let b = a.claimed(claim@, hunk_models(hunks@));
            assert(self.slots@[i as int]@ == b.slots[i as int]);
            assert(self@.slots =~= b.slots);
        }
        Some(call)
    }

    /// Submits the answer to the current question, and moves on.
    pub fn submit(&mut self, hunks: &[Hunk]) -> (r: Action)
        requires
            old(self)@.wf(),
        ensures
            final(self)@ == old(self)@.after_submit(hunk_models(hunks@)).0,
            is_action(r, old(self)@.after_submit(hunk_models(hunks@)).1),
            final(self)@.wf(),
    {
        let ghost a = self@;
        let ghost hs = hunk_models(hunks@);
        if self.mode() == Mode::Grading {
            self.say("already grading this one");
            return Action::Stay;
        }
        if self.current >= self.questions.len() {
            return Action::Stay;
        }
        if trim(self.answer()).as_str().is_empty() {
            self.say("nothing to submit — press a to write an answer");
            return Action::Stay;
        }
        let i: usize = self.current;
        assert(a.questions[i as int] == self.questions@[i as int]@);
        assert(a.slots[i as int] == self.slots@[i as int]@);
        let id: i64 = self.questions[i].id;
        let question = self.questions[i].text.clone();
        let answer = self.slots[i].answer.clone();
        let hints_used: usize = self.slots[i].hints_shown;
        self.slots[i].pending = Some(Pending { answer: answer.clone(), hints_used });
        self.slots[i].verdict = None;
        proof {
            let b = a.with_pending();
            assert(self.slots@[i as int]@ == b.slots[i as int]);
            assert(self@.slots =~= b.slots);
            assert(self@ == b);
        }
        let cited = cites_the_diff(answer.as_str(), hunks);
        if cited {
            self.status = "grading…".to_owned();
        }
        if self.advance(hunks) {
            let out: usize = self.in_flight();
            self.status = STATUS_ANSWERING.to_owned().concat(" · ").concat(
                show_usize(out).as_str(),
            ).concat(" grading");
        }
        if cited {
            Action::Grade { question_id: id, question, answer }
        } else {
            Action::Settle(
                AppEvent::Graded {
                    question_id: id,
                    label: Label::Wrong,
                    feedback: "Cites nothing from the diff — name an identifier, file or line.".to_owned(),
                },
            )
        }
    }

    fn pan(&mut self, right: bool)
        ensures
            final(self)@ == (AppModel { hscroll: final(self).hscroll, ..old(self)@ }),
            right ==> final(self).hscroll == if old(self).hscroll + 8 <= u16::MAX {
                old(self).hscroll + 8
            } else {
                u16::MAX as int
            },
            !right ==> final(self).hscroll == if old(self).hscroll >= 8 {
                old(self).hscroll - 8
            } else {
                0
            },
    {
        self.hscroll = if right {
            self.hscroll.saturating_add(8)
        } else {
            self.hscroll.saturating_sub(8)
        };
    }

    fn press_char(&mut self, c: char, ctrl: bool, hunks: &[Hunk], records: &Records) -> (r: Action)
        requires
            old(self)@.wf(),
        ensures
            ({
                let key = Key { code: Code::Char(c), ctrl };
                let result = old(self)@.after_key(key, hunk_models(hunks@), records@);
                final(self)@ == result.0 && is_action(r, result.1)
            }),
            final(self)@.wf(),
    {
        if c == 'q' {
            return self.press_quit();
        }
        if c == 'c' && ctrl {
            return Action::Leave;
        }
        if c == ' ' {
            return self.press_space(hunks);
        }
        if c == 'a' || c == 'e' {
            return self.press_edit();
        }
        if c == 'd' {
            return self.press_dispute(records);
        }
        if c == 's' && ctrl {
            return self.submit(hunks);
        }
        if c == 'j' {
            self.scroll_by(1);
        } else if c == 'k' {
            self.scroll_by(-1);
        } else if c == 'n' {
            self.jump_hunk(true);
        } else if c == 'p' {
            self.jump_hunk(false);
        } else if c == ']' {
            self.jump_file(true);
        } else if c == '[' {
            self.jump_file(false);
        } else if c == 'g' {
            self.jump_to_anchor(hunks);
        } else if '0' < c && c <= '9' {
            self.press_number(c, hunks);
        } else if c == 'h' && self.mode() != Mode::Reviewing {
            self.press_hint();
        }
        Action::Stay
    }

    /// Takes in a key, and says what is to be done.
    pub fn on_key(&mut self, key: Key, hunks: &[Hunk], records: &Records) -> (r: Action)
        requires
            old(self)@.wf(),
        ensures
            ({
                let result = old(self)@.after_key(key, hunk_models(hunks@), records@);
                final(self)@ == result.0 && is_action(r, result.1)
            }),
            final(self)@.wf(),
    {
        match key.code {
            Code::Char(c) => {
                return self.press_char(c, key.ctrl, hunks, records);
            },
            Code::Down => {
                self.scroll_by(1);
            },
            Code::Up => {
                self.scroll_by(-1);
            },
            Code::PageDown => {
                self.scroll_by(20);
            },
            Code::PageUp => {
                self.scroll_by(-20);
            },
            Code::Right => {
                self.pan(true);
            },
            Code::Left => {
                self.pan(false);
            },
            Code::Tab => {
                let n: usize = self.questions.len();
                if n > 0 {
                    self.goto(self.current + 1, hunks);
                }
            },
            Code::BackTab => {
                let n: usize = self.questions.len();
                if n > 0 {
                    let i: usize = if self.current > 0 { self.current - 1 } else { n - 1 };
                    proof {
                        let m = n as int;
                        let c = self.current as int;
                        assert((c + m - 1) % m == i as int % m) by (nonlinear_arith)
                            requires
                                0 <= c < m,
                                i == if c > 0 { c - 1 } else { m - 1 },
                        ;
                    }
                    self.goto(i, hunks);
                }
            },
            _ => {},
        }
        Action::Stay
    }
}

// ---------------------------------------------------------------- laws

/// While an answer is with the judge it is frozen: no key edits it, submits it again, or
/// takes anything off the slot of its question.
pub proof fn the_answer_is_frozen_while_it_is_graded(
    a: AppModel,
    key: Key,
    hunks: Seq<HunkModel>,
    r: RecordsModel,
)
    requires
        a.wf(),
        a.mode() == Mode::Grading,
    ensures
        !(a.after_key(key, hunks, r).1 is Edit),
        !(a.after_key(key, hunks, r).1 is Grade),
        !(a.after_key(key, hunks, r).1 is Settle),
        a.after_key(key, hunks, r).0.slots[a.current as int].pending == a.slot().pending,
        a.after_key(key, hunks, r).0.slots[a.current as int].answer == a.slot().answer,
{
    keys_keep_drafts(a, key, hunks, r, a.current as int);
}

/// Every question keeps its own draft: no key by itself changes what was written as an
/// answer, to the question on the screen or to any other.
pub proof fn keys_keep_drafts(
    a: AppModel,
    key: Key,
    hunks: Seq<HunkModel>,
    r: RecordsModel,
    i: int,
)
    requires
        a.wf(),
        0 <= i < a.slots.len(),
    ensures
        a.after_key(key, hunks, r).0.slots.len() == a.slots.len(),
        a.after_key(key, hunks, r).0.slots[i].answer == a.slots[i].answer,
        a.after_key(key, hunks, r).0.questions == a.questions,
        a.after_key(key, hunks, r).0.scores == a.scores,
        a.after_key(key, hunks, r).0.diff == a.diff,
        i != a.current ==> a.after_key(key, hunks, r).0.slots[i] == a.slots[i],
{
    if let Code::Char(c) = key.code {
        if c == 's' && key.ctrl {
            let sent = a.with_pending();
            assert(sent.slots.len() == a.slots.len());
        }
    }
}

/// With a call outstanding, leaving takes two presses: the first one arms it and stays.
pub proof fn leaving_takes_two_presses(a: AppModel, hunks: Seq<HunkModel>, r: RecordsModel, ctrl: bool)
    requires
        calls_out(a.slots) > 0,
        !a.quit,
    ensures
        ({
            let key = Key { code: Code::Char('q'), ctrl };
            let once = a.after_key(key, hunks, r);
            let twice = once.0.after_key(key, hunks, r);
            &&& once.1 is Stay
            &&& once.0.quit
            &&& once.0.slots == a.slots
            &&& twice.1 is Leave
        }),
{
}

/// An answer goes to the judge only where it cites the diff, and then as it stands in its
/// slot; one that cites nothing is wrong without the judge being asked.
pub proof fn only_citing_answers_reach_the_judge(
    a: AppModel,
    key: Key,
    hunks: Seq<HunkModel>,
    r: RecordsModel,
)
    requires
        a.wf(),
    ensures
        match a.after_key(key, hunks, r).1 {
            ActionModel::Grade { question_id, question, answer } => {
                &&& a.current < a.questions.len()
                &&& cites(answer, hunks)
                &&& answer == a.slot().answer
                &&& question_id == a.questions[a.current as int].id
                &&& question == a.questions[a.current as int].text
                &&& a.after_key(key, hunks, r).0.slots[a.current as int].pending == Some(
                    PendingModel { answer, hints_used: a.slot().hints_shown },
                )
            },
            ActionModel::Settle { question_id, label, feedback } => {
                &&& a.current < a.questions.len()
                &&& !cites(a.slot().answer, hunks)
                &&& label == Label::Wrong
                &&& question_id == a.questions[a.current as int].id
            },
            _ => true,
        },
{
    if let Code::Char(c) = key.code {
        if c == 's' && key.ctrl {
            let sent = a.with_pending();
            assert(sent.slots.len() == a.slots.len());
        }
    }
}

/// A claim can be written only on a question that is neither settled nor with the judge on
/// a claim already, that has had no dispute, and whose gate has had fewer than two.
pub proof fn disputes_are_capped(a: AppModel, key: Key, hunks: Seq<HunkModel>, r: RecordsModel)
    requires
        a.after_key(key, hunks, r).1 is EditClaim,
    ensures
        a.current < a.questions.len(),
        !settled(a.questions[a.current as int].status),
        a.slot().dispute is None,
        question_disputes(r.attempts, a.questions[a.current as int].id) == 0,
        gate_disputes(
            r.attempts,
            r.questions,
            gate_of(r.questions, a.questions[a.current as int].id),
        ) < 2,
{
}

/// Hints come one at a time, and never more than there are.
pub proof fn hints_come_one_at_a_time(a: AppModel)
    requires
        a.wf(),
        a.questions.len() > 0,
    ensures
        a.after_hint().slot().hints_shown <= a.slot().hints_shown + 1,
        a.slot().hints_shown <= a.questions[a.current as int].hints.len()
            ==> a.after_hint().slot().hints_shown <= a.questions[a.current as int].hints.len(),
        a.slot().hints_shown >= a.questions[a.current as int].hints.len()
            ==> a.after_hint().slot() == a.slot(),
{
}

} // verus!
