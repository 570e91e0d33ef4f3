//! The record of gates, questions, attempts and obligations.
//!
//! A record is read whole, changed by the functions here, and written back. Rows stand
//! in the order of their identifiers, which is the order in which they were added.

use vstd::prelude::*;
use crate::json::{json_array, json_list, read_list, write_list};
use crate::llm::PARTIAL;
use crate::llm::generate::optional_text;
use crate::text::chars::same;
use crate::text::order::{before, before_is_total, before_is_transitive, is_before};
use crate::text::split::{clone_texts, texts};

pub mod laws;
pub mod storage;

verus! {

// ---------------------------------------------------------------- rows

/// A quiz on a pull request.
#[derive(Debug)]
pub struct Gate {
    pub id: i64,
    pub repo: String,
    /// Work tree this gate was created in. The dashboard runs git there; without it a
    /// gate is unreachable from outside its own repository.
    pub path: String,
    /// The diff snapshot taken when this gate was created. A replay works from this, so
    /// the questions still line up with the text they were written against. Empty on
    /// an archived gate, which is never replayed.
    pub diff: String,
    pub pr_number: u64,
    pub branch: String,
    pub base_ref: String,
    pub base_sha: String,
    pub head_sha: String,
    pub hunks_total: i64,
    pub hunks_ai: i64,
    pub hunks_covered: i64,
    pub authorship: String,
    pub has_checkable: bool,
    pub has_exercise: bool,
    pub state: String,
}

/// A gate as its texts and numbers.
pub struct GateModel {
    pub id: i64,
    pub repo: Seq<char>,
    pub path: Seq<char>,
    pub diff: Seq<char>,
    pub pr_number: u64,
    pub branch: Seq<char>,
    pub base_ref: Seq<char>,
    pub base_sha: Seq<char>,
    pub head_sha: Seq<char>,
    pub hunks_total: i64,
    pub hunks_ai: i64,
    pub hunks_covered: i64,
    pub authorship: Seq<char>,
    pub has_checkable: bool,
    pub has_exercise: bool,
    pub state: Seq<char>,
}

impl View for Gate {
    type V = GateModel;

    open spec fn view(&self) -> GateModel {
        GateModel {
            id: self.id,
            repo: self.repo@,
            path: self.path@,
            diff: self.diff@,
            pr_number: self.pr_number,
            branch: self.branch@,
            base_ref: self.base_ref@,
            base_sha: self.base_sha@,
            head_sha: self.head_sha@,
            hunks_total: self.hunks_total,
            hunks_ai: self.hunks_ai,
            hunks_covered: self.hunks_covered,
            authorship: self.authorship@,
            has_checkable: self.has_checkable,
            has_exercise: self.has_exercise,
            state: self.state@,
        }
    }
}

impl Clone for Gate {
    fn clone(&self) -> (r: Self)
        ensures
            r@ == self@,
    {
        Gate {
            id: self.id,
            repo: self.repo.clone(),
            path: self.path.clone(),
            diff: self.diff.clone(),
            pr_number: self.pr_number,
            branch: self.branch.clone(),
            base_ref: self.base_ref.clone(),
            base_sha: self.base_sha.clone(),
            head_sha: self.head_sha.clone(),
            hunks_total: self.hunks_total,
            hunks_ai: self.hunks_ai,
            hunks_covered: self.hunks_covered,
            authorship: self.authorship.clone(),
            has_checkable: self.has_checkable,
            has_exercise: self.has_exercise,
            state: self.state.clone(),
        }
    }
}

/// A gate with its dates.
#[derive(Debug)]
pub struct GateRow {
    pub gate: Gate,
    pub created_at: String,
    pub updated_at: String,
    pub cleared_at: Option<String>,
    /// When another gate took its place, or the pull request was closed.
    pub superseded_at: Option<String>,
}

/// A gate with its dates, as texts and numbers.
pub struct GateRowModel {
    pub gate: GateModel,
    pub created_at: Seq<char>,
    pub updated_at: Seq<char>,
    pub cleared_at: Option<Seq<char>>,
    pub superseded_at: Option<Seq<char>>,
}

impl View for GateRow {
    type V = GateRowModel;

    open spec fn view(&self) -> GateRowModel {
        GateRowModel {
            gate: self.gate@,
            created_at: self.created_at@,
            updated_at: self.updated_at@,
            cleared_at: optional_text(self.cleared_at),
            superseded_at: optional_text(self.superseded_at),
        }
    }
}

/// A question of a gate. Its score is in tenths.
#[derive(Debug)]
pub struct Question {
    pub id: i64,
    pub kind: String,
    pub file: String,
    pub anchor: String,
    pub text: String,
    pub reference: String,
    pub hints: Vec<String>,
    pub status: String,
    pub label: Option<String>,
    pub score: Option<u32>,
}

/// A question as its texts and numbers.
pub struct QuestionModel {
    pub id: i64,
    pub kind: Seq<char>,
    pub file: Seq<char>,
    pub anchor: Seq<char>,
    pub text: Seq<char>,
    pub reference: Seq<char>,
    pub hints: Seq<Seq<char>>,
    pub status: Seq<char>,
    pub label: Option<Seq<char>>,
    pub score: Option<u32>,
}

impl View for Question {
    type V = QuestionModel;

    open spec fn view(&self) -> QuestionModel {
        QuestionModel {
            id: self.id,
            kind: self.kind@,
            file: self.file@,
            anchor: self.anchor@,
            text: self.text@,
            reference: self.reference@,
            hints: texts(self.hints@),
            status: self.status@,
            label: optional_text(self.label),
            score: self.score,
        }
    }
}

fn clone_optional(s: &Option<String>) -> (r: Option<String>)
    ensures
        optional_text(r) == optional_text(*s),
{
    match s {
        Some(s) => Some(s.clone()),
        None => None,
    }
}

impl Clone for Question {
    fn clone(&self) -> (r: Self)
        ensures
            r@ == self@,
    {
        Question {
            id: self.id,
            kind: self.kind.clone(),
            file: self.file.clone(),
            anchor: self.anchor.clone(),
            text: self.text.clone(),
            reference: self.reference.clone(),
            hints: clone_texts(&self.hints),
            status: self.status.clone(),
            label: clone_optional(&self.label),
            score: self.score,
        }
    }
}

/// The texts and numbers of a list of questions.
pub open spec fn question_models(qs: Seq<Question>) -> Seq<QuestionModel> {
    Seq::new(qs.len(), |i: int| qs[i]@)
}

/// The hints that are stored as this text: none where it does not spell any.
pub open spec fn stored_hints(text: Seq<char>) -> Seq<Seq<char>> {
    match json_list(text) {
        Some(hints) => hints,
        None => Seq::empty(),
    }
}

/// Hints as they are stored. They read back as they were.
pub fn write_hints(hints: &[String]) -> (r: String)
    ensures
        r@ == json_array(texts(hints@)),
        stored_hints(r@) == texts(hints@),
{
    write_list(hints)
}

/// Hints as they were stored.
pub fn read_hints(text: &str) -> (r: Vec<String>)
    ensures
        texts(r@) == stored_hints(text@),
{
    match read_list(text) {
        Some(hints) => hints,
        None => {
            let none: Vec<String> = Vec::new();
            assert(texts(none@) =~= Seq::<Seq<char>>::empty());
            none
        },
    }
}

/// A question with the identifier of its gate.
#[derive(Debug)]
pub struct QuestionRow {
    pub gate_id: i64,
    pub question: Question,
    pub created_at: String,
}

/// A question with the identifier of its gate, as texts and numbers.
pub struct QuestionRowModel {
    pub gate_id: i64,
    pub question: QuestionModel,
    pub created_at: Seq<char>,
}

impl View for QuestionRow {
    type V = QuestionRowModel;

    open spec fn view(&self) -> QuestionRowModel {
        QuestionRowModel {
            gate_id: self.gate_id,
            question: self.question@,
            created_at: self.created_at@,
        }
    }
}

/// An answer to a question, or a dispute of it.
#[derive(Debug)]
pub struct Attempt {
    pub question_id: i64,
    pub mode: String,
    pub body: String,
    pub hints_used: i64,
    pub label: String,
    /// In tenths. A dispute has none.
    pub score: Option<u32>,
    pub feedback: String,
    pub judge_model: String,
    pub created_at: String,
}

/// An attempt as its texts and numbers.
pub struct AttemptModel {
    pub question_id: i64,
    pub mode: Seq<char>,
    pub body: Seq<char>,
    pub hints_used: i64,
    pub label: Seq<char>,
    pub score: Option<u32>,
    pub feedback: Seq<char>,
    pub judge_model: Seq<char>,
    pub created_at: Seq<char>,
}

impl View for Attempt {
    type V = AttemptModel;

    open spec fn view(&self) -> AttemptModel {
        AttemptModel {
            question_id: self.question_id,
            mode: self.mode@,
            body: self.body@,
            hints_used: self.hints_used,
            label: self.label@,
            score: self.score,
            feedback: self.feedback@,
            judge_model: self.judge_model@,
            created_at: self.created_at@,
        }
    }
}

/// Something that is open on a change: fix it, or withdraw the claim.
#[derive(Debug)]
pub struct ObligationRow {
    pub gate_id: i64,
    pub question_id: i64,
    pub body: String,
    pub created_at: String,
    pub settled_at: Option<String>,
}

/// An obligation as its texts and numbers.
pub struct ObligationRowModel {
    pub gate_id: i64,
    pub question_id: i64,
    pub body: Seq<char>,
    pub created_at: Seq<char>,
    pub settled_at: Option<Seq<char>>,
}

impl View for ObligationRow {
    type V = ObligationRowModel;

    open spec fn view(&self) -> ObligationRowModel {
        ObligationRowModel {
            gate_id: self.gate_id,
            question_id: self.question_id,
            body: self.body@,
            created_at: self.created_at@,
            settled_at: optional_text(self.settled_at),
        }
    }
}

/// What is asked of a new gate.
#[derive(Clone, Copy)]
pub struct NewGate<'a> {
    pub repo: &'a str,
    pub path: &'a str,
    pub pr_number: u64,
    pub branch: &'a str,
    pub base_ref: &'a str,
    pub base_sha: &'a str,
    pub head_sha: &'a str,
    pub diff: &'a str,
    pub hunks_total: i64,
    pub hunks_ai: i64,
    pub authorship: &'a str,
    pub state: &'a str,
}

/// What is asked of a new question.
pub struct NewQuestion<'a> {
    pub kind: &'a str,
    pub file: &'a str,
    pub anchor: &'a str,
    pub text: &'a str,
    pub reference: &'a str,
    pub hints: &'a [String],
}

// ---------------------------------------------------------------- the record

/// All that is recorded.
#[derive(Debug)]
pub struct Records {
    pub gates: Vec<GateRow>,
    pub questions: Vec<QuestionRow>,
    pub attempts: Vec<Attempt>,
    pub obligations: Vec<ObligationRow>,
}

/// All that is recorded, as texts and numbers.
pub struct RecordsModel {
    pub gates: Seq<GateRowModel>,
    pub questions: Seq<QuestionRowModel>,
    pub attempts: Seq<AttemptModel>,
    pub obligations: Seq<ObligationRowModel>,
}

impl View for Records {
    type V = RecordsModel;

    open spec fn view(&self) -> RecordsModel {
        RecordsModel {
            gates: Seq::new(self.gates@.len(), |i: int| self.gates@[i]@),
            questions: Seq::new(self.questions@.len(), |i: int| self.questions@[i]@),
            attempts: Seq::new(self.attempts@.len(), |i: int| self.attempts@[i]@),
            obligations: Seq::new(self.obligations@.len(), |i: int| self.obligations@[i]@),
        }
    }
}

/// Why something could not be recorded.
#[derive(Debug, Clone, Copy, PartialEq, Eq, Structural)]
pub enum RecordError {
    /// There is no gate with this identifier.
    NoGate,
    /// There is no question with this identifier.
    NoQuestion,
}

/// Whether a gate is live and the one of this pull request.
pub open spec fn is_live_for(row: GateRowModel, repo: Seq<char>, pr: u64) -> bool {
    row.superseded_at is None && row.gate.repo == repo && row.gate.pr_number == pr
}

impl RecordsModel {
    /// Gates stand in the order of their identifiers, and no two share one.
    pub open spec fn gates_ordered(self) -> bool {
        forall|i: int, j: int|
            0 <= i < j < self.gates.len() ==> (#[trigger] self.gates[i]).gate.id < (
            #[trigger] self.gates[j]).gate.id
    }

    /// Questions stand in the order of their identifiers, and no two share one.
    pub open spec fn questions_ordered(self) -> bool {
        forall|i: int, j: int|
            0 <= i < j < self.questions.len() ==> (#[trigger] self.questions[i]).question.id < (
            #[trigger] self.questions[j]).question.id
    }

    /// No pull request has two live gates.
    pub open spec fn one_live_gate_each(self) -> bool {
        forall|i: int, j: int|
            0 <= i < self.gates.len() && 0 <= j < self.gates.len() && (
            #[trigger] self.gates[i]).superseded_at is None && (
            #[trigger] self.gates[j]).superseded_at is None && self.gates[i].gate.repo
                == self.gates[j].gate.repo && self.gates[i].gate.pr_number
                == self.gates[j].gate.pr_number ==> i == j
    }

    /// Every question stands on a gate that there is, and every attempt and obligation on a
    /// question, and an obligation on a gate too.
    pub open spec fn linked(self) -> bool {
        &&& forall|i: int|
            0 <= i < self.questions.len() ==> self.has_gate((#[trigger] self.questions[i]).gate_id)
        &&& forall|i: int|
            0 <= i < self.attempts.len() ==> self.has_question(
                (#[trigger] self.attempts[i]).question_id,
            )
        &&& forall|i: int|
            0 <= i < self.obligations.len() ==> self.has_gate(
                (#[trigger] self.obligations[i]).gate_id,
            ) && self.has_question(self.obligations[i].question_id)
    }

    pub open spec fn wf(self) -> bool {
        &&& self.gates_ordered()
        &&& self.questions_ordered()
        &&& self.one_live_gate_each()
        &&& self.linked()
    }

    /// The identifier of the next gate.
    pub open spec fn next_gate_id(self) -> int {
        if self.gates.len() == 0 {
            1
        } else {
            self.gates.last().gate.id + 1
        }
    }

    /// The identifier of the next question.
    pub open spec fn next_question_id(self) -> int {
        if self.questions.len() == 0 {
            1
        } else {
            self.questions.last().question.id + 1
        }
    }

    /// Whether there are identifiers left for a gate with so many questions.
    pub open spec fn has_room(self, questions: nat) -> bool {
        &&& self.next_gate_id() <= i64::MAX
        &&& questions <= i64::MAX
        &&& self.next_question_id() + questions <= i64::MAX
    }

    /// Whether there is a gate with this identifier.
    pub open spec fn has_gate(self, id: i64) -> bool {
        exists|i: int| 0 <= i < self.gates.len() && (#[trigger] self.gates[i]).gate.id == id
    }

    /// Whether there is a question with this identifier.
    pub open spec fn has_question(self, id: i64) -> bool {
        exists|i: int| 0 <= i < self.questions.len() && (#[trigger] self.questions[i]).question.id == id
    }
}

// ---------------------------------------------------------------- gates

/// A gate taken out of use. The diff snapshot goes: it exists only so that a gate can
/// be replayed, an archived gate never is, and it is by far the largest part.
pub open spec fn archived(row: GateRowModel, now: Seq<char>) -> GateRowModel {
    GateRowModel {
        gate: GateModel { diff: Seq::empty(), ..row.gate },
        updated_at: now,
        superseded_at: Some(now),
        ..row
    }
}

/// Gates with the live one of a pull request archived.
pub open spec fn with_archived(gates: Seq<GateRowModel>, repo: Seq<char>, pr: u64, now: Seq<char>) -> Seq<
    GateRowModel,
> {
    Seq::new(
        gates.len(),
        |i: int|
            if is_live_for(gates[i], repo, pr) {
                archived(gates[i], now)
            } else {
                gates[i]
            },
    )
}

/// A new gate.
pub open spec fn new_gate_row(id: i64, g: NewGate, now: Seq<char>) -> GateRowModel {
    GateRowModel {
        gate: GateModel {
            id,
            repo: g.repo@,
            path: g.path@,
            diff: g.diff@,
            pr_number: g.pr_number,
            branch: g.branch@,
            base_ref: g.base_ref@,
            base_sha: g.base_sha@,
            head_sha: g.head_sha@,
            hunks_total: g.hunks_total,
            hunks_ai: g.hunks_ai,
            hunks_covered: 0,
            authorship: g.authorship@,
            has_checkable: false,
            has_exercise: false,
            state: g.state@,
        },
        created_at: now,
        updated_at: now,
        cleared_at: None,
        superseded_at: None,
    }
}

/// The record once a gate took the place of the one before it.
pub open spec fn upserted(r: RecordsModel, g: NewGate, now: Seq<char>) -> RecordsModel {
    RecordsModel {
        gates: with_archived(r.gates, g.repo@, g.pr_number, now).push(
            new_gate_row(r.next_gate_id() as i64, g, now),
        ),
        ..r
    }
}

/// Whether a state means that its gate is done with.
pub open spec fn is_final_state(state: Seq<char>) -> bool {
    state == "cleared"@ || state == "trivial"@
}

/// A gate in another state.
pub open spec fn in_state(row: GateRowModel, state: Seq<char>, now: Seq<char>) -> GateRowModel {
    GateRowModel {
        gate: GateModel { state, ..row.gate },
        updated_at: now,
        cleared_at: if is_final_state(state) {
            Some(now)
        } else {
            row.cleared_at
        },
        ..row
    }
}

/// The record with a gate in another state.
pub open spec fn with_state(r: RecordsModel, id: i64, state: Seq<char>, now: Seq<char>) -> RecordsModel {
    RecordsModel {
        gates: Seq::new(
            r.gates.len(),
            |i: int|
                if r.gates[i].gate.id == id {
                    in_state(r.gates[i], state, now)
                } else {
                    r.gates[i]
                },
        ),
        ..r
    }
}

/// The record with what a gate covers.
pub open spec fn with_coverage(
    r: RecordsModel,
    id: i64,
    covered: i64,
    has_checkable: bool,
    has_exercise: bool,
    now: Seq<char>,
) -> RecordsModel {
    RecordsModel {
        gates: Seq::new(
            r.gates.len(),
            |i: int|
                if r.gates[i].gate.id == id {
                    GateRowModel {
                        gate: GateModel {
                            hunks_covered: covered,
                            has_checkable,
                            has_exercise,
                            ..r.gates[i].gate
                        },
                        updated_at: now,
                        ..r.gates[i]
                    }
                } else {
                    r.gates[i]
                },
        ),
        ..r
    }
}

impl Records {
    /// An empty record.
    pub fn new() -> (r: Self)
        ensures
            r@.wf(),
            r@.gates.len() == 0,
            r@.questions.len() == 0,
            r@.attempts.len() == 0,
            r@.obligations.len() == 0,
    {
        Records {
            gates: Vec::new(),
            questions: Vec::new(),
            attempts: Vec::new(),
            obligations: Vec::new(),
        }
    }
}

/// Takes a gate out of use.
fn archive_row(row: &mut GateRow, now: &str)
    ensures
        final(row)@ == archived(old(row)@, now@),
{
    row.gate.diff = String::new();
    row.updated_at = now.to_owned();
    row.superseded_at = Some(now.to_owned());
}

/// Archives the live gate of a pull request, if there is one.
fn archive_live_gate(records: &mut Records, repo: &str, pr: u64, now: &str)
    ensures
        final(records)@ == (RecordsModel {
            gates: with_archived(old(records)@.gates, repo@, pr, now@),
            ..old(records)@
        }),
{
    let ghost start = *records;
    let mut i: usize = 0;
    while i < records.gates.len()
        invariant
            i <= records.gates@.len() == start.gates@.len(),
            records.questions == start.questions,
            records.attempts == start.attempts,
            records.obligations == start.obligations,
            forall|j: int|
                0 <= j < i ==> (#[trigger] records.gates@[j])@ == with_archived(
                    start@.gates,
                    repo@,
                    pr,
                    now@,
                )[j],
            forall|j: int|
                i <= j < start.gates@.len() ==> #[trigger] records.gates@[j] == start.gates@[j],
        decreases records.gates@.len() - i,
    {
        let ghost row = records.gates@[i as int];
        if records.gates[i].superseded_at.is_none() && records.gates[i].gate.pr_number == pr && same(
            records.gates[i].gate.repo.as_str(),
            repo,
        ) {
            archive_row(&mut records.gates[i], now);
        }
        i += 1;
    }
    assert(records@.gates =~= with_archived(start@.gates, repo@, pr, now@));
}

/// Records a new gate. There is one live gate for each pull request: the one before it
/// is archived, since the answers given under the old questions are work already paid
/// for, and deleting them would lose the record of it.
pub fn upsert_gate(records: &mut Records, g: &NewGate, now: &str) -> (id: i64)
    requires
        old(records)@.wf(),
        old(records)@.next_gate_id() <= i64::MAX,
    ensures
        id == old(records)@.next_gate_id(),
        final(records)@ == upserted(old(records)@, *g, now@),
        final(records)@.wf(),
{
    let n: usize = records.gates.len();
    let id: i64 = if n == 0 {
        1
    } else {
        assert(records@.gates.last() == records.gates@[n - 1]@);
        records.gates[n - 1].gate.id + 1
    };
    let ghost start = records@;
    archive_live_gate(records, g.repo, g.pr_number, now);
    let row = GateRow {
        gate: Gate {
            id,
            repo: g.repo.to_owned(),
            path: g.path.to_owned(),
            diff: g.diff.to_owned(),
            pr_number: g.pr_number,
            branch: g.branch.to_owned(),
            base_ref: g.base_ref.to_owned(),
            base_sha: g.base_sha.to_owned(),
            head_sha: g.head_sha.to_owned(),
            hunks_total: g.hunks_total,
            hunks_ai: g.hunks_ai,
            hunks_covered: 0,
            authorship: g.authorship.to_owned(),
            has_checkable: false,
            has_exercise: false,
            state: g.state.to_owned(),
        },
        created_at: now.to_owned(),
        updated_at: now.to_owned(),
        cleared_at: None,
        superseded_at: None,
    };
    let ghost middle = records@;
    records.gates.push(row);
    proof {
        assert(records@.gates =~= middle.gates.push(row@));
        assert(records@ == upserted(start, *g, now@));
        upserting_keeps_order(start, *g, now@);
    }
    id
}

/// A new gate takes the place of the one before it: the order of gates is kept, and
/// there is one live gate for each pull request still.
pub proof fn upserting_keeps_order(r: RecordsModel, g: NewGate, now: Seq<char>)
    requires
        r.wf(),
        r.next_gate_id() <= i64::MAX,
    ensures
        upserted(r, g, now).wf(),
{
    let u = upserted(r, g, now);
    links_kept(r, u);
    assert forall|i: int, j: int| 0 <= i < j < u.gates.len() implies (
    #[trigger] u.gates[i]).gate.id < (#[trigger] u.gates[j]).gate.id by {
        if j == r.gates.len() {
            if i < r.gates.len() - 1 {
                assert(r.gates[i].gate.id < r.gates[r.gates.len() - 1].gate.id);
            }
        } else {
            assert(r.gates[i].gate.id < r.gates[j].gate.id);
        }
    }
    assert forall|i: int, j: int|
        0 <= i < u.gates.len() && 0 <= j < u.gates.len() && (
        #[trigger] u.gates[i]).superseded_at is None && (
        #[trigger] u.gates[j]).superseded_at is None && u.gates[i].gate.repo
            == u.gates[j].gate.repo && u.gates[i].gate.pr_number
            == u.gates[j].gate.pr_number implies i == j by {
        if i < r.gates.len() && j < r.gates.len() {
            assert(r.gates[i].superseded_at is None);
            assert(r.gates[j].superseded_at is None);
        }
    }
}

/// Re-running on a pull request leaves exactly one live gate for it, the new one, and
/// keeps the one before it; no question, no answer and no obligation is lost.
pub proof fn re_running_leaves_one_live_gate(r: RecordsModel, g: NewGate, now: Seq<char>)
    requires
        r.wf(),
        r.next_gate_id() <= i64::MAX,
    ensures
        upserted(r, g, now).gates.len() == r.gates.len() + 1,
        forall|i: int|
            0 <= i < upserted(r, g, now).gates.len() && is_live_for(
                #[trigger] upserted(r, g, now).gates[i],
                g.repo@,
                g.pr_number,
            ) ==> i == r.gates.len(),
        is_live_for(upserted(r, g, now).gates[r.gates.len() as int], g.repo@, g.pr_number),
        upserted(r, g, now).questions == r.questions,
        upserted(r, g, now).attempts == r.attempts,
        upserted(r, g, now).obligations == r.obligations,
{
}

/// The gates of other pull requests are untouched, and a gate that is archived is
/// marked, keeps all but its diff snapshot, and never comes back.
pub proof fn archived_gates_drop_their_diff(r: RecordsModel, g: NewGate, now: Seq<char>, i: int)
    requires
        0 <= i < r.gates.len(),
    ensures
        !is_live_for(r.gates[i], g.repo@, g.pr_number) ==> upserted(r, g, now).gates[i]
            == r.gates[i],
        is_live_for(r.gates[i], g.repo@, g.pr_number) ==> {
            let kept = upserted(r, g, now).gates[i];
            kept.superseded_at is Some && kept.gate == (GateModel {
                diff: Seq::empty(),
                ..r.gates[i].gate
            })
        },
{
}

/// Puts a gate in another state. A gate that is done with remembers when.
pub fn set_gate_state(records: &mut Records, gate_id: i64, state: &str, now: &str)
    ensures
        final(records)@ == with_state(old(records)@, gate_id, state@, now@),
        old(records)@.wf() ==> final(records)@.wf(),
{
    let done = same(state, "cleared") || same(state, "trivial");
    let ghost start = *records;
    let mut i: usize = 0;
    while i < records.gates.len()
        invariant
            i <= records.gates@.len() == start.gates@.len(),
            done == is_final_state(state@),
            records.questions == start.questions,
            records.attempts == start.attempts,
            records.obligations == start.obligations,
            forall|j: int|
                0 <= j < i ==> (#[trigger] records.gates@[j])@ == with_state(
                    start@,
                    gate_id,
                    state@,
                    now@,
                ).gates[j],
            forall|j: int|
                i <= j < start.gates@.len() ==> #[trigger] records.gates@[j] == start.gates@[j],
        decreases records.gates@.len() - i,
    {
        let ghost row = records.gates@[i as int];
        if records.gates[i].gate.id == gate_id {
            put_in_state(&mut records.gates[i], state, done, now);
        }
        i += 1;
    }
    proof {
        assert(records@.gates =~= with_state(start@, gate_id, state@, now@).gates);
        if start@.wf() {
            same_gates_stay_wf(start@, records@);
        }
    }
}

fn put_in_state(row: &mut GateRow, state: &str, done: bool, now: &str)
    requires
        done == is_final_state(state@),
    ensures
        final(row)@ == in_state(old(row)@, state@, now@),
{
    row.gate.state = state.to_owned();
    row.updated_at = now.to_owned();
    if done {
        row.cleared_at = Some(now.to_owned());
    }
}

/// What stands on gates and questions of before stands on those of after, where none of them
/// went away.
proof fn links_kept(a: RecordsModel, b: RecordsModel)
    requires
        a.gates.len() <= b.gates.len(),
        forall|i: int|
            0 <= i < a.gates.len() ==> (#[trigger] b.gates[i]).gate.id == a.gates[i].gate.id,
        a.questions.len() <= b.questions.len(),
        forall|i: int|
            0 <= i < a.questions.len() ==> (#[trigger] b.questions[i]).question.id
                == a.questions[i].question.id,
        forall|i: int|
            0 <= i < b.questions.len() ==> a.has_gate((#[trigger] b.questions[i]).gate_id),
        forall|i: int|
            0 <= i < b.attempts.len() ==> a.has_question((#[trigger] b.attempts[i]).question_id),
        forall|i: int|
            0 <= i < b.obligations.len() ==> a.has_gate((#[trigger] b.obligations[i]).gate_id)
                && a.has_question(b.obligations[i].question_id),
    ensures
        b.linked(),
{
    assert forall|id: i64| #[trigger] a.has_gate(id) implies b.has_gate(id) by {
        let i = choose|i: int| 0 <= i < a.gates.len() && (#[trigger] a.gates[i]).gate.id == id;
        assert(b.gates[i].gate.id == id);
    }
    assert forall|id: i64| #[trigger] a.has_question(id) implies b.has_question(id) by {
        let i = choose|i: int|
            0 <= i < a.questions.len() && (#[trigger] a.questions[i]).question.id == id;
        assert(b.questions[i].question.id == id);
    }
}

/// Changing neither the identity of gates nor that of questions keeps a record well
/// formed.
proof fn same_gates_stay_wf(a: RecordsModel, b: RecordsModel)
    requires
        a.wf(),
        a.gates.len() == b.gates.len(),
        forall|i: int|
            0 <= i < a.gates.len() ==> {
                &&& (#[trigger] b.gates[i]).gate.id == a.gates[i].gate.id
                &&& b.gates[i].gate.repo == a.gates[i].gate.repo
                &&& b.gates[i].gate.pr_number == a.gates[i].gate.pr_number
                &&& b.gates[i].superseded_at is None ==> a.gates[i].superseded_at is None
            },
        a.questions.len() == b.questions.len(),
        forall|i: int|
            0 <= i < a.questions.len() ==> (#[trigger] b.questions[i]).question.id
                == a.questions[i].question.id && b.questions[i].gate_id == a.questions[i].gate_id,
        forall|i: int|
            0 <= i < b.attempts.len() ==> a.has_question((#[trigger] b.attempts[i]).question_id),
        b.obligations == a.obligations,
    ensures
        b.wf(),
{
    links_kept(a, b);
    assert forall|i: int, j: int| 0 <= i < j < b.gates.len() implies (
    #[trigger] b.gates[i]).gate.id < (#[trigger] b.gates[j]).gate.id by {
        assert(a.gates[i].gate.id < a.gates[j].gate.id);
    }
    assert forall|i: int, j: int| 0 <= i < j < b.questions.len() implies (
    #[trigger] b.questions[i]).question.id < (#[trigger] b.questions[j]).question.id by {
        assert(a.questions[i].question.id < a.questions[j].question.id);
    }
    assert forall|i: int, j: int|
        0 <= i < b.gates.len() && 0 <= j < b.gates.len() && (
        #[trigger] b.gates[i]).superseded_at is None && (
        #[trigger] b.gates[j]).superseded_at is None && b.gates[i].gate.repo
            == b.gates[j].gate.repo && b.gates[i].gate.pr_number
            == b.gates[j].gate.pr_number implies i == j by {
        assert(a.gates[i].superseded_at is None);
        assert(a.gates[j].superseded_at is None);
    }
}

/// Records what the questions of a gate cover.
pub fn set_gate_coverage(
    records: &mut Records,
    gate_id: i64,
    covered: i64,
    has_checkable: bool,
    has_exercise: bool,
    now: &str,
)
    ensures
        final(records)@ == with_coverage(
            old(records)@,
            gate_id,
            covered,
            has_checkable,
            has_exercise,
            now@,
        ),
        old(records)@.wf() ==> final(records)@.wf(),
{
    let ghost start = *records;
    let ghost goal = with_coverage(start@, gate_id, covered, has_checkable, has_exercise, now@);
    let mut i: usize = 0;
    while i < records.gates.len()
        invariant
            i <= records.gates@.len() == start.gates@.len(),
            goal == with_coverage(start@, gate_id, covered, has_checkable, has_exercise, now@),
            records.questions == start.questions,
            records.attempts == start.attempts,
            records.obligations == start.obligations,
            forall|j: int| 0 <= j < i ==> (#[trigger] records.gates@[j])@ == goal.gates[j],
            forall|j: int|
                i <= j < start.gates@.len() ==> #[trigger] records.gates@[j] == start.gates@[j],
        decreases records.gates@.len() - i,
    {
        let ghost row = records.gates@[i as int];
        if records.gates[i].gate.id == gate_id {
            records.gates[i].gate.hunks_covered = covered;
            records.gates[i].gate.has_checkable = has_checkable;
            records.gates[i].gate.has_exercise = has_exercise;
            records.gates[i].updated_at = now.to_owned();
        }
        assert(records.gates@[i as int]@ == goal.gates[i as int]);
        i += 1;
    }
    proof {
        assert(records@.gates =~= goal.gates);
        if start@.wf() {
            same_gates_stay_wf(start@, records@);
        }
    }
}

/// The first live gate of a pull request.
pub open spec fn live_gate(gates: Seq<GateRowModel>, repo: Seq<char>, pr: u64) -> Option<GateModel>
    decreases gates.len(),
{
    if gates.len() == 0 {
        None
    } else if is_live_for(gates[0], repo, pr) {
        Some(gates[0].gate)
    } else {
        live_gate(gates.skip(1), repo, pr)
    }
}

/// The live gate of a pull request. Archived ones are history, never replayed and never
/// quizzed.
pub fn gate_for_pr(records: &Records, repo: &str, pr: u64) -> (r: Option<Gate>)
    ensures
        match r {
            Some(gate) => live_gate(records@.gates, repo@, pr) == Some(gate@),
            None => live_gate(records@.gates, repo@, pr) is None,
        },
{
    let ghost gates = records@.gates;
    let mut i: usize = 0;
    proof {
        assert(gates.skip(0) =~= gates);
    }
    while i < records.gates.len()
        invariant
            i <= records.gates@.len(),
            gates == records@.gates,
            live_gate(gates, repo@, pr) == live_gate(gates.skip(i as int), repo@, pr),
        decreases records.gates@.len() - i,
    {
        let row = &records.gates[i];
        proof {
            assert(gates.skip(i as int).skip(1) =~= gates.skip(i + 1));
            assert(gates.skip(i as int)[0] == row@);
        }
        if row.superseded_at.is_none() && row.gate.pr_number == pr && same(
            row.gate.repo.as_str(),
            repo,
        ) {
            return Some(row.gate.clone());
        }
        i += 1;
    }
    None
}

/// After a re-run the live gate of the pull request is the new one.
pub proof fn the_new_gate_is_the_live_one(r: RecordsModel, g: NewGate, now: Seq<char>)
    ensures
        live_gate(upserted(r, g, now).gates, g.repo@, g.pr_number) == Some(
            new_gate_row(r.next_gate_id() as i64, g, now).gate,
        ),
{
    let u = upserted(r, g, now);
    let old_part = with_archived(r.gates, g.repo@, g.pr_number, now);
    assert forall|i: int| 0 <= i < old_part.len() implies !is_live_for(
        #[trigger] old_part[i],
        g.repo@,
        g.pr_number,
    ) by {}
    live_gate_of_push(old_part, u.gates.last(), g.repo@, g.pr_number);
    assert(u.gates =~= old_part.push(u.gates.last()));
}

/// A gate that was just made has no questions, and what hangs off the others stays.
pub proof fn the_new_gate_has_no_questions(r: RecordsModel, g: NewGate, now: Seq<char>)
    requires
        r.wf(),
        r.next_gate_id() <= i64::MAX,
    ensures
        questions_in(upserted(r, g, now).questions, r.next_gate_id() as i64).len() == 0,
        upserted(r, g, now).questions == r.questions,
        upserted(r, g, now).attempts == r.attempts,
        upserted(r, g, now).obligations == r.obligations,
{
    let id = r.next_gate_id() as i64;
    questions_stand_on_earlier_gates(r);
    no_questions_in(r.questions, id);
}

/// Every question stands on a gate made before: its identifier is below the next one.
pub proof fn questions_stand_on_earlier_gates(r: RecordsModel)
    requires
        r.wf(),
    ensures
        forall|i: int|
            0 <= i < r.questions.len() ==> (#[trigger] r.questions[i]).gate_id < r.next_gate_id(),
{
    assert forall|i: int| 0 <= i < r.questions.len() implies (#[trigger] r.questions[i]).gate_id
        < r.next_gate_id() by {
        assert(r.has_gate(r.questions[i].gate_id));
        let k = choose|k: int|
            0 <= k < r.gates.len() && (#[trigger] r.gates[k]).gate.id == r.questions[i].gate_id;
        if k < r.gates.len() - 1 {
            assert(r.gates[k].gate.id < r.gates[r.gates.len() - 1].gate.id);
        }
    }
}

/// The questions of a gate whose rows are added behind those of others.
pub proof fn appended_questions(
    rows: Seq<QuestionRowModel>,
    more: Seq<QuestionRowModel>,
    id: i64,
)
    requires
        forall|i: int| 0 <= i < rows.len() ==> (#[trigger] rows[i]).gate_id != id,
        forall|i: int| 0 <= i < more.len() ==> (#[trigger] more[i]).gate_id == id,
    ensures
        questions_in(rows + more, id) == Seq::new(more.len(), |k: int| more[k].question),
    decreases more.len(),
{
    if more.len() == 0 {
        assert(rows + more =~= rows);
        no_questions_in(rows, id);
        assert(questions_in(rows, id) =~= Seq::new(more.len(), |k: int| more[k].question));
    } else {
        let rest = more.drop_last();
        assert forall|i: int| 0 <= i < rest.len() implies (#[trigger] rest[i]).gate_id == id by {
            assert(rest[i] == more[i]);
        }
        appended_questions(rows, rest, id);
        assert((rows + more).drop_last() =~= rows + rest);
        assert((rows + more).last() == more.last());
        assert(more.last() == more[more.len() - 1]);
        assert(questions_in(rows + more, id) =~= Seq::new(
            more.len(),
            |k: int| more[k].question,
        ));
    }
}

proof fn no_questions_in(rows: Seq<QuestionRowModel>, id: i64)
    requires
        forall|i: int| 0 <= i < rows.len() ==> (#[trigger] rows[i]).gate_id != id,
    ensures
        questions_in(rows, id).len() == 0,
    decreases rows.len(),
{
    if rows.len() > 0 {
        let rest = rows.drop_last();
        assert forall|i: int| 0 <= i < rest.len() implies (#[trigger] rest[i]).gate_id != id by {
            assert(rest[i] == rows[i]);
        }
        no_questions_in(rest, id);
        assert(rows.last() == rows[rows.len() - 1]);
    }
}

proof fn live_gate_of_push(gates: Seq<GateRowModel>, row: GateRowModel, repo: Seq<char>, pr: u64)
    requires
        forall|i: int| 0 <= i < gates.len() ==> !is_live_for(#[trigger] gates[i], repo, pr),
        is_live_for(row, repo, pr),
    ensures
        live_gate(gates.push(row), repo, pr) == Some(row.gate),
    decreases gates.len(),
{
    if gates.len() > 0 {
        assert(gates.push(row).skip(1) =~= gates.skip(1).push(row));
        assert(!is_live_for(gates[0], repo, pr));
        assert forall|i: int| 0 <= i < gates.skip(1).len() implies !is_live_for(
            #[trigger] gates.skip(1)[i],
            repo,
            pr,
        ) by {
            assert(!is_live_for(gates[i + 1], repo, pr));
        }
        live_gate_of_push(gates.skip(1), row, repo, pr);
    }
}

// ---------------------------------------------------------------- questions

/// A new question: open, with neither label nor score.
pub open spec fn new_question_row(id: i64, gate_id: i64, q: NewQuestion, now: Seq<char>) -> QuestionRowModel {
    QuestionRowModel {
        gate_id,
        question: QuestionModel {
            id,
            kind: q.kind@,
            file: q.file@,
            anchor: q.anchor@,
            text: q.text@,
            reference: q.reference@,
            hints: texts(q.hints@),
            status: "open"@,
            label: None,
            score: None,
        },
        created_at: now,
    }
}

/// The record with the questions of a gate, in order.
pub open spec fn with_questions(
    r: RecordsModel,
    gate_id: i64,
    qs: Seq<NewQuestion>,
    now: Seq<char>,
) -> RecordsModel {
    RecordsModel {
        questions: r.questions + Seq::new(
            qs.len(),
            |k: int| new_question_row((r.next_question_id() + k) as i64, gate_id, qs[k], now),
        ),
        ..r
    }
}

/// Records the questions of a gate, where there is such a gate.
pub fn insert_questions(records: &mut Records, gate_id: i64, qs: &[NewQuestion], now: &str) -> (r: Result<
    (),
    RecordError,
>)
    requires
        old(records)@.wf(),
        old(records)@.next_question_id() + qs@.len() <= i64::MAX,
    ensures
        r is Ok <==> qs@.len() == 0 || old(records)@.has_gate(gate_id),
        r matches Err(e) ==> e == RecordError::NoGate,
        final(records)@ == if r is Ok {
            with_questions(old(records)@, gate_id, qs@, now@)
        } else {
            old(records)@
        },
        final(records)@.wf(),
{
    let ghost start = records@;
    if qs.len() == 0 {
        assert(with_questions(start, gate_id, qs@, now@).questions =~= start.questions);
        return Ok(());
    }
    if !gate_exists(records, gate_id) {
        return Err(RecordError::NoGate);
    }
    let n: usize = records.questions.len();
    let first: i64 = if n == 0 {
        1
    } else {
        assert(records@.questions.last() == records.questions@[n - 1]@);
        records.questions[n - 1].question.id + 1
    };
    let ghost goal = with_questions(start, gate_id, qs@, now@);
    let mut k: usize = 0;
    proof {
        assert(records@.questions =~= goal.questions.take(n as int));
    }
    while k < qs.len()
        invariant
            k <= qs@.len(),
            start.questions.len() == n,
            first == start.next_question_id(),
            first + qs@.len() <= i64::MAX,
            goal == with_questions(start, gate_id, qs@, now@),
            records@.gates == start.gates,
            records@.attempts == start.attempts,
            records@.obligations == start.obligations,
            records@.questions == goal.questions.take(n + k),
        decreases qs@.len() - k,
    {
        let q = &qs[k];
        let row = QuestionRow {
            gate_id,
            question: Question {
                id: (first as i128 + k as i128) as i64,
                kind: q.kind.to_owned(),
                file: q.file.to_owned(),
                anchor: q.anchor.to_owned(),
                text: q.text.to_owned(),
                reference: q.reference.to_owned(),
                hints: clone_texts(q.hints),
                status: "open".to_owned(),
                label: None,
                score: None,
            },
            created_at: now.to_owned(),
        };
        let ghost before = records@;
        records.questions.push(row);
        proof {
            assert(row@ == goal.questions[n + k]);
            assert(records@.questions =~= before.questions.push(row@));
            assert(records@.questions =~= goal.questions.take(n + k + 1));
            assert(records@.gates =~= start.gates);
            assert(records@.attempts =~= start.attempts);
            assert(records@.obligations =~= start.obligations);
        }
        k += 1;
    }
    proof {
        assert(goal.questions.take(n + k) =~= goal.questions);
        inserting_keeps_order(start, gate_id, qs@, now@);
    }
    Ok(())
}

proof fn inserting_keeps_order(r: RecordsModel, gate_id: i64, qs: Seq<NewQuestion>, now: Seq<char>)
    requires
        r.wf(),
        r.next_question_id() + qs.len() <= i64::MAX,
        qs.len() == 0 || r.has_gate(gate_id),
    ensures
        with_questions(r, gate_id, qs, now).wf(),
{
    let u = with_questions(r, gate_id, qs, now);
    links_kept(r, u);
    assert forall|i: int, j: int| 0 <= i < j < u.questions.len() implies (
    #[trigger] u.questions[i]).question.id < (#[trigger] u.questions[j]).question.id by {
        if j < r.questions.len() {
            assert(r.questions[i].question.id < r.questions[j].question.id);
        } else if i < r.questions.len() {
            if i < r.questions.len() - 1 {
                assert(r.questions[i].question.id < r.questions[r.questions.len() - 1].question.id);
            }
        }
    }
}

fn gate_exists(records: &Records, id: i64) -> (r: bool)
    ensures
        r == records@.has_gate(id),
{
    let mut i: usize = 0;
    while i < records.gates.len()
        invariant
            i <= records.gates@.len(),
            forall|j: int| 0 <= j < i ==> (#[trigger] records@.gates[j]).gate.id != id,
        decreases records.gates@.len() - i,
    {
        assert(records@.gates[i as int] == records.gates@[i as int]@);
        if records.gates[i].gate.id == id {
            return true;
        }
        i += 1;
    }
    false
}

fn question_exists(records: &Records, id: i64) -> (r: bool)
    ensures
        r == records@.has_question(id),
{
    let mut i: usize = 0;
    while i < records.questions.len()
        invariant
            i <= records.questions@.len(),
            forall|j: int| 0 <= j < i ==> (#[trigger] records@.questions[j]).question.id != id,
        decreases records.questions@.len() - i,
    {
        assert(records@.questions[i as int] == records.questions@[i as int]@);
        if records.questions[i].question.id == id {
            return true;
        }
        i += 1;
    }
    false
}

/// The questions of a gate, in order.
pub open spec fn questions_in(rows: Seq<QuestionRowModel>, gate_id: i64) -> Seq<QuestionModel>
    decreases rows.len(),
{
    if rows.len() == 0 {
        Seq::empty()
    } else if rows.last().gate_id == gate_id {
        questions_in(rows.drop_last(), gate_id).push(rows.last().question)
    } else {
        questions_in(rows.drop_last(), gate_id)
    }
}

/// The questions of a gate, in order.
pub fn questions_for(records: &Records, gate_id: i64) -> (r: Vec<Question>)
    ensures
        question_models(r@) == questions_in(records@.questions, gate_id),
{
    let ghost rows = records@.questions;
    let mut out: Vec<Question> = Vec::new();
    let mut i: usize = 0;
    proof {
        assert(rows.take(0) =~= Seq::empty());
        assert(question_models(out@) =~= Seq::empty());
    }
    while i < records.questions.len()
        invariant
            i <= records.questions@.len(),
            rows == records@.questions,
            question_models(out@) == questions_in(rows.take(i as int), gate_id),
        decreases records.questions@.len() - i,
    {
        let row = &records.questions[i];
        proof {
            assert(rows.take(i + 1).drop_last() =~= rows.take(i as int));
            assert(rows.take(i + 1).last() == row@);
        }
        if row.gate_id == gate_id {
            let ghost before = out@;
            let q = row.question.clone();
            out.push(q);
            assert(question_models(out@) =~= question_models(before).push(q@));
        }
        i += 1;
    }
    proof {
        assert(rows.take(i as int) =~= rows);
    }
    out
}

// ---------------------------------------------------------------- attempts

/// The status of a question after an answer with this score.
pub open spec fn status_after(score: u32) -> Seq<char> {
    if score >= PARTIAL {
        "passed"@
    } else {
        "open"@
    }
}

/// Questions with the grade of one of them.
pub open spec fn with_grade(rows: Seq<QuestionRowModel>, id: i64, label: Seq<char>, score: u32) -> Seq<
    QuestionRowModel,
> {
    Seq::new(
        rows.len(),
        |i: int|
            if rows[i].question.id == id {
                QuestionRowModel {
                    question: QuestionModel {
                        label: Some(label),
                        score: Some(score),
                        status: status_after(score),
                        ..rows[i].question
                    },
                    ..rows[i]
                }
            } else {
                rows[i]
            },
    )
}

/// The record with an answer and its grade.
pub open spec fn with_attempt(r: RecordsModel, a: AttemptModel, score: u32) -> RecordsModel {
    RecordsModel {
        attempts: r.attempts.push(a),
        questions: with_grade(r.questions, a.question_id, a.label, score),
        ..r
    }
}

/// Records an answer, and the grade on the question that it is about. An answer at
/// `partial` or better passes the question; any other leaves it open.
pub fn record_attempt(
    records: &mut Records,
    question_id: i64,
    mode: &str,
    body: &str,
    hints_used: i64,
    label: &str,
    score: u32,
    feedback: &str,
    judge_model: &str,
    now: &str,
) -> (r: Result<(), RecordError>)
    ensures
        r is Ok <==> old(records)@.has_question(question_id),
        r matches Err(e) ==> e == RecordError::NoQuestion,
        final(records)@ == if r is Ok {
            with_attempt(
                old(records)@,
                AttemptModel {
                    question_id,
                    mode: mode@,
                    body: body@,
                    hints_used,
                    label: label@,
                    score: Some(score),
                    feedback: feedback@,
                    judge_model: judge_model@,
                    created_at: now@,
                },
                score,
            )
        } else {
            old(records)@
        },
        old(records)@.wf() ==> final(records)@.wf(),
{
    if !question_exists(records, question_id) {
        return Err(RecordError::NoQuestion);
    }
    let ghost start = *records;
    let attempt = Attempt {
        question_id,
        mode: mode.to_owned(),
        body: body.to_owned(),
        hints_used,
        label: label.to_owned(),
        score: Some(score),
        feedback: feedback.to_owned(),
        judge_model: judge_model.to_owned(),
        created_at: now.to_owned(),
    };
    let ghost a = attempt@;
    records.attempts.push(attempt);
    assert(records@.attempts =~= start@.attempts.push(a));
    let ghost middle = *records;
    let ghost goal = with_grade(start@.questions, question_id, label@, score);
    let mut i: usize = 0;
    while i < records.questions.len()
        invariant
            i <= records.questions@.len() == start.questions@.len(),
            goal == with_grade(start@.questions, question_id, label@, score),
            records.gates == middle.gates,
            records.attempts == middle.attempts,
            records.obligations == middle.obligations,
            forall|j: int| 0 <= j < i ==> (#[trigger] records.questions@[j])@ == goal[j],
            forall|j: int|
                i <= j < start.questions@.len() ==> #[trigger] records.questions@[j]
                    == start.questions@[j],
        decreases records.questions@.len() - i,
    {
        let ghost row = records.questions@[i as int];
        if records.questions[i].question.id == question_id {
            grade_question(&mut records.questions[i].question, label, score);
        }
        assert(records.questions@[i as int]@ == goal[i as int]);
        i += 1;
    }
    proof {
        assert(records@.questions =~= goal);
        assert(records@.gates =~= start@.gates);
        assert(records@.obligations =~= start@.obligations);
        assert(records@.attempts =~= middle@.attempts);
        if start@.wf() {
            same_gates_stay_wf(start@, records@);
        }
    }
    Ok(())
}

fn grade_question(q: &mut Question, label: &str, score: u32)
    ensures
        final(q)@ == (QuestionModel {
            label: Some(label@),
            score: Some(score),
            status: status_after(score),
            ..old(q)@
        }),
{
    q.label = Some(label.to_owned());
    q.score = Some(score);
    q.status = if score >= PARTIAL {
        "passed".to_owned()
    } else {
        "open".to_owned()
    };
}

/// The label under which a dispute is recorded.
pub open spec fn dispute_label(upheld: bool, kind: Seq<char>) -> Seq<char> {
    if upheld {
        kind
    } else {
        "rejected"@
    }
}

/// The record with a dispute.
pub open spec fn with_dispute(r: RecordsModel, a: AttemptModel) -> RecordsModel {
    RecordsModel { attempts: r.attempts.push(a), ..r }
}

/// Records a dispute, upheld or not, on the question that it was about. It has no score
/// and does not touch the question: a rejected dispute leaves the verdict exactly where
/// it was, and an upheld one changes the status of the question, not its grade.
pub fn record_dispute(
    records: &mut Records,
    question_id: i64,
    body: &str,
    upheld: bool,
    kind: &str,
    feedback: &str,
    judge_model: &str,
    now: &str,
) -> (r: Result<(), RecordError>)
    ensures
        r is Ok <==> old(records)@.has_question(question_id),
        r matches Err(e) ==> e == RecordError::NoQuestion,
        final(records)@ == if r is Ok {
            with_dispute(
                old(records)@,
                AttemptModel {
                    question_id,
                    mode: "dispute"@,
                    body: body@,
                    hints_used: 0,
                    label: dispute_label(upheld, kind@),
                    score: None,
                    feedback: feedback@,
                    judge_model: judge_model@,
                    created_at: now@,
                },
            )
        } else {
            old(records)@
        },
        old(records)@.wf() ==> final(records)@.wf(),
{
    if !question_exists(records, question_id) {
        return Err(RecordError::NoQuestion);
    }
    let ghost start = records@;
    let label = if upheld { kind.to_owned() } else { "rejected".to_owned() };
    let attempt = Attempt {
        question_id,
        mode: "dispute".to_owned(),
        body: body.to_owned(),
        hints_used: 0,
        label,
        score: None,
        feedback: feedback.to_owned(),
        judge_model: judge_model.to_owned(),
        created_at: now.to_owned(),
    };
    let ghost a = attempt@;
    records.attempts.push(attempt);
    assert(records@.attempts =~= start.attempts.push(a));
    Ok(())
}

/// What was said in the last attempt of this mode on a question.
pub open spec fn last_body(attempts: Seq<AttemptModel>, id: i64, mode: Seq<char>) -> Option<Seq<char>>
    decreases attempts.len(),
{
    if attempts.len() == 0 {
        None
    } else if attempts.last().question_id == id && attempts.last().mode == mode {
        Some(attempts.last().body)
    } else {
        last_body(attempts.drop_last(), id, mode)
    }
}

fn find_last_body(records: &Records, id: i64, mode: &str) -> (r: Option<String>)
    ensures
        optional_text(r) == last_body(records@.attempts, id, mode@),
{
    let ghost all = records@.attempts;
    let mut n: usize = records.attempts.len();
    proof {
        assert(all.take(n as int) =~= all);
    }
    while n > 0
        invariant
            n <= records.attempts@.len(),
            all == records@.attempts,
            last_body(all, id, mode@) == last_body(all.take(n as int), id, mode@),
        decreases n,
    {
        let a = &records.attempts[n - 1];
        proof {
            assert(all.take(n as int).drop_last() =~= all.take(n - 1));
            assert(all.take(n as int).last() == a@);
        }
        if a.question_id == id && same(a.mode.as_str(), mode) {
            return Some(a.body.clone());
        }
        n -= 1;
    }
    None
}

/// The last answer to a question.
pub fn last_answer(records: &Records, question_id: i64) -> (r: Option<String>)
    ensures
        optional_text(r) == last_body(records@.attempts, question_id, "answer"@),
{
    find_last_body(records, question_id, "answer")
}

/// The claim behind the last dispute of a question.
pub fn last_dispute(records: &Records, question_id: i64) -> (r: Option<String>)
    ensures
        optional_text(r) == last_body(records@.attempts, question_id, "dispute"@),
{
    find_last_body(records, question_id, "dispute")
}

/// Which gate a question belongs to.
pub open spec fn gate_of(rows: Seq<QuestionRowModel>, id: i64) -> Option<i64>
    decreases rows.len(),
{
    if rows.len() == 0 {
        None
    } else if rows[0].question.id == id {
        Some(rows[0].gate_id)
    } else {
        gate_of(rows.skip(1), id)
    }
}

proof fn gate_of_meaning(rows: Seq<QuestionRowModel>, id: i64)
    ensures
        gate_of(rows, id) matches Some(gate_id) ==> exists|i: int|
            0 <= i < rows.len() && (#[trigger] rows[i]).question.id == id && rows[i].gate_id
                == gate_id,
    decreases rows.len(),
{
    if rows.len() > 0 {
        if rows[0].question.id != id {
            gate_of_meaning(rows.skip(1), id);
            if gate_of(rows.skip(1), id) is Some {
                let i = choose|i: int|
                    0 <= i < rows.skip(1).len() && (#[trigger] rows.skip(1)[i]).question.id == id
                        && rows.skip(1)[i].gate_id == gate_of(rows.skip(1), id)->0;
                assert(rows[i + 1] == rows.skip(1)[i]);
            }
        }
    }
}

fn find_gate_of(records: &Records, id: i64) -> (r: Option<i64>)
    ensures
        r == gate_of(records@.questions, id),
{
    let ghost rows = records@.questions;
    let mut i: usize = 0;
    proof {
        assert(rows.skip(0) =~= rows);
    }
    while i < records.questions.len()
        invariant
            i <= records.questions@.len(),
            rows == records@.questions,
            gate_of(rows, id) == gate_of(rows.skip(i as int), id),
        decreases records.questions@.len() - i,
    {
        proof {
            assert(rows.skip(i as int).skip(1) =~= rows.skip(i + 1));
            assert(rows.skip(i as int)[0] == records.questions@[i as int]@);
        }
        if records.questions[i].question.id == id {
            return Some(records.questions[i].gate_id);
        }
        i += 1;
    }
    None
}

/// How many attempts there are on the questions of a gate.
pub open spec fn attempts_on_gate(
    attempts: Seq<AttemptModel>,
    questions: Seq<QuestionRowModel>,
    gate_id: i64,
) -> nat
    decreases attempts.len(),
{
    if attempts.len() == 0 {
        0
    } else {
        attempts_on_gate(attempts.drop_last(), questions, gate_id) + if gate_of(
            questions,
            attempts.last().question_id,
        ) == Some(gate_id) {
            1nat
        } else {
            0nat
        }
    }
}

/// How much graded work a gate is holding. Regenerating archives it, so this is what you
/// stop being asked about, not what is lost.
pub fn attempt_count(records: &Records, gate_id: i64) -> (r: usize)
    ensures
        r == attempts_on_gate(records@.attempts, records@.questions, gate_id),
{
    let ghost all = records@.attempts;
    let mut n: usize = 0;
    let mut i: usize = 0;
    proof {
        assert(all.take(0) =~= Seq::empty());
    }
    while i < records.attempts.len()
        invariant
            i <= records.attempts@.len(),
            n <= i,
            all == records@.attempts,
            n == attempts_on_gate(all.take(i as int), records@.questions, gate_id),
        decreases records.attempts@.len() - i,
    {
        proof {
            assert(all.take(i + 1).drop_last() =~= all.take(i as int));
            assert(all.take(i + 1).last() == records.attempts@[i as int]@);
        }
        match find_gate_of(records, records.attempts[i].question_id) {
            Some(g) => {
                if g == gate_id {
                    n += 1;
                }
            },
            None => {},
        }
        i += 1;
    }
    proof {
        assert(all.take(i as int) =~= all);
    }
    n
}

/// Whether an attempt is a dispute of this question.
pub open spec fn disputes_question(a: AttemptModel, id: i64) -> bool {
    a.mode == "dispute"@ && a.question_id == id
}

/// Whether an attempt is a dispute of a question of this gate.
pub open spec fn disputes_gate(a: AttemptModel, questions: Seq<QuestionRowModel>, gate: Option<i64>) -> bool {
    a.mode == "dispute"@ && gate is Some && gate_of(questions, a.question_id) == gate
}

/// How many disputes there were of this question.
pub open spec fn question_disputes(attempts: Seq<AttemptModel>, id: i64) -> nat
    decreases attempts.len(),
{
    if attempts.len() == 0 {
        0
    } else {
        question_disputes(attempts.drop_last(), id) + if disputes_question(attempts.last(), id) {
            1nat
        } else {
            0nat
        }
    }
}

/// How many disputes there were of the questions of this gate.
pub open spec fn gate_disputes(
    attempts: Seq<AttemptModel>,
    questions: Seq<QuestionRowModel>,
    gate: Option<i64>,
) -> nat
    decreases attempts.len(),
{
    if attempts.len() == 0 {
        0
    } else {
        gate_disputes(attempts.drop_last(), questions, gate) + if disputes_gate(
            attempts.last(),
            questions,
            gate,
        ) {
            1nat
        } else {
            0nat
        }
    }
}

/// How many disputes a question has already had, and how many its gate has. Both are
/// capped, one and two: free disputes become the way past any question worth thinking
/// about.
pub fn dispute_counts(records: &Records, question_id: i64) -> (r: (usize, usize))
    ensures
        r.0 == question_disputes(records@.attempts, question_id),
        r.1 == gate_disputes(
            records@.attempts,
            records@.questions,
            gate_of(records@.questions, question_id),
        ),
{
    let gate = find_gate_of(records, question_id);
    let ghost all = records@.attempts;
    let mut a: usize = 0;
    let mut b: usize = 0;
    let mut i: usize = 0;
    proof {
        assert(all.take(0) =~= Seq::empty());
    }
    while i < records.attempts.len()
        invariant
            i <= records.attempts@.len(),
            a <= i,
            b <= i,
            all == records@.attempts,
            gate == gate_of(records@.questions, question_id),
            a == question_disputes(all.take(i as int), question_id),
            b == gate_disputes(all.take(i as int), records@.questions, gate),
        decreases records.attempts@.len() - i,
    {
        let attempt = &records.attempts[i];
        proof {
            assert(all.take(i + 1).drop_last() =~= all.take(i as int));
            assert(all.take(i + 1).last() == attempt@);
        }
        if same(attempt.mode.as_str(), "dispute") {
            if attempt.question_id == question_id {
                a += 1;
            }
            if gate.is_some() && find_gate_of(records, attempt.question_id) == gate {
                b += 1;
            }
        }
        i += 1;
    }
    proof {
        assert(all.take(i as int) =~= all);
    }
    (a, b)
}

/// Recording a dispute counts it, on its question and on its gate.
pub proof fn recorded_disputes_count(r: RecordsModel, a: AttemptModel)
    requires
        a.mode == "dispute"@,
    ensures
        question_disputes(with_dispute(r, a).attempts, a.question_id) == question_disputes(
            r.attempts,
            a.question_id,
        ) + 1,
        gate_of(r.questions, a.question_id) is Some ==> gate_disputes(
            with_dispute(r, a).attempts,
            r.questions,
            gate_of(r.questions, a.question_id),
        ) == gate_disputes(r.attempts, r.questions, gate_of(r.questions, a.question_id)) + 1,
        with_dispute(r, a).questions == r.questions,
        last_body(with_dispute(r, a).attempts, a.question_id, "dispute"@) == Some(a.body),
{
    assert(r.attempts.push(a).drop_last() =~= r.attempts);
}

/// An answer that was recorded is the last answer to its question, and the question
/// carries its grade: passed from `partial` on, open below.
pub proof fn recorded_answers_read_back(r: RecordsModel, a: AttemptModel, score: u32, i: int)
    requires
        a.mode == "answer"@,
        0 <= i < r.questions.len(),
        r.questions[i].question.id == a.question_id,
    ensures
        last_body(with_attempt(r, a, score).attempts, a.question_id, "answer"@) == Some(a.body),
        with_attempt(r, a, score).questions[i].question.label == Some(a.label),
        with_attempt(r, a, score).questions[i].question.score == Some(score),
        with_attempt(r, a, score).questions[i].question.status == status_after(score),
        with_attempt(r, a, score).gates == r.gates,
{
    assert(r.attempts.push(a).drop_last() =~= r.attempts);
}

// ---------------------------------------------------------------- rulings

/// Questions with the status of one of them.
pub open spec fn with_status(rows: Seq<QuestionRowModel>, id: i64, status: Seq<char>) -> Seq<
    QuestionRowModel,
> {
    Seq::new(
        rows.len(),
        |i: int|
            if rows[i].question.id == id {
                QuestionRowModel {
                    question: QuestionModel { status, ..rows[i].question },
                    ..rows[i]
                }
            } else {
                rows[i]
            },
    )
}

/// Sets the status of a question, and nothing else of it.
pub fn set_question_status(records: &mut Records, question_id: i64, status: &str)
    ensures
        final(records)@ == (RecordsModel {
            questions: with_status(old(records)@.questions, question_id, status@),
            ..old(records)@
        }),
        old(records)@.wf() ==> final(records)@.wf(),
{
    let ghost start = *records;
    let ghost goal = with_status(start@.questions, question_id, status@);
    let mut i: usize = 0;
    while i < records.questions.len()
        invariant
            i <= records.questions@.len() == start.questions@.len(),
            goal == with_status(start@.questions, question_id, status@),
            records.gates == start.gates,
            records.attempts == start.attempts,
            records.obligations == start.obligations,
            forall|j: int| 0 <= j < i ==> (#[trigger] records.questions@[j])@ == goal[j],
            forall|j: int|
                i <= j < start.questions@.len() ==> #[trigger] records.questions@[j]
                    == start.questions@[j],
        decreases records.questions@.len() - i,
    {
        let ghost row = records.questions@[i as int];
        if records.questions[i].question.id == question_id {
            records.questions[i].question.status = status.to_owned();
        }
        assert(records.questions@[i as int]@ == goal[i as int]);
        i += 1;
    }
    proof {
        assert(records@.questions =~= goal);
        if start@.wf() {
            same_gates_stay_wf(start@, records@);
        }
    }
}

/// The record with something open on a question's change.
pub open spec fn with_obligation(r: RecordsModel, id: i64, body: Seq<char>, now: Seq<char>) -> RecordsModel {
    match gate_of(r.questions, id) {
        Some(gate_id) => RecordsModel {
            obligations: r.obligations.push(
                ObligationRowModel {
                    gate_id,
                    question_id: id,
                    body,
                    created_at: now,
                    settled_at: None,
                },
            ),
            ..r
        },
        None => r,
    }
}

/// Opens an obligation on a question's change. It neither passes the question nor
/// blocks a gate; it is settled by fixing the bug or withdrawing the claim.
pub fn open_obligation(records: &mut Records, question_id: i64, body: &str, now: &str)
    ensures
        final(records)@ == with_obligation(old(records)@, question_id, body@, now@),
        old(records)@.wf() ==> final(records)@.wf(),
{
    let ghost start = records@;
    if let Some(gate_id) = find_gate_of(records, question_id) {
        let row = ObligationRow {
            gate_id,
            question_id,
            body: body.to_owned(),
            created_at: now.to_owned(),
            settled_at: None,
        };
        let ghost o = row@;
        records.obligations.push(row);
        proof {
            assert(records@.obligations =~= start.obligations.push(o));
            if start.wf() {
                gate_of_meaning(start.questions, question_id);
                links_kept(start, records@);
            }
        }
    }
}

// ---------------------------------------------------------------- lists

/// Whether a gate is live and belongs to this repository.
pub open spec fn is_live_in(row: GateRowModel, repo: Seq<char>) -> bool {
    row.superseded_at is None && row.gate.repo == repo
}

/// The gates among `rows` that are live and belong to this repository.
pub open spec fn live_gates_in(rows: Seq<GateRowModel>, repo: Seq<char>) -> Seq<GateModel>
    decreases rows.len(),
{
    if rows.len() == 0 {
        Seq::empty()
    } else if is_live_in(rows.last(), repo) {
        live_gates_in(rows.drop_last(), repo).push(rows.last().gate)
    } else {
        live_gates_in(rows.drop_last(), repo)
    }
}

/// The gates among `rows` that are live.
pub open spec fn live_gates(rows: Seq<GateRowModel>) -> Seq<GateRowModel>
    decreases rows.len(),
{
    if rows.len() == 0 {
        Seq::empty()
    } else if rows.last().superseded_at is None {
        live_gates(rows.drop_last()).push(rows.last())
    } else {
        live_gates(rows.drop_last())
    }
}

/// The texts and numbers of a list of gates.
pub open spec fn gate_models(gates: Seq<Gate>) -> Seq<GateModel> {
    Seq::new(gates.len(), |i: int| gates[i]@)
}

/// Whether the numbers of the pull requests go down.
pub open spec fn numbers_go_down(gates: Seq<GateModel>) -> bool {
    forall|i: int, j: int|
        0 <= i < j < gates.len() ==> (#[trigger] gates[i]).pr_number >= (
        #[trigger] gates[j]).pr_number
}

/// Puts a gate where it belongs in a list whose numbers go down.
fn insert_by_number(gates: &mut Vec<Gate>, gate: Gate)
    requires
        numbers_go_down(gate_models(old(gates)@)),
    ensures
        numbers_go_down(gate_models(final(gates)@)),
        gate_models(final(gates)@).to_multiset() == gate_models(old(gates)@).to_multiset().insert(
            gate@,
        ),
{
    let ghost start = gate_models(gates@);
    let mut i: usize = 0;
    while i < gates.len() && gates[i].pr_number >= gate.pr_number
        invariant
            i <= gates@.len(),
            start == gate_models(gates@),
            forall|j: int| 0 <= j < i ==> (#[trigger] start[j]).pr_number >= gate.pr_number,
        decreases gates@.len() - i,
    {
        assert(start[i as int] == gates@[i as int]@);
        i += 1;
    }
    let ghost g = gate@;
    let ghost at = i as int;
    proof {
        if at < start.len() {
            assert(start[at] == gates@[at]@);
        }
    }
    gates.insert(i, gate);
    proof {
        let end = gate_models(gates@);
        assert(end =~= start.insert(at, g));
        vstd::seq_lib::to_multiset_insert(start, at, g);
        assert forall|a: int, b: int| 0 <= a < b < end.len() implies (#[trigger] end[a]).pr_number
            >= (#[trigger] end[b]).pr_number by {
            let x = if a < at { a } else { a - 1 };
            let y = if b < at { b } else { b - 1 };
            if a != at && b != at {
                assert(start[x].pr_number >= start[y].pr_number);
            } else if b == at {
                assert(start[a].pr_number >= g.pr_number);
            } else {
                if at < y {
                    assert(start[at].pr_number >= start[y].pr_number);
                }
            }
        }
    }
}

/// The live gates of a repository, the highest number first.
pub fn gates_for_repo(records: &Records, repo: &str) -> (r: Vec<Gate>)
    ensures
        gate_models(r@).to_multiset() == live_gates_in(records@.gates, repo@).to_multiset(),
        numbers_go_down(gate_models(r@)),
{
    let ghost rows = records@.gates;
    let mut out: Vec<Gate> = Vec::new();
    let mut i: usize = 0;
    proof {
        assert(rows.take(0) =~= Seq::empty());
        assert(gate_models(out@) =~= live_gates_in(rows.take(0), repo@));
    }
    while i < records.gates.len()
        invariant
            i <= records.gates@.len(),
            rows == records@.gates,
            gate_models(out@).to_multiset() == live_gates_in(
                rows.take(i as int),
                repo@,
            ).to_multiset(),
            numbers_go_down(gate_models(out@)),
        decreases records.gates@.len() - i,
    {
        let row = &records.gates[i];
        let ghost before = live_gates_in(rows.take(i as int), repo@);
        proof {
            assert(rows.take(i + 1).drop_last() =~= rows.take(i as int));
            assert(rows.take(i + 1).last() == row@);
            vstd::seq_lib::to_multiset_build(before, row@.gate);
        }
        if row.superseded_at.is_none() && same(row.gate.repo.as_str(), repo) {
            insert_by_number(&mut out, row.gate.clone());
        }
        i += 1;
    }
    proof {
        assert(rows.take(i as int) =~= rows);
    }
    out
}

/// Whether no date comes before a later one in the list.
pub open spec fn dates_go_down(rows: Seq<GateRowModel>) -> bool {
    forall|i: int, j: int|
        0 <= i < j < rows.len() ==> !before(
            (#[trigger] rows[i]).updated_at,
            (#[trigger] rows[j]).updated_at,
        )
}

/// The gates that stand at these places.
pub open spec fn rows_at(rows: Seq<GateRowModel>, places: Seq<usize>) -> Seq<GateRowModel> {
    Seq::new(places.len(), |i: int| rows[places[i] as int])
}

/// Puts a place where it belongs in a list of places whose dates go down.
fn insert_by_date(records: &Records, places: &mut Vec<usize>, place: usize)
    requires
        place < records.gates@.len(),
        forall|i: int| 0 <= i < old(places)@.len() ==> (#[trigger] old(places)@[i]) < records.gates@.len(),
        dates_go_down(rows_at(records@.gates, old(places)@)),
    ensures
        forall|i: int| 0 <= i < final(places)@.len() ==> (#[trigger] final(places)@[i]) < records.gates@.len(),
        dates_go_down(rows_at(records@.gates, final(places)@)),
        rows_at(records@.gates, final(places)@).to_multiset() == rows_at(
            records@.gates,
            old(places)@,
        ).to_multiset().insert(records@.gates[place as int]),
{
    let ghost rows = records@.gates;
    let ghost start = rows_at(rows, places@);
    let ghost g = rows[place as int];
    let mut i: usize = 0;
    while i < places.len() && !is_before(
        records.gates[places[i]].updated_at.as_str(),
        records.gates[place].updated_at.as_str(),
    )
        invariant
            i <= places@.len(),
            place < records.gates@.len(),
            rows == records@.gates,
            g == rows[place as int],
            forall|k: int| 0 <= k < places@.len() ==> (#[trigger] places@[k]) < records.gates@.len(),
            start == rows_at(rows, places@),
            forall|j: int| 0 <= j < i ==> !before((#[trigger] start[j]).updated_at, g.updated_at),
        decreases places@.len() - i,
    {
        assert(start[i as int] == records.gates@[places@[i as int] as int]@);
        assert(g == records.gates@[place as int]@);
        i += 1;
    }
    let ghost at = i as int;
    proof {
        if at < start.len() {
            assert(start[at] == records.gates@[places@[at] as int]@);
            assert(g == records.gates@[place as int]@);
            assert(before(start[at].updated_at, g.updated_at));
        }
    }
    let ghost old_places = places@;
    places.insert(i, place);
    proof {
        let end = rows_at(rows, places@);
        assert(end =~= start.insert(at, g));
        vstd::seq_lib::to_multiset_insert(start, at, g);
        assert forall|k: int| 0 <= k < places@.len() implies (#[trigger] places@[k])
            < records.gates@.len() by {
            if k < at {
                assert(places@[k] == old_places[k]);
            } else if k > at {
                assert(places@[k] == old_places[k - 1]);
            }
        }
        assert forall|a: int, b: int| 0 <= a < b < end.len() implies !before(
            (#[trigger] end[a]).updated_at,
            (#[trigger] end[b]).updated_at,
        ) by {
            let x = if a < at { a } else { a - 1 };
            let y = if b < at { b } else { b - 1 };
            if a != at && b != at {
                assert(!before(start[x].updated_at, start[y].updated_at));
            } else if b == at {
                assert(!before(start[a].updated_at, g.updated_at));
            } else {
                assert(before(start[at].updated_at, g.updated_at));
                if before(g.updated_at, start[y].updated_at) {
                    before_is_transitive(
                        start[at].updated_at,
                        g.updated_at,
                        start[y].updated_at,
                    );
                    if at == y {
                        before_is_total(start[at].updated_at, start[y].updated_at);
                    } else {
                        assert(!before(start[at].updated_at, start[y].updated_at));
                    }
                }
            }
        }
    }
}

/// Every live gate, the one changed last first.
pub fn all_gates(records: &Records) -> (r: Vec<Gate>)
    ensures
        exists|rows: Seq<GateRowModel>|
            {
                &&& rows.to_multiset() == live_gates(records@.gates).to_multiset()
                &&& dates_go_down(rows)
                &&& #[trigger] gates_of_rows(rows) == gate_models(r@)
            },
{
    let ghost rows = records@.gates;
    let mut places: Vec<usize> = Vec::new();
    let mut i: usize = 0;
    proof {
        assert(rows.take(0) =~= Seq::empty());
        assert(rows_at(rows, places@) =~= live_gates(rows.take(0)));
    }
    while i < records.gates.len()
        invariant
            i <= records.gates@.len(),
            rows == records@.gates,
            forall|k: int| 0 <= k < places@.len() ==> (#[trigger] places@[k]) < records.gates@.len(),
            rows_at(rows, places@).to_multiset() == live_gates(rows.take(i as int)).to_multiset(),
            dates_go_down(rows_at(rows, places@)),
        decreases records.gates@.len() - i,
    {
        let row = &records.gates[i];
        let ghost earlier = live_gates(rows.take(i as int));
        proof {
            assert(rows.take(i + 1).drop_last() =~= rows.take(i as int));
            assert(rows.take(i + 1).last() == row@);
            vstd::seq_lib::to_multiset_build(earlier, row@);
        }
        if row.superseded_at.is_none() {
            insert_by_date(records, &mut places, i);
        }
        i += 1;
    }
    proof {
        assert(rows.take(i as int) =~= rows);
    }
    let mut out: Vec<Gate> = Vec::new();
    let mut k: usize = 0;
    while k < places.len()
        invariant
            k <= places@.len(),
            out@.len() == k,
            forall|j: int| 0 <= j < places@.len() ==> (#[trigger] places@[j]) < records.gates@.len(),
            forall|j: int|
                0 <= j < k ==> (#[trigger] out@[j])@ == records.gates@[places@[j] as int].gate@,
        decreases places@.len() - k,
    {
        out.push(records.gates[places[k]].gate.clone());
        k += 1;
    }
    proof {
        assert(gates_of_rows(rows_at(rows, places@)) =~= gate_models(out@));
    }
    out
}

/// The gates of a list of rows.
pub open spec fn gates_of_rows(rows: Seq<GateRowModel>) -> Seq<GateModel> {
    Seq::new(rows.len(), |i: int| rows[i].gate)
}

/// Whether a gate is live, belongs to this repository, and its pull request is not open.
pub open spec fn is_stale(row: GateRowModel, repo: Seq<char>, open_prs: Seq<u64>) -> bool {
    is_live_in(row, repo) && !open_prs.contains(row.gate.pr_number)
}

/// How many gates are stale.
pub open spec fn stale_count(rows: Seq<GateRowModel>, repo: Seq<char>, open_prs: Seq<u64>) -> nat
    decreases rows.len(),
{
    if rows.len() == 0 {
        0
    } else {
        stale_count(rows.drop_last(), repo, open_prs) + if is_stale(rows.last(), repo, open_prs) {
            1nat
        } else {
            0nat
        }
    }
}

/// The record with the stale gates archived.
pub open spec fn pruned(r: RecordsModel, repo: Seq<char>, open_prs: Seq<u64>, now: Seq<char>) -> RecordsModel {
    RecordsModel {
        gates: Seq::new(
            r.gates.len(),
            |i: int|
                if is_stale(r.gates[i], repo, open_prs) {
                    archived(r.gates[i], now)
                } else {
                    r.gates[i]
                },
        ),
        ..r
    }
}

fn contains_number(numbers: &[u64], n: u64) -> (r: bool)
    ensures
        r == numbers@.contains(n),
{
    let mut i: usize = 0;
    while i < numbers.len()
        invariant
            i <= numbers@.len(),
            forall|j: int| 0 <= j < i ==> numbers@[j] != n,
        decreases numbers@.len() - i,
    {
        if numbers[i] == n {
            return true;
        }
        i += 1;
    }
    false
}

/// Takes gates whose pull request is no longer open off the dashboard, and says how many.
/// Archived, not deleted: a merged pull request is where most of the answering happened.
pub fn prune_closed(records: &mut Records, repo: &str, open_prs: &[u64], now: &str) -> (n: usize)
    ensures
        final(records)@ == pruned(old(records)@, repo@, open_prs@, now@),
        n == stale_count(old(records)@.gates, repo@, open_prs@),
        old(records)@.wf() ==> final(records)@.wf(),
{
    let ghost start = *records;
    let ghost rows = start@.gates;
    let ghost goal = pruned(start@, repo@, open_prs@, now@);
    let mut n: usize = 0;
    let mut i: usize = 0;
    proof {
        assert(rows.take(0) =~= Seq::empty());
    }
    while i < records.gates.len()
        invariant
            i <= records.gates@.len() == start.gates@.len(),
            n <= i,
            rows == start@.gates,
            goal == pruned(start@, repo@, open_prs@, now@),
            n == stale_count(rows.take(i as int), repo@, open_prs@),
            records.questions == start.questions,
            records.attempts == start.attempts,
            records.obligations == start.obligations,
            forall|j: int| 0 <= j < i ==> (#[trigger] records.gates@[j])@ == goal.gates[j],
            forall|j: int|
                i <= j < start.gates@.len() ==> #[trigger] records.gates@[j] == start.gates@[j],
        decreases records.gates@.len() - i,
    {
        let ghost row = records.gates@[i as int];
        proof {
            assert(rows.take(i + 1).drop_last() =~= rows.take(i as int));
            assert(rows.take(i + 1).last() == row@);
        }
        if records.gates[i].superseded_at.is_none() && same(records.gates[i].gate.repo.as_str(), repo)
            && !contains_number(open_prs, records.gates[i].gate.pr_number) {
            archive_row(&mut records.gates[i], now);
            n += 1;
        }
        assert(records.gates@[i as int]@ == goal.gates[i as int]);
        i += 1;
    }
    proof {
        assert(records@.gates =~= goal.gates);
        assert(rows.take(i as int) =~= rows);
        if start@.wf() {
            same_gates_stay_wf(start@, records@);
        }
    }
    n
}

/// Pruning keeps every gate, question, attempt and obligation; a closed pull request has
/// no live gate afterwards, and an open one keeps its own.
pub proof fn pruning_archives_and_deletes_nothing(
    r: RecordsModel,
    repo: Seq<char>,
    open_prs: Seq<u64>,
    now: Seq<char>,
    i: int,
)
    requires
        0 <= i < r.gates.len(),
    ensures
        pruned(r, repo, open_prs, now).gates.len() == r.gates.len(),
        pruned(r, repo, open_prs, now).questions == r.questions,
        pruned(r, repo, open_prs, now).attempts == r.attempts,
        pruned(r, repo, open_prs, now).obligations == r.obligations,
        pruned(r, repo, open_prs, now).gates[i].gate.id == r.gates[i].gate.id,
        r.gates[i].gate.repo == repo && !open_prs.contains(r.gates[i].gate.pr_number)
            ==> pruned(r, repo, open_prs, now).gates[i].superseded_at is Some,
        open_prs.contains(r.gates[i].gate.pr_number) ==> pruned(r, repo, open_prs, now).gates[i]
            == r.gates[i],
{
}

// ---------------------------------------------------------------- obligations

/// Something open on a pull request.
#[derive(Debug)]
pub struct Obligation {
    pub pr_number: u64,
    pub body: String,
}

/// An obligation as its number and text, with its date.
pub struct ObligationModel {
    pub pr_number: u64,
    pub body: Seq<char>,
    pub created_at: Seq<char>,
}

/// The live or archived gate with this identifier.
pub open spec fn gate_with_id(rows: Seq<GateRowModel>, id: i64) -> Option<GateModel>
    decreases rows.len(),
{
    if rows.len() == 0 {
        None
    } else if rows[0].gate.id == id {
        Some(rows[0].gate)
    } else {
        gate_with_id(rows.skip(1), id)
    }
}

/// What an obligation says of a repository, where it is open and its gate,
/// live or archived, belongs to that repository.
pub open spec fn obligation_in(
    gates: Seq<GateRowModel>,
    o: ObligationRowModel,
    repo: Seq<char>,
) -> Option<ObligationModel> {
    match gate_with_id(gates, o.gate_id) {
        Some(gate) => if gate.repo == repo && o.settled_at is None {
            Some(
                ObligationModel {
                    pr_number: gate.pr_number,
                    body: o.body,
                    created_at: o.created_at,
                },
            )
        } else {
            None
        },
        None => None,
    }
}

/// What is open in a repository.
pub open spec fn obligations_in(
    gates: Seq<GateRowModel>,
    rows: Seq<ObligationRowModel>,
    repo: Seq<char>,
) -> Seq<ObligationModel>
    decreases rows.len(),
{
    if rows.len() == 0 {
        Seq::empty()
    } else {
        match obligation_in(gates, rows.last(), repo) {
            Some(o) => obligations_in(gates, rows.drop_last(), repo).push(o),
            None => obligations_in(gates, rows.drop_last(), repo),
        }
    }
}

fn find_gate(records: &Records, id: i64) -> (r: Option<usize>)
    ensures
        match r {
            Some(i) => i < records.gates@.len() && gate_with_id(records@.gates, id) == Some(
                records.gates@[i as int].gate@,
            ),
            None => gate_with_id(records@.gates, id) is None,
        },
{
    let ghost rows = records@.gates;
    let mut i: usize = 0;
    proof {
        assert(rows.skip(0) =~= rows);
    }
    while i < records.gates.len()
        invariant
            i <= records.gates@.len(),
            rows == records@.gates,
            gate_with_id(rows, id) == gate_with_id(rows.skip(i as int), id),
        decreases records.gates@.len() - i,
    {
        proof {
            assert(rows.skip(i as int).skip(1) =~= rows.skip(i + 1));
            assert(rows.skip(i as int)[0] == records.gates@[i as int]@);
        }
        if records.gates[i].gate.id == id {
            return Some(i);
        }
        i += 1;
    }
    None
}

/// Whether no date comes before an earlier one in the list.
pub open spec fn dates_go_up(os: Seq<ObligationModel>) -> bool {
    forall|i: int, j: int|
        0 <= i < j < os.len() ==> !before(
            (#[trigger] os[j]).created_at,
            (#[trigger] os[i]).created_at,
        )
}

/// What obligations say, their dates aside.
pub open spec fn undated(os: Seq<ObligationModel>) -> Seq<(u64, Seq<char>)> {
    Seq::new(os.len(), |i: int| (os[i].pr_number, os[i].body))
}

/// What obligations say.
pub open spec fn obligation_texts(os: Seq<Obligation>) -> Seq<(u64, Seq<char>)> {
    Seq::new(os.len(), |i: int| (os[i].pr_number, os[i].body@))
}

/// An obligation with its date.
struct Dated {
    pr_number: u64,
    body: String,
    created_at: String,
}

impl View for Dated {
    type V = ObligationModel;

    closed spec fn view(&self) -> ObligationModel {
        ObligationModel {
            pr_number: self.pr_number,
            body: self.body@,
            created_at: self.created_at@,
        }
    }
}

spec fn dated_models(os: Seq<Dated>) -> Seq<ObligationModel> {
    Seq::new(os.len(), |i: int| os[i]@)
}

/// Puts an obligation where it belongs in a list whose dates go up, behind those of the
/// same date.
fn insert_dated(list: &mut Vec<Dated>, o: Dated)
    requires
        dates_go_up(dated_models(old(list)@)),
    ensures
        dates_go_up(dated_models(final(list)@)),
        dated_models(final(list)@).to_multiset() == dated_models(old(list)@).to_multiset().insert(o@),
{
    let ghost start = dated_models(list@);
    let ghost g = o@;
    let mut i: usize = list.len();
    while i > 0 && is_before(o.created_at.as_str(), list[i - 1].created_at.as_str())
        invariant
            i <= list@.len(),
            start == dated_models(list@),
            g == o@,
            forall|j: int| i <= j < start.len() ==> before(g.created_at, (#[trigger] start[j]).created_at),
        decreases i,
    {
        assert(start[i - 1] == list@[i - 1]@);
        i -= 1;
    }
    let ghost at = i as int;
    proof {
        if at > 0 {
            assert(start[at - 1] == list@[at - 1]@);
        }
    }
    list.insert(i, o);
    proof {
        let end = dated_models(list@);
        assert(end =~= start.insert(at, g));
        vstd::seq_lib::to_multiset_insert(start, at, g);
        assert forall|a: int, b: int| 0 <= a < b < end.len() implies !before(
            (#[trigger] end[b]).created_at,
            (#[trigger] end[a]).created_at,
        ) by {
            let x = if a < at { a } else { a - 1 };
            let y = if b < at { b } else { b - 1 };
            if a != at && b != at {
                assert(!before(start[y].created_at, start[x].created_at));
            } else if a == at {
                before_is_total(g.created_at, start[y].created_at);
            } else {
                if before(g.created_at, start[a].created_at) {
                    if a < at - 1 {
                        assert(!before(start[at - 1].created_at, start[a].created_at));
                        before_is_total(start[at - 1].created_at, start[a].created_at);
                        if start[at - 1].created_at != start[a].created_at {
                            before_is_transitive(
                                g.created_at,
                                start[a].created_at,
                                start[at - 1].created_at,
                            );
                        }
                    }
                }
            }
        }
    }
}

/// What is open in a repository, the oldest first.
pub fn open_obligations(records: &Records, repo: &str) -> (r: Vec<Obligation>)
    ensures
        exists|os: Seq<ObligationModel>|
            {
                &&& os.to_multiset() == obligations_in(
                    records@.gates,
                    records@.obligations,
                    repo@,
                ).to_multiset()
                &&& dates_go_up(os)
                &&& #[trigger] undated(os) == obligation_texts(r@)
            },
{
    let ghost gates = records@.gates;
    let ghost rows = records@.obligations;
    let mut list: Vec<Dated> = Vec::new();
    let mut i: usize = 0;
    proof {
        assert(rows.take(0) =~= Seq::empty());
        assert(dated_models(list@) =~= obligations_in(gates, rows.take(0), repo@));
    }
    while i < records.obligations.len()
        invariant
            i <= records.obligations@.len(),
            gates == records@.gates,
            rows == records@.obligations,
            dates_go_up(dated_models(list@)),
            dated_models(list@).to_multiset() == obligations_in(
                gates,
                rows.take(i as int),
                repo@,
            ).to_multiset(),
        decreases records.obligations@.len() - i,
    {
        let row = &records.obligations[i];
        let ghost earlier = obligations_in(gates, rows.take(i as int), repo@);
        proof {
            assert(rows.take(i + 1).drop_last() =~= rows.take(i as int));
            assert(rows.take(i + 1).last() == row@);
        }
        if let Some(k) = find_gate(records, row.gate_id) {
            let gate = &records.gates[k].gate;
            if row.settled_at.is_none() && same(gate.repo.as_str(), repo) {
                let o = Dated {
                    pr_number: gate.pr_number,
                    body: row.body.clone(),
                    created_at: row.created_at.clone(),
                };
                proof {
                    vstd::seq_lib::to_multiset_build(earlier, o@);
                }
                insert_dated(&mut list, o);
            }
        }
        i += 1;
    }
    proof {
        assert(rows.take(i as int) =~= rows);
    }
    let mut out: Vec<Obligation> = Vec::new();
    let mut k: usize = 0;
    while k < list.len()
        invariant
            k <= list@.len(),
            out@.len() == k,
            forall|j: int|
                0 <= j < k ==> (#[trigger] out@[j]).pr_number == list@[j].pr_number && out@[j].body@
                    == list@[j].body@,
        decreases list@.len() - k,
    {
        out.push(Obligation { pr_number: list[k].pr_number, body: list[k].body.clone() });
        k += 1;
    }
    proof {
        assert(undated(dated_models(list@)) =~= obligation_texts(out@));
    }
    out
}

impl Records {
    /// A record of these rows, where they are in order, no pull request has two live gates,
    /// and no row stands on another that is missing.
    pub fn load(
        gates: Vec<GateRow>,
        questions: Vec<QuestionRow>,
        attempts: Vec<Attempt>,
        obligations: Vec<ObligationRow>,
    ) -> (r: Option<Records>)
        ensures
            r is Some <==> (Records { gates, questions, attempts, obligations })@.wf(),
            r matches Some(records) ==> records == (Records {
                gates,
                questions,
                attempts,
                obligations,
            }),
    {
        let records = Records { gates, questions, attempts, obligations };
        if records.in_order() && records.one_live() && records.is_linked() {
            Some(records)
        } else {
            None
        }
    }

    /// Whether there are identifiers left for a gate with so many questions.
    pub fn room_for(&self, questions: usize) -> (r: bool)
        ensures
            r == self@.has_room(questions as nat),
    {
        let max: i128 = i64::MAX as i128;
        let n: usize = self.gates.len();
        let gate_id: i128 = if n == 0 {
            1
        } else {
            assert(self@.gates.last() == self.gates@[n - 1]@);
            self.gates[n - 1].gate.id as i128 + 1
        };
        let m: usize = self.questions.len();
        let question_id: i128 = if m == 0 {
            1
        } else {
            assert(self@.questions.last() == self.questions@[m - 1]@);
            self.questions[m - 1].question.id as i128 + 1
        };
        let asked: i128 = questions as i128;
        gate_id <= max && asked <= max && question_id + asked <= max
    }

    fn in_order(&self) -> (r: bool)
        ensures
            r == (self@.gates_ordered() && self@.questions_ordered()),
    {
        let mut i: usize = 1;
        while i < self.gates.len()
            invariant
                1 <= i,
                forall|a: int, b: int|
                    0 <= a < b < i && b < self.gates@.len() ==> (#[trigger] self@.gates[a]).gate.id < (
                    #[trigger] self@.gates[b]).gate.id,
            decreases self.gates@.len() - i,
        {
            assert(self@.gates[i as int] == self.gates@[i as int]@);
            assert(self@.gates[i - 1] == self.gates@[i - 1]@);
            if self.gates[i - 1].gate.id >= self.gates[i].gate.id {
                assert(!(self@.gates[i - 1].gate.id < self@.gates[i as int].gate.id));
                return false;
            }
            proof {
                assert forall|a: int, b: int|
                    0 <= a < b < i + 1 && b < self.gates@.len() implies (
                #[trigger] self@.gates[a]).gate.id < (#[trigger] self@.gates[b]).gate.id by {
                    if b == i && a < i - 1 {
                        assert(self@.gates[a].gate.id < self@.gates[i - 1].gate.id);
                    }
                }
            }
            i += 1;
        }
        let mut k: usize = 1;
        while k < self.questions.len()
            invariant
                1 <= k,
                forall|a: int, b: int|
                    0 <= a < b < k && b < self.questions@.len() ==> (
                    #[trigger] self@.questions[a]).question.id < (
                    #[trigger] self@.questions[b]).question.id,
            decreases self.questions@.len() - k,
        {
            assert(self@.questions[k as int] == self.questions@[k as int]@);
            assert(self@.questions[k - 1] == self.questions@[k - 1]@);
            if self.questions[k - 1].question.id >= self.questions[k].question.id {
                assert(!(self@.questions[k - 1].question.id < self@.questions[k as int].question.id));
                return false;
            }
            proof {
                assert forall|a: int, b: int|
                    0 <= a < b < k + 1 && b < self.questions@.len() implies (
                #[trigger] self@.questions[a]).question.id < (
                #[trigger] self@.questions[b]).question.id by {
                    if b == k && a < k - 1 {
                        assert(self@.questions[a].question.id < self@.questions[k - 1].question.id);
                    }
                }
            }
            k += 1;
        }
        true
    }

    fn is_linked(&self) -> (r: bool)
        ensures
            r == self@.linked(),
    {
        let mut i: usize = 0;
        while i < self.questions.len()
            invariant
                i <= self.questions@.len(),
                forall|j: int|
                    0 <= j < i ==> self@.has_gate((#[trigger] self@.questions[j]).gate_id),
            decreases self.questions@.len() - i,
        {
            assert(self@.questions[i as int] == self.questions@[i as int]@);
            if !gate_exists(self, self.questions[i].gate_id) {
                return false;
            }
            i += 1;
        }
        let mut k: usize = 0;
        while k < self.attempts.len()
            invariant
                k <= self.attempts@.len(),
                forall|j: int|
                    0 <= j < k ==> self@.has_question((#[trigger] self@.attempts[j]).question_id),
            decreases self.attempts@.len() - k,
        {
            assert(self@.attempts[k as int] == self.attempts@[k as int]@);
            if !question_exists(self, self.attempts[k].question_id) {
                return false;
            }
            k += 1;
        }
        let mut m: usize = 0;
        while m < self.obligations.len()
            invariant
                m <= self.obligations@.len(),
                forall|j: int|
                    0 <= j < m ==> self@.has_gate((#[trigger] self@.obligations[j]).gate_id)
                        && self@.has_question(self@.obligations[j].question_id),
            decreases self.obligations@.len() - m,
        {
            let o = &self.obligations[m];
            assert(self@.obligations[m as int] == o@);
            if !gate_exists(self, o.gate_id) || !question_exists(self, o.question_id) {
                return false;
            }
            m += 1;
        }
        true
    }

    fn one_live(&self) -> (r: bool)
        ensures
            r == self@.one_live_gate_each(),
    {
        let mut i: usize = 0;
        while i < self.gates.len()
            invariant
                i <= self.gates@.len(),
                forall|a: int, b: int|
                    0 <= a < i && 0 <= b < self.gates@.len() && (
                    #[trigger] self@.gates[a]).superseded_at is None && (
                    #[trigger] self@.gates[b]).superseded_at is None && self@.gates[a].gate.repo
                        == self@.gates[b].gate.repo && self@.gates[a].gate.pr_number
                        == self@.gates[b].gate.pr_number ==> a == b,
            decreases self.gates@.len() - i,
        {
            let mut k: usize = 0;
            while k < self.gates.len()
                invariant
                    i < self.gates@.len(),
                    k <= self.gates@.len(),
                    forall|b: int|
                        0 <= b < k && self@.gates[i as int].superseded_at is None && (
                        #[trigger] self@.gates[b]).superseded_at is None
                            && self@.gates[i as int].gate.repo == self@.gates[b].gate.repo
                            && self@.gates[i as int].gate.pr_number == self@.gates[b].gate.pr_number
                            ==> i == b,
                decreases self.gates@.len() - k,
            {
                let a = &self.gates[i];
                let b = &self.gates[k];
                assert(self@.gates[i as int] == a@);
                assert(self@.gates[k as int] == b@);
                if i != k && a.superseded_at.is_none() && b.superseded_at.is_none()
                    && a.gate.pr_number == b.gate.pr_number && same(
                    a.gate.repo.as_str(),
                    b.gate.repo.as_str(),
                ) {
                    assert(!self@.one_live_gate_each());
                    return false;
                }
                k += 1;
            }
            i += 1;
        }
        true
    }
}

} // verus!
