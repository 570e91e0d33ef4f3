//! One run: what is stored is replayed, or else questions are written, asked and scored.

use vstd::prelude::*;
use vstd::string::StringExecFns;
use crate::db::{
    attempt_count, attempts_on_gate, gate_for_pr, insert_questions, live_gate, new_gate_row,
    question_models, questions_for, questions_in, set_gate_coverage, set_gate_state, upsert_gate,
    with_coverage, with_questions, with_state, Gate, GateModel, NewGate, NewQuestion, Question,
    QuestionModel, Records, RecordsModel,
};
use crate::gate::{trustworthy_decline, Coverage};
use crate::gate::scope::{Facts, Scoped};
use crate::git::{hunk_models, Hunk, HunkModel};
use crate::llm::{cites, generated_models, Context, Generated, GeneratedModel, Generation};
use crate::llm::generate::optional_text;
use crate::text::chars::same;
use crate::text::number::{decimal, show, show_usize};
use crate::text::split::{texts, texts_push};

verus! {

/// How a run is made.
#[derive(Debug, Clone, Copy)]
pub struct Ready {
    pub dry_run: bool,
    /// Use the stand-ins instead of the model. No cost, no network.
    pub offline: bool,
    /// Set the stored gate aside and generate a new one. Without it a pull request that
    /// has been quizzed before replays what it already has: generation is the expensive
    /// half of a run, and the questions are worth keeping stable while you work through
    /// them.
    pub force: bool,
}

// ---------------------------------------------------------------- opening

/// How a run begins.
#[derive(Debug)]
pub enum Opening {
    /// The stored gate is replayed, with its questions.
    Replay(Gate, Vec<Question>),
    /// Questions are written anew; this is what is set aside by it.
    Generate(Option<String>),
}

/// Whether the stored gate of a pull request is replayed.
pub open spec fn replays(force: bool, r: RecordsModel, repo: Seq<char>, pr: u64) -> bool {
    !force && match live_gate(r.gates, repo, pr) {
        Some(gate) => questions_in(r.questions, gate.id).len() > 0,
        None => false,
    }
}

/// What is said of the answers that writing new questions sets aside.
pub open spec fn archive_remark(r: RecordsModel, repo: Seq<char>, pr: u64) -> Option<Seq<char>> {
    match live_gate(r.gates, repo, pr) {
        Some(gate) => {
            let answered = attempts_on_gate(r.attempts, r.questions, gate.id);
            if answered > 0 {
                Some(
                    "note: archiving "@ + decimal(answered) + (if answered == 1 {
                        " graded answer on "@
                    } else {
                        " graded answers on "@
                    }) + repo + "#"@ + decimal(pr as nat)
                        + " — the new questions start unanswered"@,
                )
            } else {
                None
            }
        },
        None => None,
    }
}

impl Ready {
    /// How a run begins. A stored gate is replayed, not regenerated: re-running to look at
    /// the quiz again is the common case, not the rare one. What generating sets aside is
    /// said, since it is work already paid for.
    pub fn begin(&self, records: &Records, repo: &str, pr: u64) -> (r: Opening)
        ensures
            match r {
                Opening::Replay(gate, questions) => {
                    &&& replays(self.force, records@, repo@, pr)
                    &&& live_gate(records@.gates, repo@, pr) == Some(gate@)
                    &&& question_models(questions@) == questions_in(records@.questions, gate.id)
                },
                Opening::Generate(remark) => {
                    &&& !replays(self.force, records@, repo@, pr)
                    &&& optional_text(remark) == archive_remark(records@, repo@, pr)
                },
            },
    {
        let gate = match gate_for_pr(records, repo, pr) {
            Some(gate) => gate,
            None => {
                return Opening::Generate(None);
            },
        };
        let questions = questions_for(records, gate.id);
        assert(question_models(questions@).len() == questions@.len());
        if !self.force && questions.len() > 0 {
            return Opening::Replay(gate, questions);
        }
        let answered: usize = attempt_count(records, gate.id);
        if answered == 0 {
            return Opening::Generate(None);
        }
        let what: &str = if answered == 1 { " graded answer on " } else { " graded answers on " };
        Opening::Generate(
            Some(
                "note: archiving ".to_owned().concat(show_usize(answered).as_str()).concat(
                    what,
                ).concat(repo).concat("#").concat(show(pr).as_str()).concat(
                    " — the new questions start unanswered",
                ),
            ),
        )
    }
}

// ---------------------------------------------------------------- before generating

/// What cannot be asked of a change, for want of context.
pub open spec fn missing_remarks(test: bool, run: bool, surfaces: bool) -> Seq<Seq<char>> {
    let one = if test {
        Seq::empty()
    } else {
        seq!["note: no test command found — no checkable question is possible"@]
    };
    let two = if run && surfaces {
        Seq::empty()
    } else {
        let missing = if !run && !surfaces {
            "no run invocation and no reachable surface"@
        } else if !run {
            "no run invocation"@
        } else {
            "no reachable surface"@
        };
        seq!["note: "@ + missing + " — no exercise question is possible"@]
    };
    one + two
}

/// What cannot be asked of a change, for want of context. An exercise needs both halves:
/// something to run, and somewhere to look once it is running. Naming the missing half is
/// the difference between a repository that has no surface and a search that missed it.
pub fn missing_notes(ctx: &Context) -> (r: Vec<String>)
    ensures
        texts(r@) == missing_remarks(
            ctx.test_command is Some,
            ctx.run_invocation is Some,
            ctx.surfaces@.len() > 0,
        ),
{
    broadcast use texts_push;

    let mut out: Vec<String> = Vec::new();
    assert(texts(out@) =~= Seq::empty());
    if ctx.test_command.is_none() {
        out.push("note: no test command found — no checkable question is possible".to_owned());
    }
    let no_run = ctx.run_invocation.is_none();
    let no_surface = ctx.surfaces.len() == 0;
    if no_run || no_surface {
        let missing: &str = if no_run && no_surface {
            "no run invocation and no reachable surface"
        } else if no_run {
            "no run invocation"
        } else {
            "no reachable surface"
        };
        out.push(
            "note: ".to_owned().concat(missing).concat(" — no exercise question is possible"),
        );
    }
    assert(texts(out@) =~= missing_remarks(
        ctx.test_command is Some,
        ctx.run_invocation is Some,
        ctx.surfaces@.len() > 0,
    ));
    out
}

/// What is said while questions are being written.
pub fn generating_line(min: usize, max: usize) -> (r: String)
    ensures
        r@ == if min == max {
            "Generating "@ + decimal(min as nat) + " questions…"@
        } else {
            "Generating "@ + decimal(min as nat) + "–"@ + decimal(max as nat) + " questions…"@
        },
{
    let front = "Generating ".to_owned().concat(show_usize(min).as_str());
    if min == max {
        front.concat(" questions…")
    } else {
        front.concat("–").concat(show_usize(max).as_str()).concat(" questions…")
    }
}

// ---------------------------------------------------------------- recording

/// The row of a gate for a change, in this state.
pub open spec fn gate_row(id: i64, f: Facts, s: Scoped, state: Seq<char>, now: Seq<char>) -> crate::db::GateRowModel {
    crate::db::GateRowModel {
        gate: GateModel {
            id,
            repo: f.repo@,
            path: f.path@,
            diff: f.diff@,
            pr_number: f.pr_number,
            branch: f.branch@,
            base_ref: f.base_ref@,
            base_sha: f.base_sha@,
            head_sha: f.head_sha@,
            hunks_total: s.all_hunks@.len() as i64,
            hunks_ai: s.ai_hunks@.len() as i64,
            hunks_covered: 0,
            authorship: s.scope.mode.name(),
            has_checkable: false,
            has_exercise: false,
            state,
        },
        created_at: now,
        updated_at: now,
        cleared_at: None,
        superseded_at: None,
    }
}

/// The record with a gate for a change in the place of the one before it.
pub open spec fn with_gate(r: RecordsModel, f: Facts, s: Scoped, state: Seq<char>, now: Seq<char>) -> RecordsModel {
    RecordsModel {
        gates: crate::db::with_archived(r.gates, f.repo@, f.pr_number, now).push(
            gate_row(r.next_gate_id() as i64, f, s, state, now),
        ),
        ..r
    }
}

/// Whether the numbers of hunks can be recorded.
pub open spec fn countable(s: Scoped) -> bool {
    s.all_hunks@.len() <= i64::MAX && s.ai_hunks@.len() <= i64::MAX
}

/// Records a gate for a change.
fn record_gate(records: &mut Records, f: &Facts, s: &Scoped, state: &str, now: &str) -> (id: i64)
    requires
        old(records)@.wf(),
        old(records)@.next_gate_id() <= i64::MAX,
        countable(*s),
    ensures
        id == old(records)@.next_gate_id(),
        final(records)@ == with_gate(old(records)@, *f, *s, state@, now@),
        final(records)@.wf(),
{
    let ghost start = records@;
    let g = NewGate {
        repo: f.repo.as_str(),
        path: f.path.as_str(),
        pr_number: f.pr_number,
        branch: f.branch.as_str(),
        base_ref: f.base_ref.as_str(),
        base_sha: f.base_sha.as_str(),
        head_sha: f.head_sha.as_str(),
        diff: f.diff.as_str(),
        hunks_total: s.all_hunks.len() as i64,
        hunks_ai: s.ai_hunks.len() as i64,
        authorship: s.scope.mode.as_str(),
        state,
    };
    let id: i64 = upsert_gate(records, &g, now);
    proof {
        assert(new_gate_row(id, g, now@) == gate_row(id, *f, *s, state@, now@));
        assert(records@.gates =~= with_gate(start, *f, *s, state@, now@).gates);
    }
    id
}

/// The record with a gate for a change about which there is nothing to ask.
pub open spec fn with_trivial_gate(r: RecordsModel, f: Facts, s: Scoped, now: Seq<char>) -> RecordsModel {
    with_state(
        with_gate(r, f, s, "trivial"@, now),
        r.next_gate_id() as i64,
        "trivial"@,
        now,
    )
}

/// Records that there is nothing to ask about a change.
pub fn record_trivial(records: &mut Records, f: &Facts, s: &Scoped, now: &str) -> (id: i64)
    requires
        old(records)@.wf(),
        old(records)@.next_gate_id() <= i64::MAX,
        countable(*s),
    ensures
        id == old(records)@.next_gate_id(),
        final(records)@ == with_trivial_gate(old(records)@, *f, *s, now@),
        final(records)@.wf(),
{
    let id: i64 = record_gate(records, f, s, "trivial", now);
    set_gate_state(records, id, "trivial", now);
    id
}

/// What to do with a pull request about which there is nothing to ask, and what to say.
#[derive(Debug)]
pub enum TrivialAction {
    /// Nothing, since nothing is to be touched.
    DryRun(String),
    /// Mark it ready.
    MarkReady(String),
    /// Nothing, since it is ready.
    AlreadyReady(String),
}

impl Ready {
    /// What to do with a pull request about which there is nothing to ask.
    pub fn finish_trivial(&self, number: u64, is_draft: bool, reason: &str) -> (r: TrivialAction)
        ensures
            match r {
                TrivialAction::DryRun(s) => self.dry_run && s@ == "[dry-run] would mark #"@ + decimal(
                    number as nat,
                ) + " ready ("@ + reason@ + ")"@,
                TrivialAction::MarkReady(s) => !self.dry_run && is_draft && s@ == "#"@ + decimal(
                    number as nat,
                ) + " marked ready ("@ + reason@ + ")."@,
                TrivialAction::AlreadyReady(s) => !self.dry_run && !is_draft && s@ == "#"@ + decimal(
                    number as nat,
                ) + " already ready ("@ + reason@ + ")."@,
            },
    {
        let n = show(number);
        if self.dry_run {
            return TrivialAction::DryRun(
                "[dry-run] would mark #".to_owned().concat(n.as_str()).concat(" ready (").concat(
                    reason,
                ).concat(")"),
            );
        }
        if is_draft {
            TrivialAction::MarkReady(
                "#".to_owned().concat(n.as_str()).concat(" marked ready (").concat(reason).concat(
                    ").",
                ),
            )
        } else {
            TrivialAction::AlreadyReady(
                "#".to_owned().concat(n.as_str()).concat(" already ready (").concat(reason).concat(
                    ").",
                ),
            )
        }
    }
}

// ---------------------------------------------------------------- what was generated

/// The anchors of questions.
pub open spec fn anchors_of(qs: Seq<GeneratedModel>) -> Seq<Seq<char>> {
    Seq::new(qs.len(), |i: int| qs[i].anchor)
}

/// Whether one of the questions is of this kind.
pub open spec fn some_of_kind(qs: Seq<GeneratedModel>, kind: Seq<char>) -> bool {
    exists|i: int| 0 <= i < qs.len() && (#[trigger] qs[i]).kind == kind
}

/// Whether one of the questions stands on the hunk.
pub open spec fn is_covered(h: HunkModel, qs: Seq<GeneratedModel>) -> bool {
    anchors_of(qs).contains(h.anchor)
}

/// How many of the hunks a quiz covers: those that some question stands on.
pub open spec fn hunks_covered(hunks: Seq<HunkModel>, qs: Seq<GeneratedModel>) -> nat
    decreases hunks.len(),
{
    if hunks.len() == 0 {
        0
    } else if is_covered(hunks.last(), qs) {
        hunks_covered(hunks.drop_last(), qs) + 1
    } else {
        hunks_covered(hunks.drop_last(), qs)
    }
}

/// A quiz never covers more hunks than there are, and covers all of them only where each has
/// a question.
pub proof fn coverage_is_of_the_hunks(hunks: Seq<HunkModel>, qs: Seq<GeneratedModel>)
    ensures
        hunks_covered(hunks, qs) <= hunks.len(),
        hunks_covered(hunks, qs) == hunks.len() <==> forall|i: int|
            0 <= i < hunks.len() ==> is_covered(#[trigger] hunks[i], qs),
    decreases hunks.len(),
{
    if hunks.len() > 0 {
        let rest = hunks.drop_last();
        coverage_is_of_the_hunks(rest, qs);
        assert(hunks.last() == hunks[hunks.len() - 1]);
        if forall|i: int| 0 <= i < rest.len() ==> is_covered(#[trigger] rest[i], qs) {
            assert forall|i: int| 0 <= i < hunks.len() - 1 implies is_covered(
                #[trigger] hunks[i],
                qs,
            ) by {
                assert(rest[i] == hunks[i]);
            }
        } else {
            let i = choose|i: int| 0 <= i < rest.len() && !is_covered(#[trigger] rest[i], qs);
            assert(hunks[i] == rest[i]);
        }
    }
}

fn covers(h: &Hunk, qs: &[Generated]) -> (r: bool)
    ensures
        r == is_covered(h@, generated_models(qs@)),
{
    let ghost all = anchors_of(generated_models(qs@));
    let mut i: usize = 0;
    while i < qs.len()
        invariant
            i <= qs@.len(),
            all == anchors_of(generated_models(qs@)),
            forall|j: int| 0 <= j < i ==> #[trigger] all[j] != h@.anchor,
        decreases qs@.len() - i,
    {
        assert(all[i as int] == qs@[i as int].anchor@);
        if same(qs[i].anchor.as_str(), h.anchor.as_str()) {
            return true;
        }
        i += 1;
    }
    false
}

fn count_covered(hunks: &[Hunk], qs: &[Generated]) -> (r: usize)
    ensures
        r == hunks_covered(hunk_models(hunks@), generated_models(qs@)),
        r <= hunks@.len(),
{
    let ghost hs = hunk_models(hunks@);
    let mut count: usize = 0;
    let mut i: usize = 0;
    proof {
        assert(hs.take(0) =~= Seq::empty());
    }
    while i < hunks.len()
        invariant
            i <= hunks@.len(),
            hs == hunk_models(hunks@),
            count <= i,
            count == hunks_covered(hs.take(i as int), generated_models(qs@)),
        decreases hunks@.len() - i,
    {
        proof {
            assert(hs.take(i + 1).drop_last() =~= hs.take(i as int));
            assert(hs.take(i + 1).last() == hunks@[i as int]@);
        }
        if covers(&hunks[i], qs) {
            count += 1;
        }
        i += 1;
    }
    proof {
        assert(hs.take(i as int) =~= hs);
    }
    count
}

fn has_kind(qs: &[Generated], kind: &str) -> (r: bool)
    ensures
        r == some_of_kind(generated_models(qs@), kind@),
{
    let ghost all = generated_models(qs@);
    let mut i: usize = 0;
    while i < qs.len()
        invariant
            i <= qs@.len(),
            all == generated_models(qs@),
            forall|j: int| 0 <= j < i ==> (#[trigger] all[j]).kind != kind@,
        decreases qs@.len() - i,
    {
        assert(all[i as int] == qs@[i as int]@);
        if same(qs[i].kind.as_str(), kind) {
            return true;
        }
        i += 1;
    }
    false
}

/// What a generation led to.
#[derive(Debug)]
pub enum Accepted {
    /// The generator declined without naming anything in the diff. The pull request is left
    /// alone, and this is said.
    LeftAlone(String),
    /// The generator declined, and said why: what to say, and the reason, in short.
    Trivial { message: String, reason: String },
    /// There is a quiz.
    Quiz { gate_id: i64, questions: Vec<Question>, coverage: Coverage, warning: Option<String> },
}

/// What is said of a decline that names nothing in the diff.
pub open spec fn left_alone_text(reason: Seq<char>) -> Seq<char> {
    "Generator declined without naming anything in the diff: "@ + reason
        + "\nThe PR has been left alone. Re-run to try again, or mark it ready yourself."@
}

/// The questions of a gate as they are recorded.
pub open spec fn question_rows(
    r: RecordsModel,
    gate_id: i64,
    qs: Seq<GeneratedModel>,
    now: Seq<char>,
) -> Seq<crate::db::QuestionRowModel> {
    Seq::new(
        qs.len(),
        |k: int|
            crate::db::QuestionRowModel {
                gate_id,
                question: QuestionModel {
                    id: (r.next_question_id() + k) as i64,
                    kind: qs[k].kind,
                    file: qs[k].file,
                    anchor: qs[k].anchor,
                    text: qs[k].text,
                    reference: qs[k].reference,
                    hints: qs[k].hints,
                    status: "open"@,
                    label: None,
                    score: None,
                },
                created_at: now,
            },
    )
}

/// The record with a quiz: a gate, its questions, and what they cover.
pub open spec fn with_quiz(
    r: RecordsModel,
    f: Facts,
    s: Scoped,
    qs: Seq<GeneratedModel>,
    now: Seq<char>,
) -> RecordsModel {
    let id = r.next_gate_id() as i64;
    let gated = with_gate(r, f, s, "open"@, now);
    let asked = RecordsModel {
        questions: gated.questions + question_rows(gated, id, qs, now),
        ..gated
    };
    with_coverage(
        asked,
        id,
        hunks_covered(hunk_models(s.ai_hunks@), qs) as i64,
        some_of_kind(qs, "checkable"@),
        some_of_kind(qs, "exercise"@),
        now,
    )
}

fn insert_generated(records: &mut Records, gate_id: i64, qs: &[Generated], now: &str)
    requires
        old(records)@.wf(),
        old(records)@.has_gate(gate_id),
        old(records)@.next_question_id() + qs@.len() <= i64::MAX,
    ensures
        final(records)@ == (RecordsModel {
            questions: old(records)@.questions + question_rows(
                old(records)@,
                gate_id,
                generated_models(qs@),
                now@,
            ),
            ..old(records)@
        }),
        final(records)@.wf(),
{
    let ghost start = records@;
    let ghost models = generated_models(qs@);
    let mut asked: Vec<NewQuestion> = Vec::new();
    let mut i: usize = 0;
    while i < qs.len()
        invariant
            i <= qs@.len(),
            asked@.len() == i,
            forall|j: int|
                0 <= j < i ==> {
                    let a = #[trigger] asked@[j];
                    let g = qs@[j];
                    &&& a.kind@ == g.kind@
                    &&& a.file@ == g.file@
                    &&& a.anchor@ == g.anchor@
                    &&& a.text@ == g.text@
                    &&& a.reference@ == g.reference@
                    &&& texts(a.hints@) == texts(g.hints@)
                },
        decreases qs@.len() - i,
    {
        let g = &qs[i];
        asked.push(
            NewQuestion {
                kind: g.kind.as_str(),
                file: g.file.as_str(),
                anchor: g.anchor.as_str(),
                text: g.text.as_str(),
                reference: g.reference.as_str(),
                hints: g.hints.as_slice(),
            },
        );
        i += 1;
    }
    let outcome = insert_questions(records, gate_id, &asked, now);
    proof {
        assert(records@ == with_questions(start, gate_id, asked@, now@));
        assert(records@.questions =~= start.questions + question_rows(start, gate_id, models, now@));
    }
}

impl Ready {
    /// Takes in what the generator made of a change. A decline marks the change trivial only
    /// where its reason names something in the diff: text that other people wrote must not
    /// be able to reach a change of state by talking the generator out of asking anything.
    /// A gate is recorded only now that there is something to put in it.
    pub fn accept(
        &self,
        records: &mut Records,
        f: &Facts,
        s: &Scoped,
        generation: Generation,
        now: &str,
    ) -> (r: Accepted)
        requires
            old(records)@.wf(),
            countable(*s),
            old(records)@.has_room(
                match generation {
                    Generation::Questions(qs) => qs@.len(),
                    Generation::Declined(_) => 0,
                },
            ),
        ensures
            final(records)@.wf(),
            match generation {
                Generation::Declined(reason) => if cites(reason@, hunk_models(s.ai_hunks@)) {
                    &&& final(records)@ == with_trivial_gate(old(records)@, *f, *s, now@)
                    &&& r matches Accepted::Trivial { message, reason: short } && message@
                        == "Generator declined: "@ + reason@ && short@ == "generator declined"@
                } else {
                    &&& final(records)@ == with_gate(old(records)@, *f, *s, "open"@, now@)
                    &&& r matches Accepted::LeftAlone(message) && message@ == left_alone_text(
                        reason@,
                    )
                },
                Generation::Questions(qs) => {
                    let models = generated_models(qs@);
                    &&& final(records)@ == with_quiz(old(records)@, *f, *s, models, now@)
                    &&& r matches Accepted::Quiz { gate_id, questions, coverage, warning } && {
                        &&& gate_id == old(records)@.next_gate_id()
                        &&& question_models(questions@) == questions_in(
                            final(records)@.questions,
                            gate_id,
                        )
                        &&& coverage.questions == qs@.len()
                        &&& coverage.hunks_ai == s.ai_hunks@.len()
                        &&& coverage.hunks_total == s.all_hunks@.len()
                        &&& coverage.hunks_covered == hunks_covered(
                            hunk_models(s.ai_hunks@),
                            models,
                        )
                        &&& coverage.authorship@ == s.scope.mode.name()
                        &&& coverage.has_checkable == some_of_kind(models, "checkable"@)
                        &&& coverage.has_exercise == some_of_kind(models, "exercise"@)
                        &&& coverage.has_intent == some_of_kind(models, "intent"@)
                        &&& optional_text(warning) == if some_of_kind(models, "intent"@) {
                            None
                        } else {
                            Some("warning: the generator returned no intent question"@)
                        }
                    }
                },
            },
    {
        let qs = match generation {
            Generation::Declined(reason) => {
                if trustworthy_decline(reason.as_str(), &s.ai_hunks) {
                    let _id: i64 = record_trivial(records, f, s, now);
                    return Accepted::Trivial {
                        message: "Generator declined: ".to_owned().concat(reason.as_str()),
                        reason: "generator declined".to_owned(),
                    };
                }
                let _id: i64 = record_gate(records, f, s, "open", now);
                return Accepted::LeftAlone(
                    "Generator declined without naming anything in the diff: ".to_owned().concat(
                        reason.as_str(),
                    ).concat(
                        "\nThe PR has been left alone. Re-run to try again, or mark it ready yourself.",
                    ),
                );
            },
            Generation::Questions(qs) => qs,
        };
        let ghost start = records@;
        let gate_id: i64 = record_gate(records, f, s, "open", now);
        proof {
            let n = start.gates.len() as int;
            assert(records@.gates[n].gate.id == gate_id);
            assert(records@.has_gate(gate_id));
        }
        insert_generated(records, gate_id, &qs, now);
        let covered: usize = count_covered(&s.ai_hunks, &qs);
        let has_checkable = has_kind(&qs, "checkable");
        let has_exercise = has_kind(&qs, "exercise");
        let has_intent = has_kind(&qs, "intent");
        set_gate_coverage(records, gate_id, covered as i64, has_checkable, has_exercise, now);
        let questions = questions_for(records, gate_id);
        let warning: Option<String> = if has_intent {
            None
        } else {
            Some("warning: the generator returned no intent question".to_owned())
        };
        let coverage = Coverage {
            questions: qs.len(),
            hunks_ai: s.ai_hunks.len() as i64,
            hunks_total: s.all_hunks.len() as i64,
            hunks_covered: covered as i64,
            authorship: s.scope.mode.as_str().to_owned(),
            has_checkable,
            has_exercise,
            has_intent,
        };
        Accepted::Quiz { gate_id, questions, coverage, warning }
    }
}

/// A quiz asks what was generated and nothing else: the questions of the new gate are those
/// of the generator, in order, open and not yet graded.
pub proof fn a_quiz_asks_what_was_generated(
    r: RecordsModel,
    f: Facts,
    s: Scoped,
    qs: Seq<GeneratedModel>,
    now: Seq<char>,
)
    requires
        r.wf(),
        r.next_gate_id() <= i64::MAX,
    ensures
        questions_in(with_quiz(r, f, s, qs, now).questions, r.next_gate_id() as i64) == Seq::new(
            qs.len(),
            |k: int| question_rows(r, r.next_gate_id() as i64, qs, now)[k].question,
        ),
{
    let id = r.next_gate_id() as i64;
    let rows = question_rows(r, id, qs, now);
    let gated = with_gate(r, f, s, "open"@, now);
    crate::db::questions_stand_on_earlier_gates(r);
    assert(gated.questions == r.questions);
    assert(question_rows(gated, id, qs, now) =~= rows);
    crate::db::appended_questions(r.questions, rows, id);
    assert(Seq::new(rows.len(), |k: int| rows[k].question) =~= Seq::new(
        qs.len(),
        |k: int| rows[k].question,
    ));
}

} // verus!
