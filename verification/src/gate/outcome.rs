//! What a quiz comes to, and what is said of it.

use vstd::prelude::*;
use vstd::string::StringExecFns;
use crate::db::{
    last_body, last_dispute, question_models, questions_for, questions_in, set_gate_state,
    with_state, Gate, GateModel, Obligation, Question, QuestionModel, Records, RecordsModel,
    gate_for_pr, live_gate,
};
use crate::gate::{coverage_text, nothing_was_answered, passed, passes, Coverage, Scored};
use crate::gate::scope::{front_bytes, short_hash};
use crate::gh::PrBrief;
use crate::llm::generate::optional_text;
use crate::text::chars::same;
use crate::text::number::{decimal, show};
use crate::text::pad::{pad, padded};
use crate::text::split::{texts, texts_push};

verus! {

/// What a quiz comes to.
#[derive(Debug, Clone, Copy, PartialEq, Eq, Structural)]
pub enum Outcome {
    /// Every question left on an upheld dispute, so nothing was answered.
    NothingAnswered,
    NotCleared,
    Cleared,
}

/// What a quiz with so many questions comes to.
pub open spec fn outcome_of(scores: Seq<Scored>, questions: nat) -> Outcome {
    if scores.len() == 0 && questions > 0 {
        Outcome::NothingAnswered
    } else if passed(scores) {
        Outcome::Cleared
    } else {
        Outcome::NotCleared
    }
}

/// What a quiz comes to. A gate that is cleared is recorded as such, and nothing else is
/// touched.
pub fn conclude(records: &mut Records, gate_id: i64, scores: &[Scored], questions: usize, now: &str) -> (r:
    Outcome)
    ensures
        r == outcome_of(scores@, questions as nat),
        final(records)@ == if r == Outcome::Cleared {
            with_state(old(records)@, gate_id, "cleared"@, now@)
        } else {
            old(records)@
        },
        old(records)@.wf() ==> final(records)@.wf(),
{
    if nothing_was_answered(scores, questions) {
        return Outcome::NothingAnswered;
    }
    if !passes(scores) {
        return Outcome::NotCleared;
    }
    set_gate_state(records, gate_id, "cleared", now);
    Outcome::Cleared
}

/// Disputing every question away is not a pass.
pub proof fn disputing_everything_away_clears_nothing(questions: nat)
    requires
        questions > 0,
    ensures
        outcome_of(Seq::empty(), questions) == Outcome::NothingAnswered,
{
}

/// A gate is cleared only where the pass rule holds of answers that were given, or where
/// there was nothing to ask.
pub proof fn a_cleared_gate_was_passed(scores: Seq<Scored>, questions: nat)
    requires
        outcome_of(scores, questions) == Outcome::Cleared,
    ensures
        passed(scores),
        scores.len() > 0 || questions == 0,
{
}

/// What is said of a quiz that is not cleared. A fresh quiz may be had again.
pub open spec fn not_cleared_text(outcome: Outcome, fresh: bool) -> Option<Seq<char>> {
    match outcome {
        Outcome::NothingAnswered => Some(
            "\nEvery question left the quiz on an upheld dispute — nothing was answered."@,
        ),
        Outcome::NotCleared => Some(
            if fresh {
                "\nNot cleared. Re-run when you want another go — disagreements are cheap."@
            } else {
                "\nNot cleared."@
            },
        ),
        Outcome::Cleared => None,
    }
}

/// What is said of a quiz that is not cleared.
pub fn not_cleared_line(outcome: Outcome, fresh: bool) -> (r: Option<String>)
    ensures
        optional_text(r) == not_cleared_text(outcome, fresh),
{
    match outcome {
        Outcome::NothingAnswered => Some(
            "\nEvery question left the quiz on an upheld dispute — nothing was answered.".to_owned(),
        ),
        Outcome::NotCleared => if fresh {
            Some(
                "\nNot cleared. Re-run when you want another go — disagreements are cheap.".to_owned(),
            )
        } else {
            Some("\nNot cleared.".to_owned())
        },
        Outcome::Cleared => None,
    }
}

// ---------------------------------------------------------------- the report

/// What is open on a question: its file, and the claim that was upheld.
pub open spec fn open_line(r: RecordsModel, q: QuestionModel) -> Seq<char> {
    "  "@ + q.file + " — "@ + match last_body(r.attempts, q.id, "dispute"@) {
        Some(claim) => claim,
        None => Seq::empty(),
    }
}

/// What is open on the questions of a gate: those that were found to show a bug.
pub open spec fn open_lines(r: RecordsModel, qs: Seq<QuestionModel>) -> Seq<Seq<char>>
    decreases qs.len(),
{
    if qs.len() == 0 {
        Seq::empty()
    } else if qs.last().status == "deferred"@ {
        open_lines(r, qs.drop_last()).push(open_line(r, qs.last()))
    } else {
        open_lines(r, qs.drop_last())
    }
}

/// What clearing a gate leaves behind: how much of the diff the quiz covered, and whatever
/// an upheld dispute left open. The description, and marking the pull request ready, are the
/// author's.
pub open spec fn report_text(
    r: RecordsModel,
    gate_id: i64,
    coverage: Coverage,
    number: u64,
    url: Seq<char>,
) -> Seq<Seq<char>> {
    let open = open_lines(r, questions_in(r.questions, gate_id));
    let middle = if open.len() > 0 {
        seq!["\nOpen on this change:"@] + open + seq!["\n`shipgate status` lists these again."@]
    } else {
        Seq::empty()
    };
    seq!["\nCleared · "@ + coverage.text()] + middle + seq![
        "\n#"@ + decimal(number as nat) + " is yours to mark ready · "@ + url,
    ]
}

fn write_open_lines(records: &Records, questions: &[Question]) -> (r: Vec<String>)
    ensures
        texts(r@) == open_lines(records@, question_models(questions@)),
{
    broadcast use texts_push;

    let ghost qs = question_models(questions@);
    let mut out: Vec<String> = Vec::new();
    let mut i: usize = 0;
    proof {
        assert(qs.take(0) =~= Seq::empty());
        assert(texts(out@) =~= Seq::empty());
    }
    while i < questions.len()
        invariant
            i <= questions@.len(),
            qs == question_models(questions@),
            texts(out@) == open_lines(records@, qs.take(i as int)),
        decreases questions@.len() - i,
    {
        let q = &questions[i];
        proof {
            assert(qs.take(i + 1).drop_last() =~= qs.take(i as int));
            assert(qs.take(i + 1).last() == q@);
        }
        if same(q.status.as_str(), "deferred") {
            let claim: String = match last_dispute(records, q.id) {
                Some(claim) => claim,
                None => String::new(),
            };
            out.push(
                "  ".to_owned().concat(q.file.as_str()).concat(" — ").concat(claim.as_str()),
            );
        }
        i += 1;
    }
    proof {
        assert(qs.take(i as int) =~= qs);
    }
    out
}

/// What is said once a gate is cleared. An upheld bug is an open obligation: quietly
/// clearing a gate without saying so is how "the code is wrong" becomes a free skip.
pub fn report(records: &Records, gate_id: i64, coverage: &Coverage, number: u64, url: &str) -> (r: Vec<
    String,
>)
    ensures
        texts(r@) == report_text(records@, gate_id, *coverage, number, url@),
{
    broadcast use texts_push;

    let questions = questions_for(records, gate_id);
    let open = write_open_lines(records, &questions);
    let mut out: Vec<String> = Vec::new();
    out.push("\nCleared · ".to_owned().concat(coverage.line().as_str()));
    assert(texts(out@) =~= seq!["\nCleared · "@ + coverage.text()]);
    assert(texts(open@).len() == open@.len());
    if open.len() > 0 {
        out.push("\nOpen on this change:".to_owned());
        crate::context::extend_texts(&mut out, &open);
        out.push("\n`shipgate status` lists these again.".to_owned());
    }
    out.push(
        "\n#".to_owned().concat(show(number).as_str()).concat(" is yours to mark ready · ").concat(
            url,
        ),
    );
    assert(texts(out@) =~= report_text(records@, gate_id, *coverage, number, url@));
    out
}

// ---------------------------------------------------------------- replaying

/// Whether one of the questions is of this kind.
pub open spec fn asks_kind(qs: Seq<QuestionModel>, kind: Seq<char>) -> bool {
    exists|i: int| 0 <= i < qs.len() && (#[trigger] qs[i]).kind == kind
}

/// Whether coverage is that of a stored gate.
pub open spec fn covers_gate(c: Coverage, gate: GateModel, qs: Seq<QuestionModel>) -> bool {
    &&& c.questions == qs.len()
    &&& c.hunks_ai == gate.hunks_ai
    &&& c.hunks_total == gate.hunks_total
    &&& c.hunks_covered == gate.hunks_covered
    &&& c.authorship@ == gate.authorship
    &&& c.has_checkable == gate.has_checkable
    &&& c.has_exercise == gate.has_exercise
    &&& c.has_intent == asks_kind(qs, "intent"@)
}

/// What a stored gate covers.
pub fn stored_coverage(gate: &Gate, questions: &[Question]) -> (r: Coverage)
    ensures
        covers_gate(r, gate@, question_models(questions@)),
{
    let ghost qs = question_models(questions@);
    let mut has_intent = false;
    let mut i: usize = 0;
    while i < questions.len()
        invariant
            i <= questions@.len(),
            qs == question_models(questions@),
            has_intent == exists|j: int| 0 <= j < i && (#[trigger] qs[j]).kind == "intent"@,
        decreases questions@.len() - i,
    {
        assert(qs[i as int] == questions@[i as int]@);
        if same(questions[i].kind.as_str(), "intent") {
            has_intent = true;
        }
        i += 1;
    }
    Coverage {
        questions: questions.len(),
        hunks_ai: gate.hunks_ai,
        hunks_total: gate.hunks_total,
        hunks_covered: gate.hunks_covered,
        authorship: gate.authorship.clone(),
        has_checkable: gate.has_checkable,
        has_exercise: gate.has_exercise,
        has_intent,
    }
}

/// What is printed of a gate that is replayed.
pub fn replay_headline(gate: &Gate, branch: &str, base_ref: &str) -> (r: String)
    ensures
        r@ == gate@.repo + "#"@ + decimal(gate.pr_number as nat) + " · "@ + branch@ + " · base "@
            + base_ref@ + " · replaying the stored gate ("@ + front_bytes(gate@.head_sha, 7) + ")"@,
{
    gate.repo.clone().concat("#").concat(show(gate.pr_number).as_str()).concat(" · ").concat(
        branch,
    ).concat(" · base ").concat(base_ref).concat(" · replaying the stored gate (").concat(
        short_hash(gate.head_sha.as_str()).as_str(),
    ).concat(")")
}

/// What is said where commits were added since a gate was made. The stored questions belong
/// to the stored diff, and saying so is the difference between a cheap replay and a gate that
/// quietly covers old code.
pub fn moved_warning(gate: &Gate, head: &str) -> (r: Option<String>)
    ensures
        match r {
            Some(s) => gate@.head_sha != head@ && s@
                == "warning: HEAD has moved since this gate was created — these questions cover the stored diff, not your new commits. --force regenerates."@,
            None => gate@.head_sha == head@,
        },
{
    if same(gate.head_sha.as_str(), head) {
        None
    } else {
        Some(
            "warning: HEAD has moved since this gate was created — these questions cover the stored diff, not your new commits. --force regenerates.".to_owned(),
        )
    }
}

// ---------------------------------------------------------------- status

/// How the coverage of a stored gate reads.
pub open spec fn gate_coverage_text(gate: GateModel, qs: Seq<QuestionModel>) -> Seq<char> {
    coverage_text(
        qs.len(),
        gate.hunks_covered as int,
        gate.hunks_ai as int,
        gate.hunks_total as int,
        gate.authorship,
        gate.has_checkable,
        gate.has_exercise,
        asks_kind(qs, "intent"@),
    )
}

/// What is said of a pull request: where its gate stands, or that it went ready without one.
pub open spec fn status_text(r: RecordsModel, repo: Seq<char>, pr: PrBrief) -> Seq<char> {
    let front = repo + "#"@ + padded(decimal(pr.number as nat), 5) + " "@;
    match live_gate(r.gates, repo, pr.number) {
        Some(gate) => if gate.state == "cleared"@ || gate.state == "trivial"@ {
            front + padded(gate.state, 10) + " "@ + gate_coverage_text(
                gate,
                questions_in(r.questions, gate.id),
            )
        } else {
            front + padded(gate.state, 10) + " in progress"@
        },
        None => if pr.is_draft {
            front + padded("—"@, 10) + " draft"@
        } else {
            front + padded("—"@, 10) + " ready, no gate"@
        },
    }
}

/// What is said of a pull request.
pub fn status_line(records: &Records, repo: &str, pr: &PrBrief) -> (r: String)
    ensures
        r@ == status_text(records@, repo@, *pr),
{
    let front = repo.to_owned().concat("#").concat(pad(show(pr.number).as_str(), 5).as_str()).concat(
        " ",
    );
    match gate_for_pr(records, repo, pr.number) {
        Some(gate) => {
            let questions = questions_for(records, gate.id);
            let coverage = stored_coverage(&gate, &questions);
            let state = pad(gate.state.as_str(), 10);
            if same(gate.state.as_str(), "cleared") || same(gate.state.as_str(), "trivial") {
                front.concat(state.as_str()).concat(" ").concat(coverage.line().as_str())
            } else {
                front.concat(state.as_str()).concat(" in progress")
            }
        },
        None => {
            let what: &str = if pr.is_draft { " draft" } else { " ready, no gate" };
            front.concat(pad("—", 10).as_str()).concat(what)
        },
    }
}

/// What is said of something that is open.
pub fn obligation_line(repo: &str, o: &Obligation) -> (r: String)
    ensures
        r@ == repo@ + "#"@ + padded(decimal(o.pr_number as nat), 5) + " "@ + padded(
            "obligation"@,
            10,
        ) + " \""@ + o.body@ + "\""@,
{
    repo.to_owned().concat("#").concat(pad(show(o.pr_number).as_str(), 5).as_str()).concat(
        " ",
    ).concat(pad("obligation", 10).as_str()).concat(" \"").concat(o.body.as_str()).concat("\"")
}

/// What is said where the dashboard has nothing to show because nothing is watched.
pub fn watch_hint(config_path: Option<&str>) -> (r: String)
    ensures
        r@ == "\nNothing is being watched yet. Add a repository to "@ + match config_path {
            Some(path) => path@,
            None => "~/.config/shipgate/config.toml"@,
        } + ":\n\n                 [[watch]]\npath = \"~/workspace/your-repo\""@,
{
    let path: &str = match config_path {
        Some(path) => path,
        None => "~/.config/shipgate/config.toml",
    };
    "\nNothing is being watched yet. Add a repository to ".to_owned().concat(path).concat(
        ":\n\n                 [[watch]]\npath = \"~/workspace/your-repo\"",
    )
}

} // verus!
