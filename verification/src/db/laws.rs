//! What holds of the record, whatever is in it: what each change does to every row, and what
//! each question is answered from.

use vstd::prelude::*;
use crate::db::{
    attempts_on_gate, dates_go_down, dates_go_up, dispute_label, gate_disputes, gate_of,
    gate_with_id, gates_of_rows, is_live_for, last_body, live_gate, live_gates, live_gates_in,
    numbers_go_down, obligation_in, obligations_in, pruned, question_disputes, questions_in,
    stale_count, undated, upserted, with_attempt, with_coverage, with_dispute, with_obligation,
    with_questions, with_state, with_status, AttemptModel, GateModel, GateRowModel, NewGate,
    NewQuestion, ObligationModel, ObligationRowModel, QuestionModel, QuestionRowModel, RecordsModel,
};
use crate::db::storage::changed_places;
use crate::text::order::before;
use crate::text::split::texts;

verus! {

// ---------------------------------------------------------------- gates

/// Making a gate archives the live one of the same pull request of the same repository, touches
/// no other, and adds one behind all of them, which is live and not cleared.
pub proof fn making_a_gate(r: RecordsModel, g: NewGate, now: Seq<char>, i: int)
    requires
        0 <= i < r.gates.len(),
    ensures
        upserted(r, g, now).gates.len() == r.gates.len() + 1,
        upserted(r, g, now).questions == r.questions,
        upserted(r, g, now).attempts == r.attempts,
        upserted(r, g, now).obligations == r.obligations,
        r.gates[i].superseded_at is None && r.gates[i].gate.repo == g.repo@
            && r.gates[i].gate.pr_number == g.pr_number ==> upserted(r, g, now).gates[i] == (
        GateRowModel {
            gate: GateModel { diff: Seq::empty(), ..r.gates[i].gate },
            created_at: r.gates[i].created_at,
            updated_at: now,
            cleared_at: r.gates[i].cleared_at,
            superseded_at: Some(now),
        }),
        r.gates[i].superseded_at is Some || r.gates[i].gate.repo != g.repo@
            || r.gates[i].gate.pr_number != g.pr_number ==> upserted(r, g, now).gates[i]
            == r.gates[i],
{
}

/// A new gate holds what it was made with, covers nothing yet, and follows the last one.
pub proof fn a_gate_as_it_was_made(r: RecordsModel, g: NewGate, now: Seq<char>)
    ensures
        ({
            let row = upserted(r, g, now).gates.last();
            &&& row.gate.repo == g.repo@
            &&& row.gate.path == g.path@
            &&& row.gate.diff == g.diff@
            &&& row.gate.pr_number == g.pr_number
            &&& row.gate.branch == g.branch@
            &&& row.gate.base_ref == g.base_ref@
            &&& row.gate.base_sha == g.base_sha@
            &&& row.gate.head_sha == g.head_sha@
            &&& row.gate.hunks_total == g.hunks_total
            &&& row.gate.hunks_ai == g.hunks_ai
            &&& row.gate.hunks_covered == 0
            &&& row.gate.authorship == g.authorship@
            &&& !row.gate.has_checkable
            &&& !row.gate.has_exercise
            &&& row.gate.state == g.state@
            &&& row.created_at == now
            &&& row.updated_at == now
            &&& row.cleared_at is None
            &&& row.superseded_at is None
            &&& r.gates.len() == 0 ==> row.gate.id == 1
            &&& r.gates.len() > 0 && r.gates.last().gate.id < i64::MAX ==> row.gate.id
                == r.gates.last().gate.id + 1
        }),
{
}

/// A state is that of one gate: its own row changes, in its state and dates alone, and it is
/// dated as cleared where it is cleared or trivial.
pub proof fn setting_a_state(r: RecordsModel, id: i64, state: Seq<char>, now: Seq<char>, i: int)
    requires
        0 <= i < r.gates.len(),
    ensures
        with_state(r, id, state, now).gates.len() == r.gates.len(),
        with_state(r, id, state, now).questions == r.questions,
        with_state(r, id, state, now).attempts == r.attempts,
        with_state(r, id, state, now).obligations == r.obligations,
        r.gates[i].gate.id != id ==> with_state(r, id, state, now).gates[i] == r.gates[i],
        r.gates[i].gate.id == id ==> with_state(r, id, state, now).gates[i] == (GateRowModel {
            gate: GateModel { state, ..r.gates[i].gate },
            created_at: r.gates[i].created_at,
            updated_at: now,
            cleared_at: if state == "cleared"@ || state == "trivial"@ {
                Some(now)
            } else {
                r.gates[i].cleared_at
            },
            superseded_at: r.gates[i].superseded_at,
        }),
{
}

/// Coverage is that of one gate, and nothing else of it changes but its date.
pub proof fn setting_coverage(
    r: RecordsModel,
    id: i64,
    covered: i64,
    checkable: bool,
    exercise: bool,
    now: Seq<char>,
    i: int,
)
    requires
        0 <= i < r.gates.len(),
    ensures
        ({
            let u = with_coverage(r, id, covered, checkable, exercise, now);
            &&& u.gates.len() == r.gates.len()
            &&& u.questions == r.questions
            &&& u.attempts == r.attempts
            &&& u.obligations == r.obligations
            &&& r.gates[i].gate.id != id ==> u.gates[i] == r.gates[i]
            &&& r.gates[i].gate.id == id ==> u.gates[i] == (GateRowModel {
                gate: GateModel {
                    hunks_covered: covered,
                    has_checkable: checkable,
                    has_exercise: exercise,
                    ..r.gates[i].gate
                },
                created_at: r.gates[i].created_at,
                updated_at: now,
                cleared_at: r.gates[i].cleared_at,
                superseded_at: r.gates[i].superseded_at,
            })
        }),
{
}

/// What a pull request goes by is its live gate, wherever it stands, and there is none where
/// every gate of it was archived.
pub proof fn the_live_gate_is_found(r: RecordsModel, repo: Seq<char>, pr: u64, i: int)
    requires
        r.one_live_gate_each(),
    ensures
        0 <= i < r.gates.len() && r.gates[i].superseded_at is None && r.gates[i].gate.repo == repo
            && r.gates[i].gate.pr_number == pr ==> live_gate(r.gates, repo, pr) == Some(
            r.gates[i].gate,
        ),
        (forall|k: int|
            0 <= k < r.gates.len() ==> !((#[trigger] r.gates[k]).superseded_at is None
                && r.gates[k].gate.repo == repo && r.gates[k].gate.pr_number == pr)) ==> live_gate(
            r.gates,
            repo,
            pr,
        ) is None,
        live_gate(r.gates, repo, pr) matches Some(g) ==> g.repo == repo && g.pr_number == pr,
{
    live_gate_stands_somewhere(r.gates, repo, pr);
    if live_gate(r.gates, repo, pr) is Some {
        let k = choose|k: int|
            0 <= k < r.gates.len() && (#[trigger] r.gates[k]).superseded_at is None
                && r.gates[k].gate.repo == repo && r.gates[k].gate.pr_number == pr
                && live_gate(r.gates, repo, pr) == Some(r.gates[k].gate);
        if 0 <= i < r.gates.len() && r.gates[i].superseded_at is None && r.gates[i].gate.repo == repo
            && r.gates[i].gate.pr_number == pr {
            assert(i == k);
        }
    }
}

proof fn live_gate_stands_somewhere(gates: Seq<GateRowModel>, repo: Seq<char>, pr: u64)
    ensures
        live_gate(gates, repo, pr) is Some ==> exists|k: int|
            0 <= k < gates.len() && (#[trigger] gates[k]).superseded_at is None && gates[k].gate.repo
                == repo && gates[k].gate.pr_number == pr && live_gate(gates, repo, pr) == Some(
                gates[k].gate,
            ),
        live_gate(gates, repo, pr) is None ==> forall|k: int|
            0 <= k < gates.len() ==> !((#[trigger] gates[k]).superseded_at is None
                && gates[k].gate.repo == repo && gates[k].gate.pr_number == pr),
    decreases gates.len(),
{
    if gates.len() > 0 && !is_live_for(gates[0], repo, pr) {
        let rest = gates.skip(1);
        live_gate_stands_somewhere(rest, repo, pr);
        if live_gate(rest, repo, pr) is Some {
            let k = choose|k: int|
                0 <= k < rest.len() && (#[trigger] rest[k]).superseded_at is None
                    && rest[k].gate.repo == repo && rest[k].gate.pr_number == pr && live_gate(
                    rest,
                    repo,
                    pr,
                ) == Some(rest[k].gate);
            assert(gates[k + 1] == rest[k]);
        } else {
            assert forall|k: int| 0 <= k < gates.len() implies !((
            #[trigger] gates[k]).superseded_at is None && gates[k].gate.repo == repo
                && gates[k].gate.pr_number == pr) by {
                if k > 0 {
                    assert(rest[k - 1] == gates[k]);
                }
            }
        }
    }
}

/// Pruning one repository archives its live gates whose pull request is not open, and leaves
/// every other gate as it is: those of other repositories, those whose pull request is open,
/// and those archived before. It says how many it archived.
pub proof fn pruning_one_repository(
    r: RecordsModel,
    repo: Seq<char>,
    open_prs: Seq<u64>,
    now: Seq<char>,
    i: int,
)
    requires
        0 <= i < r.gates.len(),
    ensures
        r.gates[i].gate.repo != repo ==> pruned(r, repo, open_prs, now).gates[i] == r.gates[i],
        r.gates[i].superseded_at is Some ==> pruned(r, repo, open_prs, now).gates[i] == r.gates[i],
        open_prs.contains(r.gates[i].gate.pr_number) ==> pruned(r, repo, open_prs, now).gates[i]
            == r.gates[i],
        r.gates[i].gate.repo == repo && r.gates[i].superseded_at is None && !open_prs.contains(
            r.gates[i].gate.pr_number,
        ) ==> pruned(r, repo, open_prs, now).gates[i] == (GateRowModel {
            gate: GateModel { diff: Seq::empty(), ..r.gates[i].gate },
            created_at: r.gates[i].created_at,
            updated_at: now,
            cleared_at: r.gates[i].cleared_at,
            superseded_at: Some(now),
        }),
        stale_count(r.gates, repo, open_prs) == r.gates.filter(
            |g: GateRowModel|
                g.superseded_at is None && g.gate.repo == repo && !open_prs.contains(
                    g.gate.pr_number,
                ),
        ).len(),
{
    count_of_the_stale(r.gates, repo, open_prs);
}

proof fn count_of_the_stale(rows: Seq<GateRowModel>, repo: Seq<char>, open_prs: Seq<u64>)
    ensures
        stale_count(rows, repo, open_prs) == rows.filter(
            |g: GateRowModel|
                g.superseded_at is None && g.gate.repo == repo && !open_prs.contains(
                    g.gate.pr_number,
                ),
        ).len(),
    decreases rows.len(),
{
    reveal(Seq::filter);
    if rows.len() > 0 {
        count_of_the_stale(rows.drop_last(), repo, open_prs);
    }
}

/// An open pull request keeps its gate whatever repository is pruned, and so does every pull
/// request of another repository.
pub proof fn pruning_keeps_live_gates(
    r: RecordsModel,
    repo: Seq<char>,
    open_prs: Seq<u64>,
    now: Seq<char>,
    other: Seq<char>,
    pr: u64,
)
    requires
        other != repo || open_prs.contains(pr),
    ensures
        live_gate(pruned(r, repo, open_prs, now).gates, other, pr) == live_gate(r.gates, other, pr),
{
    let u = pruned(r, repo, open_prs, now);
    assert forall|i: int| 0 <= i < r.gates.len() implies is_live_for(#[trigger] u.gates[i], other, pr)
        == is_live_for(r.gates[i], other, pr) && (is_live_for(r.gates[i], other, pr)
        ==> u.gates[i].gate == r.gates[i].gate) by {
        pruning_one_repository(r, repo, open_prs, now, i);
    }
    same_live_gate(r.gates, u.gates, other, pr);
}

proof fn same_live_gate(a: Seq<GateRowModel>, b: Seq<GateRowModel>, repo: Seq<char>, pr: u64)
    requires
        a.len() == b.len(),
        forall|i: int|
            0 <= i < a.len() ==> is_live_for(#[trigger] b[i], repo, pr) == is_live_for(
                a[i],
                repo,
                pr,
            ) && (is_live_for(a[i], repo, pr) ==> b[i].gate == a[i].gate),
    ensures
        live_gate(b, repo, pr) == live_gate(a, repo, pr),
    decreases a.len(),
{
    if a.len() > 0 {
        assert(is_live_for(b[0], repo, pr) == is_live_for(a[0], repo, pr));
        let (x, y) = (a.skip(1), b.skip(1));
        assert forall|i: int| 0 <= i < x.len() implies is_live_for(#[trigger] y[i], repo, pr)
            == is_live_for(x[i], repo, pr) && (is_live_for(x[i], repo, pr) ==> y[i].gate
            == x[i].gate) by {
            assert(y[i] == b[i + 1] && x[i] == a[i + 1]);
            assert(is_live_for(b[i + 1], repo, pr) == is_live_for(a[i + 1], repo, pr));
        }
        same_live_gate(x, y, repo, pr);
    }
}

/// The gates of a repository are all its live ones and no other.
pub proof fn gates_of_a_repository(rows: Seq<GateRowModel>, repo: Seq<char>)
    ensures
        live_gates_in(rows, repo) == rows.filter(
            |g: GateRowModel| g.superseded_at is None && g.gate.repo == repo,
        ).map_values(|g: GateRowModel| g.gate),
    decreases rows.len(),
{
    reveal(Seq::filter);
    let p = |g: GateRowModel| g.superseded_at is None && g.gate.repo == repo;
    let f = |g: GateRowModel| g.gate;
    if rows.len() > 0 {
        gates_of_a_repository(rows.drop_last(), repo);
        let sub = rows.drop_last().filter(p);
        assert(sub.push(rows.last()).map_values(f) =~= sub.map_values(f).push(f(rows.last())));
    }
    assert(live_gates_in(rows, repo) =~= rows.filter(p).map_values(f));
}

/// All gates are all the live ones.
pub proof fn all_live_gates(rows: Seq<GateRowModel>)
    ensures
        live_gates(rows) == rows.filter(|g: GateRowModel| g.superseded_at is None),
        gates_of_rows(rows) == rows.map_values(|g: GateRowModel| g.gate),
    decreases rows.len(),
{
    reveal(Seq::filter);
    if rows.len() > 0 {
        all_live_gates(rows.drop_last());
    }
    assert(live_gates(rows) =~= rows.filter(|g: GateRowModel| g.superseded_at is None));
    assert(gates_of_rows(rows) =~= rows.map_values(|g: GateRowModel| g.gate));
}

/// What the orders of lists mean: numbers fall, dates fall, dates rise.
pub proof fn how_lists_are_ordered(
    gates: Seq<GateModel>,
    rows: Seq<GateRowModel>,
    os: Seq<ObligationModel>,
    i: int,
    j: int,
)
    requires
        0 <= i < j,
    ensures
        numbers_go_down(gates) && j < gates.len() ==> gates[i].pr_number >= gates[j].pr_number,
        dates_go_down(rows) && j < rows.len() ==> !before(rows[i].updated_at, rows[j].updated_at),
        dates_go_up(os) && j < os.len() ==> !before(os[j].created_at, os[i].created_at),
{
}

// ---------------------------------------------------------------- questions

/// The questions of a gate are all those that stand on it, in order, and no other.
pub proof fn questions_of_a_gate(rows: Seq<QuestionRowModel>, gate_id: i64)
    ensures
        questions_in(rows, gate_id) == rows.filter(
            |q: QuestionRowModel| q.gate_id == gate_id,
        ).map_values(|q: QuestionRowModel| q.question),
    decreases rows.len(),
{
    reveal(Seq::filter);
    let p = |q: QuestionRowModel| q.gate_id == gate_id;
    let f = |q: QuestionRowModel| q.question;
    if rows.len() > 0 {
        questions_of_a_gate(rows.drop_last(), gate_id);
        let sub = rows.drop_last().filter(p);
        assert(sub.push(rows.last()).map_values(f) =~= sub.map_values(f).push(f(rows.last())));
    }
    assert(questions_in(rows, gate_id) =~= rows.filter(p).map_values(f));
}

/// Adding questions keeps those that were there, and each new one holds what it was asked
/// with, stands on its gate, follows the one before it, and is open.
pub proof fn adding_questions(
    r: RecordsModel,
    gate_id: i64,
    qs: Seq<NewQuestion>,
    now: Seq<char>,
    k: int,
)
    requires
        0 <= k < qs.len(),
        r.next_question_id() + qs.len() <= i64::MAX,
        r.next_question_id() >= i64::MIN,
    ensures
        ({
            let u = with_questions(r, gate_id, qs, now);
            let row = u.questions[r.questions.len() + k];
            &&& u.gates == r.gates
            &&& u.attempts == r.attempts
            &&& u.obligations == r.obligations
            &&& u.questions.len() == r.questions.len() + qs.len()
            &&& u.questions.take(r.questions.len() as int) == r.questions
            &&& row.gate_id == gate_id
            &&& row.created_at == now
            &&& row.question.id == k + if r.questions.len() == 0 {
                1
            } else {
                r.questions.last().question.id + 1
            }
            &&& row.question.kind == qs[k].kind@
            &&& row.question.file == qs[k].file@
            &&& row.question.anchor == qs[k].anchor@
            &&& row.question.text == qs[k].text@
            &&& row.question.reference == qs[k].reference@
            &&& row.question.hints == texts(qs[k].hints@)
            &&& row.question.status == "open"@
            &&& row.question.label is None
            &&& row.question.score is None
        }),
{
    let u = with_questions(r, gate_id, qs, now);
    assert(u.questions.take(r.questions.len() as int) =~= r.questions);
}

// ---------------------------------------------------------------- attempts

/// Recording an answer adds it behind all others, and grades its question and no other: passed
/// from `partial` on, open below.
pub proof fn recording_an_answer(r: RecordsModel, a: AttemptModel, score: u32, i: int)
    requires
        0 <= i < r.questions.len(),
    ensures
        ({
            let u = with_attempt(r, a, score);
            &&& u.gates == r.gates
            &&& u.obligations == r.obligations
            &&& u.attempts == r.attempts.push(a)
            &&& u.questions.len() == r.questions.len()
            &&& r.questions[i].question.id != a.question_id ==> u.questions[i] == r.questions[i]
            &&& r.questions[i].question.id == a.question_id ==> u.questions[i] == (
            QuestionRowModel {
                gate_id: r.questions[i].gate_id,
                question: QuestionModel {
                    status: if score >= 6 {
                        "passed"@
                    } else {
                        "open"@
                    },
                    label: Some(a.label),
                    score: Some(score),
                    ..r.questions[i].question
                },
                created_at: r.questions[i].created_at,
            })
        }),
{
}

/// Recording a dispute adds it behind all others and touches nothing else; its label is its
/// kind where it is upheld, and otherwise that it was rejected.
pub proof fn recording_a_dispute(r: RecordsModel, a: AttemptModel, kind: Seq<char>)
    ensures
        with_dispute(r, a) == (RecordsModel {
            gates: r.gates,
            questions: r.questions,
            attempts: r.attempts.push(a),
            obligations: r.obligations,
        }),
        dispute_label(true, kind) == kind,
        dispute_label(false, kind) == "rejected"@,
{
}

/// A status is that of one question, and nothing else of it changes.
pub proof fn setting_a_status(rows: Seq<QuestionRowModel>, id: i64, status: Seq<char>, i: int)
    requires
        0 <= i < rows.len(),
    ensures
        with_status(rows, id, status).len() == rows.len(),
        rows[i].question.id != id ==> with_status(rows, id, status)[i] == rows[i],
        rows[i].question.id == id ==> with_status(rows, id, status)[i] == (QuestionRowModel {
            gate_id: rows[i].gate_id,
            question: QuestionModel { status, ..rows[i].question },
            created_at: rows[i].created_at,
        }),
{
}

/// The last answer, or claim, is that of the last attempt of its sort on the question.
pub proof fn the_last_of_its_sort(attempts: Seq<AttemptModel>, id: i64, mode: Seq<char>, k: int)
    requires
        0 <= k < attempts.len(),
        attempts[k].question_id == id,
        attempts[k].mode == mode,
        forall|j: int|
            k < j < attempts.len() ==> (#[trigger] attempts[j]).question_id != id || attempts[j].mode
                != mode,
    ensures
        last_body(attempts, id, mode) == Some(attempts[k].body),
    decreases attempts.len(),
{
    let n = attempts.len() - 1;
    if k < n {
        assert(attempts[n].question_id != id || attempts[n].mode != mode);
        let rest = attempts.drop_last();
        assert forall|j: int| k < j < rest.len() implies (#[trigger] rest[j]).question_id != id
            || rest[j].mode != mode by {
            assert(rest[j] == attempts[j]);
        }
        the_last_of_its_sort(rest, id, mode, k);
    }
}

/// Where there is no such attempt there is no last one.
pub proof fn no_last_without_one(attempts: Seq<AttemptModel>, id: i64, mode: Seq<char>)
    requires
        forall|j: int|
            0 <= j < attempts.len() ==> (#[trigger] attempts[j]).question_id != id
                || attempts[j].mode != mode,
    ensures
        last_body(attempts, id, mode) is None,
    decreases attempts.len(),
{
    if attempts.len() > 0 {
        let n = attempts.len() - 1;
        assert(attempts[n].question_id != id || attempts[n].mode != mode);
        let rest = attempts.drop_last();
        assert forall|j: int| 0 <= j < rest.len() implies (#[trigger] rest[j]).question_id != id
            || rest[j].mode != mode by {
            assert(rest[j] == attempts[j]);
        }
        no_last_without_one(rest, id, mode);
    }
}

/// A question stands on whichever gate its row names.
pub proof fn the_gate_of_a_question(r: RecordsModel, i: int)
    requires
        r.questions_ordered(),
        0 <= i < r.questions.len(),
    ensures
        gate_of(r.questions, r.questions[i].question.id) == Some(r.questions[i].gate_id),
{
    gate_of_the_first(r.questions, i);
}

proof fn gate_of_the_first(rows: Seq<QuestionRowModel>, i: int)
    requires
        forall|a: int, b: int|
            0 <= a < b < rows.len() ==> (#[trigger] rows[a]).question.id < (
            #[trigger] rows[b]).question.id,
        0 <= i < rows.len(),
    ensures
        gate_of(rows, rows[i].question.id) == Some(rows[i].gate_id),
    decreases rows.len(),
{
    if i > 0 {
        assert(rows[0].question.id < rows[i].question.id);
        let rest = rows.skip(1);
        assert(rest[i - 1] == rows[i]);
        assert forall|a: int, b: int| 0 <= a < b < rest.len() implies (
        #[trigger] rest[a]).question.id < (#[trigger] rest[b]).question.id by {
            assert(rest[a] == rows[a + 1] && rest[b] == rows[b + 1]);
        }
        gate_of_the_first(rest, i - 1);
    }
}

/// What is counted: of a gate all attempts on its questions, answers and disputes alike; of a
/// question the disputes of it; of a gate the disputes of its questions.
pub proof fn what_is_counted(
    attempts: Seq<AttemptModel>,
    questions: Seq<QuestionRowModel>,
    id: i64,
)
    ensures
        attempts_on_gate(attempts, questions, id) == attempts.filter(
            |a: AttemptModel| gate_of(questions, a.question_id) == Some(id),
        ).len(),
        question_disputes(attempts, id) == attempts.filter(
            |a: AttemptModel| a.mode == "dispute"@ && a.question_id == id,
        ).len(),
        gate_disputes(attempts, questions, Some(id)) == attempts.filter(
            |a: AttemptModel| a.mode == "dispute"@ && gate_of(questions, a.question_id) == Some(id),
        ).len(),
    decreases attempts.len(),
{
    reveal(Seq::filter);
    if attempts.len() > 0 {
        what_is_counted(attempts.drop_last(), questions, id);
    }
}

// ---------------------------------------------------------------- obligations

/// Opening an obligation adds it, open, behind all others, on the question and its gate.
pub proof fn opening_an_obligation(r: RecordsModel, i: int, body: Seq<char>, now: Seq<char>)
    requires
        r.questions_ordered(),
        0 <= i < r.questions.len(),
    ensures
        with_obligation(r, r.questions[i].question.id, body, now) == (RecordsModel {
            gates: r.gates,
            questions: r.questions,
            attempts: r.attempts,
            obligations: r.obligations.push(
                ObligationRowModel {
                    gate_id: r.questions[i].gate_id,
                    question_id: r.questions[i].question.id,
                    body,
                    created_at: now,
                    settled_at: None,
                },
            ),
        }),
{
    the_gate_of_a_question(r, i);
}

/// What is open in a repository is every obligation that is not settled and whose gate, live or
/// archived, is of that repository, with the number of its pull request.
pub proof fn what_is_open(r: RecordsModel, rows: Seq<ObligationRowModel>, repo: Seq<char>, k: int)
    requires
        r.gates_ordered(),
        0 <= k < r.gates.len(),
    ensures
        forall|o: ObligationRowModel|
            o.gate_id == r.gates[k].gate.id ==> #[trigger] obligation_in(r.gates, o, repo) == if o.settled_at is None
                && r.gates[k].gate.repo == repo {
                Some(
                    ObligationModel {
                        pr_number: r.gates[k].gate.pr_number,
                        body: o.body,
                        created_at: o.created_at,
                    },
                )
            } else {
                None
            },
        forall|more: Seq<ObligationRowModel>|
            #[trigger] obligations_in(r.gates, rows + more, repo) == obligations_in(
                r.gates,
                rows,
                repo,
            ) + obligations_in(r.gates, more, repo),
        forall|o: ObligationRowModel|
            #[trigger] obligations_in(r.gates, seq![o], repo) == match obligation_in(r.gates, o, repo) {
                Some(m) => seq![m],
                None => Seq::empty(),
            },
{
    gate_by_its_identifier(r.gates, k);
    assert forall|more: Seq<ObligationRowModel>|
        #[trigger] obligations_in(r.gates, rows + more, repo) == obligations_in(r.gates, rows, repo)
            + obligations_in(r.gates, more, repo) by {
        obligations_append(r.gates, rows, more, repo);
    }
    assert forall|o: ObligationRowModel|
        #[trigger] obligations_in(r.gates, seq![o], repo) == match obligation_in(r.gates, o, repo) {
            Some(m) => seq![m],
            None => Seq::empty(),
        } by {
        reveal_with_fuel(obligations_in, 2);
        assert(seq![o].drop_last() =~= Seq::<ObligationRowModel>::empty());
        assert(obligations_in(r.gates, seq![o], repo) =~= match obligation_in(r.gates, o, repo) {
            Some(m) => seq![m],
            None => Seq::empty(),
        });
    }
}

proof fn obligations_append(
    gates: Seq<GateRowModel>,
    a: Seq<ObligationRowModel>,
    b: Seq<ObligationRowModel>,
    repo: Seq<char>,
)
    ensures
        obligations_in(gates, a + b, repo) == obligations_in(gates, a, repo) + obligations_in(
            gates,
            b,
            repo,
        ),
    decreases b.len(),
{
    if b.len() == 0 {
        assert(a + b =~= a);
        assert(obligations_in(gates, a + b, repo) =~= obligations_in(gates, a, repo)
            + obligations_in(gates, b, repo));
    } else {
        obligations_append(gates, a, b.drop_last(), repo);
        assert((a + b).drop_last() =~= a + b.drop_last());
        assert((a + b).last() == b.last());
        assert(obligations_in(gates, a + b, repo) =~= obligations_in(gates, a, repo)
            + obligations_in(gates, b, repo));
    }
}

proof fn gate_by_its_identifier(rows: Seq<GateRowModel>, k: int)
    requires
        forall|a: int, b: int|
            0 <= a < b < rows.len() ==> (#[trigger] rows[a]).gate.id < (#[trigger] rows[b]).gate.id,
        0 <= k < rows.len(),
    ensures
        gate_with_id(rows, rows[k].gate.id) == Some(rows[k].gate),
    decreases rows.len(),
{
    if k > 0 {
        assert(rows[0].gate.id < rows[k].gate.id);
        let rest = rows.skip(1);
        assert(rest[k - 1] == rows[k]);
        assert forall|a: int, b: int| 0 <= a < b < rest.len() implies (#[trigger] rest[a]).gate.id < (
        #[trigger] rest[b]).gate.id by {
            assert(rest[a] == rows[a + 1] && rest[b] == rows[b + 1]);
        }
        gate_by_its_identifier(rest, k - 1);
    }
}

/// A list of what is open is the number and the text of each, in order.
pub proof fn what_is_said_of_the_open(os: Seq<ObligationModel>, i: int)
    requires
        0 <= i < os.len(),
    ensures
        undated(os).len() == os.len(),
        undated(os)[i] == (os[i].pr_number, os[i].body),
{
}

// ---------------------------------------------------------------- storage

/// The places written are exactly those whose row is new or not as it was.
pub proof fn exactly_what_changed_is_written<A>(before: Seq<A>, after: Seq<A>, n: usize)
    requires
        after.len() <= usize::MAX,
    ensures
        changed_places(before, after).contains(n) <==> n < after.len() && (n >= before.len()
            || before[n as int] != after[n as int]),
    decreases after.len(),
{
    if after.len() > 0 {
        let k = (after.len() - 1) as usize;
        let rest = changed_places(before, after.drop_last());
        let all = changed_places(before, after);
        exactly_what_changed_is_written(before, after.drop_last(), n);
        if all == rest.push(k) {
            assert(all[rest.len() as int] == k);
            if rest.contains(n) {
                let i = choose|i: int| 0 <= i < rest.len() && rest[i] == n;
                assert(all[i] == n);
            }
            if all.contains(n) && n != k {
                let i = choose|i: int| 0 <= i < all.len() && all[i] == n;
                assert(rest[i] == n);
            }
        }
        if n < k {
            assert(after.drop_last()[n as int] == after[n as int]);
        }
    }
}

} // verus!
