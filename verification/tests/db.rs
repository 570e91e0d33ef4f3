use shipgate::db::storage::{changes, pending};
use shipgate::db::{
    all_gates, attempt_count, dispute_counts, gate_for_pr, gates_for_repo, insert_questions,
    last_answer, last_dispute, open_obligation, open_obligations, prune_closed, questions_for,
    record_attempt, record_dispute, set_gate_coverage, set_gate_state, set_question_status,
    upsert_gate, NewGate, NewQuestion, Question, RecordError, Records,
};

const NOW: &str = "2026-01-01T00:00:00+00:00";

/// A score in tenths.
fn tenths(score: f64) -> u32 {
    (score * 10.0).round() as u32
}

fn gate<'a>(pr: u64) -> NewGate<'a> {
    NewGate {
        repo: "o/r",
        path: "/tmp/o-r",
        pr_number: pr,
        branch: "feature/x",
        base_ref: "origin/develop",
        base_sha: "aaa",
        head_sha: "bbb",
        diff: "diff",
        hunks_total: 31,
        hunks_ai: 12,
        authorship: "trailers",
        state: "open",
    }
}

fn seed(records: &mut Records) -> i64 {
    upsert_gate(records, &gate(7), NOW)
}

fn ask(records: &mut Records, gate: i64, kind: &str, hints: &[String]) -> Question {
    insert_questions(
        records,
        gate,
        &[NewQuestion {
            kind,
            file: "a.rs",
            anchor: "sha256:x",
            text: "q",
            reference: "r",
            hints,
        }],
        NOW,
    )
    .unwrap();
    questions_for(records, gate).remove(0)
}

#[test]
fn re_running_leaves_one_live_gate_per_pr() {
    let mut records = Records::new();
    seed(&mut records);
    seed(&mut records);
    let live = records
        .gates
        .iter()
        .filter(|g| g.gate.repo == "o/r" && g.superseded_at.is_none())
        .count();
    assert_eq!(live, 1, "one live gate per PR");
    let all = records.gates.iter().filter(|g| g.gate.repo == "o/r").count();
    assert_eq!(all, 2, "the replaced gate should be kept, not deleted");
}

/// A second live gate for the same pull request is refused: the archive is allowed to hold
/// many, the dashboard and the replay assume one.
#[test]
fn two_live_gates_for_one_pr_are_refused() {
    let mut one = Records::new();
    seed(&mut one);
    let mut two = Records::new();
    seed(&mut two);
    let mut second = two.gates.remove(0);
    second.gate.id = 2;
    one.gates.push(second);
    let direct = Records::load(one.gates, one.questions, one.attempts, one.obligations);
    assert!(direct.is_none(), "a second live gate for PR 7 was accepted");
}

#[test]
fn rows_out_of_order_are_refused() {
    let mut records = Records::new();
    upsert_gate(&mut records, &gate(1), NOW);
    upsert_gate(&mut records, &gate(2), NOW);
    records.gates.swap(0, 1);
    assert!(Records::load(records.gates, vec![], vec![], vec![]).is_none());
    let mut records = Records::new();
    upsert_gate(&mut records, &gate(1), NOW);
    upsert_gate(&mut records, &gate(2), NOW);
    assert!(Records::load(records.gates, vec![], vec![], vec![]).is_some());
}

/// The answers are the expensive half of a run and the whole of the record. Regenerating
/// replaces the questions; it must not delete what you were already graded on.
#[test]
fn answered_questions_survive_the_gate_being_replaced() {
    let mut records = Records::new();
    let gate = seed(&mut records);
    let q = ask(&mut records, gate, "prediction", &["h".to_string()]);
    record_attempt(
        &mut records,
        q.id,
        "answer",
        "my answer",
        0,
        "demonstrates",
        tenths(0.9),
        "ok",
        "haiku",
        NOW,
    )
    .unwrap();

    let fresh = seed(&mut records);
    assert_ne!(fresh, gate, "the replacement should be a new gate row");

    // The new gate starts empty; the old one keeps its question and answer.
    assert!(questions_for(&records, fresh).is_empty());
    assert_eq!(questions_for(&records, gate).len(), 1);
    assert_eq!(attempt_count(&records, gate), 1);
    assert_eq!(last_answer(&records, q.id).as_deref(), Some("my answer"));
}

/// The diff is by far the largest part of a gate and exists only so that it can be replayed.
#[test]
fn an_archived_gate_drops_its_diff_snapshot() {
    let mut records = Records::new();
    let gate = seed(&mut records);
    seed(&mut records);
    let row = records.gates.iter().find(|g| g.gate.id == gate).unwrap();
    assert_eq!(row.gate.diff, "");
    assert!(row.superseded_at.is_some(), "the replaced gate was not marked");
}

/// A merged pull request is where most of the answering happened. Taking it off the dashboard
/// must not take it out of the record.
#[test]
fn pruning_a_closed_pr_archives_it_rather_than_deleting_it() {
    let mut records = Records::new();
    let gate = seed(&mut records);
    assert_eq!(prune_closed(&mut records, "o/r", &[], NOW), 1);
    assert!(gate_for_pr(&records, "o/r", 7).is_none(), "still on the dashboard");
    assert!(all_gates(&records).is_empty());
    let kept = records.gates.iter().filter(|g| g.gate.id == gate).count();
    assert_eq!(kept, 1, "the closed PR's gate was deleted");
}

/// A gate whose pull request has been merged or closed has nothing left to ask.
#[test]
fn closed_pull_requests_are_pruned() {
    let mut records = Records::new();
    for pr in [1u64, 2, 3] {
        upsert_gate(&mut records, &gate(pr), NOW);
    }
    // Only #2 is still open.
    let removed = prune_closed(&mut records, "o/r", &[2], NOW);
    assert_eq!(removed, 2);
    let left = gates_for_repo(&records, "o/r");
    assert_eq!(left.len(), 1);
    assert_eq!(left[0].pr_number, 2);
}

/// A gate that could not have an exercise is a different fact from one that skipped it.
#[test]
fn coverage_records_whether_the_gate_had_an_exercise() {
    let mut records = Records::new();
    let gate = seed(&mut records);

    assert!(!gate_for_pr(&records, "o/r", 7).unwrap().has_exercise);

    set_gate_coverage(&mut records, gate, 2, true, true, NOW);
    let stored = gate_for_pr(&records, "o/r", 7).unwrap();
    assert!(stored.has_exercise);
    assert!(stored.has_checkable);

    set_gate_coverage(&mut records, gate, 2, true, false, NOW);
    assert!(!gate_for_pr(&records, "o/r", 7).unwrap().has_exercise);
}

#[test]
fn an_attempt_updates_the_question_and_is_retrievable() {
    let mut records = Records::new();
    let gate = seed(&mut records);
    let q = ask(&mut records, gate, "checkable", &[]);

    record_attempt(
        &mut records,
        q.id,
        "answer",
        "retry_count is never decremented",
        0,
        "demonstrates",
        tenths(0.9),
        "ok",
        "stub",
        NOW,
    )
    .unwrap();
    let after = questions_for(&records, gate).remove(0);
    assert_eq!(after.status, "passed");
    assert_eq!(after.label.as_deref(), Some("demonstrates"));
    assert_eq!(last_answer(&records, q.id).as_deref(), Some("retry_count is never decremented"));
}

#[test]
fn a_restates_answer_leaves_the_question_open() {
    let mut records = Records::new();
    let gate = seed(&mut records);
    let q = ask(&mut records, gate, "prediction", &[]);
    record_attempt(
        &mut records,
        q.id,
        "answer",
        "it adds a check",
        0,
        "restates",
        tenths(0.3),
        "no",
        "stub",
        NOW,
    )
    .unwrap();
    assert_eq!(questions_for(&records, gate).remove(0).status, "open");
}

#[test]
fn what_has_no_parent_is_not_recorded() {
    let mut records = Records::new();
    let none: [NewQuestion; 0] = [];
    assert_eq!(insert_questions(&mut records, 9, &none, NOW), Ok(()));
    let q = NewQuestion {
        kind: "k",
        file: "f",
        anchor: "a",
        text: "t",
        reference: "r",
        hints: &[],
    };
    assert_eq!(insert_questions(&mut records, 9, &[q], NOW), Err(RecordError::NoGate));
    assert_eq!(
        record_attempt(&mut records, 9, "answer", "b", 0, "wrong", 0, "f", "m", NOW),
        Err(RecordError::NoQuestion)
    );
    assert_eq!(
        record_dispute(&mut records, 9, "b", true, "premise", "f", "m", NOW),
        Err(RecordError::NoQuestion)
    );
    open_obligation(&mut records, 9, "body", NOW);
    assert!(records.attempts.is_empty());
    assert!(records.obligations.is_empty());
}

#[test]
fn disputes_are_counted_by_question_and_by_gate() {
    let mut records = Records::new();
    let gate = seed(&mut records);
    ask(&mut records, gate, "one", &[]);
    ask(&mut records, gate, "two", &[]);
    let ids: Vec<i64> = questions_for(&records, gate).iter().map(|q| q.id).collect();
    assert_eq!(ids, vec![1, 2]);
    record_dispute(&mut records, 1, "first", false, "premise", "f", "m", NOW).unwrap();
    record_dispute(&mut records, 1, "second", true, "premise", "f", "m", NOW).unwrap();
    assert_eq!(dispute_counts(&records, 1), (2, 2));
    assert_eq!(dispute_counts(&records, 2), (0, 2));
    assert_eq!(dispute_counts(&records, 9), (0, 0));
    assert_eq!(last_dispute(&records, 1).as_deref(), Some("second"));
    assert_eq!(last_dispute(&records, 2), None);
    assert_eq!(records.attempts[0].label, "rejected");
    assert_eq!(records.attempts[1].label, "premise");
    assert_eq!(attempt_count(&records, gate), 2);
    set_question_status(&mut records, 2, "waived");
    assert_eq!(questions_for(&records, gate)[1].status, "waived");
    assert_eq!(questions_for(&records, gate)[0].status, "open");
}

#[test]
fn a_gate_that_is_done_with_remembers_when() {
    let mut records = Records::new();
    let gate = seed(&mut records);
    set_gate_state(&mut records, gate, "open", "t1");
    assert_eq!(records.gates[0].cleared_at, None);
    assert_eq!(records.gates[0].updated_at, "t1");
    set_gate_state(&mut records, gate, "cleared", "t2");
    assert_eq!(records.gates[0].cleared_at.as_deref(), Some("t2"));
    set_gate_state(&mut records, gate, "open", "t3");
    assert_eq!(records.gates[0].cleared_at.as_deref(), Some("t2"));
    assert_eq!(records.gates[0].gate.state, "open");
}

#[test]
fn lists_come_in_order() {
    let mut records = Records::new();
    for (pr, now) in [(2u64, "b"), (9, "c"), (5, "a")] {
        upsert_gate(&mut records, &gate(pr), now);
    }
    let by_number: Vec<u64> = gates_for_repo(&records, "o/r").iter().map(|g| g.pr_number).collect();
    assert_eq!(by_number, vec![9, 5, 2]);
    assert!(gates_for_repo(&records, "o/other").is_empty());
    let by_date: Vec<u64> = all_gates(&records).iter().map(|g| g.pr_number).collect();
    assert_eq!(by_date, vec![9, 2, 5]);
}

#[test]
fn obligations_are_listed_oldest_first_whatever_became_of_their_gate() {
    let mut records = Records::new();
    let gate = seed(&mut records);
    let q = ask(&mut records, gate, "prediction", &[]);
    open_obligation(&mut records, q.id, "later", "t2");
    open_obligation(&mut records, q.id, "sooner", "t1");
    seed(&mut records);
    let open = open_obligations(&records, "o/r");
    let bodies: Vec<&str> = open.iter().map(|o| o.body.as_str()).collect();
    assert_eq!(bodies, vec!["sooner", "later"]);
    assert_eq!(open[0].pr_number, 7);
    assert!(open_obligations(&records, "o/other").is_empty());
    records.obligations[0].settled_at = Some("t3".to_string());
    assert_eq!(open_obligations(&records, "o/r").len(), 1);
}

#[test]
fn room_for_questions_is_known_beforehand() {
    let mut records = Records::new();
    assert!(records.room_for(6));
    seed(&mut records);
    records.gates[0].gate.id = i64::MAX;
    assert!(!records.room_for(0));
}

#[test]
fn rows_that_stand_on_nothing_are_not_loaded() {
    let obligation = |gate_id: i64, question_id: i64| shipgate::db::ObligationRow {
        gate_id,
        question_id,
        body: "b".to_string(),
        created_at: "t".to_string(),
        settled_at: None,
    };
    assert!(Records::load(vec![], vec![], vec![], vec![]).is_some());
    assert!(Records::load(vec![], vec![], vec![], vec![obligation(1, 1)]).is_none());
    let attempt = shipgate::db::Attempt {
        question_id: 1,
        mode: "answer".to_string(),
        body: String::new(),
        hints_used: 0,
        label: String::new(),
        score: None,
        feedback: String::new(),
        judge_model: String::new(),
        created_at: String::new(),
    };
    assert!(Records::load(vec![], vec![], vec![attempt], vec![]).is_none());
}

#[test]
fn hints_read_back_as_they_were_stored() {
    let hints = vec!["plain".to_string(), "\"quoted\" \\ \n\u{1} é".to_string(), String::new()];
    let text = shipgate::db::write_hints(&hints);
    assert_eq!(text, "[\"plain\",\"\\\"quoted\\\" \\\\ \\n\\u0001 é\",\"\"]");
    assert_eq!(shipgate::db::read_hints(&text), hints);
    assert!(shipgate::db::read_hints("{}").is_empty());
    assert!(shipgate::db::read_hints("[1]").is_empty());
    assert_eq!(shipgate::db::write_hints(&[]), "[]");
}

#[test]
fn a_store_goes_through_the_versions_it_has_not_reached() {
    assert_eq!(pending(0, 4), vec![1, 2, 3, 4]);
    assert_eq!(pending(2, 4), vec![3, 4]);
    assert_eq!(pending(-1, 2), vec![1, 2]);
    assert!(pending(4, 4).is_empty());
    assert!(pending(9, 4).is_empty());
    assert!(pending(i64::MAX, 4).is_empty());
    assert!(pending(0, 0).is_empty());
}

#[test]
fn only_what_changed_is_written() {
    let make = || {
        let mut records = Records::new();
        upsert_gate(&mut records, &gate(1), NOW);
        upsert_gate(&mut records, &gate(2), NOW);
        let hints = ["h".to_string()];
        let ask = |kind: &'static str| NewQuestion {
            kind,
            file: "f",
            anchor: "a",
            text: "t",
            reference: "r",
            hints: &hints,
        };
        insert_questions(&mut records, 2, &[ask("intent"), ask("prediction")], NOW).unwrap();
        records
    };
    let before = make();
    let mut after = make();
    let none = changes(&before, &after);
    assert!(none.gates.is_empty() && none.questions.is_empty());
    upsert_gate(&mut after, &gate(1), NOW);
    record_attempt(&mut after, 2, "answer", "b", 0, "wrong", 0, "f", "m", NOW).unwrap();
    let new = changes(&before, &after);
    assert_eq!(new.gates, vec![0, 2]);
    assert_eq!(new.questions, vec![1]);
    assert_eq!((new.attempts, new.obligations), (0, 0));
    assert_eq!(after.attempts.len(), 1);
}
