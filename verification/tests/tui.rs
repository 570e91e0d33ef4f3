use std::collections::VecDeque;

use shipgate::db::{
    dispute_counts, insert_questions, last_answer, open_obligations, questions_for, upsert_gate,
    NewGate, NewQuestion, Question, RecordError, Records,
};
use shipgate::gate::{passes, Scored};
use shipgate::git::{parse_diff, Hunk};
use shipgate::llm::stub::StubJudge;
use shipgate::llm::{Judge, Label};
use shipgate::tui::keys::{Action, Code, Key};
use shipgate::tui::{
    build_diff_view, editor_header, is_settled, strip_comments, wrap_comment, App, AppEvent, DiffLine,
    Mode, Pending,
};

const NOW: &str = "2026-01-01T00:00:00+00:00";

/// A score in tenths.
fn tenths(score: f64) -> u32 {
    (score * 10.0).round() as u32
}

/// Two files whose hunks share the identical header: the case that matching by the header
/// alone gets wrong.
const TWO_FILES: &str = "\
diff --git a/src/ai.rs b/src/ai.rs
--- a/src/ai.rs
+++ b/src/ai.rs
@@ -1,1 +1,2 @@
+let written_by_the_model = 1;
diff --git a/src/mine.rs b/src/mine.rs
--- a/src/mine.rs
+++ b/src/mine.rs
@@ -1,1 +1,2 @@
+let typed_by_hand = 2;
";

fn ai_only() -> Vec<Hunk> {
    parse_diff(TWO_FILES).into_iter().filter(|h| h.file == "src/ai.rs").collect()
}

#[test]
fn marks_only_the_ai_authored_file() {
    let view = build_diff_view(TWO_FILES, &ai_only());
    let marked: Vec<&String> = view.iter().filter(|d| d.ai).map(|d| &d.text).collect();
    assert!(marked.iter().any(|l| l.contains("written_by_the_model")));
    assert!(
        !marked.iter().any(|l| l.contains("typed_by_hand")),
        "an identical @@ header in another file must not be marked"
    );
}

#[test]
fn a_file_header_ends_the_previous_hunk() {
    let view = build_diff_view(TWO_FILES, &ai_only());
    let second_file =
        view.iter().find(|d| d.text.contains("diff --git a/src/mine.rs")).unwrap();
    assert!(!second_file.ai);
}

#[test]
fn every_diff_line_is_kept() {
    assert_eq!(build_diff_view(TWO_FILES, &ai_only()).len(), TWO_FILES.lines().count());
}

fn about(target: &Hunk) -> Question {
    Question {
        id: 1,
        kind: "prediction".into(),
        file: target.file.clone(),
        anchor: target.anchor.clone(),
        text: "q".into(),
        reference: "r".into(),
        hints: vec![],
        status: "open".into(),
        label: None,
        score: None,
    }
}

#[test]
fn jumping_scrolls_to_the_questions_hunk() {
    let hunks = parse_diff(TWO_FILES);
    let target = hunks.iter().find(|h| h.file == "src/mine.rs").unwrap();
    let mut app = App::new(vec![about(target)], build_diff_view(TWO_FILES, &hunks));
    // Smaller than the diff, or the clamp pins every jump to the top.
    app.viewport = 4;
    app.jump_to_anchor(&hunks);

    // Must land on src/mine.rs's hunk, not on src/ai.rs's identical header.
    let landed = app.diff[app.scroll as usize..]
        .iter()
        .take(8)
        .map(|d| d.text.clone())
        .collect::<Vec<_>>()
        .join("\n");
    assert!(landed.contains("typed_by_hand"), "jumped to the wrong file; saw:\n{landed}");
}

// ---------------------------------------------------------------- the loop

fn key(c: char) -> Key {
    Key { code: Code::Char(c), ctrl: false }
}

fn ctrl(c: char) -> Key {
    Key { code: Code::Char(c), ctrl: true }
}

const DIFF: &str = "\
diff --git a/sync.rs b/sync.rs
--- a/sync.rs
+++ b/sync.rs
@@ -88,1 +88,2 @@
+    let retry_count = 3;
";

fn fixture(n: usize) -> (Records, Vec<Hunk>, Vec<Question>) {
    let mut records = Records::new();
    let hunks = parse_diff(DIFF);
    let gate = upsert_gate(
        &mut records,
        &NewGate {
            repo: "o/r",
            path: "/tmp/o-r",
            pr_number: 1,
            branch: "b",
            base_ref: "origin/main",
            base_sha: "a",
            head_sha: "b",
            diff: DIFF,
            hunks_total: 1,
            hunks_ai: 1,
            authorship: "trailers",
            state: "open",
        },
        NOW,
    );
    let qs: Vec<NewQuestion> = (0..n)
        .map(|_| NewQuestion {
            kind: "prediction",
            file: "sync.rs",
            anchor: &hunks[0].anchor,
            text: "what does the caller observe?",
            reference: "the reference",
            hints: &[],
        })
        .collect();
    insert_questions(&mut records, gate, &qs, NOW).unwrap();
    let questions = questions_for(&records, gate);
    (records, hunks, questions)
}

/// Stands in for what the editor would have produced.
fn edit(current: &str) -> String {
    if current.is_empty() {
        "retry_count in sync.rs:88 is never decremented, so the caller \
         sees Err(Transient) on the first failure."
            .to_string()
    } else {
        current.to_string()
    }
}

fn graded(judge: &mut StubJudge, id: i64, question: &str, answer: &str) -> AppEvent {
    match judge.judge(DIFF, question, answer) {
        Ok(v) => AppEvent::Graded { question_id: id, label: v.label, feedback: v.feedback },
        Err(error) => AppEvent::Failed { question_id: id, error },
    }
}

/// Drives the screen with scripted keys. Where `wait_for_grading` is false, keys are pressed
/// regardless of a call in flight, and what comes back is taken in once they have run out.
fn run_headless(
    records: &mut Records,
    mut judge: StubJudge,
    hunks: &[Hunk],
    questions: Vec<Question>,
    keys: Vec<Key>,
    wait_for_grading: bool,
) -> App {
    let mut app = App::new(questions, build_diff_view(DIFF, hunks));
    app.current = 0;
    app.scores = vec![0; app.questions.len()];
    app.status = String::new();
    let mut arriving: VecDeque<AppEvent> = VecDeque::new();
    let mut keys: VecDeque<Key> = keys.into();
    loop {
        if wait_for_grading || keys.is_empty() {
            while let Some(ev) = arriving.pop_front() {
                let model = judge.model().to_string();
                app.on_event(ev, records, &model, NOW).unwrap();
            }
        }
        let pressed = keys.pop_front().unwrap_or(key('q'));
        match app.on_key(pressed, hunks, records) {
            Action::Stay => {}
            Action::Leave => return app,
            Action::Edit { text, .. } => app.edited(edit(&text)),
            Action::EditClaim { .. } => {
                if let Some(c) = app.claimed(edit(""), hunks) {
                    arriving.push_back(match judge.dispute(&c.question, &c.reference, &c.claim) {
                        Ok(d) => AppEvent::Disputed {
                            question_id: c.question_id,
                            upheld: d.upheld,
                            kind: d.kind,
                            feedback: d.feedback,
                        },
                        Err(error) => AppEvent::Failed { question_id: c.question_id, error },
                    });
                }
            }
            Action::Grade { question_id, question, answer } => {
                arriving.push_back(graded(&mut judge, question_id, &question, &answer));
            }
            Action::Settle(ev) => arriving.push_back(ev),
        }
    }
}

fn drive(n: usize, judge: StubJudge, keys: Vec<Key>) -> App {
    let (mut records, hunks, questions) = fixture(n);
    run_headless(&mut records, judge, &hunks, questions, keys, true)
}

#[test]
fn answering_then_submitting_records_the_scripted_verdict() {
    let app = drive(
        1,
        StubJudge::scripted(vec![Some(Label::Demonstrates)]),
        vec![key('a'), ctrl('s')],
    );
    assert_eq!(app.scores[0], Label::Demonstrates.score());
    assert!(matches!(app.verdict(), Some((Label::Demonstrates, _))));
}

/// The check costs nothing: an answer citing nothing never reaches the judge.
#[test]
fn an_answer_citing_nothing_is_rejected_without_consulting_the_judge() {
    let (_, hunks, questions) = fixture(1);
    let mut app = App::new(questions, build_diff_view(DIFF, &hunks));
    app.slots[0].answer = "This could fail and leave state inconsistent.".into();
    match app.submit(&hunks) {
        Action::Settle(AppEvent::Graded { label, .. }) => assert_eq!(label, Label::Wrong),
        other => panic!("reached the judge: {other:?}"),
    }
}

#[test]
fn a_failed_judge_call_returns_to_answering_rather_than_hanging() {
    let app = drive(1, StubJudge::scripted(vec![None]), vec![key('a'), ctrl('s')]);
    assert!(app.status.contains("grading failed"), "status: {}", app.status);
    assert_eq!(app.mode(), Mode::Answering);
}

#[test]
fn space_advances_and_clears_the_previous_answer() {
    let app = drive(
        2,
        StubJudge::scripted(vec![Some(Label::Demonstrates)]),
        vec![key('a'), ctrl('s'), key(' ')],
    );
    assert_eq!(app.current, 1);
    assert!(app.answer().is_empty());
    assert!(app.verdict().is_none());
    assert_eq!(app.mode(), Mode::Answering);
}

/// A judge call takes tens of seconds. Submitting moves straight to the next question and
/// grades the last one behind you.
#[test]
fn submitting_moves_on_while_the_judge_is_still_working() {
    let (mut records, hunks, questions) = fixture(2);
    let app = run_headless(
        &mut records,
        StubJudge::scripted(vec![Some(Label::Partial), Some(Label::Partial)]).with_delay(150),
        &hunks,
        questions,
        vec![key('a'), ctrl('s'), key('a')],
        false,
    );
    assert_eq!(app.current, 1, "did not move on while the judge worked");
    assert!(!app.slots[1].answer.is_empty(), "could not answer question 2");
}

/// The verdict belongs to the question it was asked about, not to whatever is on screen when
/// it lands.
#[test]
fn a_verdict_lands_on_its_own_question_after_moving_on() {
    let (mut records, hunks, questions) = fixture(2);
    let ids: Vec<i64> = questions.iter().map(|q| q.id).collect();
    let app = run_headless(
        &mut records,
        StubJudge::scripted(vec![Some(Label::Demonstrates)]).with_delay(50),
        &hunks,
        questions,
        vec![key('a'), ctrl('s')],
        true,
    );
    assert_eq!(app.scores[0], Label::Demonstrates.score());
    assert!(app.slots[0].verdict.is_some(), "verdict missed question 1");
    assert!(app.slots[1].verdict.is_none(), "verdict landed on question 2");
    // Recorded against the answer that was actually graded.
    assert!(last_answer(&records, ids[0]).is_some());
    assert!(last_answer(&records, ids[1]).is_none());
}

/// Quitting with a call outstanding throws away an answer that has already been paid for, so
/// the first press only warns.
#[test]
fn quitting_with_a_call_outstanding_takes_two_presses() {
    let (mut records, hunks, questions) = fixture(2);
    let app = run_headless(
        &mut records,
        StubJudge::scripted(vec![Some(Label::Partial)]).with_delay(120),
        &hunks,
        questions,
        vec![key('a'), ctrl('s'), key('q')],
        false,
    );
    // The warning is armed rather than the loop exiting: the outstanding verdict still lands
    // and is recorded.
    assert!(app.quit, "the first q did not arm the warning");
    assert_eq!(app.in_flight(), 0, "quit before the verdict landed");
    assert_eq!(app.scores[0], Label::Partial.score());
}

/// Revising an answer the judge is already reading would show a verdict against text that is
/// no longer on screen.
#[test]
fn the_answer_is_frozen_while_it_is_with_the_judge() {
    let (mut records, hunks, questions) = fixture(1);
    let app = run_headless(
        &mut records,
        StubJudge::scripted(vec![Some(Label::Partial)]).with_delay(120),
        &hunks,
        questions,
        vec![key('a'), ctrl('s'), ctrl('s')],
        false,
    );
    // One attempt, not two: the second submit was refused rather than buying a second verdict
    // on the same answer.
    assert_eq!(records.attempts.len(), 1, "the answer was graded twice");
    assert_eq!(app.scores[0], Label::Partial.score());
}

fn tab() -> Key {
    Key { code: Code::Tab, ctrl: false }
}

fn back_tab() -> Key {
    Key { code: Code::BackTab, ctrl: false }
}

/// Reading order is not answering order.
#[test]
fn a_digit_jumps_straight_to_that_question() {
    let app = drive(3, StubJudge::default(), vec![key('3'), key('a')]);
    assert_eq!(app.current, 2);
    assert!(!app.slots[2].answer.is_empty(), "answered the wrong question");
    assert!(app.slots[0].answer.is_empty());
    assert!(app.slots[1].answer.is_empty());
}

#[test]
fn a_digit_past_the_last_question_says_so_and_stays_put() {
    let app = drive(2, StubJudge::default(), vec![key('9')]);
    assert_eq!(app.current, 0);
    assert!(app.status.contains("no question 9"), "status: {}", app.status);
}

#[test]
fn tab_walks_the_questions_and_wraps() {
    let app = drive(3, StubJudge::default(), vec![tab(), tab(), tab()]);
    assert_eq!(app.current, 0, "tab did not wrap back round");
    let app = drive(3, StubJudge::default(), vec![back_tab()]);
    assert_eq!(app.current, 2, "shift-tab did not wrap backwards");
}

/// Each question keeps its own draft. Wandering off to read another one and coming back must
/// not cost you what you had written.
#[test]
fn every_question_keeps_its_own_draft() {
    let app = drive(2, StubJudge::default(), vec![key('a'), tab(), key('a'), tab()]);
    assert_eq!(app.current, 0);
    assert!(!app.slots[0].answer.is_empty(), "lost the first draft");
    assert!(!app.slots[1].answer.is_empty(), "lost the second draft");
}

/// Jumping onto a question that is with the judge is allowed, but it says so rather than
/// looking idle.
#[test]
fn landing_on_a_question_with_the_judge_says_what_it_is_doing() {
    let (_, hunks, questions) = fixture(2);
    let mut app = App::new(questions, build_diff_view(DIFF, &hunks));
    app.current = 1;
    app.slots[0].pending = Some(Pending { answer: "a".into(), hints_used: 0 });
    app.goto(0, &hunks);
    assert_eq!(app.current, 0);
    assert!(app.status.contains("with the judge"), "status: {}", app.status);
}

/// A rejected dispute is recorded and changes nothing: the verdict you were arguing with
/// stands, and the question is still yours to answer.
#[test]
fn a_rejected_dispute_is_recorded_and_leaves_the_question_open() {
    let (mut records, hunks, questions) = fixture(1);
    let id = questions[0].id;
    let app =
        run_headless(&mut records, StubJudge::default(), &hunks, questions, vec![key('d')], true);

    let (per_question, _) = dispute_counts(&records, id);
    assert_eq!(per_question, 1, "the dispute was not recorded");
    let label = &records.attempts.iter().find(|a| a.mode == "dispute").unwrap().label;
    assert_eq!(label, "rejected");
    assert_eq!(app.questions[0].status, "open");
    assert!(app.slots[0].note.as_deref().unwrap().contains("rejected"));
    assert_eq!(app.slot_note(), app.slots[0].note.as_deref());
}

/// An upheld premise takes the question out of the quiz. It must not leave a zero behind.
#[test]
fn an_upheld_dispute_waives_the_question_and_its_score() {
    let (mut records, hunks, questions) = fixture(2);
    let app = run_headless(
        &mut records,
        StubJudge::default().upholding("premise"),
        &hunks,
        questions,
        vec![key('d')],
        true,
    );
    assert_eq!(app.questions[0].status, "waived");
    assert_eq!(app.scoreable().len(), 1, "the waived question is still scored");
    assert_eq!(records.questions[0].question.status, "waived");
}

/// A code bug does not pass the question and does not block a gate. It opens an obligation,
/// which is what stops "the code is wrong" being a free skip.
#[test]
fn an_upheld_code_bug_defers_the_question_and_opens_an_obligation() {
    let (mut records, hunks, questions) = fixture(1);
    let app = run_headless(
        &mut records,
        StubJudge::default().upholding("code_bug"),
        &hunks,
        questions,
        vec![key('d')],
        true,
    );
    assert_eq!(app.questions[0].status, "deferred");
    assert_eq!(open_obligations(&records, "o/r").len(), 1);
}

fn disputes(records: &Records) -> usize {
    records.attempts.iter().filter(|a| a.mode == "dispute").count()
}

/// Disputing is cheap and upholding is not, so the caps are what keep it from becoming the
/// way past every question.
#[test]
fn a_question_takes_one_dispute_and_a_gate_takes_two() {
    let (mut records, hunks, questions) = fixture(3);
    let app = run_headless(
        &mut records,
        StubJudge::default(),
        &hunks,
        questions,
        // Two on the first question, then one each on the next two.
        vec![key('d'), key('d'), key('2'), key('d'), key('3'), key('d')],
        true,
    );
    assert_eq!(disputes(&records), 2, "the caps did not hold");
    assert!(app.status.contains("two disputes per gate"), "status: {}", app.status);
}

/// A question already out of the quiz cannot be disputed again.
#[test]
fn a_settled_question_cannot_be_disputed() {
    let (mut records, hunks, mut questions) = fixture(1);
    questions[0].status = "passed".into();
    let app =
        run_headless(&mut records, StubJudge::default(), &hunks, questions, vec![key('d')], true);
    assert!(app.status.contains("already settled"), "status: {}", app.status);
    assert_eq!(disputes(&records), 0);
}

#[test]
fn hints_reveal_one_at_a_time_and_stop_at_the_end() {
    let (mut records, hunks, mut questions) = fixture(1);
    questions[0].hints = vec!["one".into(), "two".into()];
    let app = run_headless(
        &mut records,
        StubJudge::default(),
        &hunks,
        questions,
        vec![key('h'), key('h'), key('h')],
        true,
    );
    assert_eq!(app.hints_shown(), 2);
    assert!(app.status.contains("no more hints"));
}

#[test]
fn scrolling_never_goes_above_the_top() {
    let app = drive(1, StubJudge::default(), vec![key('k'), key('k')]);
    assert_eq!(app.scroll, 0);
}

#[test]
fn a_claim_has_to_name_a_changed_line() {
    let (records, hunks, questions) = fixture(1);
    let mut app = App::new(questions, build_diff_view(DIFF, &hunks));
    assert!(matches!(app.on_key(key('d'), &hunks, &records), Action::EditClaim { .. }));
    assert!(app.claimed("  \n".to_string(), &hunks).is_none());
    assert_eq!(app.status, "nothing to dispute");
    assert!(app.claimed("retry_count is wrong".to_string(), &hunks).is_none());
    assert_eq!(app.status, "a dispute must quote a changed line, like sync.rs:88");
    let claim = app.claimed("sync.rs:88 is wrong".to_string(), &hunks).unwrap();
    assert_eq!(claim.reference, "the reference");
    assert_eq!(app.in_flight(), 1);
    assert!(matches!(app.on_key(key('d'), &hunks, &records), Action::Stay));
    assert_eq!(app.status, "that dispute is already with the judge");
}

#[test]
fn a_result_for_an_unknown_question_changes_nothing_and_an_unrecorded_one_fails() {
    let (mut records, hunks, questions) = fixture(1);
    let mut app = App::new(questions, build_diff_view(DIFF, &hunks));
    let ev = AppEvent::Graded { question_id: 99, label: Label::Wrong, feedback: String::new() };
    assert!(app.on_event(ev, &mut records, "m", NOW).is_ok());
    assert!(records.attempts.is_empty());
    records.questions.clear();
    let ev = AppEvent::Graded { question_id: 1, label: Label::Partial, feedback: String::new() };
    assert_eq!(app.on_event(ev, &mut records, "m", NOW), Err(RecordError::NoQuestion));
    let ev = AppEvent::Disputed {
        question_id: 1,
        upheld: true,
        kind: "premise".into(),
        feedback: String::new(),
    };
    assert!(app.on_event(ev, &mut records, "m", NOW).is_err());
    assert_eq!(app.questions[0].status, "open");
}

#[test]
fn the_screen_shows_a_question_as_it_is_recorded() {
    let (mut records, hunks, questions) = fixture(2);
    let app = run_headless(
        &mut records,
        StubJudge::scripted(vec![Some(Label::Restates), Some(Label::Partial)]),
        &hunks,
        questions,
        vec![key('a'), ctrl('s'), key('2'), key('a'), ctrl('s')],
        true,
    );
    for (shown, row) in app.questions.iter().zip(&records.questions) {
        assert_eq!(shown.status, row.question.status);
        assert_eq!(shown.label, row.question.label);
        assert_eq!(shown.score, row.question.score);
    }
    let scores: Vec<u32> = app.scoreable().iter().map(|s| s.score).collect();
    assert_eq!(scores, vec![3, 6]);
}

#[test]
fn a_question_taken_out_weighs_nothing() {
    let mut with = App::new(
        vec![q(1, "passed", Some(0.9)), q(2, "waived", Some(0.0)), q(3, "open", Some(0.3))],
        vec![],
    );
    let without =
        App::new(vec![q(1, "passed", Some(0.9)), q(3, "open", Some(0.3))], vec![]);
    let scores = |app: &App| -> Vec<u32> { app.scoreable().iter().map(|s| s.score).collect() };
    assert_eq!(scores(&with), scores(&without));
    with.questions[1].status = "open".into();
    assert_eq!(scores(&with), vec![9, 0, 3]);
}

#[test]
fn space_ends_the_quiz_once_nothing_is_left() {
    let (mut records, hunks, questions) = fixture(1);
    let mut app = App::new(questions, build_diff_view(DIFF, &hunks));
    app.edited(edit(""));
    assert!(matches!(app.on_key(ctrl('s'), &hunks, &records), Action::Grade { .. }));
    assert!(matches!(app.on_key(key(' '), &hunks, &records), Action::Stay));
    assert_eq!(app.status, "waiting on 1 grading…");
    let ev = AppEvent::Graded { question_id: 1, label: Label::Partial, feedback: "f".into() };
    app.on_event(ev, &mut records, "m", NOW).unwrap();
    assert!(matches!(app.on_key(key(' '), &hunks, &records), Action::Leave));
}

#[test]
fn the_screen_pans_and_pages() {
    let (records, hunks, questions) = fixture(1);
    let mut app = App::new(questions, build_diff_view(DIFF, &hunks));
    app.viewport = 2;
    let press = |app: &mut App, code: Code| {
        app.on_key(Key { code, ctrl: false }, &hunks, &records);
    };
    press(&mut app, Code::PageDown);
    assert_eq!(app.scroll, 3);
    press(&mut app, Code::Up);
    assert_eq!(app.scroll, 2);
    press(&mut app, Code::Right);
    assert_eq!(app.hscroll, 8);
    press(&mut app, Code::Left);
    press(&mut app, Code::Left);
    assert_eq!(app.hscroll, 0);
    assert!(matches!(app.on_key(ctrl('c'), &hunks, &records), Action::Leave));
}

// ---------------------------------------------------------------- the diff

const NAV: &str = "\
diff --git a/a.rs b/a.rs
--- a/a.rs
+++ b/a.rs
@@ -10,3 +20,4 @@ fn alpha() {
 context_one
-removed_line
+added_line
 context_two
diff --git a/b.rs b/b.rs
--- a/b.rs
+++ b/b.rs
@@ -1,1 +5,2 @@
+beta_added
";

fn view() -> Vec<DiffLine> {
    build_diff_view(NAV, &parse_diff(NAV))
}

fn app_with(viewport: u16) -> App {
    let mut app = App::new(vec![], view());
    app.viewport = viewport;
    app.status = String::new();
    app
}

fn numbered(text: &str) -> Option<u32> {
    view().into_iter().find(|d| d.text.contains(text))?.lineno
}

/// Questions cite new-side positions, so the gutter must count the new side from the header,
/// not the old side and not the row index.
#[test]
fn line_numbers_come_from_the_new_side_of_the_hunk_header() {
    assert_eq!(numbered("context_one"), Some(20));
    assert_eq!(numbered("added_line"), Some(21));
    assert_eq!(numbered("context_two"), Some(22));
}

#[test]
fn removed_lines_have_no_new_side_number() {
    assert_eq!(numbered("removed_line"), None);
}

#[test]
fn an_added_increment_is_no_file_header() {
    let diff = "diff --git a/a.c b/a.c\n@@ -1,1 +1,3 @@\n+++i;\n+done();\n";
    let numbers: Vec<Option<u32>> =
        build_diff_view(diff, &[]).iter().map(|d| d.lineno).collect();
    assert_eq!(numbers, vec![None, None, Some(1), Some(2)]);
}

#[test]
fn a_long_diff_can_be_scrolled() {
    let line = || DiffLine {
        text: String::new(),
        ai: false,
        lineno: None,
        is_hunk_header: false,
        is_file_header: false,
    };
    let mut app = App::new(vec![], (0..65_536 + 10).map(|_| line()).collect());
    app.viewport = 20;
    assert_eq!(app.max_scroll(), 65_526);
    app.scroll_by(100_000);
    assert_eq!(app.scroll, 65_526);
    app.viewport = 1;
    assert_eq!(app.max_scroll(), 65_535);
}

#[test]
fn a_removed_line_does_not_advance_the_count() {
    // context_one is 20 and added_line is 21: the removal between them must not consume a
    // number.
    assert_eq!(numbered("added_line"), Some(21));
}

#[test]
fn each_file_restarts_from_its_own_hunk_header() {
    assert_eq!(numbered("beta_added"), Some(5));
}

#[test]
fn headers_and_metadata_carry_no_number() {
    for text in ["diff --git", "@@ -10,3", "--- a/a.rs", "+++ b/a.rs"] {
        assert_eq!(numbered(text), None, "{text} should have no line number");
    }
}

#[test]
fn scrolling_stops_at_the_end_of_the_diff() {
    let mut app = app_with(5);
    for _ in 0..500 {
        app.scroll_by(1);
    }
    assert_eq!(app.scroll, app.max_scroll());
    assert!((app.scroll as usize) < app.diff.len());
}

#[test]
fn a_diff_shorter_than_the_viewport_does_not_scroll() {
    let mut app = app_with(200);
    app.scroll_by(50);
    assert_eq!(app.scroll, 0);
}

/// Whether the target is on screen. A hunk near the end of the diff cannot be scrolled to the
/// first row, because there is not enough content below it.
fn shows(app: &App, index: usize) -> bool {
    let start = app.scroll as usize;
    (start..start + app.viewport as usize).contains(&index)
}

#[test]
fn n_and_p_move_between_hunk_headers() {
    let headers: Vec<usize> = view()
        .iter()
        .enumerate()
        .filter(|(_, d)| d.is_hunk_header)
        .map(|(i, _)| i)
        .collect();
    assert_eq!(headers.len(), 2, "fixture should have two hunks");

    let mut app = app_with(4);
    app.jump_hunk(true);
    assert!(shows(&app, headers[0]), "first hunk not on screen");

    app.jump_hunk(true);
    assert!(shows(&app, headers[1]), "second hunk not on screen");

    app.jump_hunk(false);
    assert!(shows(&app, headers[0]), "did not go back to the first hunk");
}

#[test]
fn bracket_keys_move_between_files() {
    let files: Vec<usize> = view()
        .iter()
        .enumerate()
        .filter(|(_, d)| d.is_file_header)
        .map(|(i, _)| i)
        .collect();

    let mut app = app_with(4);
    app.jump_file(true);
    assert!(shows(&app, files[1]), "b.rs not on screen");
    app.jump_file(false);
    assert!(shows(&app, files[0]), "a.rs not on screen");
}

#[test]
fn jumping_past_the_last_hunk_stays_put() {
    let mut app = app_with(4);
    for _ in 0..10 {
        app.jump_hunk(true);
    }
    let settled = app.scroll;
    app.jump_hunk(true);
    assert_eq!(app.scroll, settled);
}

/// Returning to the question's hunk must also reset the horizontal pan, or the reader lands
/// on the right line scrolled off the side.
#[test]
fn returning_to_the_anchor_resets_the_pan() {
    let hunks = parse_diff(NAV);
    let mut app = app_with(4);
    app.questions = vec![about(&hunks[1])];
    app.hscroll = 40;
    app.jump_to_anchor(&hunks);
    assert_eq!(app.hscroll, 0);
}

// ---------------------------------------------------------------- resuming

fn q(id: i64, status: &str, score: Option<f64>) -> Question {
    Question {
        id,
        kind: "prediction".into(),
        file: "a.rs".into(),
        anchor: "sha256:x".into(),
        text: "q".into(),
        reference: "r".into(),
        hints: vec![],
        status: status.into(),
        label: None,
        score: score.map(tenths),
    }
}

#[test]
fn resuming_starts_at_the_first_unanswered_question() {
    let qs =
        vec![q(1, "passed", Some(0.9)), q(2, "passed", Some(0.6)), q(3, "open", None)];
    assert_eq!(App::first_unanswered(&qs), 2);
}

#[test]
fn a_fresh_gate_starts_at_the_beginning() {
    let qs = vec![q(1, "open", None), q(2, "open", None)];
    assert_eq!(App::first_unanswered(&qs), 0);
}

/// Every question passed: there is nothing to ask, and the restored scores alone must satisfy
/// the pass rule.
#[test]
fn a_fully_answered_gate_clears_without_asking_again() {
    let qs = vec![q(1, "passed", Some(0.9)), q(2, "passed", Some(0.6))];
    let scores = App::restored_scores(&qs);
    assert_eq!(scores, vec![tenths(0.9), tenths(0.6)]);
    let scored: Vec<Scored> = qs
        .iter()
        .zip(&scores)
        .map(|(q, s)| Scored { kind: q.kind.clone(), score: *s })
        .collect();
    assert!(passes(&scored));
    assert!(passes(&App::new(qs, vec![]).scoreable()));
}

#[test]
fn scores_carry_over_and_unanswered_ones_start_at_zero() {
    let qs = vec![q(1, "passed", Some(0.9)), q(2, "open", None)];
    assert_eq!(App::restored_scores(&qs), vec![tenths(0.9), tenths(0.0)]);
}

/// A question that was answered but failed is not done: it must be offered again, or a gate
/// can never clear.
#[test]
fn a_failed_question_is_offered_again() {
    let qs = vec![q(1, "open", Some(0.3)), q(2, "open", None)];
    assert_eq!(App::first_unanswered(&qs), 0);
    assert_eq!(App::restored_scores(&qs), vec![tenths(0.3), tenths(0.0)]);
}

#[test]
fn advancing_skips_questions_that_already_passed() {
    let mut app = App::new(
        vec![q(1, "open", None), q(2, "passed", Some(0.9)), q(3, "open", None)],
        vec![],
    );
    app.current = 0;
    assert_eq!(app.next_unanswered(), Some(2), "should skip the passed one");
    app.current = 2;
    // Wraps: question 1 is still open, and with grading in the background its verdict may have
    // landed long after you moved past it.
    assert_eq!(app.next_unanswered(), Some(0));
    app.questions[0].status = "passed".into();
    app.questions[2].status = "passed".into();
    assert_eq!(app.next_unanswered(), None, "nothing left to ask");
}

/// A question already with the judge is not offered again: that would buy a second verdict on
/// the same question at full price.
#[test]
fn advancing_skips_questions_already_with_the_judge() {
    let mut app =
        App::new(vec![q(1, "open", None), q(2, "open", None), q(3, "open", None)], vec![]);
    app.current = 0;
    app.slots[1].pending = Some(Pending { answer: "a".into(), hints_used: 0 });
    assert_eq!(app.next_unanswered(), Some(2));
}

#[test]
fn settled_means_passed_or_taken_out() {
    assert!(is_settled("passed") && is_settled("waived") && is_settled("deferred"));
    assert!(!is_settled("open") && !is_settled("Passed") && !is_settled(""));
}

// ---------------------------------------------------------------- the editor

fn shown_question() -> Question {
    Question {
        id: 1,
        kind: "prediction".into(),
        file: "src/sync.rs".into(),
        anchor: "sha256:x".into(),
        text: "WHATDOESTHECALLEROBSERVE".into(),
        reference: "REFERENCEANSWERTEXT".into(),
        hints: vec!["HINTONE".into(), "HINTTWO".into()],
        status: "open".into(),
        label: None,
        score: None,
    }
}

fn app(hints_shown: usize) -> App {
    let mut app = App::new(vec![shown_question()], Vec::new());
    app.slots[0].hints_shown = hints_shown;
    app
}

#[test]
fn the_header_states_the_question_being_answered() {
    let h = editor_header(&app(0));
    assert!(h.contains("Question 1/1 · prediction · src/sync.rs"), "{h}");
    assert!(h.contains("WHATDOESTHECALLEROBSERVE"), "{h}");
    assert!(h.lines().all(|l| l.starts_with('#')), "{h}");
}

/// Unrevealed hints are the point of hints. The header must not leak them.
#[test]
fn only_revealed_hints_reach_the_editor() {
    assert!(!editor_header(&app(0)).contains("HINTONE"));
    let one = editor_header(&app(1));
    assert!(one.contains("HINTONE"));
    assert!(!one.contains("HINTTWO"));
}

#[test]
fn long_question_text_is_wrapped_and_still_commented() {
    let long = "word ".repeat(40);
    let lines = wrap_comment(&long);
    assert!(lines.len() > 1);
    assert!(lines.iter().all(|l| l.starts_with("# ") && l.len() <= 72));
}

#[test]
fn the_header_is_stripped_back_off() {
    let body = format!("my answer\n\n{}", editor_header(&app(1)));
    assert_eq!(strip_comments(&body), "my answer");
}

/// A `#` line inside the answer is not a comment and must survive.
#[test]
fn a_hash_line_inside_the_answer_survives() {
    let body = "the struct is\n\n#[derive(Debug)]\nstruct A;\n\n# Question 1/1\n# text\n";
    assert_eq!(strip_comments(body), "the struct is\n\n#[derive(Debug)]\nstruct A;");
}

#[test]
fn the_dispute_header_keeps_the_reference_to_itself() {
    let h = shipgate::tui::dispute_header(&app(2));
    assert!(h.starts_with("# Disputing question 1/1 · prediction · src/sync.rs\n#\n# WHATDOES"));
    assert!(!h.contains("REFERENCEANSWERTEXT"));
    assert!(h.lines().all(|l| l.starts_with('#') && l.chars().count() <= 72), "{h}");
    assert_eq!(strip_comments(&format!("claim\n\n{h}")), "claim");
}

#[test]
fn a_word_longer_than_a_line_stands_alone() {
    let long = "x".repeat(100);
    assert_eq!(
        wrap_comment(&format!("a {long} b")),
        vec!["# a".to_string(), format!("# {long}"), "# b".to_string()]
    );
    assert!(wrap_comment("  \n ").is_empty());
}
