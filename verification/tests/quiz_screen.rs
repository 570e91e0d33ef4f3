use ratatui::layout::{Constraint, Direction, Layout, Rect};
use shipgate::db::{insert_questions, upsert_gate, NewGate, NewQuestion, Question, Records};
use shipgate::llm::Label;
use shipgate::tui::quiz::{
    render_diff, render_question, render_status, DiffPane, DiffRow, PaneLine, QuestionPane, Tone,
};
use shipgate::tui::{build_diff_view_for_test, App, AppEvent, Pending, Slot};

const W: u16 = 100;
const H: u16 = 30;

fn question() -> Question {
    Question {
        id: 1,
        kind: "prediction".into(),
        file: "src/sync.rs".into(),
        anchor: "sha256:x".into(),
        text: "WHATDOESTHECALLEROBSERVE".into(),
        reference: "REFERENCEANSWERTEXT".into(),
        hints: vec!["HINTONE".into(), "HINTTWO".into()],
        status: "open".into(),
        label: None,
        score: None,
    }
}

fn app() -> App {
    let mut app = App::new(
        vec![question()],
        // Two files, so the hand-typed one can sit outside what is marked.
        build_diff_view_for_test(
            "diff --git a/src/sync.rs b/src/sync.rs\n\
             @@ -88,1 +88,2 @@\n\
             +AIAUTHOREDLINE\n\
             diff --git a/src/mine.rs b/src/mine.rs\n\
             @@ -1,1 +1,2 @@\n\
             +HANDTYPEDLINE\n",
            &[0],
        ),
    );
    app.viewport = H - 3;
    app.status = "STATUSLINE".into();
    app
}

/// The diff pane on a terminal of this size.
fn diff(app: &App, w: u16, h: u16) -> DiffPane {
    let outer = Layout::default()
        .direction(Direction::Vertical)
        .constraints([Constraint::Min(3), Constraint::Length(1)])
        .split(Rect::new(0, 0, w, h));
    let panes = Layout::default()
        .direction(Direction::Horizontal)
        .constraints([Constraint::Percentage(55), Constraint::Percentage(45)])
        .split(outer[0]);
    render_diff(app, panes[0].width, panes[0].height)
}

fn row<'a>(pane: &'a DiffPane, needle: &str) -> Option<&'a DiffRow> {
    pane.rows.iter().find(|r| r.visible.contains(needle))
}

fn line<'a>(pane: &'a QuestionPane, needle: &str) -> Option<&'a PaneLine> {
    pane.lines.iter().find(|l| l.text.contains(needle))
}

#[test]
fn renders_the_question_the_diff_and_the_status_line() {
    let a = app();
    assert!(line(&render_question(&a).unwrap(), "WHATDOESTHECALLEROBSERVE").is_some());
    assert!(row(&diff(&a, W, H), "AIAUTHOREDLINE").is_some(), "diff missing");
    assert!(render_status(&a).contains("STATUSLINE"), "status line missing");
    let title = render_question(&a).unwrap().body_title;
    assert!(title.contains("your answer"), "answer pane missing");
    assert_eq!(diff(&a, W, H).footer, " dimmed = not AI-authored ");
}

#[test]
fn the_header_names_the_question_kind_and_file() {
    let title = render_question(&app()).unwrap().title;
    assert!(title.contains("1/1"));
    assert!(title.contains("prediction"));
    assert!(title.contains("src/sync.rs"));
}

/// Hunks that are not marked are dimmed, not hidden: context, but not the subject of the
/// question.
#[test]
fn non_ai_hunks_are_dimmed_and_ai_hunks_are_not() {
    let pane = diff(&app(), W, H);
    assert!(row(&pane, "HANDTYPEDLINE").unwrap().look.dim, "hand-typed line should be dimmed");
    assert!(!row(&pane, "AIAUTHOREDLINE").unwrap().look.dim, "AI-authored line should not be dimmed");
}

#[test]
fn added_and_removed_lines_are_coloured_differently() {
    let mut a = app();
    a.diff = build_diff_view_for_test(
        "diff --git a/f.rs b/f.rs\n@@ -1,1 +1,2 @@\n+ADDEDLINE\n-REMOVEDLINE\n",
        &[0, 1],
    );
    let pane = diff(&a, W, H);
    assert_eq!(row(&pane, "ADDEDLINE").unwrap().look.tone, Tone::Green);
    assert_eq!(row(&pane, "REMOVEDLINE").unwrap().look.tone, Tone::Red);
    assert_eq!(row(&pane, "@@").unwrap().look.tone, Tone::Cyan);
    assert_eq!(row(&pane, "diff --git").unwrap().look.tone, Tone::DarkGray);
}

#[test]
fn hints_appear_only_once_revealed() {
    let mut a = app();
    assert!(line(&render_question(&a).unwrap(), "HINTONE").is_none());
    a.slots[0].hints_shown = 1;
    let pane = render_question(&a).unwrap();
    assert!(line(&pane, "HINTONE").is_some());
    assert!(line(&pane, "HINTTWO").is_none(), "revealed more hints than asked for");
}

/// Showing the reference before a pass turns the next attempt into recall.
#[test]
fn the_reference_is_hidden_until_the_answer_demonstrates_understanding() {
    let mut a = app();
    for label in [Label::Wrong, Label::Restates, Label::Partial] {
        a.slots[0].verdict = Some((label, "feedback".into()));
        assert!(
            line(&render_question(&a).unwrap(), "REFERENCEANSWERTEXT").is_none(),
            "reference leaked at {}",
            label.as_str()
        );
    }
    a.slots[0].verdict = Some((Label::Demonstrates, "feedback".into()));
    assert!(line(&render_question(&a).unwrap(), "REFERENCEANSWERTEXT").is_some());
}

/// After a second failed attempt there is nothing left to give away.
#[test]
fn the_reference_is_shown_after_a_second_failed_attempt() {
    let mut a = app();
    let mut records = Records::new();
    let gate = upsert_gate(
        &mut records,
        &NewGate {
            repo: "o/r",
            path: "",
            pr_number: 1,
            branch: "b",
            base_ref: "m",
            base_sha: "a",
            head_sha: "b",
            diff: "",
            hunks_total: 1,
            hunks_ai: 1,
            authorship: "trailers",
            state: "open",
        },
        "t",
    );
    let q = NewQuestion {
        kind: "prediction",
        file: "f",
        anchor: "a",
        text: "t",
        reference: "r",
        hints: &[],
    };
    insert_questions(&mut records, gate, &[q], "t").unwrap();
    let mut grade = |a: &mut App, label: Label| {
        let ev = AppEvent::Graded { question_id: 1, label, feedback: "no".into() };
        a.on_event(ev, &mut records, "m", "t").unwrap();
        line(&render_question(a).unwrap(), "REFERENCEANSWERTEXT").is_some()
    };
    assert!(!grade(&mut a, Label::Wrong));
    assert!(!grade(&mut a, Label::Partial));
    assert!(grade(&mut a, Label::Restates));
    assert_eq!(a.failures(), 2);
}

#[test]
fn what_came_of_a_dispute_is_shown_under_the_verdict() {
    let mut a = app();
    assert!(line(&render_question(&a).unwrap(), "dispute").is_none());
    a.slots[0].verdict = Some((Label::Wrong, "feedback".into()));
    a.slots[0].note = Some("dispute rejected: no".into());
    let pane = render_question(&a).unwrap();
    assert_eq!(pane.lines.last().unwrap().text, "dispute rejected: no");
    assert_eq!(pane.lines[pane.lines.len() - 3].text, "feedback");
}

#[test]
fn each_verdict_gets_its_own_colour() {
    let mut a = app();
    for (label, expected) in [
        (Label::Demonstrates, Tone::Green),
        (Label::Partial, Tone::Yellow),
        (Label::Restates, Tone::Magenta),
        (Label::Wrong, Tone::Red),
    ] {
        a.slots[0].verdict = Some((label, "feedback".into()));
        let pane = render_question(&a).unwrap();
        let shown = line(&pane, label.as_str()).unwrap();
        assert_eq!(shown.look.tone, expected, "wrong colour for {}", label.as_str());
        assert!(shown.look.bold);
    }
}

#[test]
fn a_call_in_flight_is_visible_in_the_answer_pane() {
    let mut a = app();
    a.slots[0].answer = "SOMEANSWER".into();
    assert_eq!(render_question(&a).unwrap().body, "SOMEANSWER");
    a.slots[0].pending = Some(Pending { answer: "SOMEANSWER".into(), hints_used: 0 });
    let body = render_question(&a).unwrap().body;
    assert!(body.contains("grading"));
    assert!(!body.contains("SOMEANSWER"), "answer shown while grading");
}

/// With grading in the background, which questions are done, outstanding or untouched is no
/// longer implied by the one on screen.
#[test]
fn the_footer_states_every_questions_state() {
    let mut a = app();
    a.questions.push(question());
    a.questions.push(question());
    a.slots = vec![Slot::default(), Slot::default(), Slot::default()];
    a.questions[0].status = "passed".into();
    a.slots[1].pending = Some(Pending { answer: "x".into(), hints_used: 0 });
    assert_eq!(a.progress(), "1+ 2~ 3.");
    assert!(render_question(&a).unwrap().footer.contains("1+ 2~ 3."));
    a.questions[0].status = "waived".into();
    a.slots[1].pending = None;
    a.slots[1].verdict = Some((Label::Wrong, String::new()));
    a.slots[2].answer = "draft".into();
    assert_eq!(a.progress(), "1! 2x 3*");
}

#[test]
fn an_empty_answer_pane_says_how_to_write_one() {
    assert!(render_question(&app()).unwrap().body.contains("$EDITOR"));
}

#[test]
fn scrolling_moves_the_diff() {
    let mut a = app();
    assert!(row(&diff(&a, W, H), "@@ -88,1 +88,2 @@").is_some());
    a.scroll = 2;
    assert!(row(&diff(&a, W, H), "@@ -88,1 +88,2 @@").is_none());
}

/// The layout holds on a small terminal.
#[test]
fn survives_a_cramped_terminal() {
    for (w, h) in [(20, 6), (40, 10), (200, 60), (10, 3)] {
        let pane = diff(&app(), w, h);
        assert!(pane.rows.len() <= pane.viewport as usize);
    }
    assert!(render_diff(&app(), 0, 0).rows.is_empty());
}

#[test]
fn renders_nothing_rather_than_panicking_with_no_questions() {
    let mut a = app();
    a.questions.clear();
    assert!(render_question(&a).is_none());
    assert_eq!(diff(&a, W, H).rows.len(), 6);
}

const LONG: &str = "diff --git a/f.rs b/f.rs\n@@ -1,1 +7,2 @@\n+ABCDEFGHIJKLMNOPQRSTUVWXYZ0123456789abcdefghijklmnopqrstuvwxyz\n";

fn long_app() -> App {
    let mut app = App::new(vec![question()], build_diff_view_for_test(LONG, &[0]));
    app.viewport = 10;
    app.status = "s".into();
    app
}

#[test]
fn the_gutter_shows_new_side_line_numbers() {
    let pane = diff(&long_app(), 60, 12);
    assert!(
        pane.rows.iter().any(|r| r.gutter == "    7 "),
        "line number 7 missing from the gutter"
    );
    assert_eq!(pane.rows[0].gutter, "      ");
}

/// A clipped line must announce itself. Dropping the end of a line silently means reading
/// truncated code without knowing it.
#[test]
fn a_clipped_line_is_marked() {
    assert!(diff(&long_app(), 44, 12).rows.iter().any(|r| r.clipped), "no clip marker");
}

#[test]
fn a_line_that_fits_is_not_marked() {
    // The diff pane is 55% of the terminal, so a 63-character line needs a good deal more than
    // 63 columns of terminal to fit.
    assert!(!diff(&long_app(), 160, 12).rows.iter().any(|r| r.clipped));
}

#[test]
fn panning_reveals_the_end_of_a_long_line() {
    let mut a = long_app();
    let narrow = 44;
    assert!(row(&diff(&a, narrow, 12), "vwxyz").is_none());
    a.hscroll = 50;
    assert!(row(&diff(&a, narrow, 12), "vwxyz").is_some(), "panning right did not reveal the tail");
}

#[test]
fn the_title_reports_position_and_pan() {
    let mut a = long_app();
    assert!(diff(&a, 60, 12).title.contains("/3"));
    assert_eq!(diff(&a, 60, 12).title, " diff 1–3/3 ");
    a.hscroll = 16;
    assert!(diff(&a, 60, 12).title.contains("+16 cols"));
}

#[test]
fn rendering_past_the_end_does_not_panic() {
    let mut a = long_app();
    a.scroll = 9_999;
    assert!(diff(&a, 60, 12).rows.is_empty());
}
