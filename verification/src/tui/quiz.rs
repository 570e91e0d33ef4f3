//! What the quiz screen shows: the diff on the left, question and answer on the right.

use vstd::prelude::*;
use vstd::string::StringExecFns;
use crate::db::QuestionModel;
use crate::llm::Label;
use crate::text::chars::{substring, to_chars};
use crate::text::number::{decimal, show, show_usize};
use crate::text::pad::{align, aligned, blanks, first_chars, spaces, take_chars};
use crate::text::search::{has_prefix, starts_with};
use crate::text::split::{at_most, joined, texts};
use crate::tui::app::{marks, App, AppModel, Mode, SlotModel};
use crate::tui::diff::{DiffLine, DiffLineModel};

verus! {

/// A colour of the terminal.
#[derive(Debug, Clone, Copy, PartialEq, Eq, Structural)]
pub enum Tone {
    Plain,
    Cyan,
    DarkGray,
    Gray,
    Green,
    Magenta,
    Red,
    Yellow,
}

/// How a text is shown.
#[derive(Debug, Clone, Copy, PartialEq, Eq, Structural)]
pub struct Look {
    pub tone: Tone,
    pub bold: bool,
    pub dim: bool,
}

/// A colour and nothing more.
pub open spec fn in_tone(tone: Tone) -> Look {
    Look { tone, bold: false, dim: false }
}

fn toned(tone: Tone) -> (r: Look)
    ensures
        r == in_tone(tone),
{
    Look { tone, bold: false, dim: false }
}

/// The colour of a line of the diff.
pub open spec fn line_tone(line: Seq<char>) -> Tone {
    if has_prefix(line, "@@"@) {
        Tone::Cyan
    } else if has_prefix(line, "diff --git"@) || has_prefix(line, "index "@) {
        Tone::DarkGray
    } else if has_prefix(line, "+"@) {
        Tone::Green
    } else if has_prefix(line, "-"@) {
        Tone::Red
    } else {
        Tone::Gray
    }
}

/// How a line of the diff is shown. Hunks that are not the assistant's are dimmed rather
/// than hidden: they are context for the question, but not what is being asked about.
pub fn diff_line_style(line: &str, ai: bool) -> (r: Look)
    ensures
        r == (Look { tone: line_tone(line@), bold: false, dim: !ai }),
{
    let tone = if starts_with(line, "@@") {
        Tone::Cyan
    } else if starts_with(line, "diff --git") || starts_with(line, "index ") {
        Tone::DarkGray
    } else if starts_with(line, "+") {
        Tone::Green
    } else if starts_with(line, "-") {
        Tone::Red
    } else {
        Tone::Gray
    };
    Look { tone, bold: false, dim: !ai }
}

/// The colour of a label.
pub open spec fn label_tone(label: Label) -> Tone {
    match label {
        Label::Demonstrates => Tone::Green,
        Label::Partial => Tone::Yellow,
        Label::Restates => Tone::Magenta,
        Label::Wrong => Tone::Red,
    }
}

/// How a label is shown.
pub fn label_style(label: Label) -> (r: Look)
    ensures
        r == (Look { tone: label_tone(label), bold: true, dim: false }),
{
    let tone = match label {
        Label::Demonstrates => Tone::Green,
        Label::Partial => Tone::Yellow,
        Label::Restates => Tone::Magenta,
        Label::Wrong => Tone::Red,
    };
    Look { tone, bold: true, dim: false }
}

/// Each label has a colour of its own.
pub proof fn labels_differ_in_colour(a: Label, b: Label)
    requires
        label_tone(a) == label_tone(b),
    ensures
        a == b,
{
}

// ---------------------------------------------------------------- the diff

/// A row of the diff pane.
#[derive(Debug)]
pub struct DiffRow {
    /// The line number, right-aligned, or blanks.
    pub gutter: String,
    pub visible: String,
    pub look: Look,
    /// Whether the line goes on past the pane. A clipped line must say so: silently
    /// dropping its end means reading truncated code without knowing it.
    pub clipped: bool,
}

/// A row of the diff pane as its texts and marks.
pub struct DiffRowModel {
    pub gutter: Seq<char>,
    pub visible: Seq<char>,
    pub look: Look,
    pub clipped: bool,
}

impl View for DiffRow {
    type V = DiffRowModel;

    open spec fn view(&self) -> DiffRowModel {
        DiffRowModel {
            gutter: self.gutter@,
            visible: self.visible@,
            look: self.look,
            clipped: self.clipped,
        }
    }
}

/// The diff pane.
#[derive(Debug)]
pub struct DiffPane {
    pub rows: Vec<DiffRow>,
    pub title: String,
    pub footer: String,
    /// How many rows the pane has room for, which is what scrolling is clamped to.
    pub viewport: u16,
}

/// The gutter in front of a line.
pub open spec fn gutter_text(lineno: Option<u32>) -> Seq<char> {
    match lineno {
        Some(n) => aligned(decimal(n as nat), 5) + " "@,
        None => blanks(6),
    }
}

/// A line of the diff, panned by `hscroll` and cut off at `width`. Lines are panned, not
/// wrapped: wrapping destroys the indentation that makes code readable.
pub open spec fn row_of(d: DiffLineModel, hscroll: nat, width: nat) -> DiffRowModel {
    let from = if hscroll < d.text.len() { hscroll } else { d.text.len() };
    DiffRowModel {
        gutter: gutter_text(d.lineno),
        visible: first_chars(d.text.skip(from as int), width),
        look: Look { tone: line_tone(d.text), bold: false, dim: !d.ai },
        clipped: d.text.len() > from + width,
    }
}

/// What is left of a measure once the borders are taken off.
pub open spec fn within(n: nat, borders: nat) -> nat {
    if n > borders {
        (n - borders) as nat
    } else {
        0
    }
}

/// The first row that is shown.
pub open spec fn first_row(a: AppModel) -> int {
    if a.scroll < a.diff.len() {
        a.scroll as int
    } else {
        a.diff.len() as int
    }
}

/// The row behind the last one that is shown.
pub open spec fn end_row(a: AppModel, height: nat) -> int {
    if a.scroll + within(height, 2) < a.diff.len() {
        a.scroll + within(height, 2)
    } else {
        a.diff.len() as int
    }
}

/// The rows of the diff pane in an area of this size, borders and all. The gutter takes
/// five columns, its space one, and one is reserved for the mark of a clipped line.
pub open spec fn pane_rows(a: AppModel, width: nat, height: nat) -> Seq<DiffRowModel> {
    Seq::new(
        (end_row(a, height) - first_row(a)) as nat,
        |i: int|
            row_of(
                a.diff[first_row(a) + i],
                a.hscroll as nat,
                within(within(width, 2), 7),
            ),
    )
}

/// The title of the diff pane: which rows are shown, and how far it is panned.
pub open spec fn pane_title(a: AppModel, height: nat) -> Seq<char> {
    let position = if a.diff.len() == 0 {
        Seq::empty()
    } else {
        " "@ + decimal((a.scroll + 1) as nat) + "–"@ + decimal(end_row(a, height) as nat) + "/"@
            + decimal(a.diff.len()) + " "@
    };
    let pan = if a.hscroll > 0 {
        " +"@ + decimal(a.hscroll as nat) + " cols "@
    } else {
        Seq::empty()
    };
    " diff"@ + position + pan
}

/// The texts and marks of the rows of a pane.
pub open spec fn diff_row_models(rows: Seq<DiffRow>) -> Seq<DiffRowModel> {
    Seq::new(rows.len(), |i: int| rows[i]@)
}

fn write_gutter(lineno: Option<u32>) -> (r: String)
    ensures
        r@ == gutter_text(lineno),
{
    match lineno {
        Some(n) => align(show(n as u64).as_str(), 5).concat(" "),
        None => spaces(6),
    }
}

fn write_row(d: &DiffLine, hscroll: usize, width: usize) -> (r: DiffRow)
    ensures
        r@ == row_of(d@, hscroll as nat, width as nat),
{
    let cs = to_chars(d.text.as_str());
    let n: usize = cs.len();
    let from: usize = if hscroll < n { hscroll } else { n };
    let rest = substring(&cs, from, n);
    assert(rest@ =~= d@.text.skip(from as int));
    let visible = take_chars(rest.as_str(), width);
    DiffRow {
        gutter: write_gutter(d.lineno),
        visible,
        look: diff_line_style(d.text.as_str(), d.ai),
        clipped: n - from > width,
    }
}

/// The diff pane in an area of this size.
pub fn render_diff(app: &App, width: u16, height: u16) -> (r: DiffPane)
    ensures
        diff_row_models(r.rows@) == pane_rows(app@, width as nat, height as nat),
        r.title@ == pane_title(app@, height as nat),
        r.footer@ == " dimmed = not AI-authored "@,
        r.viewport == within(height as nat, 2),
{
    let inner_h: u16 = if height > 2 { height - 2 } else { 0 };
    let inner_w: u16 = if width > 2 { width - 2 } else { 0 };
    let text_w: usize = if inner_w > 7 { (inner_w - 7) as usize } else { 0 };
    let total: usize = app.diff.len();
    let scroll: usize = app.scroll as usize;
    let hscroll: usize = app.hscroll as usize;
    let start: usize = if scroll < total { scroll } else { total };
    let wanted: usize = scroll + inner_h as usize;
    let end: usize = if wanted < total { wanted } else { total };
    let ghost all = pane_rows(app@, width as nat, height as nat);
    let mut rows: Vec<DiffRow> = Vec::new();
    let mut i: usize = start;
    while i < end
        invariant
            start <= i <= end <= total == app.diff@.len(),
            start == first_row(app@),
            end == end_row(app@, height as nat),
            hscroll == app@.hscroll,
            text_w == within(within(width as nat, 2), 7),
            all == pane_rows(app@, width as nat, height as nat),
            rows@.len() == i - start,
            forall|j: int| 0 <= j < rows@.len() ==> (#[trigger] rows@[j])@ == all[j],
        decreases end - i,
    {
        assert(app@.diff[i as int] == app.diff@[i as int]@);
        rows.push(write_row(&app.diff[i], hscroll, text_w));
        i += 1;
    }
    assert(diff_row_models(rows@) =~= all);
    let mut title = " diff".to_owned();
    let mut position = String::new();
    if total > 0 {
        position = " ".to_owned().concat(show_usize(scroll + 1).as_str()).concat("–").concat(
            show_usize(end).as_str(),
        ).concat("/").concat(show_usize(total).as_str()).concat(" ");
    }
    title.append(position.as_str());
    let mut pan = String::new();
    if app.hscroll > 0 {
        pan = " +".to_owned().concat(show_usize(hscroll).as_str()).concat(" cols ");
    }
    title.append(pan.as_str());
    DiffPane { rows, title, footer: " dimmed = not AI-authored ".to_owned(), viewport: inner_h }
}

/// What is drawn of a line is a stretch of it, and no wider than the pane; a line is marked
/// as clipped exactly where some of it lies to the right of what is drawn.
pub proof fn drawn_lines_are_stretches(d: DiffLineModel, hscroll: nat, width: nat)
    ensures
        row_of(d, hscroll, width).visible.len() <= width,
        hscroll <= d.text.len() ==> row_of(d, hscroll, width).visible == d.text.subrange(
            hscroll as int,
            (hscroll + row_of(d, hscroll, width).visible.len()) as int,
        ),
        hscroll <= d.text.len() ==> (row_of(d, hscroll, width).clipped <==> hscroll + row_of(
            d,
            hscroll,
            width,
        ).visible.len() < d.text.len()),
{
    if hscroll <= d.text.len() {
        assert(row_of(d, hscroll, width).visible =~= d.text.subrange(
            hscroll as int,
            (hscroll + row_of(d, hscroll, width).visible.len()) as int,
        ));
    }
}

// ---------------------------------------------------------------- the question

/// A line of the question pane.
#[derive(Debug)]
pub struct PaneLine {
    pub text: String,
    pub look: Look,
}

/// A line of the question pane as its text and look.
pub struct PaneLineModel {
    pub text: Seq<char>,
    pub look: Look,
}

impl View for PaneLine {
    type V = PaneLineModel;

    open spec fn view(&self) -> PaneLineModel {
        PaneLineModel { text: self.text@, look: self.look }
    }
}

/// The texts and looks of the lines of a pane.
pub open spec fn pane_line_models(ls: Seq<PaneLine>) -> Seq<PaneLineModel> {
    Seq::new(ls.len(), |i: int| ls[i]@)
}

/// The question and the answer.
#[derive(Debug)]
pub struct QuestionPane {
    pub lines: Vec<PaneLine>,
    pub title: String,
    pub footer: String,
    /// What stands in the answer pane.
    pub body: String,
    pub body_look: Look,
    pub body_title: String,
}

/// An empty line.
pub open spec fn gap_line() -> PaneLineModel {
    PaneLineModel { text: Seq::empty(), look: in_tone(Tone::Plain) }
}

/// The lines of hints, an empty one before each.
pub open spec fn hint_lines(hints: Seq<Seq<char>>) -> Seq<PaneLineModel>
    decreases hints.len(),
{
    if hints.len() == 0 {
        Seq::empty()
    } else {
        hint_lines(hints.drop_last()).push(gap_line()).push(
            PaneLineModel { text: "hint: "@ + hints.last(), look: in_tone(Tone::Yellow) },
        )
    }
}

/// The lines of a verdict. The reference answer is among them only where the answer
/// demonstrated understanding, or a second one failed: showing it earlier turns the next
/// attempt into recall.
pub open spec fn verdict_lines(slot: SlotModel, reference: Seq<char>) -> Seq<PaneLineModel> {
    match slot.verdict {
        Some((label, feedback)) => {
            let graded = seq![
                gap_line(),
                PaneLineModel {
                    text: label.name(),
                    look: Look { tone: label_tone(label), bold: true, dim: false },
                },
                PaneLineModel { text: feedback, look: in_tone(Tone::Gray) },
            ];
            if slot.reveals() {
                graded + seq![
                    gap_line(),
                    PaneLineModel {
                        text: "reference: "@ + reference,
                        look: in_tone(Tone::DarkGray),
                    },
                ]
            } else {
                graded
            }
        },
        None => Seq::empty(),
    }
}

/// The lines of what the judge made of a dispute.
pub open spec fn note_lines(note: Option<Seq<char>>) -> Seq<PaneLineModel> {
    match note {
        Some(note) => seq![gap_line(), PaneLineModel { text: note, look: in_tone(Tone::Yellow) }],
        None => Seq::empty(),
    }
}

/// The lines of the question pane: the question, the hints that are shown, the verdict, and
/// under it what came of a dispute.
pub open spec fn question_lines(a: AppModel, q: QuestionModel) -> Seq<PaneLineModel> {
    seq![
        PaneLineModel { text: q.text, look: Look { tone: Tone::Plain, bold: true, dim: false } },
    ] + hint_lines(at_most(q.hints, a.slot().hints_shown as nat)) + verdict_lines(
        a.slot(),
        q.reference,
    ) + note_lines(a.slot().note)
}

/// The title of the question pane.
pub open spec fn question_title(a: AppModel, q: QuestionModel) -> Seq<char> {
    " "@ + decimal((a.current + 1) as nat) + "/"@ + decimal(a.questions.len()) + " · "@ + q.kind
        + " · "@ + q.file + " "@
}

/// What stands in the answer pane.
pub open spec fn answer_text(a: AppModel) -> Seq<char> {
    if a.mode() == Mode::Grading {
        "grading…"@
    } else if a.slot().answer.len() == 0 {
        "press a to write your answer in $EDITOR"@
    } else {
        a.slot().answer
    }
}

/// How the answer pane is shown.
pub open spec fn answer_look(a: AppModel) -> Look {
    if a.mode() == Mode::Grading {
        in_tone(Tone::Yellow)
    } else if a.slot().answer.len() == 0 {
        in_tone(Tone::DarkGray)
    } else {
        in_tone(Tone::Plain)
    }
}

fn gap() -> (r: PaneLine)
    ensures
        r@ == gap_line(),
{
    PaneLine { text: String::new(), look: toned(Tone::Plain) }
}

fn push_line(lines: &mut Vec<PaneLine>, line: PaneLine)
    ensures
        pane_line_models(final(lines)@) == pane_line_models(old(lines)@).push(line@),
{
    let ghost before = pane_line_models(lines@);
    let ghost l = line@;
    lines.push(line);
    assert(pane_line_models(lines@) =~= before.push(l));
}

fn push_hints(lines: &mut Vec<PaneLine>, hints: &[String], shown: usize)
    ensures
        pane_line_models(final(lines)@) == pane_line_models(old(lines)@) + hint_lines(
            at_most(texts(hints@), shown as nat),
        ),
{
    let ghost before = pane_line_models(lines@);
    let ghost all = at_most(texts(hints@), shown as nat);
    let mut i: usize = 0;
    proof {
        assert(all.take(0) =~= Seq::empty());
        assert(before + hint_lines(all.take(0)) =~= before);
    }
    while i < hints.len() && i < shown
        invariant
            i <= hints@.len(),
            i <= shown,
            all == at_most(texts(hints@), shown as nat),
            pane_line_models(lines@) == before + hint_lines(all.take(i as int)),
        decreases hints@.len() - i,
    {
        proof {
            assert(all.take(i + 1).drop_last() =~= all.take(i as int));
            assert(all.take(i + 1).last() == hints@[i as int]@);
        }
        push_line(lines, gap());
        push_line(
            lines,
            PaneLine {
                text: "hint: ".to_owned().concat(hints[i].as_str()),
                look: toned(Tone::Yellow),
            },
        );
        assert(pane_line_models(lines@) =~= before + hint_lines(all.take(i + 1)));
        i += 1;
    }
    proof {
        assert(all.take(i as int) =~= all);
    }
}

/// The question pane and the answer pane, where there is a question.
pub fn render_question(app: &App) -> (r: Option<QuestionPane>)
    ensures
        r is Some <==> app.current < app.questions@.len(),
        r matches Some(pane) ==> {
            let q = app@.questions[app.current as int];
            &&& pane_line_models(pane.lines@) == question_lines(app@, q)
            &&& pane.title@ == question_title(app@, q)
            &&& pane.footer@ == " "@ + joined(marks(app@.slots, app@.questions), " "@) + " "@
            &&& pane.body@ == answer_text(app@)
            &&& pane.body_look == answer_look(app@)
            &&& pane.body_title@ == " your answer "@
        },
{
    let q = match app.question() {
        Some(q) => q,
        None => {
            return None;
        },
    };
    assert(app@.questions[app.current as int] == q@);
    let mut lines: Vec<PaneLine> = Vec::new();
    assert(pane_line_models(lines@) =~= Seq::empty());
    push_line(
        &mut lines,
        PaneLine {
            text: q.text.clone(),
            look: Look { tone: Tone::Plain, bold: true, dim: false },
        },
    );
    push_hints(&mut lines, &q.hints, app.hints_shown());
    let ghost before = pane_line_models(lines@);
    if let Some(v) = app.verdict() {
        push_line(&mut lines, gap());
        push_line(
            &mut lines,
            PaneLine { text: v.0.as_str().to_owned(), look: label_style(v.0) },
        );
        push_line(&mut lines, PaneLine { text: v.1.clone(), look: toned(Tone::Gray) });
        if v.0 == Label::Demonstrates || app.failures() >= 2 {
            push_line(&mut lines, gap());
            push_line(
                &mut lines,
                PaneLine {
                    text: "reference: ".to_owned().concat(q.reference.as_str()),
                    look: toned(Tone::DarkGray),
                },
            );
        }
    }
    if let Some(note) = app.slot_note() {
        push_line(&mut lines, gap());
        push_line(&mut lines, PaneLine { text: note.to_owned(), look: toned(Tone::Yellow) });
    }
    assert(pane_line_models(lines@) =~= question_lines(app@, q@));
    let total: usize = app.questions.len();
    let title = " ".to_owned().concat(show_usize(app.current + 1).as_str()).concat("/").concat(
        show_usize(total).as_str(),
    ).concat(" · ").concat(q.kind.as_str()).concat(" · ").concat(q.file.as_str()).concat(" ");
    let footer = " ".to_owned().concat(app.progress().as_str()).concat(" ");
    let grading = app.mode() == Mode::Grading;
    let empty = app.answer().is_empty();
    let body: String = if grading {
        "grading…".to_owned()
    } else if empty {
        "press a to write your answer in $EDITOR".to_owned()
    } else {
        app.answer().to_owned()
    };
    let body_look = if grading {
        toned(Tone::Yellow)
    } else if empty {
        toned(Tone::DarkGray)
    } else {
        toned(Tone::Plain)
    };
    Some(
        QuestionPane {
            lines,
            title,
            footer,
            body,
            body_look,
            body_title: " your answer ".to_owned(),
        },
    )
}

/// The status line.
pub fn render_status(app: &App) -> (r: String)
    ensures
        r@ == " "@ + app@.status,
{
    " ".to_owned().concat(app.status.as_str())
}

/// Until an answer demonstrates understanding, or a second one fails, the screen is the same
/// whatever the reference answer is: it cannot be read off it.
pub proof fn the_reference_is_hidden_until_understood(a: AppModel, q: QuestionModel, other: Seq<char>)
    requires
        !a.slot().reveals(),
    ensures
        question_lines(a, QuestionModel { reference: other, ..q }) == question_lines(a, q),
        question_title(a, QuestionModel { reference: other, ..q }) == question_title(a, q),
{
}

/// Hints that were not asked for are not shown: the screen is the same whatever they are.
pub proof fn hints_are_hidden_until_asked_for(a: AppModel, q: QuestionModel, other: Seq<Seq<char>>)
    requires
        other.len() == q.hints.len(),
        forall|i: int|
            0 <= i < a.slot().hints_shown && i < q.hints.len() ==> #[trigger] other[i] == q.hints[i],
    ensures
        question_lines(a, QuestionModel { hints: other, ..q }) == question_lines(a, q),
{
    let n = a.slot().hints_shown as nat;
    assert(at_most(other, n) =~= at_most(q.hints, n));
}

} // verus!
